//! The vertex actor: one per vertex, holding its private view of its
//! neighbours and deciding, round by round, whether it joins the set.
//!
//! The actor is a state machine. Each message it receives is handled by a
//! method that changes the state and returns what the actor sends in answer:
//! messages to neighbours and reports to the coordinator. Moving
//! messages is the caller's part.

use vstd::prelude::*;

use crate::desire::{lemma_level_in_range, DesireLevel, CROWDED_WEIGHT, FINEST_EXPONENT};
use crate::graph::{adjacent, contains_id, lists};
use crate::protocol::{
    CentralMessage, Data, Envelope, Message, NodeResult, ProtocolViolation, ReconfigResult,
    ViolationKind,
};

verus! {

/// Where a vertex stands in the current round.
#[derive(Clone, Copy, Debug, PartialEq, Eq, Structural)]
pub enum Phase {
    /// Between rounds: waiting for the coordinator's start.
    Idle,
    /// Requests sent; waiting for every live neighbour's data.
    AwaitingResponses,
    /// All data in; waiting for the coordinator's decision phase.
    AwaitingStartRound2,
    /// Decision sent; waiting for every live neighbour's decision.
    AwaitingAcks,
    /// Resolved: the vertex has left the graph.
    Done,
}

/// The cached view one vertex keeps of one neighbour.
#[derive(Clone, Copy, Debug, PartialEq, Eq, Structural)]
pub struct NeighborContext {
    pub id: usize,
    /// The round the neighbour last replied for.
    pub round: usize,
    /// Whether the neighbour reported being marked.
    pub is_marked: bool,
    /// The neighbour's last reported desire level.
    pub desire_level: DesireLevel,
    /// The neighbour has replied in the current round.
    pub responded: bool,
    /// The neighbour's decision of the current round has come.
    pub acknowledged: bool,
}

impl NeighborContext {
    /// The view of a neighbour that has not reported yet.
    pub open spec fn fresh(id: usize) -> NeighborContext {
        NeighborContext {
            id,
            round: 0,
            is_marked: false,
            desire_level: DesireLevel { exponent: 1 },
            responded: false,
            acknowledged: false,
        }
    }

    /// The view after the neighbour's reply `data`.
    pub open spec fn updated(self, data: Data) -> NeighborContext {
        NeighborContext {
            id: self.id,
            round: data.round,
            is_marked: data.is_get_marked,
            desire_level: data.desire_level,
            responded: true,
            acknowledged: self.acknowledged,
        }
    }

    /// The view once the neighbour's decision has come.
    pub open spec fn acked(self) -> NeighborContext {
        NeighborContext { acknowledged: true, ..self }
    }

    /// The view at the start of a round: nothing heard yet.
    pub open spec fn reset(self) -> NeighborContext {
        NeighborContext { responded: false, acknowledged: false, ..self }
    }

    pub fn new(id: usize) -> (r: NeighborContext)
        ensures
            r == NeighborContext::fresh(id),
    {
        NeighborContext {
            id,
            round: 0,
            is_marked: false,
            desire_level: DesireLevel::initial(),
            responded: false,
            acknowledged: false,
        }
    }

    /// Records the neighbour's reply.
    pub fn update(&mut self, data: Data)
        ensures
            *final(self) == old(self).updated(data),
    {
        self.round = data.round;
        self.desire_level = data.desire_level;
        self.is_marked = data.is_get_marked;
        self.responded = true;
    }
}

/// No two views are of the same neighbour.
pub open spec fn unique_ids(s: Seq<NeighborContext>) -> bool {
    forall|a: int, b: int| 0 <= a < s.len() && 0 <= b < s.len() && a != b ==> s[a].id != s[b].id
}

/// Every cached desire level is well formed.
pub open spec fn levels_wf(s: Seq<NeighborContext>) -> bool {
    forall|k: int| 0 <= k < s.len() ==> (#[trigger] s[k]).desire_level.wf()
}

/// Some view is of neighbour `id`.
pub open spec fn has_id(s: Seq<NeighborContext>, id: usize) -> bool {
    exists|k: int| 0 <= k < s.len() && (#[trigger] s[k]).id == id
}

/// The position of the view of neighbour `id`.
pub open spec fn index_of(s: Seq<NeighborContext>, id: usize) -> int {
    choose|k: int| 0 <= k < s.len() && (#[trigger] s[k]).id == id
}

/// Some neighbour reported being marked.
pub open spec fn any_marked(s: Seq<NeighborContext>) -> bool {
    exists|k: int| 0 <= k < s.len() && (#[trigger] s[k]).is_marked
}

/// Every neighbour has replied in this round.
pub open spec fn all_responded(s: Seq<NeighborContext>) -> bool {
    forall|k: int| 0 <= k < s.len() ==> (#[trigger] s[k]).responded
}

/// Every neighbour's decision of this round has come.
pub open spec fn all_acknowledged(s: Seq<NeighborContext>) -> bool {
    forall|k: int| 0 <= k < s.len() ==> (#[trigger] s[k]).acknowledged
}

/// The sum of the neighbours' desire levels, in units of
/// `1 / 2^FINEST_EXPONENT`.
pub open spec fn total_weight(s: Seq<NeighborContext>) -> nat
    decreases s.len(),
{
    if s.len() == 0 {
        0
    } else {
        total_weight(s.drop_last()) + s.last().desire_level.weight()
    }
}

/// The neighbours' desire levels sum to at least two.
pub open spec fn crowded(s: Seq<NeighborContext>) -> bool {
    total_weight(s) >= CROWDED_WEIGHT
}

/// The views of the neighbours whose ids are not in `ids`, in order.
pub open spec fn without(s: Seq<NeighborContext>, ids: Seq<usize>) -> Seq<NeighborContext>
    decreases s.len(),
{
    if s.len() == 0 {
        s
    } else if ids.contains(s.last().id) {
        without(s.drop_last(), ids)
    } else {
        without(s.drop_last(), ids).push(s.last())
    }
}

/// Every view at the start of a round.
pub open spec fn reset_all(s: Seq<NeighborContext>) -> Seq<NeighborContext> {
    Seq::new(s.len(), |k: int| s[k].reset())
}

/// The same message to every neighbour, in order.
pub open spec fn to_all(s: Seq<NeighborContext>, message: Message) -> Seq<Envelope> {
    Seq::new(s.len(), |k: int| Envelope { to: s[k].id, message })
}

/// A response with `data` to each of `ids`, in order.
pub open spec fn responses(ids: Seq<usize>, data: Data) -> Seq<Envelope> {
    Seq::new(ids.len(), |k: int| Envelope { to: ids[k], message: Message::Response(data) })
}

/// What a vertex sends in answer to one message.
#[derive(Debug)]
pub struct Outbox {
    pub to_neighbors: Vec<Envelope>,
    pub to_coordinator: Vec<CentralMessage>,
}

/// `msg` is the terminal report of vertex `id`.
pub open spec fn is_finish(msg: CentralMessage, id: usize, in_mis: bool) -> bool {
    match msg {
        CentralMessage::Finish(r) => r.id == id && r.is_in_mis == in_mis && r.nodes_to_remove@ == seq![id],
        _ => false,
    }
}

/// One actor per vertex.
pub struct Node {
    pub id: usize,
    /// The views of the live neighbours, one per neighbour.
    pub neighbors: Vec<NeighborContext>,
    pub round: usize,
    pub desire_level: DesireLevel,
    /// Whether the vertex drew "marked" in the current round.
    pub is_get_marked: bool,
    /// Whether the vertex has joined the set; once set it stays.
    pub is_in_mis: bool,
    /// Whether a neighbour joined the set in the current round.
    pub any_neighbor_joined: bool,
    pub phase: Phase,
    /// Neighbours whose request for the coming round came before its start.
    pub pending_requests: Vec<usize>,
}

impl Node {
    /// The state invariant: one view per neighbour, every level well formed.
    pub open spec fn wf(self) -> bool {
        &&& self.desire_level.wf()
        &&& unique_ids(self.neighbors@)
        &&& levels_wf(self.neighbors@)
    }

    /// The data this vertex reports when asked.
    pub open spec fn data(self) -> Data {
        Data {
            sender_id: self.id,
            round: self.round,
            desire_level: self.desire_level,
            is_get_marked: self.is_get_marked,
        }
    }

    /// Whether the vertex's state allows `message`; any other is refused.
    pub open spec fn accepts(self, message: Message) -> bool {
        let s = self.neighbors@;
        match message {
            Message::Request { from, round } => has_id(s, from) && (self.phase == Phase::Idle && round
                >= self.round || self.phase == Phase::AwaitingResponses && round == self.round),
            Message::Response(data) => self.phase == Phase::AwaitingResponses && data.round == self.round
                && data.desire_level.wf() && has_id(s, data.sender_id) && !s[index_of(
                s,
                data.sender_id,
            )].responded,
            Message::JoinedMIS { joined, from } => (self.phase == Phase::AwaitingStartRound2
                || self.phase == Phase::AwaitingAcks) && has_id(s, from) && !s[index_of(s, from)].acknowledged,
            Message::RemoveNeighbors(ids) => true,
            Message::Start(round) => self.phase == Phase::Idle && round >= self.round,
            Message::StartRound2 => self.phase == Phase::AwaitingStartRound2,
        }
    }

    /// Why the vertex refuses `message`, when it does.
    pub open spec fn refusal(self, message: Message) -> ViolationKind {
        let s = self.neighbors@;
        match message {
            Message::Request { from, round } => if !has_id(s, from) {
                ViolationKind::UnknownPeer(from)
            } else if self.phase == Phase::Idle || self.phase == Phase::AwaitingResponses {
                ViolationKind::RoundMismatch { expected: self.round, received: round }
            } else {
                ViolationKind::UnexpectedMessage
            },
            Message::Response(data) => if self.phase != Phase::AwaitingResponses {
                ViolationKind::UnexpectedMessage
            } else if data.round != self.round {
                ViolationKind::RoundMismatch { expected: self.round, received: data.round }
            } else if !data.desire_level.wf() {
                ViolationKind::UnexpectedMessage
            } else if !has_id(s, data.sender_id) {
                ViolationKind::UnknownPeer(data.sender_id)
            } else {
                ViolationKind::DuplicateReport(data.sender_id)
            },
            Message::JoinedMIS { joined, from } => if !(self.phase == Phase::AwaitingStartRound2
                || self.phase == Phase::AwaitingAcks) {
                ViolationKind::UnexpectedMessage
            } else if !has_id(s, from) {
                ViolationKind::UnknownPeer(from)
            } else {
                ViolationKind::DuplicateReport(from)
            },
            Message::Start(round) => if self.phase != Phase::Idle {
                ViolationKind::UnexpectedMessage
            } else {
                ViolationKind::RoundMismatch { expected: self.round, received: round }
            },
            _ => ViolationKind::UnexpectedMessage,
        }
    }

    /// Whether this vertex joins the set at this round's decision: it drew
    /// "marked" and no live neighbour did.
    pub open spec fn joins(self) -> bool {
        self.is_get_marked && !any_marked(self.neighbors@)
    }

    /// How a round ends once every decision is in, for vertex `id` with
    /// membership `in_mis` whose neighbours' decisions were `any_joined`:
    /// the state `post` and the reports `msgs`. A vertex that joined, or one
    /// of whose neighbours joined, resolves; any other stays for the next
    /// round.
    pub open spec fn round_end(post: Node, id: usize, in_mis: bool, any_joined: bool, msgs: Seq<CentralMessage>) -> bool {
        if any_joined || in_mis {
            &&& post.phase == Phase::Done
            &&& post.any_neighbor_joined == any_joined
            &&& msgs.len() == 1
            &&& is_finish(msgs[0], id, in_mis)
        } else {
            &&& post.phase == Phase::Idle
            &&& !post.any_neighbor_joined
            &&& msgs == seq![CentralMessage::Step(id)]
        }
    }

    /// A fresh vertex with no neighbours, at round 0 and desire level `1/2`.
    pub fn new(id: usize) -> (r: Node)
        ensures
            r.wf(),
            r.id == id,
            r.neighbors@ == Seq::<NeighborContext>::empty(),
            r.round == 0,
            r.desire_level.exponent == 1,
            !r.is_get_marked,
            !r.is_in_mis,
            !r.any_neighbor_joined,
            r.phase == Phase::Idle,
            r.pending_requests@ == Seq::<usize>::empty(),
    {
        Node {
            id,
            neighbors: Vec::new(),
            round: 0,
            desire_level: DesireLevel::initial(),
            is_get_marked: false,
            is_in_mis: false,
            any_neighbor_joined: false,
            phase: Phase::Idle,
            pending_requests: Vec::new(),
        }
    }

    /// The position of the view of neighbour `id`, if there is one.
    pub fn find_neighbor(&self, id: usize) -> (r: Option<usize>)
        ensures
            match r {
                Some(k) => k < self.neighbors.len() && self.neighbors@[k as int].id == id,
                None => !has_id(self.neighbors@, id),
            },
    {
        let mut k: usize = 0;
        while k < self.neighbors.len()
            invariant
                k <= self.neighbors.len(),
                forall|j: int| 0 <= j < k ==> (#[trigger] self.neighbors@[j]).id != id,
            decreases self.neighbors.len() - k,
        {
            if self.neighbors[k].id == id {
                return Some(k);
            }
            k = k + 1;
        }
        None
    }

    /// Adds a view of neighbour `id` unless there is one already.
    pub fn register_neighbor(&mut self, id: usize)
        requires
            old(self).wf(),
        ensures
            final(self).wf(),
            final(self).neighbors@ == if has_id(old(self).neighbors@, id) {
                old(self).neighbors@
            } else {
                old(self).neighbors@.push(NeighborContext::fresh(id))
            },
            final(self).id == old(self).id,
            final(self).round == old(self).round,
            final(self).desire_level == old(self).desire_level,
            final(self).is_get_marked == old(self).is_get_marked,
            final(self).is_in_mis == old(self).is_in_mis,
            final(self).any_neighbor_joined == old(self).any_neighbor_joined,
            final(self).phase == old(self).phase,
            final(self).pending_requests@ == old(self).pending_requests@,
    {
        match self.find_neighbor(id) {
            Some(_) => {},
            None => {
                let c = NeighborContext::new(id);
                self.neighbors.push(c);
                proof {
                    lemma_level_in_range(c.desire_level);
                }
            },
        }
    }

    /// The ids of the live neighbours, in order.
    pub fn get_neighbors_id(&self) -> (r: Vec<usize>)
        ensures
            r@ == Seq::new(self.neighbors@.len(), |k: int| self.neighbors@[k].id),
    {
        let mut r: Vec<usize> = Vec::new();
        let mut k: usize = 0;
        while k < self.neighbors.len()
            invariant
                k <= self.neighbors.len(),
                r@ == Seq::new(k as nat, |j: int| self.neighbors@[j].id),
            decreases self.neighbors.len() - k,
        {
            r.push(self.neighbors[k].id);
            k = k + 1;
            assert(r@ =~= Seq::new(k as nat, |j: int| self.neighbors@[j].id));
        }
        r
    }

    /// Each live neighbour's id with whether it reported being marked.
    pub fn debug_mark(&self) -> (r: Vec<(usize, bool)>)
        ensures
            r@ == Seq::new(self.neighbors@.len(), |k: int| (self.neighbors@[k].id, self.neighbors@[k].is_marked)),
    {
        let mut r: Vec<(usize, bool)> = Vec::new();
        let mut k: usize = 0;
        while k < self.neighbors.len()
            invariant
                k <= self.neighbors.len(),
                r@ == Seq::new(k as nat, |j: int| (self.neighbors@[j].id, self.neighbors@[j].is_marked)),
            decreases self.neighbors.len() - k,
        {
            r.push((self.neighbors[k].id, self.neighbors[k].is_marked));
            k = k + 1;
            assert(r@ =~= Seq::new(k as nat, |j: int| (self.neighbors@[j].id, self.neighbors@[j].is_marked)));
        }
        r
    }

    /// Whether some live neighbour reported being marked this round.
    pub fn is_any_neighbor_marked(&self) -> (r: bool)
        ensures
            r == any_marked(self.neighbors@),
    {
        let mut k: usize = 0;
        while k < self.neighbors.len()
            invariant
                k <= self.neighbors.len(),
                forall|j: int| 0 <= j < k ==> !(#[trigger] self.neighbors@[j]).is_marked,
            decreases self.neighbors.len() - k,
        {
            if self.neighbors[k].is_marked {
                return true;
            }
            k = k + 1;
        }
        false
    }

    /// The sum of the live neighbours' desire levels in units of
    /// `1 / 2^FINEST_EXPONENT`: the effective degree.
    pub fn get_effective_degree(&self) -> (r: u128)
        requires
            self.wf(),
        ensures
            r as nat == total_weight(self.neighbors@),
    {
        let ghost s = self.neighbors@;
        let mut sum: u128 = 0;
        let mut k: usize = 0;
        while k < self.neighbors.len()
            invariant
                s == self.neighbors@,
                levels_wf(s),
                k <= s.len(),
                sum as nat == total_weight(s.subrange(0, k as int)),
                sum <= k as u128 * 0x4000_0000_0000_0000u128,
            decreases s.len() - k,
        {
            let w = self.neighbors[k].desire_level.weight_exec();
            proof {
                assert(s.subrange(0, k + 1).drop_last() =~= s.subrange(0, k as int));
                assert(CROWDED_WEIGHT / 2 == 0x4000_0000_0000_0000u64);
                assert((k + 1) as u128 * 0x4000_0000_0000_0000u128 == k as u128 * 0x4000_0000_0000_0000u128
                    + 0x4000_0000_0000_0000u128);
            }
            sum = sum + w as u128;
            k = k + 1;
        }
        proof {
            assert(s.subrange(0, k as int) =~= s);
        }
        sum
    }

    /// Whether the uniform draw `draw / 2^64` marks this vertex: whether it
    /// falls below the vertex's desire level.
    pub fn decide_if_get_mark(&self, draw: u64) -> (r: bool)
        requires
            self.wf(),
        ensures
            r == self.desire_level.marks(draw),
    {
        self.desire_level.is_marked_by(draw)
    }

    /// A request of this round to every live neighbour.
    pub fn request_all_neighbors(&self) -> (r: Vec<Envelope>)
        ensures
            r@ == to_all(self.neighbors@, Message::Request { from: self.id, round: self.round }),
    {
        let mut r: Vec<Envelope> = Vec::new();
        let mut k: usize = 0;
        while k < self.neighbors.len()
            invariant
                k <= self.neighbors.len(),
                r@ == to_all(
                    self.neighbors@.subrange(0, k as int),
                    Message::Request { from: self.id, round: self.round },
                ),
            decreases self.neighbors.len() - k,
        {
            r.push(
                Envelope {
                    to: self.neighbors[k].id,
                    message: Message::Request { from: self.id, round: self.round },
                },
            );
            k = k + 1;
            assert(r@ =~= to_all(
                self.neighbors@.subrange(0, k as int),
                Message::Request { from: self.id, round: self.round },
            ));
        }
        assert(self.neighbors@.subrange(0, k as int) =~= self.neighbors@);
        r
    }

    /// This round's decision to every live neighbour.
    fn announce_decision(&self) -> (r: Vec<Envelope>)
        ensures
            r@ == to_all(self.neighbors@, Message::JoinedMIS { joined: self.is_in_mis, from: self.id }),
    {
        let mut r: Vec<Envelope> = Vec::new();
        let mut k: usize = 0;
        while k < self.neighbors.len()
            invariant
                k <= self.neighbors.len(),
                r@ == to_all(
                    self.neighbors@.subrange(0, k as int),
                    Message::JoinedMIS { joined: self.is_in_mis, from: self.id },
                ),
            decreases self.neighbors.len() - k,
        {
            r.push(
                Envelope {
                    to: self.neighbors[k].id,
                    message: Message::JoinedMIS { joined: self.is_in_mis, from: self.id },
                },
            );
            k = k + 1;
            assert(r@ =~= to_all(
                self.neighbors@.subrange(0, k as int),
                Message::JoinedMIS { joined: self.is_in_mis, from: self.id },
            ));
        }
        assert(self.neighbors@.subrange(0, k as int) =~= self.neighbors@);
        r
    }
}

/// Every view kept by `without` is one of `s`, of an id outside `ids`; the
/// views of ids outside `ids` are all kept; ids stay unique and levels well
/// formed.
pub proof fn lemma_without(s: Seq<NeighborContext>, ids: Seq<usize>)
    ensures
        forall|i: int|
            #![trigger without(s, ids)[i]]
            0 <= i < without(s, ids).len() ==> !ids.contains(without(s, ids)[i].id)
                && exists|j: int| 0 <= j < s.len() && s[j] == without(s, ids)[i],
        forall|j: int|
            0 <= j < s.len() && !ids.contains(#[trigger] s[j].id) ==> without(s, ids).contains(s[j]),
        unique_ids(s) ==> unique_ids(without(s, ids)),
        levels_wf(s) ==> levels_wf(without(s, ids)),
    decreases s.len(),
{
    if s.len() > 0 {
        let p = s.drop_last();
        lemma_without(p, ids);
        let w = without(s, ids);
        let wp = without(p, ids);
        assert(p =~= s.subrange(0, s.len() - 1));
        if ids.contains(s.last().id) {
            assert(w == wp);
        } else {
            assert(w == wp.push(s.last()));
        }
        assert forall|i: int| #![trigger w[i]] 0 <= i < w.len() implies !ids.contains(w[i].id)
            && exists|j: int| 0 <= j < s.len() && s[j] == w[i] by {
            if i < wp.len() {
                assert(w[i] == wp[i]);
                let j = choose|j: int| 0 <= j < p.len() && p[j] == wp[i];
                assert(s[j] == p[j]);
            } else {
                assert(s[s.len() - 1] == w[i]);
            }
        }
        assert forall|j: int| 0 <= j < s.len() && !ids.contains(#[trigger] s[j].id)
            implies w.contains(s[j]) by {
            if j < p.len() {
                assert(p[j] == s[j]);
                let i = choose|i: int| 0 <= i < wp.len() && wp[i] == p[j];
                assert(w[i] == s[j]);
            } else {
                assert(w[w.len() - 1] == s[j]);
            }
        }
        if unique_ids(s) {
            assert(unique_ids(p));
            if !ids.contains(s.last().id) {
                assert forall|a: int, b: int|
                    0 <= a < w.len() && 0 <= b < w.len() && a != b implies w[a].id != w[b].id by {
                    if a < wp.len() && b < wp.len() {
                    } else if a < wp.len() {
                        assert(w[a] == wp[a]);
                        let j = choose|j: int| 0 <= j < p.len() && p[j] == wp[a];
                        assert(s[j] == w[a]);
                    } else {
                        assert(w[b] == wp[b]);
                        let j = choose|j: int| 0 <= j < p.len() && p[j] == wp[b];
                        assert(s[j] == w[b]);
                    }
                }
            }
        }
        if levels_wf(s) {
            assert forall|k: int| 0 <= k < w.len() implies (#[trigger] w[k]).desire_level.wf() by {
                if k < wp.len() {
                    assert(wp[k] == w[k]);
                    let j = choose|j: int| 0 <= j < p.len() && p[j] == wp[k];
                    assert(p[j] == s[j]);
                    assert(p[j].desire_level.wf());
                } else {
                    assert(w[k] == s[s.len() - 1]);
                }
            }
        }
    }
}

/// The views of `s` whose ids are not in `ids`.
fn remove_ids(s: &Vec<NeighborContext>, ids: &Vec<usize>) -> (r: Vec<NeighborContext>)
    ensures
        r@ == without(s@, ids@),
{
    let mut r: Vec<NeighborContext> = Vec::new();
    let mut k: usize = 0;
    while k < s.len()
        invariant
            k <= s.len(),
            r@ == without(s@.subrange(0, k as int), ids@),
        decreases s.len() - k,
    {
        let c = s[k];
        proof {
            assert(s@.subrange(0, k + 1).drop_last() =~= s@.subrange(0, k as int));
        }
        if !contains_id(ids, c.id) {
            r.push(c);
        }
        k = k + 1;
    }
    assert(s@.subrange(0, k as int) =~= s@);
    r
}

/// Whether every view has `responded` set.
fn check_all_responded(s: &Vec<NeighborContext>) -> (r: bool)
    ensures
        r == all_responded(s@),
{
    let mut k: usize = 0;
    while k < s.len()
        invariant
            k <= s.len(),
            forall|j: int| 0 <= j < k ==> (#[trigger] s@[j]).responded,
        decreases s.len() - k,
    {
        if !s[k].responded {
            return false;
        }
        k = k + 1;
    }
    true
}

/// Whether every view has `acknowledged` set.
fn check_all_acknowledged(s: &Vec<NeighborContext>) -> (r: bool)
    ensures
        r == all_acknowledged(s@),
{
    let mut k: usize = 0;
    while k < s.len()
        invariant
            k <= s.len(),
            forall|j: int| 0 <= j < k ==> (#[trigger] s@[j]).acknowledged,
        decreases s.len() - k,
    {
        if !s[k].acknowledged {
            return false;
        }
        k = k + 1;
    }
    true
}


/// A refusal by vertex `node`, of the given kind.
pub open spec fn refused(r: Result<Outbox, ProtocolViolation>, node: Node, kind: ViolationKind) -> bool {
    r is Err && r->Err_0.receiver == node.id && r->Err_0.round == node.round && r->Err_0.kind == kind
}

impl Node {
    /// `Start(round)` with draw `draw`: the round is set, the mark drawn,
    /// every view cleared for the round, a request sent to every live
    /// neighbour and the early requests answered. With no live neighbour
    /// the vertex has heard from all of them at once, and says so.
    pub open spec fn started(pre: Node, round: usize, draw: u64, post: Node, out: Outbox) -> bool {
        let s = pre.neighbors@;
        &&& post.id == pre.id
        &&& post.round == round
        &&& post.is_get_marked == pre.desire_level.marks(draw)
        &&& post.desire_level == pre.desire_level
        &&& post.is_in_mis == pre.is_in_mis
        &&& !post.any_neighbor_joined
        &&& post.neighbors@ == reset_all(s)
        &&& post.pending_requests@ == Seq::<usize>::empty()
        &&& post.phase == if s.len() == 0 {
            Phase::AwaitingStartRound2
        } else {
            Phase::AwaitingResponses
        }
        &&& out.to_neighbors@ == to_all(s, Message::Request { from: pre.id, round }) + responses(
            pre.pending_requests@,
            post.data(),
        )
        &&& out.to_coordinator@ == if s.len() == 0 {
            seq![CentralMessage::Round1Complete(pre.id)]
        } else {
            Seq::<CentralMessage>::empty()
        }
    }

    /// `Request` of `round` from `from`: between rounds it is kept for the
    /// round's start; while waiting for responses it is answered at once
    /// with the vertex's data.
    pub open spec fn requested(pre: Node, from: usize, round: usize, post: Node, out: Outbox) -> bool {
        &&& post.id == pre.id
        &&& post.neighbors@ == pre.neighbors@
        &&& post.round == pre.round
        &&& post.desire_level == pre.desire_level
        &&& post.is_get_marked == pre.is_get_marked
        &&& post.is_in_mis == pre.is_in_mis
        &&& post.any_neighbor_joined == pre.any_neighbor_joined
        &&& post.phase == pre.phase
        &&& out.to_coordinator@ == Seq::<CentralMessage>::empty()
        &&& if pre.phase == Phase::Idle {
            &&& post.pending_requests@ == pre.pending_requests@.push(from)
            &&& out.to_neighbors@ == Seq::<Envelope>::empty()
        } else {
            &&& post.pending_requests@ == pre.pending_requests@
            &&& out.to_neighbors@ == responses(seq![from], pre.data())
        }
    }

    /// `Response(data)`: the sender's view takes the data; once every live
    /// neighbour has replied, the vertex tells the coordinator.
    pub open spec fn responded(pre: Node, data: Data, post: Node, out: Outbox) -> bool {
        let s = pre.neighbors@;
        let k = index_of(s, data.sender_id);
        &&& post.id == pre.id
        &&& post.neighbors@ == s.update(k, s[k].updated(data))
        &&& post.round == pre.round
        &&& post.desire_level == pre.desire_level
        &&& post.is_get_marked == pre.is_get_marked
        &&& post.is_in_mis == pre.is_in_mis
        &&& post.any_neighbor_joined == pre.any_neighbor_joined
        &&& post.pending_requests@ == pre.pending_requests@
        &&& out.to_neighbors@ == Seq::<Envelope>::empty()
        &&& if all_responded(post.neighbors@) {
            &&& post.phase == Phase::AwaitingStartRound2
            &&& out.to_coordinator@ == seq![CentralMessage::Round1Complete(pre.id)]
        } else {
            &&& post.phase == Phase::AwaitingResponses
            &&& out.to_coordinator@ == Seq::<CentralMessage>::empty()
        }
    }

    /// `StartRound2`: the decision rule. The vertex joins if it drew
    /// "marked" and no live neighbour did; if not, its level is halved when
    /// the neighbours' levels sum to at least two and doubled (capped at
    /// `1/2`) otherwise. It sends its decision to every live neighbour, and
    /// ends the round if every neighbour's decision is in already.
    pub open spec fn decided(pre: Node, post: Node, out: Outbox) -> bool {
        let s = pre.neighbors@;
        let joins = pre.joins();
        &&& post.id == pre.id
        &&& post.neighbors@ == s
        &&& post.round == pre.round
        &&& post.is_get_marked == pre.is_get_marked
        &&& post.is_in_mis == (pre.is_in_mis || joins)
        &&& post.desire_level == if joins {
            pre.desire_level
        } else {
            pre.desire_level.adapted_spec(crowded(s))
        }
        &&& post.pending_requests@ == pre.pending_requests@
        &&& out.to_neighbors@ == to_all(s, Message::JoinedMIS { joined: post.is_in_mis, from: pre.id })
        &&& if all_acknowledged(s) {
            Node::round_end(post, pre.id, post.is_in_mis, pre.any_neighbor_joined, out.to_coordinator@)
        } else {
            &&& post.phase == Phase::AwaitingAcks
            &&& post.any_neighbor_joined == pre.any_neighbor_joined
            &&& out.to_coordinator@ == Seq::<CentralMessage>::empty()
        }
    }

    /// `JoinedMIS` from `from`: the decision is recorded, and the round
    /// ends once the vertex has decided and every decision is in.
    pub open spec fn acknowledged(pre: Node, joined: bool, from: usize, post: Node, out: Outbox) -> bool {
        let s = pre.neighbors@;
        let k = index_of(s, from);
        let s2 = s.update(k, s[k].acked());
        let any = pre.any_neighbor_joined || joined;
        &&& post.id == pre.id
        &&& post.neighbors@ == s2
        &&& post.round == pre.round
        &&& post.desire_level == pre.desire_level
        &&& post.is_get_marked == pre.is_get_marked
        &&& post.is_in_mis == pre.is_in_mis
        &&& post.pending_requests@ == pre.pending_requests@
        &&& out.to_neighbors@ == Seq::<Envelope>::empty()
        &&& if pre.phase == Phase::AwaitingAcks && all_acknowledged(s2) {
            Node::round_end(post, pre.id, pre.is_in_mis, any, out.to_coordinator@)
        } else {
            &&& post.phase == pre.phase
            &&& post.any_neighbor_joined == any
            &&& out.to_coordinator@ == Seq::<CentralMessage>::empty()
        }
    }

    /// What is left to do once `left` are the live neighbours, in phase
    /// `phase`: the first phase completes once every one has replied, the
    /// round once every decision is in. `reports` follow `first`.
    pub open spec fn rechecked(pre: Node, left: Seq<NeighborContext>, post: Node, first: Seq<CentralMessage>, reports: Seq<CentralMessage>) -> bool {
        &&& post.is_in_mis == pre.is_in_mis
        &&& reports.subrange(0, first.len() as int) == first
        &&& first.len() <= reports.len()
        &&& if pre.phase == Phase::AwaitingResponses && all_responded(left) {
            &&& post.phase == Phase::AwaitingStartRound2
            &&& post.any_neighbor_joined == pre.any_neighbor_joined
            &&& reports == first.push(CentralMessage::Round1Complete(pre.id))
        } else if pre.phase == Phase::AwaitingAcks && all_acknowledged(left) {
            Node::round_end(
                post,
                pre.id,
                pre.is_in_mis,
                pre.any_neighbor_joined,
                reports.subrange(first.len() as int, reports.len() as int),
            )
        } else {
            &&& post.phase == pre.phase
            &&& post.any_neighbor_joined == pre.any_neighbor_joined
            &&& reports == first
        }
    }

    /// `RemoveNeighbors(ids)`, in any phase. A vertex that is itself pruned
    /// drops all its views and stops without a report; a vertex that has
    /// stopped only drops the listed views. Any other drops the views of
    /// the pruned vertices and acknowledges: left without neighbours it
    /// joins the set, reports its terminal record and stops; else it checks
    /// its phase again against the smaller neighbourhood.
    pub open spec fn pruned_by(pre: Node, ids: Seq<usize>, post: Node, out: Outbox) -> bool {
        let s = pre.neighbors@;
        let left = without(s, ids);
        let ack = CentralMessage::ReconfigComplete(
            ReconfigResult { id: pre.id, is_leaving: left.len() == 0 },
        );
        let reports = out.to_coordinator@;
        &&& post.id == pre.id
        &&& post.round == pre.round
        &&& post.desire_level == pre.desire_level
        &&& post.is_get_marked == pre.is_get_marked
        &&& post.pending_requests@ == pre.pending_requests@
        &&& out.to_neighbors@ == Seq::<Envelope>::empty()
        &&& if ids.contains(pre.id) || pre.phase == Phase::Done {
            &&& post.neighbors@ == if ids.contains(pre.id) {
                Seq::<NeighborContext>::empty()
            } else {
                left
            }
            &&& post.is_in_mis == pre.is_in_mis
            &&& post.any_neighbor_joined == pre.any_neighbor_joined
            &&& post.phase == Phase::Done
            &&& reports == Seq::<CentralMessage>::empty()
        } else if left.len() == 0 {
            &&& post.neighbors@ == left
            &&& post.is_in_mis
            &&& post.any_neighbor_joined == pre.any_neighbor_joined
            &&& post.phase == Phase::Done
            &&& reports.len() == 2
            &&& reports[0] == ack
            &&& is_finish(reports[1], pre.id, true)
        } else {
            &&& post.neighbors@ == left
            &&& Node::rechecked(pre, left, post, seq![ack], reports)
        }
    }

    /// A send to `peer` failed: its view is dropped and the phase checked
    /// again against the smaller neighbourhood.
    pub open spec fn departed(pre: Node, peer: usize, post: Node, out: Outbox) -> bool {
        let left = without(pre.neighbors@, seq![peer]);
        &&& post.id == pre.id
        &&& post.neighbors@ == left
        &&& post.round == pre.round
        &&& post.desire_level == pre.desire_level
        &&& post.is_get_marked == pre.is_get_marked
        &&& post.pending_requests@ == pre.pending_requests@
        &&& out.to_neighbors@ == Seq::<Envelope>::empty()
        &&& Node::rechecked(pre, left, post, Seq::<CentralMessage>::empty(), out.to_coordinator@)
    }

    /// The effect of handling `message`, with draw `draw` for a `Start`.
    pub open spec fn handled(pre: Node, message: Message, draw: u64, post: Node, out: Outbox) -> bool {
        match message {
            Message::Request { from, round } => Node::requested(pre, from, round, post, out),
            Message::Response(data) => Node::responded(pre, data, post, out),
            Message::JoinedMIS { joined, from } => Node::acknowledged(pre, joined, from, post, out),
            Message::RemoveNeighbors(ids) => Node::pruned_by(pre, ids@, post, out),
            Message::Start(round) => Node::started(pre, round, draw, post, out),
            Message::StartRound2 => Node::decided(pre, post, out),
        }
    }

    fn violation(&self, kind: ViolationKind) -> (r: ProtocolViolation)
        ensures
            r.receiver == self.id,
            r.round == self.round,
            r.kind == kind,
    {
        ProtocolViolation { receiver: self.id, round: self.round, kind }
    }

    /// Marks every view as not yet heard from in this round.
    fn reset_neighbors(&mut self)
        requires
            old(self).wf(),
        ensures
            final(self).wf(),
            final(self).neighbors@ == reset_all(old(self).neighbors@),
            final(self).id == old(self).id,
            final(self).round == old(self).round,
            final(self).desire_level == old(self).desire_level,
            final(self).is_get_marked == old(self).is_get_marked,
            final(self).is_in_mis == old(self).is_in_mis,
            final(self).any_neighbor_joined == old(self).any_neighbor_joined,
            final(self).phase == old(self).phase,
            final(self).pending_requests@ == old(self).pending_requests@,
    {
        let ghost s = self.neighbors@;
        let mut k: usize = 0;
        while k < self.neighbors.len()
            invariant
                self.wf(),
                self.neighbors.len() == s.len(),
                self.id == old(self).id,
                self.round == old(self).round,
                self.desire_level == old(self).desire_level,
                self.is_get_marked == old(self).is_get_marked,
                self.is_in_mis == old(self).is_in_mis,
                self.any_neighbor_joined == old(self).any_neighbor_joined,
                self.phase == old(self).phase,
                self.pending_requests@ == old(self).pending_requests@,
                s == old(self).neighbors@,
                k <= s.len(),
                forall|j: int| 0 <= j < k ==> self.neighbors@[j] == (#[trigger] s[j]).reset(),
                forall|j: int| k <= j < s.len() ==> self.neighbors@[j] == s[j],
            decreases s.len() - k,
        {
            let mut c = self.neighbors[k];
            c.responded = false;
            c.acknowledged = false;
            self.neighbors.set(k, c);
            k = k + 1;
        }
        assert(self.neighbors@ =~= reset_all(s));
    }

    /// Ends the round once every decision is in: see `round_end`.
    fn end_round(&mut self) -> (msg: CentralMessage)
        requires
            old(self).wf(),
        ensures
            final(self).wf(),
            Node::round_end(*final(self), old(self).id, old(self).is_in_mis, old(self).any_neighbor_joined, seq![msg]),
            final(self).id == old(self).id,
            final(self).neighbors@ == old(self).neighbors@,
            final(self).round == old(self).round,
            final(self).desire_level == old(self).desire_level,
            final(self).is_get_marked == old(self).is_get_marked,
            final(self).is_in_mis == old(self).is_in_mis,
            final(self).pending_requests@ == old(self).pending_requests@,
    {
        if self.any_neighbor_joined || self.is_in_mis {
            self.phase = Phase::Done;
            CentralMessage::Finish(self.terminal_record(self.is_in_mis))
        } else {
            self.phase = Phase::Idle;
            self.any_neighbor_joined = false;
            CentralMessage::Step(self.id)
        }
    }

    /// The vertex's terminal record.
    fn terminal_record(&self, is_in_mis: bool) -> (r: NodeResult)
        ensures
            is_finish(CentralMessage::Finish(r), self.id, is_in_mis),
    {
        let nodes_to_remove = vec![self.id];
        assert(nodes_to_remove@ =~= seq![self.id]);
        NodeResult { id: self.id, is_in_mis, nodes_to_remove }
    }

    /// Checks the phase again once `self.neighbors` has shrunk, appending
    /// to `reports`: see `rechecked`.
    fn recheck(&mut self, reports: &mut Vec<CentralMessage>)
        requires
            old(self).wf(),
        ensures
            final(self).wf(),
            Node::rechecked(*old(self), old(self).neighbors@, *final(self), old(reports)@, final(reports)@),
            final(self).id == old(self).id,
            final(self).neighbors@ == old(self).neighbors@,
            final(self).round == old(self).round,
            final(self).desire_level == old(self).desire_level,
            final(self).is_get_marked == old(self).is_get_marked,
            final(self).pending_requests@ == old(self).pending_requests@,
    {
        let ghost first = reports@;
        if self.phase == Phase::AwaitingResponses && check_all_responded(&self.neighbors) {
            self.phase = Phase::AwaitingStartRound2;
            reports.push(CentralMessage::Round1Complete(self.id));
            assert(reports@.subrange(0, first.len() as int) =~= first);
        } else if self.phase == Phase::AwaitingAcks && check_all_acknowledged(&self.neighbors) {
            let m = self.end_round();
            reports.push(m);
            assert(reports@.subrange(0, first.len() as int) =~= first);
            assert(reports@.subrange(first.len() as int, reports@.len() as int) =~= seq![m]);
        } else {
            assert(reports@.subrange(0, first.len() as int) =~= first);
        }
    }

    /// `Start(round)` with the uniform draw `draw / 2^64`; valid between
    /// rounds, for a round not before the current one: see `started`.
    pub fn on_start(&mut self, round: usize, draw: u64) -> (r: Result<Outbox, ProtocolViolation>)
        requires
            old(self).wf(),
        ensures
            final(self).wf(),
            old(self).accepts(Message::Start(round)) == r is Ok,
            r is Err ==> refused(r, *old(self), old(self).refusal(Message::Start(round))) && *final(self)
                == *old(self),
            r is Ok ==> Node::started(*old(self), round, draw, *final(self), r->Ok_0),
    {
        if self.phase != Phase::Idle {
            return Err(self.violation(ViolationKind::UnexpectedMessage));
        }
        if round < self.round {
            return Err(
                self.violation(ViolationKind::RoundMismatch { expected: self.round, received: round }),
            );
        }
        self.round = round;
        self.is_get_marked = self.decide_if_get_mark(draw);
        self.any_neighbor_joined = false;
        self.reset_neighbors();
        let mut to_neighbors = self.request_all_neighbors();
        let ghost requests = to_neighbors@;
        let data = Data {
            sender_id: self.id,
            round: self.round,
            desire_level: self.desire_level,
            is_get_marked: self.is_get_marked,
        };
        let mut k: usize = 0;
        while k < self.pending_requests.len()
            invariant
                k <= self.pending_requests.len(),
                to_neighbors@ == requests + responses(self.pending_requests@.subrange(0, k as int), data),
            decreases self.pending_requests.len() - k,
        {
            to_neighbors.push(Envelope { to: self.pending_requests[k], message: Message::Response(data) });
            k = k + 1;
            assert(to_neighbors@ =~= requests + responses(
                self.pending_requests@.subrange(0, k as int),
                data,
            ));
        }
        assert(self.pending_requests@.subrange(0, k as int) =~= self.pending_requests@);
        assert(to_all(self.neighbors@, Message::Request { from: self.id, round })
            =~= to_all(old(self).neighbors@, Message::Request { from: self.id, round }));
        self.pending_requests = Vec::new();
        let mut to_coordinator: Vec<CentralMessage> = Vec::new();
        if self.neighbors.len() == 0 {
            self.phase = Phase::AwaitingStartRound2;
            to_coordinator.push(CentralMessage::Round1Complete(self.id));
            assert(to_coordinator@ =~= seq![CentralMessage::Round1Complete(self.id)]);
        } else {
            self.phase = Phase::AwaitingResponses;
            assert(to_coordinator@ =~= Seq::<CentralMessage>::empty());
        }
        assert(self.pending_requests@ =~= Seq::<usize>::empty());
        Ok(Outbox { to_neighbors, to_coordinator })
    }

    /// `Request` of `round` from neighbour `from`: see `requested`.
    pub fn on_request(&mut self, from: usize, round: usize) -> (r: Result<Outbox, ProtocolViolation>)
        requires
            old(self).wf(),
        ensures
            final(self).wf(),
            old(self).accepts(Message::Request { from, round }) == r is Ok,
            r is Err ==> refused(r, *old(self), old(self).refusal(Message::Request { from, round }))
                && *final(self) == *old(self),
            r is Ok ==> Node::requested(*old(self), from, round, *final(self), r->Ok_0),
    {
        if self.find_neighbor(from).is_none() {
            return Err(self.violation(ViolationKind::UnknownPeer(from)));
        }
        let to_coordinator: Vec<CentralMessage> = Vec::new();
        assert(to_coordinator@ =~= Seq::<CentralMessage>::empty());
        match self.phase {
            Phase::Idle => {
                if round < self.round {
                    return Err(
                        self.violation(ViolationKind::RoundMismatch { expected: self.round, received: round }),
                    );
                }
                self.pending_requests.push(from);
                let out = Outbox { to_neighbors: Vec::new(), to_coordinator };
                assert(out.to_neighbors@ =~= Seq::<Envelope>::empty());
                Ok(out)
            },
            Phase::AwaitingResponses => {
                if round != self.round {
                    return Err(
                        self.violation(ViolationKind::RoundMismatch { expected: self.round, received: round }),
                    );
                }
                let data = Data {
                    sender_id: self.id,
                    round: self.round,
                    desire_level: self.desire_level,
                    is_get_marked: self.is_get_marked,
                };
                let out = Outbox {
                    to_neighbors: vec![Envelope { to: from, message: Message::Response(data) }],
                    to_coordinator,
                };
                assert(out.to_neighbors@ =~= responses(seq![from], self.data()));
                Ok(out)
            },
            _ => Err(self.violation(ViolationKind::UnexpectedMessage)),
        }
    }

    /// `Response(data)` from a live neighbour that has not replied in this
    /// round, while waiting for responses, for the current round, with a
    /// well-formed level: see `responded`.
    pub fn on_response(&mut self, data: Data) -> (r: Result<Outbox, ProtocolViolation>)
        requires
            old(self).wf(),
        ensures
            final(self).wf(),
            old(self).accepts(Message::Response(data)) == r is Ok,
            r is Err ==> refused(r, *old(self), old(self).refusal(Message::Response(data))) && *final(self)
                == *old(self),
            r is Ok ==> Node::responded(*old(self), data, *final(self), r->Ok_0),
    {
        if self.phase != Phase::AwaitingResponses {
            return Err(self.violation(ViolationKind::UnexpectedMessage));
        }
        if data.round != self.round {
            return Err(
                self.violation(ViolationKind::RoundMismatch { expected: self.round, received: data.round }),
            );
        }
        if data.desire_level.exponent < 1 || data.desire_level.exponent > FINEST_EXPONENT {
            return Err(self.violation(ViolationKind::UnexpectedMessage));
        }
        let k = match self.find_neighbor(data.sender_id) {
            Some(k) => k,
            None => {
                return Err(self.violation(ViolationKind::UnknownPeer(data.sender_id)));
            },
        };
        proof {
            assert(index_of(self.neighbors@, data.sender_id) == k as int);
        }
        if self.neighbors[k].responded {
            return Err(self.violation(ViolationKind::DuplicateReport(data.sender_id)));
        }
        let mut c = self.neighbors[k];
        c.update(data);
        self.neighbors.set(k, c);
        let out_neighbors: Vec<Envelope> = Vec::new();
        assert(out_neighbors@ =~= Seq::<Envelope>::empty());
        let mut to_coordinator: Vec<CentralMessage> = Vec::new();
        if check_all_responded(&self.neighbors) {
            self.phase = Phase::AwaitingStartRound2;
            to_coordinator.push(CentralMessage::Round1Complete(self.id));
            assert(to_coordinator@ =~= seq![CentralMessage::Round1Complete(self.id)]);
        } else {
            assert(to_coordinator@ =~= Seq::<CentralMessage>::empty());
        }
        Ok(Outbox { to_neighbors: out_neighbors, to_coordinator })
    }

    /// `StartRound2`, valid once every response is in: see `decided`.
    pub fn on_start_round2(&mut self) -> (r: Result<Outbox, ProtocolViolation>)
        requires
            old(self).wf(),
        ensures
            final(self).wf(),
            old(self).accepts(Message::StartRound2) == r is Ok,
            r is Err ==> refused(r, *old(self), old(self).refusal(Message::StartRound2)) && *final(self)
                == *old(self),
            r is Ok ==> Node::decided(*old(self), *final(self), r->Ok_0),
    {
        if self.phase != Phase::AwaitingStartRound2 {
            return Err(self.violation(ViolationKind::UnexpectedMessage));
        }
        if self.is_get_marked && !self.is_any_neighbor_marked() {
            self.is_in_mis = true;
        } else {
            let effective_degree = self.get_effective_degree();
            self.desire_level = self.desire_level.adapted(effective_degree >= CROWDED_WEIGHT as u128);
        }
        let to_neighbors = self.announce_decision();
        self.phase = Phase::AwaitingAcks;
        let mut to_coordinator: Vec<CentralMessage> = Vec::new();
        if check_all_acknowledged(&self.neighbors) {
            let m = self.end_round();
            to_coordinator.push(m);
            assert(to_coordinator@ =~= seq![m]);
        } else {
            assert(to_coordinator@ =~= Seq::<CentralMessage>::empty());
        }
        Ok(Outbox { to_neighbors, to_coordinator })
    }

    /// `JoinedMIS` from a live neighbour whose decision of this round has
    /// not come yet; valid once this vertex has all responses, even before
    /// its own decision: see `acknowledged`.
    pub fn on_joined(&mut self, joined: bool, from: usize) -> (r: Result<Outbox, ProtocolViolation>)
        requires
            old(self).wf(),
        ensures
            final(self).wf(),
            old(self).accepts(Message::JoinedMIS { joined, from }) == r is Ok,
            r is Err ==> refused(r, *old(self), old(self).refusal(Message::JoinedMIS { joined, from }))
                && *final(self) == *old(self),
            r is Ok ==> Node::acknowledged(*old(self), joined, from, *final(self), r->Ok_0),
    {
        if self.phase != Phase::AwaitingStartRound2 && self.phase != Phase::AwaitingAcks {
            return Err(self.violation(ViolationKind::UnexpectedMessage));
        }
        let k = match self.find_neighbor(from) {
            Some(k) => k,
            None => {
                return Err(self.violation(ViolationKind::UnknownPeer(from)));
            },
        };
        proof {
            assert(index_of(self.neighbors@, from) == k as int);
        }
        if self.neighbors[k].acknowledged {
            return Err(self.violation(ViolationKind::DuplicateReport(from)));
        }
        let mut c = self.neighbors[k];
        c.acknowledged = true;
        self.neighbors.set(k, c);
        self.any_neighbor_joined = self.any_neighbor_joined || joined;
        let to_neighbors: Vec<Envelope> = Vec::new();
        assert(to_neighbors@ =~= Seq::<Envelope>::empty());
        let mut to_coordinator: Vec<CentralMessage> = Vec::new();
        if self.phase == Phase::AwaitingAcks && check_all_acknowledged(&self.neighbors) {
            let m = self.end_round();
            to_coordinator.push(m);
            assert(to_coordinator@ =~= seq![m]);
        } else {
            assert(to_coordinator@ =~= Seq::<CentralMessage>::empty());
        }
        Ok(Outbox { to_neighbors, to_coordinator })
    }

    /// `RemoveNeighbors(ids)`, accepted in every phase: see `pruned_by`.
    pub fn on_remove_neighbors(&mut self, ids: &Vec<usize>) -> (r: Result<Outbox, ProtocolViolation>)
        requires
            old(self).wf(),
        ensures
            final(self).wf(),
            r is Ok,
            r is Ok ==> Node::pruned_by(*old(self), ids@, *final(self), r->Ok_0),
    {
        let to_neighbors: Vec<Envelope> = Vec::new();
        assert(to_neighbors@ =~= Seq::<Envelope>::empty());
        let mut to_coordinator: Vec<CentralMessage> = Vec::new();
        if contains_id(ids, self.id) {
            self.clean_neighbors();
            self.phase = Phase::Done;
            assert(to_coordinator@ =~= Seq::<CentralMessage>::empty());
            return Ok(Outbox { to_neighbors, to_coordinator });
        }
        let left = remove_ids(&self.neighbors, ids);
        proof {
            lemma_without(self.neighbors@, ids@);
        }
        self.neighbors = left;
        if self.phase == Phase::Done {
            assert(to_coordinator@ =~= Seq::<CentralMessage>::empty());
            return Ok(Outbox { to_neighbors, to_coordinator });
        }
        let is_leaving = self.neighbors.len() == 0;
        to_coordinator.push(CentralMessage::ReconfigComplete(ReconfigResult { id: self.id, is_leaving }));
        assert(to_coordinator@ =~= seq![CentralMessage::ReconfigComplete(ReconfigResult { id: self.id, is_leaving })]);
        if is_leaving {
            self.is_in_mis = true;
            self.phase = Phase::Done;
            let record = self.terminal_record(true);
            to_coordinator.push(CentralMessage::Finish(record));
        } else {
            self.recheck(&mut to_coordinator);
        }
        Ok(Outbox { to_neighbors, to_coordinator })
    }

    /// Drops every view.
    fn clean_neighbors(&mut self)
        ensures
            final(self).neighbors@ == Seq::<NeighborContext>::empty(),
            final(self).id == old(self).id,
            final(self).round == old(self).round,
            final(self).desire_level == old(self).desire_level,
            final(self).is_get_marked == old(self).is_get_marked,
            final(self).is_in_mis == old(self).is_in_mis,
            final(self).any_neighbor_joined == old(self).any_neighbor_joined,
            final(self).phase == old(self).phase,
            final(self).pending_requests@ == old(self).pending_requests@,
    {
        self.neighbors = Vec::new();
    }

    /// A send to neighbour `peer` failed: the neighbour has left. See
    /// `departed`; a peer that is no live neighbour changes nothing.
    pub fn neighbor_departed(&mut self, peer: usize) -> (r: Outbox)
        requires
            old(self).wf(),
        ensures
            final(self).wf(),
            Node::departed(*old(self), peer, *final(self), r),
    {
        let gone = vec![peer];
        assert(gone@ =~= seq![peer]);
        let left = remove_ids(&self.neighbors, &gone);
        proof {
            lemma_without(self.neighbors@, gone@);
        }
        self.neighbors = left;
        let to_neighbors: Vec<Envelope> = Vec::new();
        assert(to_neighbors@ =~= Seq::<Envelope>::empty());
        let mut to_coordinator: Vec<CentralMessage> = Vec::new();
        self.recheck(&mut to_coordinator);
        Outbox { to_neighbors, to_coordinator }
    }

    /// Handles one message, with the uniform draw `draw / 2^64` for a
    /// `Start`: see `handled`. A message that the vertex's state does not
    /// allow is refused, with the reason, and changes nothing.
    pub fn handle_with_draw(&mut self, message: Message, draw: u64) -> (r: Result<Outbox, ProtocolViolation>)
        requires
            old(self).wf(),
        ensures
            final(self).wf(),
            old(self).accepts(message) == r is Ok,
            r is Err ==> refused(r, *old(self), old(self).refusal(message)) && *final(self) == *old(self),
            r is Ok ==> Node::handled(*old(self), message, draw, *final(self), r->Ok_0),
    {
        match message {
            Message::Request { from, round } => self.on_request(from, round),
            Message::Response(data) => self.on_response(data),
            Message::JoinedMIS { joined, from } => self.on_joined(joined, from),
            Message::RemoveNeighbors(ids) => self.on_remove_neighbors(&ids),
            Message::Start(round) => self.on_start(round, draw),
            Message::StartRound2 => self.on_start_round2(),
        }
    }

    /// Handles one message, drawing the vertex's mark at random for a
    /// `Start`: see `handle_with_draw`, which holds whatever the draw.
    pub fn handle(&mut self, message: Message) -> (r: Result<Outbox, ProtocolViolation>)
        requires
            old(self).wf(),
        ensures
            final(self).wf(),
            old(self).accepts(message) == r is Ok,
            r is Err ==> refused(r, *old(self), old(self).refusal(message)) && *final(self) == *old(self),
            r is Ok ==> exists|draw: u64| #[trigger] Node::handled(*old(self), message, draw, *final(self), r->Ok_0),
    {
        let ghost pre = *self;
        let ghost m = message;
        let draw: u64 = match message {
            Message::Start(_) => rand::random::<u64>(),
            _ => 0,
        };
        let r = self.handle_with_draw(message, draw);
        assert(r is Ok ==> Node::handled(pre, m, draw, *self, r->Ok_0));
        r
    }
}

/// A view of `id` added to `s`: the ids viewed are those of `s` and `id`.
proof fn lemma_has_id_after_register(s: Seq<NeighborContext>, id: usize, t: Seq<NeighborContext>, b: usize)
    requires
        t == if has_id(s, id) {
            s
        } else {
            s.push(NeighborContext::fresh(id))
        },
    ensures
        has_id(t, b) == (has_id(s, b) || b == id),
{
    if has_id(s, b) {
        let k = choose|k: int| 0 <= k < s.len() && (#[trigger] s[k]).id == b;
        assert(t[k] == s[k]);
    }
    if b == id && !has_id(s, id) {
        assert(t[s.len() as int].id == id);
    }
    if has_id(t, b) && !has_id(s, id) {
        let k = choose|k: int| 0 <= k < t.len() && (#[trigger] t[k]).id == b;
        if k < s.len() {
            assert(s[k] == t[k]);
        }
    }
}

/// One actor per vertex of `graph`, each with a view of every vertex
/// adjacent to it: whether its own list or the other's names the edge.
pub fn build_nodes(graph: &Vec<Vec<usize>>) -> (r: Vec<Node>)
    ensures
        r.len() == graph.len(),
        forall|a: int|
            0 <= a < r.len() ==> {
                let n = #[trigger] r@[a];
                &&& n.wf()
                &&& n.id == a
                &&& n.round == 0
                &&& n.desire_level.exponent == 1
                &&& !n.is_in_mis
                &&& n.phase == Phase::Idle
                &&& n.pending_requests@ == Seq::<usize>::empty()
                &&& forall|b: usize| has_id(n.neighbors@, b) == adjacent(graph.deep_view(), a as usize, b)
            },
{
    let ghost g = graph.deep_view();
    let n = graph.len();
    let mut nodes: Vec<Node> = Vec::new();
    let mut a: usize = 0;
    while a < n
        invariant
            g == graph.deep_view(),
            n == graph.len(),
            a <= n,
            nodes.len() == a,
            forall|x: int|
                0 <= x < a ==> {
                    let m = #[trigger] nodes@[x];
                    &&& m.wf()
                    &&& m.id == x
                    &&& m.round == 0
                    &&& m.desire_level.exponent == 1
                    &&& !m.is_in_mis
                    &&& m.phase == Phase::Idle
                    &&& m.pending_requests@ == Seq::<usize>::empty()
                    &&& forall|b: usize| has_id(m.neighbors@, b) == adjacent(g, x as usize, b)
                },
        decreases n - a,
    {
        let mut node = Node::new(a);
        let row = &graph[a];
        assert(row@ == g[a as int]);
        let mut k: usize = 0;
        while k < row.len()
            invariant
                node.wf(),
                node.id == a,
                node.round == 0,
                node.desire_level.exponent == 1,
                !node.is_in_mis,
                node.phase == Phase::Idle,
                node.pending_requests@ == Seq::<usize>::empty(),
                k <= row.len(),
                forall|b: usize| has_id(node.neighbors@, b) == row@.subrange(0, k as int).contains(b),
            decreases row.len() - k,
        {
            let ghost before = node.neighbors@;
            node.register_neighbor(row[k]);
            k = k + 1;
            proof {
                assert forall|b: usize| has_id(node.neighbors@, b) == row@.subrange(0, k as int).contains(b) by {
                    lemma_has_id_after_register(before, row@[k - 1], node.neighbors@, b);
                    let p = row@.subrange(0, k as int);
                    let q = row@.subrange(0, k - 1);
                    if q.contains(b) {
                        let j = choose|j: int| 0 <= j < q.len() && q[j] == b;
                        assert(p[j] == b);
                    }
                    if b == row@[k - 1] {
                        assert(p[k - 1] == b);
                    }
                    if p.contains(b) {
                        let j = choose|j: int| 0 <= j < p.len() && p[j] == b;
                        if j < k - 1 {
                            assert(q[j] == b);
                        }
                    }
                }
            }
        }
        assert(row@.subrange(0, k as int) =~= row@);
        let mut r: usize = 0;
        while r < n
            invariant
                g == graph.deep_view(),
                n == graph.len(),
                a < n,
                row@ == g[a as int],
                node.wf(),
                node.id == a,
                node.round == 0,
                node.desire_level.exponent == 1,
                !node.is_in_mis,
                node.phase == Phase::Idle,
                node.pending_requests@ == Seq::<usize>::empty(),
                r <= n,
                forall|b: usize|
                    has_id(node.neighbors@, b) == (row@.contains(b) || (b as int) < r && lists(g, b, a)),
            decreases n - r,
        {
            let ghost before = node.neighbors@;
            let other = &graph[r];
            assert(other@ == g[r as int]);
            let lists_back = contains_id(other, a);
            if lists_back {
                node.register_neighbor(r);
            }
            proof {
                assert forall|b: usize|
                    has_id(node.neighbors@, b) == (row@.contains(b) || (b as int) < r + 1 && lists(g, b, a)) by {
                    if lists_back {
                        lemma_has_id_after_register(before, r, node.neighbors@, b);
                    }
                }
            }
            r = r + 1;
        }
        proof {
            assert forall|b: usize| has_id(node.neighbors@, b) == adjacent(g, a, b) by {
                if lists(g, b, a) {
                    assert((b as int) < n);
                }
            }
        }
        nodes.push(node);
        a = a + 1;
    }
    nodes
}

} // verus!
