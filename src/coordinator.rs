//! The coordinator: drives the rounds, waits at each barrier for exactly the
//! reports it expects, prunes resolved vertices and gathers the results.
//!
//! Like the vertex actor, it is a state machine: `advance` says what to
//! broadcast when a stage is complete, `receive` takes one report. Carrying
//! messages is the caller's part.

use std::collections::HashSet;
use vstd::prelude::*;
use vstd::set_lib::{lemma_int_range, lemma_len_subset, set_int_range};
use vstd::std_specs::hash::group_hash_axioms;

use crate::graph::{contains_id, copy_list};
use crate::protocol::{CentralMessage, Message, NodeResult, ProtocolViolation, ViolationKind};

verus! {

broadcast use group_hash_axioms;

/// The coordinator's stage within a round.
#[derive(Clone, Copy, Debug, PartialEq, Eq, Structural)]
pub enum Stage {
    Round1,
    Round2,
    Reconfigure,
    Start,
}

/// One message for several vertices.
#[derive(Clone, Debug)]
pub struct Broadcast {
    pub targets: Vec<usize>,
    pub message: Message,
}

/// How many entries of `s` are set.
pub open spec fn count_true(s: Seq<bool>) -> nat
    decreases s.len(),
{
    if s.len() == 0 {
        0
    } else {
        count_true(s.drop_last()) + if s.last() {
            1nat
        } else {
            0nat
        }
    }
}

/// The positions of the set entries of `s`, in increasing order.
pub open spec fn true_indices(s: Seq<bool>) -> Seq<usize>
    decreases s.len(),
{
    if s.len() == 0 {
        Seq::empty()
    } else if s.last() {
        true_indices(s.drop_last()).push((s.len() - 1) as usize)
    } else {
        true_indices(s.drop_last())
    }
}

/// The vertices that a result list reports in the set.
pub open spec fn mis_of(results: Seq<NodeResult>) -> Set<usize> {
    Set::new(|v: usize| exists|k: int| 0 <= k < results.len() && (#[trigger] results[k]).id == v
        && results[k].is_in_mis)
}

/// The coordinator's state.
#[derive(Debug)]
pub struct Coordinator {
    pub stage: Stage,
    pub round: usize,
    /// The number of vertices of the graph.
    pub num_node: usize,
    /// The terminal record of each resolved vertex, in order of arrival.
    pub result_list: Vec<NodeResult>,
    /// Per vertex: still in the graph.
    pub live: Vec<bool>,
    /// The number of live vertices.
    pub curr_num_node: usize,
    /// Per vertex: the current stage still waits for its report.
    pub awaiting: Vec<bool>,
    /// The number of reports the current stage still waits for.
    pub num_awaiting: usize,
    /// The vertices to prune at the end of this round.
    pub nodes_to_remove: Vec<usize>,
    /// Per vertex: a pruning left it alone, and its terminal record is
    /// still to come.
    pub leaving: Vec<bool>,
}

impl Coordinator {
    /// The state invariant: per-vertex flags for every vertex, counters that
    /// match them, only live vertices awaited, and at most one record per
    /// vertex.
    pub open spec fn wf(self) -> bool {
        &&& self.live.len() == self.num_node
        &&& self.awaiting.len() == self.num_node
        &&& self.curr_num_node == count_true(self.live@)
        &&& self.num_awaiting == count_true(self.awaiting@)
        &&& forall|v: int| 0 <= v < self.num_node && #[trigger] self.awaiting@[v] ==> self.live@[v]
        &&& forall|k: int|
            0 <= k < self.nodes_to_remove.len() ==> (#[trigger] self.nodes_to_remove@[k]) < self.num_node
        &&& (self.stage == Stage::Start ==> self.num_awaiting == 0)
        &&& self.leaving.len() == self.num_node
        &&& forall|v: int|
            0 <= v < self.num_node && #[trigger] self.leaving@[v] ==> self.awaiting@[v] && self.stage
                == Stage::Reconfigure
        &&& self.results_once()
    }

    /// Each vertex has at most one record, and a vertex with a record is
    /// neither awaited nor live, but for a vertex about to be pruned.
    pub open spec fn results_once(self) -> bool {
        let rs = self.result_list@;
        &&& rs.len() <= self.num_node
        &&& forall|k: int| 0 <= k < rs.len() ==> (#[trigger] rs[k]).id < self.num_node
        &&& forall|a: int, b: int| 0 <= a < rs.len() && 0 <= b < rs.len() && a != b ==> rs[a].id != rs[b].id
        &&& forall|k: int|
            0 <= k < rs.len() ==> {
                let v = (#[trigger] rs[k]).id as int;
                &&& !self.awaiting@[v]
                &&& (!self.live@[v] || self.stage == Stage::Round2 && self.nodes_to_remove@.contains(
                    v as usize,
                ))
            }
    }

    /// Every vertex has reported its terminal record.
    pub open spec fn done(self) -> bool {
        self.result_list.len() == self.num_node
    }

    /// A coordinator for `num_node` vertices, all live, at round 0.
    pub fn new(num_node: usize) -> (r: Coordinator)
        ensures
            r.wf(),
            r.stage == Stage::Start,
            r.round == 0,
            r.num_node == num_node,
            r.curr_num_node == num_node,
            r.result_list@ == Seq::<NodeResult>::empty(),
            r.nodes_to_remove@ == Seq::<usize>::empty(),
            forall|v: int| 0 <= v < num_node ==> #[trigger] r.live@[v],
    {
        let mut live: Vec<bool> = Vec::new();
        let mut awaiting: Vec<bool> = Vec::new();
        let mut i: usize = 0;
        while i < num_node
            invariant
                i <= num_node,
                live@ == Seq::new(i as nat, |v: int| true),
                awaiting@ == Seq::new(i as nat, |v: int| false),
                count_true(live@) == i,
                count_true(awaiting@) == 0,
            decreases num_node - i,
        {
            proof {
                assert(live@.push(true).drop_last() =~= live@);
                assert(awaiting@.push(false).drop_last() =~= awaiting@);
            }
            live.push(true);
            awaiting.push(false);
            i = i + 1;
            assert(live@ =~= Seq::new(i as nat, |v: int| true));
            assert(awaiting@ =~= Seq::new(i as nat, |v: int| false));
        }
        Coordinator {
            stage: Stage::Start,
            round: 0,
            num_node,
            result_list: Vec::new(),
            live,
            curr_num_node: num_node,
            leaving: copy_flags(&awaiting),
            awaiting,
            num_awaiting: 0,
            nodes_to_remove: Vec::new(),
        }
    }

    /// Whether every vertex has reported its terminal record: the run is
    /// over exactly then.
    pub fn is_done(&self) -> (r: bool)
        ensures
            r == self.done(),
    {
        self.result_list.len() == self.num_node
    }

    /// Whether the current stage waits for a report.
    pub fn is_waiting(&self) -> (r: bool)
        ensures
            r == (self.stage != Stage::Start && self.num_awaiting > 0),
    {
        self.stage != Stage::Start && self.num_awaiting > 0
    }

    /// The live vertices, in increasing order.
    pub fn live_nodes(&self) -> (r: Vec<usize>)
        requires
            self.wf(),
        ensures
            r@ == true_indices(self.live@),
    {
        let mut r: Vec<usize> = Vec::new();
        let mut v: usize = 0;
        while v < self.live.len()
            invariant
                v <= self.live.len(),
                r@ == true_indices(self.live@.subrange(0, v as int)),
            decreases self.live.len() - v,
        {
            proof {
                assert(self.live@.subrange(0, v + 1).drop_last() =~= self.live@.subrange(0, v as int));
            }
            if self.live[v] {
                r.push(v);
            }
            v = v + 1;
        }
        assert(self.live@.subrange(0, v as int) =~= self.live@);
        r
    }

    /// The set of vertices whose terminal record puts them in the set.
    pub fn get_mis_result(&self) -> (r: HashSet<usize>)
        ensures
            r@ == mis_of(self.result_list@),
    {
        let mut mis: HashSet<usize> = HashSet::new();
        let mut k: usize = 0;
        while k < self.result_list.len()
            invariant
                k <= self.result_list.len(),
                mis@ == mis_of(self.result_list@.subrange(0, k as int)),
            decreases self.result_list.len() - k,
        {
            let ghost before = mis@;
            if self.result_list[k].is_in_mis {
                mis.insert(self.result_list[k].id);
            }
            k = k + 1;
            proof {
                let p = self.result_list@.subrange(0, k as int);
                let q = self.result_list@.subrange(0, k - 1);
                let last = self.result_list@[k - 1];
                assert(mis@ == if last.is_in_mis { before.insert(last.id) } else { before });
                assert(before == mis_of(q));
                assert(p[k - 1] == last);
                assert forall|v: usize| mis@.contains(v) == mis_of(p).contains(v) by {
                    if mis_of(q).contains(v) {
                        let j = choose|j: int| 0 <= j < q.len() && (#[trigger] q[j]).id == v && q[j].is_in_mis;
                        assert(p[j] == q[j]);
                    }
                    if mis_of(p).contains(v) {
                        let j = choose|j: int| 0 <= j < p.len() && (#[trigger] p[j]).id == v && p[j].is_in_mis;
                        if j < k - 1 {
                            assert(p[j] == q[j]);
                        }
                    }
                }
                assert(mis@ =~= mis_of(p));
            }
        }
        assert(self.result_list@.subrange(0, k as int) =~= self.result_list@);
        mis
    }
}

/// Distinct ids below `n` are at most `n`.
pub proof fn lemma_distinct_ids_bounded(ids: Seq<usize>, n: nat)
    requires
        ids.no_duplicates(),
        forall|k: int| 0 <= k < ids.len() ==> (#[trigger] ids[k]) < n,
    ensures
        ids.len() <= n,
{
    let xs = ids.map_values(|x: usize| x as int);
    assert(xs.no_duplicates()) by {
        assert forall|a: int, b: int| 0 <= a < xs.len() && 0 <= b < xs.len() && a != b implies xs[a] != xs[b] by {
            assert(ids[a] != ids[b]);
        }
    }
    xs.unique_seq_to_set();
    lemma_int_range(0, n as int);
    assert forall|x: int| xs.to_set().contains(x) implies set_int_range(0, n as int).contains(x) by {
        let k = choose|k: int| 0 <= k < xs.len() && xs[k] == x;
        assert(ids[k] < n);
    }
    lemma_len_subset(xs.to_set(), set_int_range(0, n as int));
}

/// With a record added for vertex `v`, awaited until now, each vertex
/// still has at most one record, and they are no more than the vertices.
pub proof fn lemma_record_added(rs: Seq<NodeResult>, r: NodeResult, n: nat)
    requires
        forall|k: int| 0 <= k < rs.len() ==> (#[trigger] rs[k]).id < n,
        forall|a: int, b: int| 0 <= a < rs.len() && 0 <= b < rs.len() && a != b ==> rs[a].id != rs[b].id,
        forall|k: int| 0 <= k < rs.len() ==> (#[trigger] rs[k]).id != r.id,
        r.id < n,
    ensures
        rs.push(r).len() <= n,
        forall|a: int, b: int|
            0 <= a < rs.push(r).len() && 0 <= b < rs.push(r).len() && a != b ==> rs.push(r)[a].id
                != rs.push(r)[b].id,
{
    let t = rs.push(r);
    let ids = Seq::new(t.len(), |k: int| t[k].id);
    assert forall|a: int, b: int| 0 <= a < t.len() && 0 <= b < t.len() && a != b implies t[a].id != t[b].id by {
        if a < rs.len() && b < rs.len() {
            assert(rs[a].id != rs[b].id);
        } else if a < rs.len() {
            assert(rs[a].id != r.id);
        } else {
            assert(rs[b].id != r.id);
        }
    }
    assert(ids.no_duplicates());
    assert forall|k: int| 0 <= k < ids.len() implies (#[trigger] ids[k]) < n by {
        if k < rs.len() {
            assert(rs[k].id < n);
        }
    }
    lemma_distinct_ids_bounded(ids, n);
}

/// Clearing a set entry lowers the count by one.
pub proof fn lemma_count_clear(s: Seq<bool>, k: int)
    requires
        0 <= k < s.len(),
        s[k],
    ensures
        count_true(s.update(k, false)) + 1 == count_true(s),
    decreases s.len(),
{
    let t = s.update(k, false);
    if k < s.len() - 1 {
        lemma_count_clear(s.drop_last(), k);
        assert(t.drop_last() =~= s.drop_last().update(k, false));
    } else {
        assert(t.drop_last() =~= s.drop_last());
    }
}

/// `live` once the vertices in `ids` are pruned.
pub open spec fn pruned(live: Seq<bool>, ids: Seq<usize>) -> Seq<bool> {
    Seq::new(live.len(), |v: int| live[v] && !ids.contains(v as usize))
}

/// The checks on a report that come before its list of vertices to prune:
/// a report of the kind the current stage waits for, from a vertex it still
/// waits for. In a pruning stage only a vertex that the pruning left alone
/// sends a terminal record, and only once it has said so.
pub open spec fn sender_checks(c: Coordinator, msg: CentralMessage) -> bool {
    match msg {
        CentralMessage::Round1Complete(v) => c.stage == Stage::Round1 && v < c.num_node
            && c.awaiting@[v as int],
        CentralMessage::Step(v) => c.stage == Stage::Round2 && v < c.num_node
            && c.awaiting@[v as int],
        CentralMessage::Finish(res) => res.id < c.num_node && c.awaiting@[res.id as int] && (c.stage
            == Stage::Round2 || c.stage == Stage::Reconfigure && c.leaving@[res.id as int]
            && res.is_in_mis),
        CentralMessage::ReconfigComplete(rr) => c.stage == Stage::Reconfigure && rr.id < c.num_node
            && c.awaiting@[rr.id as int] && !c.leaving@[rr.id as int],
    }
}

/// Every vertex a terminal record names for pruning is a vertex.
pub open spec fn listed_in_range(c: Coordinator, msg: CentralMessage) -> bool {
    match msg {
        CentralMessage::Finish(res) => forall|k: int|
            0 <= k < res.nodes_to_remove.len() ==> (#[trigger] res.nodes_to_remove@[k]) < c.num_node,
        _ => true,
    }
}

/// `msg` is accepted by the coordinator in state `c`.
pub open spec fn accepts(c: Coordinator, msg: CentralMessage) -> bool {
    sender_checks(c, msg) && listed_in_range(c, msg)
}

/// Why the coordinator refuses a report that fails `sender_checks`: a
/// report of another stage, of no vertex, or of a vertex the stage no
/// longer waits for.
pub open spec fn refusal(c: Coordinator, msg: CentralMessage) -> ViolationKind {
    let v = sender_of(msg);
    let stage_ok = match msg {
        CentralMessage::Round1Complete(_) => c.stage == Stage::Round1,
        CentralMessage::Step(_) => c.stage == Stage::Round2,
        CentralMessage::Finish(_) => c.stage == Stage::Round2 || c.stage == Stage::Reconfigure,
        CentralMessage::ReconfigComplete(_) => c.stage == Stage::Reconfigure,
    };
    if !stage_ok {
        ViolationKind::UnexpectedMessage
    } else if v >= c.num_node {
        ViolationKind::UnknownPeer(v)
    } else if !c.awaiting@[v as int] {
        ViolationKind::DuplicateReport(v)
    } else {
        match msg {
            CentralMessage::Finish(_) => ViolationKind::UnexpectedMessage,
            _ => ViolationKind::DuplicateReport(v),
        }
    }
}

/// What taking the accepted report `msg` does to the state.
pub open spec fn received(pre: Coordinator, msg: CentralMessage, post: Coordinator) -> bool {
    let v = sender_of(msg) as int;
    let reported = post.awaiting@ == pre.awaiting@.update(v, false) && post.num_awaiting + 1
        == pre.num_awaiting;
    &&& post.stage == pre.stage
    &&& post.round == pre.round
    &&& post.num_node == pre.num_node
    &&& match msg {
        CentralMessage::Finish(res) => {
            &&& reported
            &&& post.result_list@ == pre.result_list@.push(res)
            &&& if pre.stage == Stage::Round2 {
                &&& post.nodes_to_remove@ == pre.nodes_to_remove@.push(res.id) + res.nodes_to_remove@
                &&& post.live@ == pre.live@
                &&& post.leaving@ == pre.leaving@
            } else {
                &&& post.nodes_to_remove@ == pre.nodes_to_remove@
                &&& post.live@ == pre.live@.update(v, false)
                &&& post.leaving@ == pre.leaving@.update(v, false)
            }
        },
        CentralMessage::ReconfigComplete(rr) => {
            &&& post.nodes_to_remove@ == pre.nodes_to_remove@
            &&& post.result_list@ == pre.result_list@
            &&& post.live@ == pre.live@
            &&& if rr.is_leaving {
                &&& post.awaiting@ == pre.awaiting@
                &&& post.num_awaiting == pre.num_awaiting
                &&& post.leaving@ == pre.leaving@.update(v, true)
            } else {
                &&& reported
                &&& post.leaving@ == pre.leaving@
            }
        },
        _ => {
            &&& reported
            &&& post.result_list@ == pre.result_list@
            &&& post.nodes_to_remove@ == pre.nodes_to_remove@
            &&& post.live@ == pre.live@
            &&& post.leaving@ == pre.leaving@
        },
    }
}

/// The vertex a report comes from.
pub open spec fn sender_of(msg: CentralMessage) -> usize {
    match msg {
        CentralMessage::Round1Complete(v) => v,
        CentralMessage::Step(v) => v,
        CentralMessage::Finish(res) => res.id,
        CentralMessage::ReconfigComplete(rr) => rr.id,
    }
}

/// A count of zero means no entry is set.
pub proof fn lemma_count_zero(s: Seq<bool>)
    requires
        count_true(s) == 0,
    ensures
        forall|k: int| 0 <= k < s.len() ==> !#[trigger] s[k],
    decreases s.len(),
{
    if s.len() > 0 {
        lemma_count_zero(s.drop_last());
        assert forall|k: int| 0 <= k < s.len() implies !#[trigger] s[k] by {
            if k < s.len() - 1 {
                assert(s.drop_last()[k] == s[k]);
            }
        }
    }
}

impl Coordinator {
    /// Waits for a report from every live vertex.
    fn await_live(&mut self)
        requires
            old(self).wf(),
            old(self).stage != Stage::Start,
            forall|k: int|
                0 <= k < old(self).result_list.len() ==> !old(self).live@[(
                #[trigger] old(self).result_list@[k]).id as int],
            forall|v: int| 0 <= v < old(self).num_node ==> !#[trigger] old(self).leaving@[v],
        ensures
            final(self).wf(),
            final(self).leaving@ == old(self).leaving@,
            final(self).awaiting@ == old(self).live@,
            final(self).num_awaiting == old(self).curr_num_node,
            final(self).stage == old(self).stage,
            final(self).round == old(self).round,
            final(self).num_node == old(self).num_node,
            final(self).result_list@ == old(self).result_list@,
            final(self).live@ == old(self).live@,
            final(self).curr_num_node == old(self).curr_num_node,
            final(self).nodes_to_remove@ == old(self).nodes_to_remove@,
    {
        let mut awaiting: Vec<bool> = Vec::new();
        let mut v: usize = 0;
        while v < self.live.len()
            invariant
                v <= self.live.len(),
                awaiting@ == self.live@.subrange(0, v as int),
            decreases self.live.len() - v,
        {
            awaiting.push(self.live[v]);
            v = v + 1;
            assert(awaiting@ =~= self.live@.subrange(0, v as int));
        }
        assert(awaiting@ =~= self.live@);
        self.awaiting = awaiting;
        self.num_awaiting = self.curr_num_node;
    }

    /// Marks the vertices of `ids` as pruned.
    fn prune(&mut self, ids: &Vec<usize>)
        requires
            old(self).wf(),
            forall|v: int| 0 <= v < old(self).num_node ==> !#[trigger] old(self).awaiting@[v],
        ensures
            final(self).wf(),
            final(self).leaving@ == old(self).leaving@,
            final(self).live@ == pruned(old(self).live@, ids@),
            final(self).awaiting@ == old(self).awaiting@,
            final(self).num_awaiting == old(self).num_awaiting,
            final(self).stage == old(self).stage,
            final(self).round == old(self).round,
            final(self).num_node == old(self).num_node,
            final(self).result_list@ == old(self).result_list@,
            final(self).nodes_to_remove@ == old(self).nodes_to_remove@,
    {
        let ghost live0 = self.live@;
        let mut k: usize = 0;
        while k < ids.len()
            invariant
                self.wf(),
                forall|v: int| 0 <= v < self.num_node ==> !#[trigger] self.awaiting@[v],
                self.live@ == pruned(live0, ids@.subrange(0, k as int)),
                live0.len() == self.num_node,
                self.awaiting@ == old(self).awaiting@,
                self.num_awaiting == old(self).num_awaiting,
                self.stage == old(self).stage,
                self.round == old(self).round,
                self.num_node == old(self).num_node,
                self.result_list@ == old(self).result_list@,
                self.nodes_to_remove@ == old(self).nodes_to_remove@,
                self.leaving@ == old(self).leaving@,
                k <= ids.len(),
            decreases ids.len() - k,
        {
            let v = ids[k];
            let ghost before = self.live@;
            if v < self.live.len() && self.live[v] {
                proof {
                    lemma_count_clear(self.live@, v as int);
                }
                self.live.set(v, false);
                self.curr_num_node = self.curr_num_node - 1;
            }
            k = k + 1;
            proof {
                let q = ids@.subrange(0, k - 1);
                let p = ids@.subrange(0, k as int);
                assert(p =~= q.push(v));
                assert forall|w: int| 0 <= w < live0.len() implies self.live@[w] == pruned(live0, p)[w] by {
                    let x = w as usize;
                    if q.contains(x) {
                        let j = choose|j: int| 0 <= j < q.len() && q[j] == x;
                        assert(p[j] == x);
                    }
                    if x == v {
                        assert(p[q.len() as int] == x);
                    }
                    if p.contains(x) {
                        let j = choose|j: int| 0 <= j < p.len() && p[j] == x;
                        if j < q.len() {
                            assert(q[j] == x);
                        }
                    }
                    assert(p.contains(x) == (q.contains(x) || x == v));
                    if w == v && (v as int) < live0.len() {
                        assert(p[k - 1] == v);
                    }
                }
                assert(self.live@ =~= pruned(live0, p));
            }
        }
        assert(ids@.subrange(0, k as int) =~= ids@);
    }

    /// What to broadcast now that the current stage may be complete; `None`
    /// while it still waits for reports, and once the run is over. Start
    /// sends `Start(round)` to every live vertex; a complete first phase
    /// sends `StartRound2` to every live vertex; a complete second phase
    /// prunes every vertex reported resolved and sends the pruned set to the
    /// remaining live vertices, or, when none resolved, begins the next
    /// round; a complete pruning begins the next round. The round counter
    /// grows by exactly one per round, and only there.
    pub fn advance(&mut self) -> (r: Option<Broadcast>)
        requires
            old(self).wf(),
            old(self).round < usize::MAX,
        ensures
            final(self).wf(),
            final(self).num_node == old(self).num_node,
            final(self).result_list@ == old(self).result_list@,
            old(self).done() ==> r is None && final(self).stage == old(self).stage
                && final(self).round == old(self).round && final(self).live@ == old(self).live@,
            !old(self).done() ==> match old(self).stage {
                Stage::Start => {
                    &&& final(self).stage == Stage::Round1
                    &&& final(self).round == old(self).round
                    &&& final(self).live@ == old(self).live@
                    &&& final(self).awaiting@ == old(self).live@
                    &&& r is Some
                    &&& r->Some_0.targets@ == true_indices(old(self).live@)
                    &&& r->Some_0.message == Message::Start(old(self).round)
                },
                Stage::Round1 => if old(self).num_awaiting == 0 {
                    &&& final(self).stage == Stage::Round2
                    &&& final(self).round == old(self).round
                    &&& final(self).live@ == old(self).live@
                    &&& final(self).awaiting@ == old(self).live@
                    &&& r is Some
                    &&& r->Some_0.targets@ == true_indices(old(self).live@)
                    &&& r->Some_0.message == Message::StartRound2
                } else {
                    &&& final(self).stage == old(self).stage
                    &&& final(self).round == old(self).round
                    &&& final(self).live@ == old(self).live@
                    &&& r is None
                },
                Stage::Round2 => if old(self).num_awaiting == 0 {
                    let live = pruned(old(self).live@, old(self).nodes_to_remove@);
                    &&& final(self).live@ == live
                    &&& final(self).nodes_to_remove@ == Seq::<usize>::empty()
                    &&& if old(self).nodes_to_remove.len() == 0 {
                        &&& final(self).stage == Stage::Start
                        &&& final(self).round == old(self).round + 1
                        &&& r is None
                    } else {
                        &&& final(self).stage == Stage::Reconfigure
                        &&& final(self).round == old(self).round
                        &&& final(self).awaiting@ == live
                        &&& r is Some
                        &&& r->Some_0.targets@ == true_indices(live)
                        &&& r->Some_0.message is RemoveNeighbors
                        &&& r->Some_0.message->RemoveNeighbors_0@ == old(self).nodes_to_remove@
                    }
                } else {
                    &&& final(self).stage == old(self).stage
                    &&& final(self).round == old(self).round
                    &&& final(self).live@ == old(self).live@
                    &&& r is None
                },
                Stage::Reconfigure => if old(self).num_awaiting == 0 {
                    &&& final(self).stage == Stage::Start
                    &&& final(self).round == old(self).round + 1
                    &&& final(self).live@ == old(self).live@
                    &&& r is None
                } else {
                    &&& final(self).stage == old(self).stage
                    &&& final(self).round == old(self).round
                    &&& final(self).live@ == old(self).live@
                    &&& r is None
                },
            },
    {
        if self.is_done() {
            return None;
        }
        match self.stage {
            Stage::Start => {
                self.stage = Stage::Round1;
                self.await_live();
                Some(self.start_next_round())
            },
            Stage::Round1 => {
                if self.num_awaiting == 0 {
                    self.stage = Stage::Round2;
                    self.await_live();
                    Some(self.inform_nodes())
                } else {
                    None
                }
            },
            Stage::Round2 => {
                if self.num_awaiting == 0 {
                    proof {
                        lemma_count_zero(self.awaiting@);
                    }
                    let prune = copy_list(&self.nodes_to_remove);
                    let broadcast = self.remove_neighbors(copy_list(&prune));
                    self.prune(&prune);
                    self.nodes_to_remove = Vec::new();
                    if prune.len() == 0 {
                        self.stage = Stage::Start;
                        self.round = self.round + 1;
                        None
                    } else {
                        self.stage = Stage::Reconfigure;
                        self.await_live();
                        Some(broadcast)
                    }
                } else {
                    None
                }
            },
            Stage::Reconfigure => {
                if self.num_awaiting == 0 {
                    proof {
                        lemma_count_zero(self.awaiting@);
                    }
                    self.stage = Stage::Start;
                    self.round = self.round + 1;
                    None
                } else {
                    None
                }
            },
        }
    }

    /// `Start(round)` for every live vertex.
    pub fn start_next_round(&self) -> (r: Broadcast)
        requires
            self.wf(),
        ensures
            r.targets@ == true_indices(self.live@),
            r.message == Message::Start(self.round),
    {
        Broadcast { targets: self.live_nodes(), message: Message::Start(self.round) }
    }

    /// `StartRound2` for every live vertex.
    pub fn inform_nodes(&self) -> (r: Broadcast)
        requires
            self.wf(),
        ensures
            r.targets@ == true_indices(self.live@),
            r.message == Message::StartRound2,
    {
        Broadcast { targets: self.live_nodes(), message: Message::StartRound2 }
    }

    /// The pruning of `ids`, for every live vertex outside `ids`; for no
    /// vertex when `ids` is empty.
    pub fn remove_neighbors(&self, ids: Vec<usize>) -> (r: Broadcast)
        requires
            self.wf(),
        ensures
            r.targets@ == if ids.len() == 0 {
                Seq::<usize>::empty()
            } else {
                true_indices(pruned(self.live@, ids@))
            },
            r.message is RemoveNeighbors,
            r.message->RemoveNeighbors_0@ == ids@,
    {
        let ghost flags = pruned(self.live@, ids@);
        let mut targets: Vec<usize> = Vec::new();
        if ids.len() > 0 {
            let mut v: usize = 0;
            while v < self.live.len()
                invariant
                    v <= self.live.len(),
                    flags.len() == self.live.len(),
                    flags == pruned(self.live@, ids@),
                    targets@ == true_indices(flags.subrange(0, v as int)),
                decreases self.live.len() - v,
            {
                proof {
                    assert(flags.subrange(0, v + 1).drop_last() =~= flags.subrange(0, v as int));
                }
                if self.live[v] && !contains_id(&ids, v) {
                    targets.push(v);
                }
                v = v + 1;
            }
            assert(flags.subrange(0, v as int) =~= flags);
        } else {
            assert(targets@ =~= Seq::<usize>::empty());
        }
        Broadcast { targets, message: Message::RemoveNeighbors(ids) }
    }
}


/// A copy of `flags`.
fn copy_flags(flags: &Vec<bool>) -> (r: Vec<bool>)
    ensures
        r@ == flags@,
{
    let mut r: Vec<bool> = Vec::new();
    let mut k: usize = 0;
    while k < flags.len()
        invariant
            k <= flags.len(),
            r@ == flags@.subrange(0, k as int),
        decreases flags.len() - k,
    {
        r.push(flags[k]);
        k = k + 1;
        assert(r@ =~= flags@.subrange(0, k as int));
    }
    assert(r@ =~= flags@);
    r
}

/// Appends `src` to `dst`.
fn append_ids(dst: &mut Vec<usize>, src: &Vec<usize>)
    ensures
        final(dst)@ == old(dst)@ + src@,
{
    let mut j: usize = 0;
    while j < src.len()
        invariant
            j <= src.len(),
            dst@ == old(dst)@ + src@.subrange(0, j as int),
        decreases src.len() - j,
    {
        dst.push(src[j]);
        j = j + 1;
        assert(dst@ =~= old(dst)@ + src@.subrange(0, j as int));
    }
    assert(src@.subrange(0, j as int) =~= src@);
}

impl Coordinator {
    fn violation(&self, kind: ViolationKind) -> (r: ProtocolViolation)
        ensures
            r.receiver == self.num_node,
            r.round == self.round,
            r.kind == kind,
    {
        ProtocolViolation { receiver: self.num_node, round: self.round, kind }
    }

    /// Checks that the current stage waits for a report of vertex `v`.
    fn check_awaited(&self, v: usize) -> (r: Result<(), ProtocolViolation>)
        requires
            self.wf(),
        ensures
            r is Ok == (v < self.num_node && self.awaiting@[v as int]),
            r is Err ==> r->Err_0.receiver == self.num_node && r->Err_0.round == self.round
                && r->Err_0.kind == if v >= self.num_node {
                ViolationKind::UnknownPeer(v)
            } else {
                ViolationKind::DuplicateReport(v)
            },
    {
        if v >= self.num_node {
            return Err(self.violation(ViolationKind::UnknownPeer(v)));
        }
        if !self.awaiting[v] {
            return Err(self.violation(ViolationKind::DuplicateReport(v)));
        }
        Ok(())
    }

    /// Checks that every id of `ids` is a vertex.
    fn check_ids(&self, ids: &Vec<usize>) -> (r: Result<(), ProtocolViolation>)
        ensures
            r is Ok == forall|k: int| 0 <= k < ids.len() ==> (#[trigger] ids@[k]) < self.num_node,
            r is Err ==> r->Err_0.receiver == self.num_node && r->Err_0.round == self.round
                && r->Err_0.kind is UnknownPeer && r->Err_0.kind->UnknownPeer_0 >= self.num_node
                && ids@.contains(r->Err_0.kind->UnknownPeer_0),
    {
        let mut k: usize = 0;
        while k < ids.len()
            invariant
                k <= ids.len(),
                forall|j: int| 0 <= j < k ==> (#[trigger] ids@[j]) < self.num_node,
            decreases ids.len() - k,
        {
            if ids[k] >= self.num_node {
                assert(ids@[k as int] == ids[k as int]);
                return Err(self.violation(ViolationKind::UnknownPeer(ids[k])));
            }
            k = k + 1;
        }
        Ok(())
    }

    /// Stops waiting for vertex `v`.
    fn mark_reported(&mut self, v: usize)
        requires
            old(self).wf(),
            v < old(self).num_node,
            old(self).awaiting@[v as int],
        ensures
            final(self).wf(),
            final(self).awaiting@ == old(self).awaiting@.update(v as int, false),
            final(self).leaving@ == old(self).leaving@.update(v as int, false),
            final(self).num_awaiting + 1 == old(self).num_awaiting,
            final(self).stage == old(self).stage,
            final(self).round == old(self).round,
            final(self).num_node == old(self).num_node,
            final(self).result_list@ == old(self).result_list@,
            final(self).live@ == old(self).live@,
            final(self).curr_num_node == old(self).curr_num_node,
            final(self).nodes_to_remove@ == old(self).nodes_to_remove@,
    {
        proof {
            lemma_count_clear(self.awaiting@, v as int);
        }
        self.awaiting.set(v, false);
        self.leaving.set(v, false);
        self.num_awaiting = self.num_awaiting - 1;
    }

    /// Takes one report. A report is accepted only when the current stage
    /// waits for it (see `accepts`); any other is refused, with the reason
    /// (see `refusal`), and changes nothing. A terminal record joins the
    /// results: in the second phase it marks the vertex, and the vertices
    /// it names, for pruning; in a pruning it comes from a vertex that the
    /// pruning left alone, which leaves the graph.
    pub fn receive(&mut self, msg: CentralMessage) -> (r: Result<(), ProtocolViolation>)
        requires
            old(self).wf(),
        ensures
            final(self).wf(),
            accepts(*old(self), msg) == r is Ok,
            r is Err ==> *final(self) == *old(self) && r->Err_0.receiver == old(self).num_node
                && r->Err_0.round == old(self).round,
            r is Err && !sender_checks(*old(self), msg) ==> r->Err_0.kind == refusal(*old(self), msg),
            r is Err && sender_checks(*old(self), msg) ==> ({
                let w = r->Err_0.kind->UnknownPeer_0;
                &&& r->Err_0.kind is UnknownPeer
                &&& w >= old(self).num_node
                &&& msg is Finish
                &&& msg->Finish_0.nodes_to_remove@.contains(w)
            }),
            r is Ok ==> received(*old(self), msg, *final(self)),
    {
        match msg {
            CentralMessage::Round1Complete(v) => {
                if self.stage != Stage::Round1 {
                    return Err(self.violation(ViolationKind::UnexpectedMessage));
                }
                if let Err(e) = self.check_awaited(v) {
                    return Err(e);
                }
                self.mark_reported(v);
                assert(self.leaving@ =~= old(self).leaving@);
                Ok(())
            },
            CentralMessage::Step(v) => {
                if self.stage != Stage::Round2 {
                    return Err(self.violation(ViolationKind::UnexpectedMessage));
                }
                if let Err(e) = self.check_awaited(v) {
                    return Err(e);
                }
                self.mark_reported(v);
                assert(self.leaving@ =~= old(self).leaving@);
                Ok(())
            },
            CentralMessage::Finish(result) => {
                if self.stage != Stage::Round2 && self.stage != Stage::Reconfigure {
                    return Err(self.violation(ViolationKind::UnexpectedMessage));
                }
                if let Err(e) = self.check_awaited(result.id) {
                    return Err(e);
                }
                if self.stage == Stage::Reconfigure && !(self.leaving[result.id] && result.is_in_mis) {
                    return Err(self.violation(ViolationKind::UnexpectedMessage));
                }
                if let Err(e) = self.check_ids(&result.nodes_to_remove) {
                    return Err(e);
                }
                let ghost before = *self;
                proof {
                    assert forall|k: int| 0 <= k < self.result_list.len() implies (#[trigger] self.result_list@[k]).id
                        != result.id by {
                        assert(!before.awaiting@[before.result_list@[k].id as int]);
                    }
                    lemma_record_added(self.result_list@, result, self.num_node as nat);
                }
                if self.stage == Stage::Round2 {
                    self.mark_reported(result.id);
                    assert(self.leaving@ =~= old(self).leaving@);
                    let ghost base = self.nodes_to_remove@;
                    self.nodes_to_remove.push(result.id);
                    append_ids(&mut self.nodes_to_remove, &result.nodes_to_remove);
                    proof {
                        let nr = self.nodes_to_remove@;
                        assert(nr[base.len() as int] == result.id);
                        assert forall|x: usize| base.contains(x) implies nr.contains(x) by {
                            let j = choose|j: int| 0 <= j < base.len() && base[j] == x;
                            assert(nr[j] == x);
                        }
                        assert forall|i: int| 0 <= i < nr.len() implies (#[trigger] nr[i]) < self.num_node by {
                            if i < base.len() {
                                assert(nr[i] == base[i]);
                            } else if i > base.len() {
                                assert(nr[i] == result.nodes_to_remove@[i - base.len() - 1]);
                            }
                        }
                    }
                } else {
                    proof {
                        lemma_count_clear(self.live@, result.id as int);
                    }
                    self.mark_reported(result.id);
                    self.live.set(result.id, false);
                    self.curr_num_node = self.curr_num_node - 1;
                }
                self.result_list.push(result);
                Ok(())
            },
            CentralMessage::ReconfigComplete(rr) => {
                if self.stage != Stage::Reconfigure {
                    return Err(self.violation(ViolationKind::UnexpectedMessage));
                }
                if let Err(e) = self.check_awaited(rr.id) {
                    return Err(e);
                }
                if self.leaving[rr.id] {
                    return Err(self.violation(ViolationKind::DuplicateReport(rr.id)));
                }
                if rr.is_leaving {
                    self.leaving.set(rr.id, true);
                } else {
                    self.mark_reported(rr.id);
                    assert(self.leaving@ =~= old(self).leaving@);
                }
                Ok(())
            },
        }
    }
}

} // verus!
