//! Laws of the algorithm, proved over the state machines' contracts.

use vstd::arithmetic::power2::pow2;
use vstd::prelude::*;

use crate::coordinator::Coordinator;
use crate::desire::{lemma_level_in_range, FINEST_EXPONENT};
use crate::graph::{adjacent, has_member_neighbor, is_independent, is_maximal, is_mis};
use crate::node::{has_id, index_of, is_finish, lemma_without, without, Node, Outbox, Phase};
use crate::protocol::CentralMessage;
use crate::validation::Verifier;

verus! {

/// Two adjacent vertices never both join in the same round: when each
/// holds the other's true mark of the round (what a response carries), at
/// most one of them finds itself marked with no marked neighbour.
pub proof fn lemma_neighbors_never_both_join(u: Node, v: Node)
    requires
        has_id(u.neighbors@, v.id),
        has_id(v.neighbors@, u.id),
        u.neighbors@[index_of(u.neighbors@, v.id)].is_marked == v.is_get_marked,
        v.neighbors@[index_of(v.neighbors@, u.id)].is_marked == u.is_get_marked,
    ensures
        !(u.joins() && v.joins()),
{
    let k = index_of(u.neighbors@, v.id);
    assert(0 <= k < u.neighbors@.len() && u.neighbors@[k].id == v.id);
    let j = index_of(v.neighbors@, u.id);
    assert(0 <= j < v.neighbors@.len() && v.neighbors@[j].id == u.id);
}

/// A vertex that ends a round resolved outside the set does so only
/// because a neighbour announced that it joined; one that joined leaves in
/// the set; one with no joined neighbour, outside the set, stays.
pub proof fn lemma_round_end_outcomes(
    post: Node,
    id: usize,
    in_mis: bool,
    any_joined: bool,
    msgs: Seq<CentralMessage>,
)
    requires
        Node::round_end(post, id, in_mis, any_joined, msgs),
    ensures
        msgs.len() == 1,
        is_finish(msgs[0], id, false) ==> any_joined && !in_mis,
        in_mis ==> is_finish(msgs[0], id, true) && post.phase == Phase::Done,
        !in_mis && !any_joined ==> msgs[0] == CentralMessage::Step(id) && post.phase == Phase::Idle,
{
}

/// Every vertex's desire level lies in `(0, 1/2]` in every well-formed
/// state, which every message handler preserves: the level is `1 / d` with
/// `2 <= d <= 2^FINEST_EXPONENT`.
pub proof fn lemma_desire_stays_in_range(n: Node)
    requires
        n.wf(),
    ensures
        2 <= n.desire_level.denominator() <= pow2(FINEST_EXPONENT as nat),
{
    lemma_level_in_range(n.desire_level);
}

/// The run is over exactly when the records equal the vertices in number:
/// in every well-formed coordinator state, which `advance` and `receive`
/// preserve, there are never more records than vertices.
pub proof fn lemma_halts_exactly_when_all_recorded(c: Coordinator)
    requires
        c.wf(),
    ensures
        c.result_list.len() <= c.num_node,
        c.done() == (c.result_list.len() == c.num_node),
{
}

/// The verdict depends on the candidate set and the graph alone: checking
/// the same pair again, by the same verifier or another, gives the same
/// answer.
pub proof fn lemma_verdict_depends_on_pair_only(a: Verifier, b: Verifier)
    requires
        a.mis@ == b.mis@,
        a.graph.deep_view() == b.graph.deep_view(),
    ensures
        is_mis(a.mis@, a.graph.deep_view()) == is_mis(b.mis@, b.graph.deep_view()),
{
}

/// The vertices of `g`.
pub open spec fn vertices(g: Seq<Seq<usize>>) -> Set<usize> {
    Set::new(|v: usize| (v as int) < g.len())
}

/// The live vertices that join in a round with marks `marked`: marked, with
/// no marked live neighbour. This is each vertex's decision rule, taken
/// over the whole graph at once.
pub open spec fn round_joiners(g: Seq<Seq<usize>>, live: Set<usize>, marked: Set<usize>) -> Set<usize> {
    Set::new(|v: usize| live.contains(v) && marked.contains(v) && forall|u: usize|
        #![trigger adjacent(g, v, u)]
        live.contains(u) && adjacent(g, v, u) ==> !marked.contains(u))
}

/// The live vertices that resolve in the round: those that joined and their
/// live neighbours.
pub open spec fn round_resolved(g: Seq<Seq<usize>>, live: Set<usize>, joined: Set<usize>) -> Set<usize> {
    Set::new(|v: usize| live.contains(v) && (joined.contains(v) || exists|u: usize|
        #![trigger adjacent(g, v, u)]
        joined.contains(u) && adjacent(g, v, u)))
}

/// The vertices of `rest` that the pruning leaves without a live
/// neighbour: they join the set and leave.
pub open spec fn left_alone(g: Seq<Seq<usize>>, rest: Set<usize>) -> Set<usize> {
    Set::new(|v: usize| rest.contains(v) && forall|u: usize|
        #![trigger adjacent(g, v, u)]
        rest.contains(u) ==> !adjacent(g, v, u))
}

/// The live vertices after a round with marks `marked`.
pub open spec fn next_live(g: Seq<Seq<usize>>, live: Set<usize>, marked: Set<usize>) -> Set<usize> {
    let rest = live.difference(round_resolved(g, live, round_joiners(g, live, marked)));
    rest.difference(left_alone(g, rest))
}

/// The set after a round with marks `marked`: what it held, the vertices
/// that joined, and those the pruning left alone.
pub open spec fn next_members(g: Seq<Seq<usize>>, live: Set<usize>, members: Set<usize>, marked: Set<usize>) -> Set<usize> {
    let joined = round_joiners(g, live, marked);
    let rest = live.difference(round_resolved(g, live, joined));
    members.union(joined).union(left_alone(g, rest))
}

/// What holds between rounds: the set is independent; no live vertex is in
/// it or beside a member; every vertex that is neither live nor a member
/// has a neighbour in the set.
pub open spec fn between_rounds(g: Seq<Seq<usize>>, live: Set<usize>, members: Set<usize>) -> bool {
    &&& is_independent(members, g)
    &&& forall|v: usize| #[trigger] live.contains(v) ==> !members.contains(v)
    &&& forall|v: usize, u: usize|
        live.contains(v) && members.contains(u) ==> !#[trigger] adjacent(g, v, u)
    &&& forall|v: usize|
        (v as int) < g.len() && !live.contains(v) && !members.contains(v) ==> #[trigger] has_member_neighbor(members, g, v)
}

/// Before the first round every vertex is live and the set is empty.
pub proof fn lemma_first_round(g: Seq<Seq<usize>>)
    ensures
        between_rounds(g, vertices(g), Set::empty()),
{
}

/// Whatever the marks, a round keeps the set independent, keeps live
/// vertices away from it, and gives every vertex that resolves outside it a
/// neighbour in it.
pub proof fn lemma_round_keeps_set_valid(
    g: Seq<Seq<usize>>,
    live: Set<usize>,
    members: Set<usize>,
    marked: Set<usize>,
)
    requires
        between_rounds(g, live, members),
    ensures
        between_rounds(g, next_live(g, live, marked), next_members(g, live, members, marked)),
{
    let joined = round_joiners(g, live, marked);
    let resolved = round_resolved(g, live, joined);
    let rest = live.difference(resolved);
    let alone = left_alone(g, rest);
    let live2 = next_live(g, live, marked);
    let m2 = next_members(g, live, members, marked);
    assert forall|a: usize, b: usize|
        #![trigger m2.contains(a), m2.contains(b), adjacent(g, a, b)]
        m2.contains(a) && m2.contains(b) implies !adjacent(g, a, b) by {
        if adjacent(g, a, b) {
            assert(adjacent(g, b, a));
            if joined.contains(a) && joined.contains(b) {
                assert(live.contains(b) && adjacent(g, a, b));
            } else if joined.contains(a) && alone.contains(b) {
                assert(resolved.contains(b));
            } else if alone.contains(a) && joined.contains(b) {
                assert(resolved.contains(a));
            } else if alone.contains(a) && alone.contains(b) {
                assert(rest.contains(b));
            } else if members.contains(a) && members.contains(b) {
            } else if members.contains(a) {
                assert(live.contains(b));
            } else {
                assert(live.contains(a));
            }
        }
    }
    assert forall|v: usize, u: usize| live2.contains(v) && m2.contains(u) implies !#[trigger] adjacent(g, v, u) by {
        if adjacent(g, v, u) {
            if joined.contains(u) {
                assert(resolved.contains(v));
            } else if alone.contains(u) {
                assert(adjacent(g, u, v));
                assert(rest.contains(v));
            }
        }
    }
    assert forall|v: usize|
        (v as int) < g.len() && !live2.contains(v) && !m2.contains(v) implies #[trigger] has_member_neighbor(m2, g, v) by {
        if !live.contains(v) {
            assert(has_member_neighbor(members, g, v));
            let u = choose|u: usize| #[trigger] members.contains(u) && adjacent(g, v, u);
            assert(m2.contains(u));
        } else if resolved.contains(v) {
            if !joined.contains(v) {
                let u = choose|u: usize| #![trigger adjacent(g, v, u)] joined.contains(u) && adjacent(g, v, u);
                assert(m2.contains(u));
            }
        } else {
            assert(rest.contains(v));
        }
    }
}

/// When no vertex is live, the set is a maximal independent set of the
/// graph.
pub proof fn lemma_finished_set_is_mis(g: Seq<Seq<usize>>, live: Set<usize>, members: Set<usize>)
    requires
        between_rounds(g, live, members),
        live.is_empty(),
    ensures
        is_mis(members, g),
{
    assert forall|v: usize| (v as int) < g.len() && !members.contains(v) implies #[trigger] has_member_neighbor(members, g, v) by {
        assert(!live.contains(v));
    }
}

/// The live vertices and the set after one round per entry of `marks`,
/// each entry the vertices marked in that round.
pub open spec fn after_rounds(g: Seq<Seq<usize>>, marks: Seq<Set<usize>>) -> (Set<usize>, Set<usize>)
    decreases marks.len(),
{
    if marks.len() == 0 {
        (vertices(g), Set::empty())
    } else {
        let (live, members) = after_rounds(g, marks.drop_last());
        (next_live(g, live, marks.last()), next_members(g, live, members, marks.last()))
    }
}

/// For every graph and every outcome of the random marks, the set is
/// independent after any number of rounds, and once no vertex is live it
/// is a maximal independent set.
pub proof fn lemma_every_run_gives_mis(g: Seq<Seq<usize>>, marks: Seq<Set<usize>>)
    ensures
        between_rounds(g, after_rounds(g, marks).0, after_rounds(g, marks).1),
        is_independent(after_rounds(g, marks).1, g),
        after_rounds(g, marks).0.is_empty() ==> is_mis(after_rounds(g, marks).1, g),
    decreases marks.len(),
{
    if marks.len() == 0 {
        lemma_first_round(g);
    } else {
        lemma_every_run_gives_mis(g, marks.drop_last());
        let (live, members) = after_rounds(g, marks.drop_last());
        lemma_round_keeps_set_valid(g, live, members, marks.last());
    }
    if after_rounds(g, marks).0.is_empty() {
        lemma_finished_set_is_mis(g, after_rounds(g, marks).0, after_rounds(g, marks).1);
    }
}

/// A vertex's decision rule is the round's: when its views are exactly its
/// live neighbours, each holding that neighbour's mark, it joins exactly
/// when the round makes it join.
pub proof fn lemma_decision_is_round_rule(
    g: Seq<Seq<usize>>,
    live: Set<usize>,
    marked: Set<usize>,
    n: Node,
)
    requires
        live.contains(n.id),
        n.is_get_marked == marked.contains(n.id),
        forall|k: int|
            0 <= k < n.neighbors@.len() ==> {
                let c = #[trigger] n.neighbors@[k];
                &&& c.is_marked == marked.contains(c.id)
                &&& live.contains(c.id)
                &&& adjacent(g, n.id, c.id)
            },
        forall|u: usize| live.contains(u) && #[trigger] adjacent(g, n.id, u) ==> has_id(n.neighbors@, u),
    ensures
        n.joins() == round_joiners(g, live, marked).contains(n.id),
{
    if n.joins() {
        assert forall|u: usize| live.contains(u) && #[trigger] adjacent(g, n.id, u) implies !marked.contains(u) by {
            let k = choose|k: int| 0 <= k < n.neighbors@.len() && (#[trigger] n.neighbors@[k]).id == u;
            assert(!n.neighbors@[k].is_marked);
        }
    }
    if round_joiners(g, live, marked).contains(n.id) {
        assert forall|k: int| 0 <= k < n.neighbors@.len() implies !(#[trigger] n.neighbors@[k]).is_marked by {
            let c = n.neighbors@[k];
            assert(live.contains(c.id) && adjacent(g, n.id, c.id));
        }
    }
}

/// A vertex's round ends as the round model resolves it: when its
/// membership is whether the round makes it join, and its neighbours'
/// decisions say whether a live neighbour joins, it reports a terminal
/// record exactly when the model resolves it, in the set exactly when it
/// joined.
pub proof fn lemma_round_end_is_model_resolution(
    g: Seq<Seq<usize>>,
    live: Set<usize>,
    marked: Set<usize>,
    post: Node,
    id: usize,
    in_mis: bool,
    any_joined: bool,
    msgs: Seq<CentralMessage>,
)
    requires
        Node::round_end(post, id, in_mis, any_joined, msgs),
        live.contains(id),
        in_mis == round_joiners(g, live, marked).contains(id),
        any_joined == exists|u: usize|
            #![trigger adjacent(g, id, u)]
            round_joiners(g, live, marked).contains(u) && adjacent(g, id, u),
    ensures
        (msgs[0] is Finish) == round_resolved(g, live, round_joiners(g, live, marked)).contains(id),
        is_finish(msgs[0], id, true) == round_joiners(g, live, marked).contains(id),
{
}

/// A vertex's pruning follows the round model: when its views are its live
/// neighbours and the pruned ids are the vertices the round resolved, it
/// joins the set and reports its terminal record exactly when the model
/// leaves it alone.
pub proof fn lemma_pruning_is_model_isolation(
    g: Seq<Seq<usize>>,
    live: Set<usize>,
    joined: Set<usize>,
    pre: Node,
    ids: Seq<usize>,
    post: Node,
    out: Outbox,
)
    requires
        Node::pruned_by(pre, ids, post, out),
        pre.phase == Phase::Idle,
        live.contains(pre.id),
        !round_resolved(g, live, joined).contains(pre.id),
        forall|b: usize| has_id(pre.neighbors@, b) == (live.contains(b) && adjacent(g, pre.id, b)),
        forall|x: usize| ids.contains(x) == round_resolved(g, live, joined).contains(x),
    ensures
        ({
            let rest = live.difference(round_resolved(g, live, joined));
            &&& (out.to_coordinator@.len() == 2 && is_finish(out.to_coordinator@[1], pre.id, true))
                == left_alone(g, rest).contains(pre.id)
            &&& left_alone(g, rest).contains(pre.id) ==> post.is_in_mis && post.phase == Phase::Done
        }),
{
    let resolved = round_resolved(g, live, joined);
    let rest = live.difference(resolved);
    let s = pre.neighbors@;
    let left = without(s, ids);
    lemma_without(s, ids);
    assert(!ids.contains(pre.id));
    if left.len() == 0 {
        assert forall|u: usize| rest.contains(u) implies !#[trigger] adjacent(g, pre.id, u) by {
            if adjacent(g, pre.id, u) {
                assert(has_id(s, u));
                let k = choose|k: int| 0 <= k < s.len() && (#[trigger] s[k]).id == u;
                assert(!ids.contains(s[k].id));
                assert(left.contains(s[k]));
            }
        }
        assert(left_alone(g, rest).contains(pre.id));
    } else {
        let c = left[0];
        assert(!ids.contains(c.id));
        let j = choose|j: int| 0 <= j < s.len() && s[j] == left[0];
        assert(has_id(s, c.id));
        assert(rest.contains(c.id) && adjacent(g, pre.id, c.id));
        assert(!left_alone(g, rest).contains(pre.id));
        assert(out.to_coordinator@.len() == 1);
    }
}

} // verus!
