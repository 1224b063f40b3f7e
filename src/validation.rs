//! Checking a result: is a set of vertices a maximal independent set?

use std::collections::HashSet;
use vstd::prelude::*;
use vstd::std_specs::hash::group_hash_axioms;

use crate::graph::{adjacent, copy_graph, has_member_neighbor, is_independent, is_maximal, is_mis, lists};

verus! {

broadcast use group_hash_axioms;

/// Relies on `HashSet::clone`: the copy holds the same elements.
#[verifier::external_body]
fn clone_id_set(s: &HashSet<usize>) -> (r: HashSet<usize>)
    ensures
        r@ == s@,
{
    s.clone()
}

/// A candidate set together with the graph it is checked against. The check
/// reads nothing else, so it gives the same answer however often it runs.
pub struct Verifier {
    pub mis: HashSet<usize>,
    pub graph: Vec<Vec<usize>>,
}

impl Verifier {
    /// A verifier of `mis` against `graph`, holding copies of both.
    pub fn new(mis: &HashSet<usize>, graph: &Vec<Vec<usize>>) -> (r: Verifier)
        ensures
            r.mis@ == mis@,
            r.graph.deep_view() == graph.deep_view(),
    {
        Verifier { mis: clone_id_set(mis), graph: copy_graph(graph) }
    }

    /// Whether no listed edge joins two members.
    fn check_independent(&self) -> (r: bool)
        ensures
            r == is_independent(self.mis@, self.graph.deep_view()),
    {
        let ghost g = self.graph.deep_view();
        let ghost m = self.mis@;
        let n = self.graph.len();
        let mut i: usize = 0;
        while i < n
            invariant
                n == self.graph.len() == g.len(),
                g == self.graph.deep_view(),
                m == self.mis@,
                i <= n,
                forall|a: usize, b: usize|
                    (a as int) < i && #[trigger] lists(g, a, b) ==> !(m.contains(a) && m.contains(b)),
            decreases n - i,
        {
            if self.mis.contains(&i) {
                let row = &self.graph[i];
                assert(row@ == g[i as int]);
                let mut k: usize = 0;
                while k < row.len()
                    invariant
                        g == self.graph.deep_view(),
                        i < g.len(),
                        row@ == g[i as int],
                        m == self.mis@,
                        m.contains(i),
                        k <= row.len(),
                        forall|j: int| 0 <= j < k ==> !m.contains(#[trigger] row@[j]),
                    decreases row.len() - k,
                {
                    let b = row[k];
                    if self.mis.contains(&b) {
                        assert(row@[k as int] == b);
                        assert(lists(g, i, b));
                        assert(adjacent(g, i, b));
                        return false;
                    }
                    k = k + 1;
                }
                proof {
                    assert forall|b: usize| #[trigger] lists(g, i, b) implies !m.contains(b) by {
                        let j = choose|j: int| 0 <= j < row@.len() && row@[j] == b;
                    }
                }
            }
            i = i + 1;
        }
        assert forall|a: usize, b: usize|
            m.contains(a) && m.contains(b) implies !#[trigger] adjacent(g, a, b) by {
            if lists(g, a, b) {
            }
            if lists(g, b, a) {
            }
        }
        true
    }

    /// Whether every vertex outside the set has a neighbour inside it.
    fn check_maximal(&self) -> (r: bool)
        ensures
            r == is_maximal(self.mis@, self.graph.deep_view()),
    {
        let ghost g = self.graph.deep_view();
        let ghost m = self.mis@;
        let n = self.graph.len();
        let mut covered: Vec<bool> = Vec::new();
        let mut c: usize = 0;
        while c < n
            invariant
                c <= n,
                covered.len() == c,
                forall|v: int| 0 <= v < c ==> !#[trigger] covered[v],
            decreases n - c,
        {
            covered.push(false);
            c = c + 1;
        }
        let mut i: usize = 0;
        while i < n
            invariant
                n == self.graph.len() == g.len(),
                g == self.graph.deep_view(),
                m == self.mis@,
                i <= n,
                covered.len() == n,
                forall|v: usize|
                    (v as int) < n && #[trigger] covered[v as int] ==> m.contains(v)
                        || has_member_neighbor(m, g, v),
                forall|a: usize, v: usize|
                    (a as int) < i && m.contains(a) && (v as int) < n && #[trigger] lists(g, a, v)
                        ==> covered[v as int],
                forall|a: usize| (a as int) < i && m.contains(a) ==> #[trigger] covered[a as int],
                forall|a: usize, b: usize|
                    (a as int) < i && m.contains(b) && #[trigger] lists(g, a, b)
                        ==> covered[a as int],
            decreases n - i,
        {
            let row = &self.graph[i];
            assert(row@ == g[i as int]);
            let in_set = self.mis.contains(&i);
            if in_set {
                covered.set(i, true);
            }
            let mut k: usize = 0;
            while k < row.len()
                invariant
                    n == self.graph.len() == g.len(),
                    g == self.graph.deep_view(),
                    m == self.mis@,
                    i < n,
                    row@ == g[i as int],
                    in_set == m.contains(i),
                    k <= row.len(),
                    covered.len() == n,
                    forall|v: usize|
                        (v as int) < n && #[trigger] covered[v as int] ==> m.contains(v)
                            || has_member_neighbor(m, g, v),
                    forall|a: usize, v: usize|
                        (a as int) < i && m.contains(a) && (v as int) < n && #[trigger] lists(g, a, v)
                            ==> covered[v as int],
                    forall|a: usize| (a as int) <= i && m.contains(a) ==> #[trigger] covered[a as int],
                    forall|a: usize, b: usize|
                        (a as int) < i && m.contains(b) && #[trigger] lists(g, a, b)
                            ==> covered[a as int],
                    forall|j: int|
                        0 <= j < k && in_set && (#[trigger] row@[j] as int) < n ==> covered[row@[j] as int],
                    forall|j: int|
                        0 <= j < k && m.contains(#[trigger] row@[j]) ==> covered[i as int],
                decreases row.len() - k,
            {
                let b = row[k];
                assert(row@[k as int] == b);
                if in_set {
                    if b < n {
                        assert(lists(g, i, b));
                        assert(adjacent(g, b, i));
                        covered.set(b, true);
                    }
                } else if self.mis.contains(&b) {
                    assert(lists(g, i, b));
                    assert(adjacent(g, i, b));
                    covered.set(i, true);
                }
                k = k + 1;
            }
            proof {
                assert forall|a: usize, v: usize|
                    (a as int) < i + 1 && m.contains(a) && (v as int) < n && #[trigger] lists(g, a, v)
                    implies covered[v as int] by {
                    if a == i {
                        let j = choose|j: int| 0 <= j < row@.len() && row@[j] == v;
                    }
                }
                assert forall|a: usize, b: usize|
                    (a as int) < i + 1 && m.contains(b) && #[trigger] lists(g, a, b)
                    implies covered[a as int] by {
                    if a == i {
                        let j = choose|j: int| 0 <= j < row@.len() && row@[j] == b;
                    }
                }
            }
            i = i + 1;
        }
        let mut v: usize = 0;
        while v < n
            invariant
                n == self.graph.len() == g.len(),
                g == self.graph.deep_view(),
                m == self.mis@,
                v <= n,
                covered.len() == n,
                forall|w: usize|
                    (w as int) < n && #[trigger] covered[w as int] ==> m.contains(w)
                        || has_member_neighbor(m, g, w),
                forall|a: usize, w: usize|
                    (a as int) < n && m.contains(a) && (w as int) < n && #[trigger] lists(g, a, w)
                        ==> covered[w as int],
                forall|a: usize| (a as int) < n && m.contains(a) ==> #[trigger] covered[a as int],
                forall|a: usize, b: usize|
                    (a as int) < n && m.contains(b) && #[trigger] lists(g, a, b)
                        ==> covered[a as int],
                forall|w: usize| (w as int) < v ==> #[trigger] covered[w as int],
            decreases n - v,
        {
            if !covered[v] {
                proof {
                    assert(!m.contains(v));
                    if has_member_neighbor(m, g, v) {
                        let u = choose|u: usize| #[trigger] m.contains(u) && adjacent(g, v, u);
                        if lists(g, v, u) {
                        } else {
                            assert(lists(g, u, v));
                        }
                    }
                }
                return false;
            }
            v = v + 1;
        }
        assert forall|w: usize|
            (w as int) < g.len() && !m.contains(w) implies #[trigger] has_member_neighbor(m, g, w) by {
            assert(covered[w as int]);
        }
        true
    }

    /// Whether the set is independent and maximal in the graph.
    pub fn verify(&self) -> (r: bool)
        ensures
            r == is_mis(self.mis@, self.graph.deep_view()),
    {
        self.check_independent() && self.check_maximal()
    }
}

} // verus!
