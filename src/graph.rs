//! Graphs as adjacency lists, and what an independent set and a maximal
//! independent set are in them.
//!
//! A graph is a list of neighbour lists indexed by vertex id. The adjacency
//! relation is the symmetric closure of the lists: `i` and `j` are adjacent
//! when either lists the other.

use vstd::prelude::*;

verus! {

/// Vertex `i` is a vertex of `g` and lists `j` among its neighbours.
pub open spec fn lists(g: Seq<Seq<usize>>, i: usize, j: usize) -> bool {
    (i as int) < g.len() && g[i as int].contains(j)
}

/// `i` and `j` are adjacent in `g`.
pub open spec fn adjacent(g: Seq<Seq<usize>>, i: usize, j: usize) -> bool {
    lists(g, i, j) || lists(g, j, i)
}

/// No two members of `m` are adjacent in `g`.
pub open spec fn is_independent(m: Set<usize>, g: Seq<Seq<usize>>) -> bool {
    forall|i: usize, j: usize|
        #![trigger m.contains(i), m.contains(j), adjacent(g, i, j)]
        m.contains(i) && m.contains(j) ==> !adjacent(g, i, j)
}

/// Some member of `m` is adjacent to `v` in `g`.
pub open spec fn has_member_neighbor(m: Set<usize>, g: Seq<Seq<usize>>, v: usize) -> bool {
    exists|u: usize| #[trigger] m.contains(u) && adjacent(g, v, u)
}

/// Every vertex of `g` outside `m` has a neighbour in `m`.
pub open spec fn is_maximal(m: Set<usize>, g: Seq<Seq<usize>>) -> bool {
    forall|v: usize|
        (v as int) < g.len() && !m.contains(v) ==> #[trigger] has_member_neighbor(m, g, v)
}

/// `m` is a maximal independent set of `g`.
pub open spec fn is_mis(m: Set<usize>, g: Seq<Seq<usize>>) -> bool {
    is_independent(m, g) && is_maximal(m, g)
}

/// Every listed neighbour is a vertex of `g`.
pub open spec fn ids_in_range(g: Seq<Seq<usize>>) -> bool {
    forall|i: int, k: int|
        0 <= i < g.len() && 0 <= k < g[i].len() ==> (#[trigger] g[i][k] as int) < g.len()
}

/// A copy of `g`.
pub fn copy_graph(g: &Vec<Vec<usize>>) -> (r: Vec<Vec<usize>>)
    ensures
        r.deep_view() == g.deep_view(),
{
    let mut r: Vec<Vec<usize>> = Vec::new();
    let mut i: usize = 0;
    while i < g.len()
        invariant
            i <= g.len(),
            r.len() == i,
            forall|k: int| 0 <= k < i ==> #[trigger] r[k]@ == g[k]@,
        decreases g.len() - i,
    {
        let row = copy_list(&g[i]);
        r.push(row);
        i = i + 1;
    }
    assert(r.deep_view() =~= g.deep_view());
    r
}

/// A copy of `v`.
pub fn copy_list(v: &Vec<usize>) -> (r: Vec<usize>)
    ensures
        r@ == v@,
{
    let mut r: Vec<usize> = Vec::new();
    let mut i: usize = 0;
    while i < v.len()
        invariant
            i <= v.len(),
            r@ == v@.subrange(0, i as int),
        decreases v.len() - i,
    {
        r.push(v[i]);
        i = i + 1;
        assert(r@ =~= v@.subrange(0, i as int));
    }
    assert(r@ =~= v@);
    r
}

/// Adjacency is recorded both ways: whoever is listed lists back.
pub open spec fn is_symmetric(g: Seq<Seq<usize>>) -> bool {
    forall|a: usize, b: usize| #[trigger] lists(g, a, b) ==> lists(g, b, a)
}

/// No vertex lists itself.
pub open spec fn is_loop_free(g: Seq<Seq<usize>>) -> bool {
    forall|a: usize| !#[trigger] lists(g, a, a)
}

/// No neighbour list holds an id twice.
pub open spec fn lists_distinct(g: Seq<Seq<usize>>) -> bool {
    forall|i: int| 0 <= i < g.len() ==> (#[trigger] g[i]).no_duplicates()
}

/// Every vertex has at most `d` neighbours.
pub open spec fn degrees_at_most(g: Seq<Seq<usize>>, d: nat) -> bool {
    forall|i: int| 0 <= i < g.len() ==> (#[trigger] g[i]).len() <= d
}

/// A simple undirected graph on its vertex ids: ids in range, symmetric,
/// loop free, no repeated neighbour.
pub open spec fn is_simple(g: Seq<Seq<usize>>) -> bool {
    &&& ids_in_range(g)
    &&& is_symmetric(g)
    &&& is_loop_free(g)
    &&& lists_distinct(g)
}

/// Whether `id` is one of `ids`.
pub fn contains_id(ids: &Vec<usize>, id: usize) -> (r: bool)
    ensures
        r == ids@.contains(id),
{
    let mut k: usize = 0;
    while k < ids.len()
        invariant
            k <= ids.len(),
            forall|j: int| 0 <= j < k ==> ids@[j] != id,
        decreases ids.len() - k,
    {
        if ids[k] == id {
            return true;
        }
        k = k + 1;
    }
    false
}

} // verus!
