//! The graph source: random graphs with a bound on the degree.

use vstd::prelude::*;

use crate::graph::{
    contains_id, copy_graph, copy_list, degrees_at_most, ids_in_range, is_loop_free, is_simple,
    is_symmetric, lists, lists_distinct,
};
use crate::random::random_below;

verus! {

/// Vertex `i` of `g` has a neighbour, or every other vertex already has
/// `d` neighbours.
pub open spec fn has_neighbor_or_rest_full(g: Seq<Seq<usize>>, i: int, d: nat) -> bool {
    g[i].len() >= 1 || forall|j: int| 0 <= j < g.len() && j != i ==> #[trigger] g[j].len() == d
}

/// Holds the graph it made last.
pub struct Creater {
    pub graph: Vec<Vec<usize>>,
}

impl Creater {
    /// A source that has made no graph yet.
    pub fn new() -> (r: Creater)
        ensures
            r.graph@.len() == 0,
    {
        Creater { graph: Vec::new() }
    }

    /// A copy of the graph made last.
    pub fn get_graph(&self) -> (r: Vec<Vec<usize>>)
        ensures
            r.deep_view() == self.graph.deep_view(),
    {
        copy_graph(&self.graph)
    }

    /// The largest number of neighbours of a vertex; 0 for no vertex.
    pub fn get_max_degree(&self) -> (r: usize)
        ensures
            forall|i: int| 0 <= i < self.graph.len() ==> (#[trigger] self.graph@[i]).len() <= r,
            r == 0 || exists|i: int| 0 <= i < self.graph.len() && (#[trigger] self.graph@[i]).len() == r,
    {
        let mut max_degree: usize = 0;
        let mut i: usize = 0;
        while i < self.graph.len()
            invariant
                i <= self.graph.len(),
                forall|j: int| 0 <= j < i ==> (#[trigger] self.graph@[j]).len() <= max_degree,
                max_degree == 0 || exists|j: int| 0 <= j < i && (#[trigger] self.graph@[j]).len() == max_degree,
            decreases self.graph.len() - i,
        {
            let neighbor_len = self.graph[i].len();
            if neighbor_len > max_degree {
                max_degree = neighbor_len;
            }
            i = i + 1;
        }
        max_degree
    }

    /// Makes a random simple graph on `num_node` vertices whose degrees stay
    /// within `num_degree`. Each vertex in turn draws a target in
    /// `1..num_degree` and takes neighbours uniformly from the vertices that
    /// are not yet its neighbours and still have room, until it has that
    /// many or none is left. The graph is kept and a copy returned.
    pub fn generate(&mut self, num_node: usize, num_degree: usize) -> (r: Vec<Vec<usize>>)
        requires
            num_node == 0 || num_degree >= 2,
        ensures
            r.deep_view() == final(self).graph.deep_view(),
            r.len() == num_node,
            is_simple(r.deep_view()),
            degrees_at_most(r.deep_view(), num_degree as nat),
            forall|i: int|
                0 <= i < num_node ==> #[trigger] has_neighbor_or_rest_full(
                    r.deep_view(),
                    i,
                    num_degree as nat,
                ),
    {
        let mut graph: Vec<Vec<usize>> = Vec::new();
        let mut c: usize = 0;
        while c < num_node
            invariant
                c <= num_node,
                graph.len() == c,
                forall|j: int| 0 <= j < c ==> (#[trigger] graph@[j])@.len() == 0,
            decreases num_node - c,
        {
            graph.push(Vec::new());
            c = c + 1;
        }
        proof {
            assert forall|a: usize, b: usize| !#[trigger] lists(graph.deep_view(), a, b) by {
                if (a as int) < graph.len() {
                    assert(graph.deep_view()[a as int] =~= graph@[a as int]@);
                }
            }
        }
        let mut i: usize = 0;
        while i < num_node
            invariant
                i <= num_node,
                num_node == 0 || num_degree >= 2,
                graph.len() == num_node,
                is_simple(graph.deep_view()),
                degrees_at_most(graph.deep_view(), num_degree as nat),
                forall|a: int|
                    0 <= a < i ==> #[trigger] has_neighbor_or_rest_full(
                        graph.deep_view(),
                        a,
                        num_degree as nat,
                    ),
            decreases num_node - i,
        {
            let num_neighbor = random_below(1, num_degree);
            while graph[i].len() < num_neighbor
                invariant
                    i < num_node,
                    1 <= num_neighbor < num_degree,
                    graph.len() == num_node,
                    is_simple(graph.deep_view()),
                    degrees_at_most(graph.deep_view(), num_degree as nat),
                    forall|a: int|
                        0 <= a < i ==> #[trigger] has_neighbor_or_rest_full(
                            graph.deep_view(),
                            a,
                            num_degree as nat,
                        ),
                ensures
                    graph.len() == num_node,
                    is_simple(graph.deep_view()),
                    degrees_at_most(graph.deep_view(), num_degree as nat),
                    forall|a: int|
                        0 <= a <= i ==> #[trigger] has_neighbor_or_rest_full(
                            graph.deep_view(),
                            a,
                            num_degree as nat,
                        ),
                decreases num_neighbor - graph@[i as int].len(),
            {
                let candidates = self.candidates(&graph, i, num_degree);
                if candidates.len() == 0 {
                    proof {
                        let g = graph.deep_view();
                        assert(g[i as int] == graph@[i as int]@);
                        if g[i as int].len() == 0 {
                            assert forall|j: int| 0 <= j < g.len() && j != i implies #[trigger] g[j].len()
                                == num_degree as nat by {
                                assert(g[j] == graph@[j]@);
                                assert(!graph@[i as int]@.contains(j as usize));
                            }
                        }
                        assert(has_neighbor_or_rest_full(g, i as int, num_degree as nat));
                    }
                    break;
                }
                let n = candidates[random_below(0, candidates.len())];
                let ghost g0 = graph.deep_view();
                add_edge(&mut graph, i, n, num_degree);
                proof {
                    let g = graph.deep_view();
                    assert forall|a: int| 0 <= a < i implies #[trigger] has_neighbor_or_rest_full(
                        g,
                        a,
                        num_degree as nat,
                    ) by {
                        assert(has_neighbor_or_rest_full(g0, a, num_degree as nat));
                        assert(g[a].len() >= g0[a].len());
                        if g0[a].len() == 0 {
                            assert forall|j: int| 0 <= j < g.len() && j != a implies #[trigger] g[j].len()
                                == num_degree as nat by {
                                assert(g0[j].len() == num_degree as nat);
                                assert(g[j].len() >= g0[j].len());
                            }
                        }
                    }
                }
            }
            proof {
                let g = graph.deep_view();
                assert(g[i as int] == graph@[i as int]@);
            }
            i = i + 1;
        }
        let r = copy_graph(&graph);
        self.graph = graph;
        r
    }

    /// The vertices that `i` may take as a new neighbour: not `i`, not yet
    /// its neighbour, with fewer than `num_degree` neighbours.
    fn candidates(&self, graph: &Vec<Vec<usize>>, i: usize, num_degree: usize) -> (r: Vec<usize>)
        requires
            i < graph.len(),
        ensures
            forall|k: int|
                0 <= k < r.len() ==> {
                    let n = #[trigger] r@[k];
                    &&& n < graph.len()
                    &&& n != i
                    &&& !graph@[i as int]@.contains(n)
                    &&& graph@[n as int]@.len() < num_degree
                },
            r.len() == 0 ==> forall|m: int|
                0 <= m < graph.len() && m != i ==> graph@[i as int]@.contains(m as usize)
                    || #[trigger] graph@[m]@.len() >= num_degree,
    {
        let mut r: Vec<usize> = Vec::new();
        let mut n: usize = 0;
        while n < graph.len()
            invariant
                i < graph.len(),
                n <= graph.len(),
                forall|k: int|
                    0 <= k < r.len() ==> {
                        let m = #[trigger] r@[k];
                        &&& m < graph.len()
                        &&& m != i
                        &&& !graph@[i as int]@.contains(m)
                        &&& graph@[m as int]@.len() < num_degree
                    },
                r.len() == 0 ==> forall|m: int|
                    0 <= m < n && m != i ==> graph@[i as int]@.contains(m as usize)
                        || #[trigger] graph@[m]@.len() >= num_degree,
            decreases graph.len() - n,
        {
            if n != i && graph[n].len() < num_degree && !contains_id(&graph[i], n) {
                r.push(n);
            }
            n = n + 1;
        }
        r
    }
}

/// Adds the edge between `i` and `n`, keeping the graph simple and the
/// degrees within `num_degree`.
fn add_edge(graph: &mut Vec<Vec<usize>>, i: usize, n: usize, num_degree: usize)
    requires
        i < old(graph).len(),
        n < old(graph).len(),
        n != i,
        !old(graph)@[i as int]@.contains(n),
        old(graph)@[n as int]@.len() < num_degree,
        old(graph)@[i as int]@.len() < num_degree,
        is_simple(old(graph).deep_view()),
        degrees_at_most(old(graph).deep_view(), num_degree as nat),
    ensures
        final(graph).len() == old(graph).len(),
        is_simple(final(graph).deep_view()),
        degrees_at_most(final(graph).deep_view(), num_degree as nat),
        final(graph)@[i as int]@.len() == old(graph)@[i as int]@.len() + 1,
        forall|v: int|
            0 <= v < final(graph).len() ==> (#[trigger] final(graph).deep_view()[v]).len()
                >= old(graph).deep_view()[v].len(),
{
    let ghost g0 = graph.deep_view();
    assert(g0[i as int] == graph@[i as int]@);
    assert(g0[n as int] == graph@[n as int]@);
    assert(!lists(g0, i, n));
    assert(!lists(g0, n, i));
    let mut row_i = copy_list(&graph[i]);
    row_i.push(n);
    let mut row_n = copy_list(&graph[n]);
    row_n.push(i);
    graph.set(i, row_i);
    graph.set(n, row_n);
    let ghost g = graph.deep_view();
    proof {
        assert(g.len() == g0.len());
        assert forall|v: int| 0 <= v < g.len() implies #[trigger] g[v] == if v == i {
            g0[v].push(n)
        } else if v == n {
            g0[v].push(i)
        } else {
            g0[v]
        } by {
            assert(g[v] =~= graph@[v]@);
            if v != i && v != n {
                assert(g0[v] =~= old(graph)@[v]@);
            }
        }
        assert forall|a: usize, b: usize| lists(g, a, b) == (lists(g0, a, b) || (a == i && b == n) || (a
            == n && b == i)) by {
            if (a as int) < g.len() {
                let ra = g[a as int];
                if a == i {
                    assert(ra == g0[a as int].push(n));
                    assert(ra.contains(b) == (g0[a as int].contains(b) || b == n)) by {
                        if ra.contains(b) {
                            let k = choose|k: int| 0 <= k < ra.len() && ra[k] == b;
                            if k < g0[a as int].len() {
                                assert(g0[a as int][k] == b);
                            }
                        }
                        if g0[a as int].contains(b) {
                            let k = choose|k: int| 0 <= k < g0[a as int].len() && g0[a as int][k] == b;
                            assert(ra[k] == b);
                        }
                        if b == n {
                            assert(ra[ra.len() - 1] == b);
                        }
                    }
                } else if a == n {
                    assert(ra == g0[a as int].push(i));
                    assert(ra.contains(b) == (g0[a as int].contains(b) || b == i)) by {
                        if ra.contains(b) {
                            let k = choose|k: int| 0 <= k < ra.len() && ra[k] == b;
                            if k < g0[a as int].len() {
                                assert(g0[a as int][k] == b);
                            }
                        }
                        if g0[a as int].contains(b) {
                            let k = choose|k: int| 0 <= k < g0[a as int].len() && g0[a as int][k] == b;
                            assert(ra[k] == b);
                        }
                        if b == i {
                            assert(ra[ra.len() - 1] == b);
                        }
                    }
                }
            }
        }
        assert forall|v: int, k: int| 0 <= v < g.len() && 0 <= k < g[v].len() implies (#[trigger] g[v][k]
            as int) < g.len() by {
            if k < g0[v].len() {
                assert(g[v][k] == g0[v][k]);
            }
        }
        assert forall|v: int| 0 <= v < g.len() implies (#[trigger] g[v]).no_duplicates() by {
            if v == i || v == n {
                let x = if v == i { n } else { i };
                assert(!g0[v].contains(x)) by {
                    if v == i {
                        assert(!lists(g0, i, n));
                    } else {
                        assert(!lists(g0, n, i));
                    }
                }
                assert forall|p: int, q: int| 0 <= p < g[v].len() && 0 <= q < g[v].len() && p != q
                    implies g[v][p] != g[v][q] by {
                    if p < g0[v].len() && q < g0[v].len() {
                    } else if p < g0[v].len() {
                        assert(g0[v].contains(g[v][p]));
                    } else {
                        assert(g0[v].contains(g[v][q]));
                    }
                }
            }
        }
        assert(is_symmetric(g));
        assert(is_loop_free(g));
        assert(ids_in_range(g));
        assert(lists_distinct(g));
    }
}

} // verus!
