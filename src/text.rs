//! The adjacency-list text format: one line per vertex in id order, each
//! the vertex's id and then its neighbours' ids, every number followed by a
//! space, in decimal.

use vstd::prelude::*;

use crate::graph::{
    contains_id, ids_in_range, is_loop_free, is_simple, is_symmetric, lists, lists_distinct,
};

verus! {

/// The decimal digits of `n`, most significant first.
pub open spec fn decimal(n: nat) -> Seq<u8>
    decreases n,
{
    if n < 10 {
        seq![(48 + n) as u8]
    } else {
        decimal(n / 10).push((48 + n % 10) as u8)
    }
}

/// Each id of `ids` in decimal, followed by a space.
pub open spec fn numbers_text(ids: Seq<usize>) -> Seq<u8>
    decreases ids.len(),
{
    if ids.len() == 0 {
        Seq::empty()
    } else {
        numbers_text(ids.drop_last()) + decimal(ids.last() as nat) + seq![32u8]
    }
}

/// The line of vertex `id` with neighbours `ns`, newline included.
pub open spec fn line_text(id: usize, ns: Seq<usize>) -> Seq<u8> {
    numbers_text(seq![id] + ns) + seq![10u8]
}

/// The text of graph `g`.
pub open spec fn graph_text(g: Seq<Seq<usize>>) -> Seq<u8>
    decreases g.len(),
{
    if g.len() == 0 {
        Seq::empty()
    } else {
        graph_text(g.drop_last()) + line_text((g.len() - 1) as usize, g.last())
    }
}

/// Why an adjacency text was refused.
#[derive(Clone, Copy, Debug, PartialEq, Eq, Structural)]
pub enum MalformedInput {
    /// The text is not lines of decimal numbers each followed by a space,
    /// or a line does not start with its own id.
    BadLine(usize),
    /// A vertex lists an id that is no vertex.
    OutOfRange(usize),
    /// A vertex lists a neighbour that does not list it back.
    Asymmetric(usize, usize),
    /// A vertex lists itself.
    SelfLoop(usize),
    /// A vertex lists a neighbour twice.
    Repeated(usize, usize),
}

/// Appends the decimal digits of `n`.
pub fn push_decimal(out: &mut Vec<u8>, n: usize)
    ensures
        final(out)@ == old(out)@ + decimal(n as nat),
    decreases n,
{
    if n >= 10 {
        push_decimal(out, n / 10);
    }
    let d: u8 = (n % 10) as u8;
    out.push(48u8 + d);
    proof {
        if n >= 10 {
            assert(decimal(n as nat) == decimal((n / 10) as nat).push((48 + n % 10) as u8));
        }
    }
    assert(final(out)@ =~= old(out)@ + decimal(n as nat));
}

/// The text of `graph`.
pub fn format_graph(graph: &Vec<Vec<usize>>) -> (r: Vec<u8>)
    ensures
        r@ == graph_text(graph.deep_view()),
{
    let ghost g = graph.deep_view();
    let mut out: Vec<u8> = Vec::new();
    let mut i: usize = 0;
    while i < graph.len()
        invariant
            g == graph.deep_view(),
            i <= graph.len(),
            out@ == graph_text(g.subrange(0, i as int)),
        decreases graph.len() - i,
    {
        let ghost before = out@;
        let row = &graph[i];
        assert(row@ == g[i as int]);
        push_decimal(&mut out, i);
        out.push(32u8);
        proof {
            assert(seq![i] + row@.subrange(0, 0) =~= seq![i]);
            assert(seq![i].drop_last() =~= Seq::<usize>::empty());
            assert(numbers_text(seq![i]) =~= numbers_text(Seq::<usize>::empty()) + decimal(i as nat)
                + seq![32u8]);
            assert(out@ =~= before + numbers_text(seq![i] + row@.subrange(0, 0)));
        }
        let mut k: usize = 0;
        while k < row.len()
            invariant
                k <= row.len(),
                out@ == before + numbers_text(seq![i] + row@.subrange(0, k as int)),
            decreases row.len() - k,
        {
            push_decimal(&mut out, row[k]);
            out.push(32u8);
            k = k + 1;
            proof {
                let s = seq![i] + row@.subrange(0, k as int);
                assert(s.drop_last() =~= seq![i] + row@.subrange(0, k - 1));
                assert(out@ =~= before + numbers_text(s));
            }
        }
        out.push(10u8);
        i = i + 1;
        proof {
            assert(row@.subrange(0, k as int) =~= row@);
            let p = g.subrange(0, i as int);
            assert(p.drop_last() =~= g.subrange(0, i - 1));
            assert(out@ =~= graph_text(p));
        }
    }
    assert(g.subrange(0, i as int) =~= g);
    out
}

/// Checks that `graph` is simple: every listed id a vertex, every edge
/// listed both ways, no vertex listing itself, no neighbour listed twice.
pub fn validate_graph(graph: &Vec<Vec<usize>>) -> (r: Result<(), MalformedInput>)
    ensures
        r is Ok == is_simple(graph.deep_view()),
        r is Err ==> !(r->Err_0 is BadLine),
{
    let ghost g = graph.deep_view();
    let n = graph.len();
    let mut i: usize = 0;
    while i < n
        invariant
            g == graph.deep_view(),
            n == g.len(),
            i <= n,
            forall|a: int, k: int|
                0 <= a < i && 0 <= k < g[a].len() ==> (#[trigger] g[a][k] as int) < n,
            forall|a: usize, b: usize| (a as int) < i && #[trigger] lists(g, a, b) ==> lists(g, b, a),
            forall|a: usize| (a as int) < i ==> !#[trigger] lists(g, a, a),
            forall|a: int| 0 <= a < i ==> (#[trigger] g[a]).no_duplicates(),
        decreases n - i,
    {
        let row = &graph[i];
        assert(row@ == g[i as int]);
        let mut k: usize = 0;
        while k < row.len()
            invariant
                g == graph.deep_view(),
                n == g.len(),
                i < n,
                row@ == g[i as int],
                k <= row.len(),
                forall|j: int| 0 <= j < k ==> (#[trigger] row@[j] as int) < n,
                forall|j: int| 0 <= j < k ==> lists(g, #[trigger] row@[j], i),
                forall|j: int| 0 <= j < k ==> #[trigger] row@[j] != i,
                forall|j1: int, j2: int| 0 <= j1 < k && 0 <= j2 < k && j1 != j2 ==> row@[j1] != row@[j2],
            decreases row.len() - k,
        {
            let b = row[k];
            if b >= n {
                assert(g[i as int][k as int] == b);
                return Err(MalformedInput::OutOfRange(b));
            }
            if b == i {
                assert(lists(g, i, i));
                return Err(MalformedInput::SelfLoop(i));
            }
            let back = &graph[b];
            assert(back@ == g[b as int]);
            if !contains_id(back, i) {
                assert(lists(g, i, b));
                return Err(MalformedInput::Asymmetric(i, b));
            }
            let mut j: usize = 0;
            while j < k
                invariant
                    g == graph.deep_view(),
                    n == g.len(),
                    i < n,
                    row@ == g[i as int],
                    j <= k < row.len(),
                    b == row@[k as int],
                    forall|m: int| 0 <= m < j ==> row@[m] != b,
                decreases k - j,
            {
                if row[j] == b {
                    assert(!g[i as int].no_duplicates());
                    return Err(MalformedInput::Repeated(i, b));
                }
                j = j + 1;
            }
            k = k + 1;
        }
        proof {
            assert forall|b: usize| #[trigger] lists(g, i, b) implies lists(g, b, i) by {
                let j = choose|j: int| 0 <= j < row@.len() && row@[j] == b;
            }
            if lists(g, i, i) {
                let j = choose|j: int| 0 <= j < row@.len() && row@[j] == i;
            }
        }
        i = i + 1;
    }
    proof {
        assert forall|a: usize, b: usize| #[trigger] lists(g, a, b) implies lists(g, b, a) by {}
        assert(is_symmetric(g));
        assert(is_loop_free(g));
        assert(ids_in_range(g));
        assert(lists_distinct(g));
    }
    Ok(())
}

/// Whether `a` and `b` hold the same bytes.
fn same_bytes(a: &Vec<u8>, b: &Vec<u8>) -> (r: bool)
    ensures
        r == (a@ == b@),
{
    if a.len() != b.len() {
        return false;
    }
    let mut k: usize = 0;
    while k < a.len()
        invariant
            a.len() == b.len(),
            k <= a.len(),
            forall|j: int| 0 <= j < k ==> a@[j] == b@[j],
        decreases a.len() - k,
    {
        if a[k] != b[k] {
            return false;
        }
        k = k + 1;
    }
    assert(a@ =~= b@);
    true
}

/// `c` is a decimal digit.
pub open spec fn is_digit(c: u8) -> bool {
    48 <= c <= 57
}

/// The number that the digits `s` write.
pub open spec fn digits_value(s: Seq<u8>) -> nat
    decreases s.len(),
{
    if s.len() == 0 {
        0
    } else {
        digits_value(s.drop_last()) * 10 + (s.last() - 48) as nat
    }
}

/// `text` holds `part` at `pos`.
pub open spec fn holds_at(text: Seq<u8>, pos: int, part: Seq<u8>) -> bool {
    0 <= pos && pos + part.len() <= text.len() && text.subrange(pos, pos + part.len()) == part
}

/// The digits of `n` are digits, at least one, and write `n`.
pub proof fn lemma_decimal(n: nat)
    ensures
        decimal(n).len() >= 1,
        forall|k: int| 0 <= k < decimal(n).len() ==> is_digit(#[trigger] decimal(n)[k]),
        digits_value(decimal(n)) == n,
    decreases n,
{
    if n >= 10 {
        lemma_decimal(n / 10);
        let d = decimal(n);
        assert(d.drop_last() =~= decimal(n / 10));
        assert(d.last() == (48 + n % 10) as u8);
        assert((n / 10) * 10 + n % 10 == n);
        assert(digits_value(d) == digits_value(decimal(n / 10)) * 10 + (d.last() - 48) as nat);
        assert forall|k: int| 0 <= k < d.len() implies is_digit(#[trigger] d[k]) by {
            if k < d.len() - 1 {
                assert(d[k] == decimal(n / 10)[k]);
            }
        }
    } else {
        let d = seq![(48 + n) as u8];
        assert(d.drop_last() =~= Seq::<u8>::empty());
        assert(digits_value(d) == digits_value(d.drop_last()) * 10 + (d.last() - 48) as nat);
    }
}

/// A prefix of digits writes at most what the whole writes.
pub proof fn lemma_digits_prefix(s: Seq<u8>, k: int)
    requires
        0 <= k <= s.len(),
        forall|j: int| 0 <= j < s.len() ==> is_digit(#[trigger] s[j]),
    ensures
        digits_value(s.subrange(0, k)) <= digits_value(s),
    decreases s.len() - k,
{
    if k < s.len() {
        lemma_digits_prefix(s, k + 1);
        let p = s.subrange(0, k + 1);
        assert(p.drop_last() =~= s.subrange(0, k));
        assert(digits_value(p) == digits_value(s.subrange(0, k)) * 10 + (p.last() - 48) as nat);
    } else {
        assert(s.subrange(0, k) =~= s);
    }
}

/// The numbers' text grows by one number at a time.
pub proof fn lemma_numbers_step(ids: Seq<usize>, t: int)
    requires
        0 <= t < ids.len(),
    ensures
        numbers_text(ids.subrange(0, t + 1)) == numbers_text(ids.subrange(0, t)) + decimal(
            ids[t] as nat,
        ) + seq![32u8],
{
    assert(ids.subrange(0, t + 1).drop_last() =~= ids.subrange(0, t));
}

/// The graph's text grows by one line at a time.
pub proof fn lemma_graph_step(g: Seq<Seq<usize>>, i: int)
    requires
        0 <= i < g.len(),
    ensures
        graph_text(g.subrange(0, i + 1)) == graph_text(g.subrange(0, i)) + line_text(i as usize, g[i]),
{
    assert(g.subrange(0, i + 1).drop_last() =~= g.subrange(0, i));
}

/// The text of the first lines is a prefix of the graph's text.
pub proof fn lemma_graph_prefix(g: Seq<Seq<usize>>, i: int)
    requires
        0 <= i <= g.len(),
    ensures
        holds_at(graph_text(g), 0, graph_text(g.subrange(0, i))),
    decreases g.len() - i,
{
    if i < g.len() {
        lemma_graph_prefix(g, i + 1);
        lemma_graph_step(g, i);
        let a = graph_text(g.subrange(0, i));
        let b = graph_text(g.subrange(0, i + 1));
        assert(b.subrange(0, a.len() as int) =~= a);
        assert(graph_text(g).subrange(0, a.len() as int) =~= b.subrange(0, a.len() as int));
    } else {
        assert(g.subrange(0, i) =~= g);
        assert(graph_text(g).subrange(0, graph_text(g).len() as int) =~= graph_text(g));
    }
}

/// Reads the decimal number that starts at `pos`: its value and the
/// position after its last digit. `None` when no digit is there or the
/// number does not fit in `usize`.
fn parse_number(text: &Vec<u8>, pos: usize) -> (r: Option<(usize, usize)>)
    requires
        pos <= text.len(),
    ensures
        match r {
            Some((v, e)) => pos < e <= text.len(),
            None => true,
        },
        forall|n: usize|
            holds_at(text@, pos as int, decimal(n as nat)) && pos + decimal(n as nat).len()
                < text.len() && !is_digit(#[trigger] text@[pos + decimal(n as nat).len()])
                ==> r == Some((n, (pos + decimal(n as nat).len()) as usize)),
{
    let mut number: usize = 0;
    let mut k: usize = pos;
    while k < text.len() && 48u8 <= text[k] && text[k] <= 57u8
        invariant
            pos <= k <= text.len(),
            forall|j: int| pos <= j < k ==> is_digit(#[trigger] text@[j]),
            number as nat == digits_value(text@.subrange(pos as int, k as int)),
            forall|n: usize|
                holds_at(text@, pos as int, decimal(n as nat)) && pos + decimal(n as nat).len()
                    < text.len() && !is_digit(#[trigger] text@[pos + decimal(n as nat).len()])
                    ==> k <= pos + decimal(n as nat).len(),
        decreases text.len() - k,
    {
        let d = (text[k] - 48u8) as usize;
        let ghost p = text@.subrange(pos as int, k + 1);
        proof {
            assert(p.drop_last() =~= text@.subrange(pos as int, k as int));
            assert(digits_value(p) == number * 10 + d);
        }
        if number > (usize::MAX - d) / 10 {
            proof {
                assert(number * 10 + d > usize::MAX) by (nonlinear_arith)
                    requires
                        number > (usize::MAX - d) / 10,
                        d <= 9,
                ;
                assert forall|n: usize|
                    holds_at(text@, pos as int, decimal(n as nat)) && pos + decimal(n as nat).len()
                        < text.len() implies is_digit(#[trigger] text@[pos + decimal(n as nat).len()]) by {
                    let dn = decimal(n as nat);
                    if k + 1 <= pos + dn.len() {
                        lemma_decimal(n as nat);
                        lemma_digits_prefix(dn, k + 1 - pos);
                        assert(dn.subrange(0, k + 1 - pos) =~= p);
                    }
                }
            }
            return None;
        }
        proof {
            assert(number * 10 + d <= usize::MAX) by (nonlinear_arith)
                requires
                    number <= (usize::MAX - d) / 10,
                    d <= 9,
            ;
        }
        number = number * 10 + d;
        k = k + 1;
        proof {
            assert forall|n: usize|
                holds_at(text@, pos as int, decimal(n as nat)) && pos + decimal(n as nat).len()
                    < text.len() && !is_digit(#[trigger] text@[pos + decimal(n as nat).len()])
                    implies k <= pos + decimal(n as nat).len() by {
                let e = pos + decimal(n as nat).len();
                if k > e {
                    assert(is_digit(text@[e]));
                }
            }
        }
    }
    if k == pos {
        proof {
            assert forall|n: usize|
                holds_at(text@, pos as int, decimal(n as nat)) && pos + decimal(n as nat).len()
                    < text.len() implies is_digit(#[trigger] text@[pos + decimal(n as nat).len()]) by {
                lemma_decimal(n as nat);
                assert(text@[pos as int] == decimal(n as nat)[0]);
            }
        }
        return None;
    }
    proof {
        assert forall|n: usize|
            holds_at(text@, pos as int, decimal(n as nat)) && pos + decimal(n as nat).len()
                < text.len() && !is_digit(#[trigger] text@[pos + decimal(n as nat).len()])
                implies (number, k) == (n, (pos + decimal(n as nat).len()) as usize) by {
            let dn = decimal(n as nat);
            lemma_decimal(n as nat);
            if k < pos + dn.len() {
                assert(text@[k as int] == dn[k - pos]);
            }
            assert(text@.subrange(pos as int, k as int) =~= dn);
        }
    }
    Some((number, k))
}

/// Reads the line of vertex `index` that starts at `pos`: its neighbours
/// and the position after its newline.
fn parse_line(text: &Vec<u8>, pos: usize, index: usize) -> (r: Option<(Vec<usize>, usize)>)
    requires
        pos <= text.len(),
    ensures
        match r {
            Some((ns, e)) => pos < e <= text.len(),
            None => true,
        },
        forall|ns: Seq<usize>|
            #[trigger] holds_at(text@, pos as int, line_text(index, ns)) ==> r is Some
                && r->Some_0.0@ == ns && r->Some_0.1 == pos + line_text(index, ns).len(),
{
    let mut tokens: Vec<usize> = Vec::new();
    let mut p: usize = pos;
    loop
        invariant
            pos <= p <= text.len(),
            forall|ns: Seq<usize>|
                #[trigger] holds_at(text@, pos as int, line_text(index, ns)) ==> {
                    let s = seq![index] + ns;
                    &&& tokens.len() <= s.len()
                    &&& tokens@ == s.subrange(0, tokens.len() as int)
                    &&& p == pos + numbers_text(tokens@).len()
                },
        ensures
            pos <= p < text.len(),
            text@[p as int] == 10u8,
            forall|ns: Seq<usize>|
                #[trigger] holds_at(text@, pos as int, line_text(index, ns)) ==> {
                    let s = seq![index] + ns;
                    &&& tokens.len() <= s.len()
                    &&& tokens@ == s.subrange(0, tokens.len() as int)
                    &&& p == pos + numbers_text(tokens@).len()
                },
        decreases text.len() - p,
    {
        if p >= text.len() {
            proof {
                assert forall|ns: Seq<usize>| !#[trigger] holds_at(text@, pos as int, line_text(index, ns)) by {
                    if holds_at(text@, pos as int, line_text(index, ns)) {
                        assert(numbers_text(tokens@).len() < line_text(index, ns).len()) by {
                            lemma_line_shape(index, ns, tokens.len() as int);
                        }
                    }
                }
            }
            return None;
        }
        if text[p] == 10u8 {
            break;
        }
        match parse_number(text, p) {
            None => {
                proof {
                    assert forall|ns: Seq<usize>| !#[trigger] holds_at(text@, pos as int, line_text(index, ns)) by {
                        if holds_at(text@, pos as int, line_text(index, ns)) {
                            lemma_line_shape(index, ns, tokens.len() as int);
                            let s = seq![index] + ns;
                            if tokens.len() < s.len() {
                                lemma_line_token(text@, pos as int, index, ns, tokens.len() as int);
                            }
                        }
                    }
                }
                return None;
            },
            Some((v, e)) => {
                if e >= text.len() || text[e] != 32u8 {
                    proof {
                        assert forall|ns: Seq<usize>| !#[trigger] holds_at(text@, pos as int, line_text(index, ns)) by {
                            if holds_at(text@, pos as int, line_text(index, ns)) {
                                lemma_line_shape(index, ns, tokens.len() as int);
                                let s = seq![index] + ns;
                                if tokens.len() < s.len() {
                                    lemma_line_token(text@, pos as int, index, ns, tokens.len() as int);
                                }
                            }
                        }
                    }
                    return None;
                }
                proof {
                    assert forall|ns: Seq<usize>|
                        #[trigger] holds_at(text@, pos as int, line_text(index, ns)) implies {
                            let s = seq![index] + ns;
                            &&& tokens.len() < s.len()
                            &&& v == s[tokens.len() as int]
                            &&& e == p + decimal(v as nat).len()
                        } by {
                        lemma_line_shape(index, ns, tokens.len() as int);
                        let s = seq![index] + ns;
                        if tokens.len() < s.len() {
                            lemma_line_token(text@, pos as int, index, ns, tokens.len() as int);
                        }
                    }
                }
                let ghost before = tokens@;
                tokens.push(v);
                p = e + 1;
                proof {
                    assert forall|ns: Seq<usize>|
                        #[trigger] holds_at(text@, pos as int, line_text(index, ns)) implies {
                            let s = seq![index] + ns;
                            &&& tokens.len() <= s.len()
                            &&& tokens@ == s.subrange(0, tokens.len() as int)
                            &&& p == pos + numbers_text(tokens@).len()
                        } by {
                        let s = seq![index] + ns;
                        lemma_numbers_step(s, before.len() as int);
                        assert(s.subrange(0, tokens.len() as int) =~= before.push(v));
                        assert(tokens@ =~= s.subrange(0, tokens.len() as int));
                    }
                }
            },
        }
    }
    if tokens.len() == 0 || tokens[0] != index {
        proof {
            assert forall|ns: Seq<usize>| !#[trigger] holds_at(text@, pos as int, line_text(index, ns)) by {
                if holds_at(text@, pos as int, line_text(index, ns)) {
                    lemma_line_shape(index, ns, tokens.len() as int);
                    let s = seq![index] + ns;
                    if tokens.len() < s.len() {
                        lemma_line_token(text@, pos as int, index, ns, tokens.len() as int);
                    }
                    assert(s[0] == index);
                    assert(tokens@[0] == s[0]);
                }
            }
        }
        return None;
    }
    let mut rest: Vec<usize> = Vec::new();
    let mut j: usize = 1;
    while j < tokens.len()
        invariant
            1 <= j <= tokens.len(),
            rest@ == tokens@.subrange(1, j as int),
        decreases tokens.len() - j,
    {
        rest.push(tokens[j]);
        j = j + 1;
        assert(rest@ =~= tokens@.subrange(1, j as int));
    }
    proof {
        assert forall|ns: Seq<usize>|
            #[trigger] holds_at(text@, pos as int, line_text(index, ns)) implies rest@ == ns && p + 1
                == pos + line_text(index, ns).len() by {
            let s = seq![index] + ns;
            lemma_line_shape(index, ns, tokens.len() as int);
            if tokens.len() < s.len() {
                lemma_line_token(text@, pos as int, index, ns, tokens.len() as int);
            }
            assert(tokens.len() == s.len());
            assert(tokens@ =~= s);
            assert(rest@ =~= ns);
        }
    }
    Some((rest, p + 1))
}

/// Where the line's text stands after `t` numbers: shorter than the line,
/// and followed by the newline once all numbers are read.
pub proof fn lemma_line_shape(index: usize, ns: Seq<usize>, t: int)
    requires
        0 <= t <= (seq![index] + ns).len(),
    ensures
        ({
            let s = seq![index] + ns;
            &&& numbers_text(s.subrange(0, t)).len() < line_text(index, ns).len()
            &&& holds_at(line_text(index, ns), 0, numbers_text(s.subrange(0, t)))
            &&& t == s.len() ==> line_text(index, ns)[numbers_text(s.subrange(0, t)).len() as int] == 10u8
        }),
    decreases (seq![index] + ns).len() - t,
{
    let s = seq![index] + ns;
    let whole = line_text(index, ns);
    let a = numbers_text(s.subrange(0, t));
    if t < s.len() {
        lemma_line_shape(index, ns, t + 1);
        lemma_numbers_step(s, t);
        let b = numbers_text(s.subrange(0, t + 1));
        assert(b.subrange(0, a.len() as int) =~= a);
        assert(whole.subrange(0, a.len() as int) =~= b.subrange(0, a.len() as int));
    } else {
        assert(s.subrange(0, t) =~= s);
        assert(whole.subrange(0, a.len() as int) =~= a);
    }
}

/// In a line's text, number `t` stands after the first `t` numbers, in
/// decimal and followed by a space.
pub proof fn lemma_line_token(text: Seq<u8>, pos: int, index: usize, ns: Seq<usize>, t: int)
    requires
        holds_at(text, pos, line_text(index, ns)),
        0 <= t < (seq![index] + ns).len(),
    ensures
        ({
            let s = seq![index] + ns;
            let at = pos + numbers_text(s.subrange(0, t)).len();
            &&& holds_at(text, at, decimal(s[t] as nat))
            &&& at + decimal(s[t] as nat).len() < text.len()
            &&& text[at + decimal(s[t] as nat).len()] == 32u8
            &&& !is_digit(text[at + decimal(s[t] as nat).len()])
            &&& is_digit(text[at])
        }),
{
    let s = seq![index] + ns;
    let a = numbers_text(s.subrange(0, t));
    let d = decimal(s[t] as nat);
    lemma_line_shape(index, ns, t + 1);
    lemma_numbers_step(s, t);
    lemma_decimal(s[t] as nat);
    let b = numbers_text(s.subrange(0, t + 1));
    let whole = line_text(index, ns);
    assert(b == a + d + seq![32u8]);
    assert(whole.subrange(0, b.len() as int) == b);
    assert forall|k: int| 0 <= k < d.len() implies text[pos + a.len() + k] == d[k] by {
        assert(whole[a.len() + k] == b[a.len() + k]);
        assert(text.subrange(pos, pos + whole.len())[a.len() + k] == whole[a.len() + k]);
    }
    assert(text.subrange(pos + a.len(), pos + a.len() + d.len()) =~= d);
    let m: int = (a.len() + d.len()) as int;
    assert(whole[m] == b[m]);
    assert(text.subrange(pos, pos + whole.len())[m] == whole[m]);
    assert(text[pos + a.len()] == d[0]);
}

/// Reads the lines of `text`: one row of neighbours per line, each line
/// starting with its own index.
fn scan_lines(text: &Vec<u8>) -> (r: Result<Vec<Vec<usize>>, MalformedInput>)
    ensures
        r is Err ==> r->Err_0 is BadLine,
        forall|g: Seq<Seq<usize>>| #[trigger] graph_text(g) == text@ ==> r is Ok && r->Ok_0.deep_view() == g,
{
    let mut graph: Vec<Vec<usize>> = Vec::new();
    let mut p: usize = 0;
    while p < text.len()
        invariant
            p <= text.len(),
            forall|g: Seq<Seq<usize>>|
                #[trigger] graph_text(g) == text@ ==> graph.len() <= g.len() && graph.deep_view()
                    == g.subrange(0, graph.len() as int) && p == graph_text(
                    g.subrange(0, graph.len() as int),
                ).len(),
        decreases text.len() - p,
    {
        let ghost i = graph.len();
        match parse_line(text, p, graph.len()) {
            None => {
                proof {
                    assert forall|g: Seq<Seq<usize>>| #[trigger] graph_text(g) != text@ by {
                        if graph_text(g) == text@ {
                            lemma_line_at(g, i as int);
                        }
                    }
                }
                return Err(MalformedInput::BadLine(graph.len()));
            },
            Some((row, e)) => {
                proof {
                    assert forall|g: Seq<Seq<usize>>| #[trigger] graph_text(g) == text@ implies i < g.len()
                        && row@ == g[i as int] && e == graph_text(g.subrange(0, i + 1)).len() by {
                        lemma_line_at(g, i as int);
                        lemma_graph_step(g, i as int);
                    }
                }
                let ghost before = graph.deep_view();
                let ghost before_vec = graph@;
                let ghost row_view = row@;
                graph.push(row);
                p = e;
                proof {
                    assert(graph.deep_view() =~= before.push(row_view)) by {
                        assert forall|k: int| 0 <= k < graph.len() implies #[trigger] graph.deep_view()[k]
                            == before.push(row_view)[k] by {
                            if k < i {
                                assert(graph@[k] == before_vec[k]);
                            } else {
                                assert(graph@[k]@ == row_view);
                                assert(graph.deep_view()[k] =~= graph@[k]@);
                            }
                        }
                    }
                    assert forall|g: Seq<Seq<usize>>| #[trigger] graph_text(g) == text@ implies graph.deep_view()
                        == g.subrange(0, graph.len() as int) by {
                        assert(g.subrange(0, graph.len() as int) =~= g.subrange(0, i as int).push(g[i as int]));
                    }
                }
            },
        }
    }
    proof {
        assert forall|g: Seq<Seq<usize>>| #[trigger] graph_text(g) == text@ implies graph.deep_view() == g by {
            lemma_graph_prefix(g, graph.len() as int);
            if graph.len() < g.len() {
                lemma_graph_step(g, graph.len() as int);
                lemma_graph_prefix(g, graph.len() + 1);
                assert(line_text(graph.len() as usize, g[graph.len() as int]).len() > 0);
            }
            assert(g.subrange(0, graph.len() as int) =~= g);
        }
    }
    Ok(graph)
}

/// While fewer lines than the graph has are read, the text ahead is the
/// next line.
pub proof fn lemma_line_at(g: Seq<Seq<usize>>, i: int)
    requires
        0 <= i <= g.len(),
        graph_text(g.subrange(0, i)).len() < graph_text(g).len(),
    ensures
        i < g.len(),
        holds_at(graph_text(g), graph_text(g.subrange(0, i)).len() as int, line_text(i as usize, g[i])),
{
    if i == g.len() {
        assert(g.subrange(0, i) =~= g);
    }
    lemma_graph_step(g, i);
    lemma_graph_prefix(g, i + 1);
    let a = graph_text(g.subrange(0, i));
    let l = line_text(i as usize, g[i]);
    let b = graph_text(g.subrange(0, i + 1));
    assert(b == a + l);
    let m: int = (a.len() + l.len()) as int;
    assert(graph_text(g).subrange(a.len() as int, m) =~= l) by {
        assert forall|k: int| 0 <= k < l.len() implies graph_text(g)[a.len() + k] == l[k] by {
            assert(graph_text(g).subrange(0, b.len() as int)[a.len() + k] == b[a.len() + k]);
        }
    }
}

/// Reads an adjacency text. It is accepted exactly as `format_graph`
/// writes it, and only for a simple graph; the text of a graph with an
/// edge listed one way only, a vertex listing itself, a repeated or an
/// out-of-range neighbour is refused with the reason.
pub fn parse_graph(text: &Vec<u8>) -> (r: Result<Vec<Vec<usize>>, MalformedInput>)
    ensures
        r is Ok == exists|g: Seq<Seq<usize>>| #[trigger] graph_text(g) == text@ && is_simple(g),
        r is Ok ==> graph_text(r->Ok_0.deep_view()) == text@,
        r is Err && !(r->Err_0 is BadLine) ==> exists|g: Seq<Seq<usize>>|
            #[trigger] graph_text(g) == text@ && !is_simple(g),
        r is Err && r->Err_0 is BadLine ==> forall|g: Seq<Seq<usize>>| #[trigger] graph_text(g) != text@,
{
    let graph = match scan_lines(text) {
        Ok(g) => g,
        Err(e) => {
            return Err(e);
        },
    };
    let canonical = format_graph(&graph);
    if !same_bytes(&canonical, text) {
        return Err(MalformedInput::BadLine(0));
    }
    match validate_graph(&graph) {
        Ok(()) => Ok(graph),
        Err(e) => Err(e),
    }
}

} // verus!
