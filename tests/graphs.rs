use std::collections::HashSet;

use local_mis::creater::Creater;
use local_mis::desire::{pow2_u64, DesireLevel, CROWDED_WEIGHT, FINEST_EXPONENT};
use local_mis::text::{format_graph, parse_graph, validate_graph, MalformedInput};
use local_mis::validation::Verifier;

fn set(ids: &[usize]) -> HashSet<usize> {
    ids.iter().copied().collect()
}

fn path4() -> Vec<Vec<usize>> {
    vec![vec![1], vec![0, 2], vec![1, 3], vec![2]]
}

#[test]
fn verifier_accepts_maximal_independent_set() {
    assert!(Verifier::new(&set(&[0, 2]), &path4()).verify());
    assert!(Verifier::new(&set(&[0, 3]), &path4()).verify());
    assert!(Verifier::new(&set(&[1, 3]), &path4()).verify());
}

#[test]
fn verifier_rejects_adjacent_members() {
    assert!(!Verifier::new(&set(&[0, 1, 3]), &path4()).verify());
}

#[test]
fn verifier_rejects_non_maximal_set() {
    assert!(!Verifier::new(&set(&[0]), &path4()).verify());
    assert!(!Verifier::new(&set(&[]), &vec![vec![]]).verify());
}

#[test]
fn verifier_uses_edges_listed_one_way() {
    // 0 lists 1, 1 lists nothing: still adjacent.
    let g = vec![vec![1], vec![]];
    assert!(!Verifier::new(&set(&[0, 1]), &g).verify());
    assert!(Verifier::new(&set(&[1]), &g).verify());
}

#[test]
fn verifier_is_repeatable() {
    let v = Verifier::new(&set(&[0, 2]), &path4());
    let first = v.verify();
    for _ in 0..5 {
        assert_eq!(v.verify(), first);
    }
    let w = Verifier::new(&set(&[0]), &path4());
    assert_eq!(w.verify(), w.verify());
    assert_eq!(v.mis, set(&[0, 2]));
    assert_eq!(v.graph, path4());
}

#[test]
fn empty_graph_empty_set_is_valid() {
    assert!(Verifier::new(&set(&[]), &vec![]).verify());
}

#[test]
fn desire_levels() {
    let l = DesireLevel::initial();
    assert_eq!(l.exponent, 1);
    assert_eq!(l.halved().exponent, 2);
    assert_eq!(l.doubled().exponent, 1);
    assert_eq!(DesireLevel { exponent: 5 }.doubled().exponent, 4);
    let finest = DesireLevel { exponent: FINEST_EXPONENT };
    assert_eq!(finest.halved().exponent, FINEST_EXPONENT);
    assert_eq!(l.adapted(true).exponent, 2);
    assert_eq!(l.adapted(false).exponent, 1);
    assert_eq!(l.weight_exec(), 1u64 << 61);
    assert_eq!(finest.weight_exec(), 1);
    assert_eq!(4 * l.weight_exec(), CROWDED_WEIGHT);
}

#[test]
fn marking_thresholds() {
    let l = DesireLevel { exponent: 3 };
    assert!(l.is_marked_by(0));
    assert!(l.is_marked_by((1u64 << 61) - 1));
    assert!(!l.is_marked_by(1u64 << 61));
    assert!(!l.is_marked_by(u64::MAX));
}

#[test]
fn powers_of_two() {
    assert_eq!(pow2_u64(0), 1);
    assert_eq!(pow2_u64(10), 1024);
    assert_eq!(pow2_u64(63), 1u64 << 63);
}

#[test]
fn generated_graph_is_simple_and_bounded() {
    let mut c = Creater::new();
    for _ in 0..20 {
        let g = c.generate(50, 5);
        assert_eq!(g.len(), 50);
        assert_eq!(c.get_graph(), g);
        assert!(validate_graph(&g).is_ok());
        assert!(c.get_max_degree() <= 5);
        assert_eq!(c.get_max_degree(), g.iter().map(|n| n.len()).max().unwrap());
        let edges: usize = g.iter().map(|n| n.len()).sum();
        assert!(edges > 0);
        for i in 0..g.len() {
            assert!(!g[i].is_empty() || (0..g.len()).all(|j| j == i || g[j].len() == 5));
        }
    }
}

#[test]
fn generated_graph_of_no_vertex() {
    let mut c = Creater::new();
    assert!(c.generate(0, 0).is_empty());
    assert_eq!(c.get_max_degree(), 0);
}

#[test]
fn new_creater_is_empty() {
    let c = Creater::new();
    assert!(c.get_graph().is_empty());
    assert_eq!(c.get_max_degree(), 0);
}

#[test]
fn format_writes_lines() {
    let text = format_graph(&vec![vec![1, 12], vec![0], vec![0]]);
    assert_eq!(String::from_utf8(text).unwrap(), "0 1 12 \n1 0 \n2 0 \n");
    assert!(format_graph(&vec![]).is_empty());
}

#[test]
fn parse_round_trip() {
    let g = vec![vec![1, 2], vec![0], vec![0], vec![]];
    let text = format_graph(&g);
    assert_eq!(parse_graph(&text), Ok(g));
    let mut c = Creater::new();
    let r = c.generate(30, 4);
    assert_eq!(parse_graph(&format_graph(&r)), Ok(r));
}

#[test]
fn parse_refusals() {
    let p = |s: &str| parse_graph(&s.as_bytes().to_vec());
    assert_eq!(p("0 1 \n1 \n"), Err(MalformedInput::Asymmetric(0, 1)));
    assert_eq!(p("0 0 \n"), Err(MalformedInput::SelfLoop(0)));
    assert_eq!(p("0 3 \n"), Err(MalformedInput::OutOfRange(3)));
    assert_eq!(p("0 1 1 \n1 0 \n"), Err(MalformedInput::Repeated(0, 1)));
    assert_eq!(p("1 0 \n0 1 \n"), Err(MalformedInput::BadLine(0)));
    assert_eq!(p("0 x \n"), Err(MalformedInput::BadLine(0)));
    assert_eq!(p("0 \n1 "), Err(MalformedInput::BadLine(1)));
    assert_eq!(p("0 1\n1 0\n"), Err(MalformedInput::BadLine(0)));
    assert_eq!(p("0 99999999999999999999999 \n"), Err(MalformedInput::BadLine(0)));
    assert_eq!(p(""), Ok(vec![]));
}
