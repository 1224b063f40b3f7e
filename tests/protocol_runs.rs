use std::collections::{HashSet, VecDeque};

use local_mis::coordinator::Coordinator;
use local_mis::creater::Creater;
use local_mis::desire::FINEST_EXPONENT;
use local_mis::node::{build_nodes, Node, Phase};
use local_mis::protocol::{CentralMessage, Message};
use local_mis::validation::Verifier;

struct Run {
    mis: HashSet<usize>,
    rounds: usize,
    start_rounds: Vec<usize>,
    results: usize,
}

/// Drives every actor and the coordinator in one thread, delivering
/// messages in order of sending.
fn simulate(graph: &Vec<Vec<usize>>) -> Run {
    let n = graph.len();
    let mut nodes: Vec<Node> = build_nodes(graph);
    let mut coordinator = Coordinator::new(n);
    let mut mail: VecDeque<(Option<usize>, usize, Message)> = VecDeque::new();
    let mut reports: VecDeque<CentralMessage> = VecDeque::new();
    let mut start_rounds = vec![];
    let mut steps = 0;
    while !coordinator.is_done() {
        steps += 1;
        assert!(steps < 100_000, "the run does not end");
        if let Some(b) = coordinator.advance() {
            if let Message::Start(r) = b.message {
                start_rounds.push(r);
            }
            for t in b.targets.iter() {
                mail.push_back((None, *t, b.message.clone()));
            }
        }
        while let Some((from, to, m)) = mail.pop_front() {
            if nodes[to].phase == Phase::Done {
                if let Some(f) = from {
                    let out = nodes[f].neighbor_departed(to);
                    reports.extend(out.to_coordinator);
                }
                continue;
            }
            let out = nodes[to].handle(m).expect("protocol violation at a vertex");
            let level = nodes[to].desire_level.exponent;
            assert!(level >= 1 && level <= FINEST_EXPONENT, "desire level out of (0, 1/2]");
            for e in out.to_neighbors {
                mail.push_back((Some(to), e.to, e.message));
            }
            reports.extend(out.to_coordinator);
        }
        while let Some(r) = reports.pop_front() {
            coordinator.receive(r).expect("protocol violation at the coordinator");
        }
    }
    Run {
        mis: coordinator.get_mis_result(),
        rounds: coordinator.round,
        start_rounds,
        results: coordinator.result_list.len(),
    }
}

fn is_valid(mis: &HashSet<usize>, graph: &Vec<Vec<usize>>) -> bool {
    Verifier::new(mis, graph).verify()
}

#[test]
fn isolated_vertex_ends_in_set() {
    let graph = vec![vec![], vec![2], vec![1]];
    for _ in 0..20 {
        let run = simulate(&graph);
        assert!(run.mis.contains(&0));
        assert!(is_valid(&run.mis, &graph));
    }
}

#[test]
fn vertex_isolated_by_pruning_joins() {
    // 0 - 1 - 2: whenever 1 is resolved outside the set, 0 and 2 may be
    // left alone and must then join.
    let graph = vec![vec![1], vec![0, 2], vec![1]];
    for _ in 0..50 {
        let run = simulate(&graph);
        assert!(is_valid(&run.mis, &graph));
        assert!(run.mis == [1].into_iter().collect() || run.mis == [0, 2].into_iter().collect());
    }
}

#[test]
fn single_edge_exactly_one_endpoint() {
    let graph = vec![vec![1], vec![0]];
    for _ in 0..100 {
        let run = simulate(&graph);
        assert_eq!(run.mis.len(), 1);
        assert!(run.mis.contains(&0) != run.mis.contains(&1));
    }
}

#[test]
fn star_graph_terminates_and_validates() {
    let k = 6;
    let mut graph = vec![(1..=k).collect::<Vec<usize>>()];
    for _ in 1..=k {
        graph.push(vec![0]);
    }
    for _ in 0..50 {
        let run = simulate(&graph);
        assert!(is_valid(&run.mis, &graph));
        let centre_alone: HashSet<usize> = [0].into_iter().collect();
        let leaves: HashSet<usize> = (1..=k).collect();
        assert!(run.mis == centre_alone || run.mis == leaves);
    }
}

#[test]
fn random_graphs_give_maximal_independent_sets() {
    let mut creater = Creater::new();
    for _ in 0..30 {
        let graph = creater.generate(40, 6);
        let run = simulate(&graph);
        assert!(is_valid(&run.mis, &graph));
        assert_eq!(run.results, 40);
    }
}

#[test]
fn round_counter_grows_by_one_per_round() {
    let mut creater = Creater::new();
    for _ in 0..10 {
        let graph = creater.generate(30, 5);
        let run = simulate(&graph);
        for (k, r) in run.start_rounds.iter().enumerate() {
            assert_eq!(*r, k);
        }
        assert!(run.rounds >= run.start_rounds.len() - 1);
        assert_eq!(run.results, graph.len());
    }
}

#[test]
fn empty_graph_is_done_at_once() {
    let run = simulate(&vec![]);
    assert!(run.mis.is_empty());
    assert_eq!(run.rounds, 0);
    assert!(run.start_rounds.is_empty());
}

#[test]
fn marks_are_drawn_at_random() {
    let mut marked = 0;
    let rounds = 400;
    for _ in 0..rounds {
        let mut n = Node::new(0);
        n.register_neighbor(1);
        n.handle(Message::Start(0)).unwrap();
        if n.is_get_marked {
            marked += 1;
        }
    }
    // The level is 1/2: both outcomes come, in roughly equal numbers.
    assert!(marked > rounds / 4 && marked < 3 * rounds / 4);
}

#[test]
fn generated_degrees_follow_random_targets() {
    let mut creater = Creater::new();
    let graph = creater.generate(1000, 10);
    let degree_sum: usize = graph.iter().map(|n| n.len()).sum();
    // Targets are drawn from 1..10; with every target 1 the sum would be at
    // most 2000.
    assert!(degree_sum > 4000);
    let distinct: HashSet<usize> = graph.iter().map(|n| n.len()).collect();
    assert!(distinct.len() > 3);
}

#[test]
fn desire_level_stays_in_range_on_dense_graph() {
    let n = 12;
    let graph: Vec<Vec<usize>> = (0..n).map(|i| (0..n).filter(|&j| j != i).collect()).collect();
    for _ in 0..10 {
        let run = simulate(&graph);
        assert_eq!(run.mis.len(), 1);
        assert!(is_valid(&run.mis, &graph));
    }
}

#[test]
fn wiring_follows_edges_listed_either_way() {
    let graph = vec![vec![1], vec![], vec![0, 1], vec![]];
    let nodes = build_nodes(&graph);
    assert_eq!(nodes.len(), 4);
    let mut ids: Vec<Vec<usize>> = nodes
        .iter()
        .map(|n| {
            let mut v = n.get_neighbors_id();
            v.sort();
            v
        })
        .collect();
    assert_eq!(ids.remove(0), vec![1, 2]);
    assert_eq!(ids.remove(0), vec![0, 2]);
    assert_eq!(ids.remove(0), vec![0, 1]);
    assert_eq!(ids.remove(0), Vec::<usize>::new());
    assert!(nodes.iter().enumerate().all(|(i, n)| n.id == i && n.phase == Phase::Idle));
}
