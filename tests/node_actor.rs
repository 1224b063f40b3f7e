use local_mis::desire::{DesireLevel, CROWDED_WEIGHT};
use local_mis::node::{NeighborContext, Node, Phase};
use local_mis::protocol::{CentralMessage, Data, Message, ReconfigResult, ViolationKind};

fn node_with(id: usize, neighbors: &[usize]) -> Node {
    let mut n = Node::new(id);
    for &j in neighbors {
        n.register_neighbor(j);
    }
    n
}

fn data(sender: usize, round: usize, exponent: u32, marked: bool) -> Data {
    Data { sender_id: sender, round, desire_level: DesireLevel { exponent }, is_get_marked: marked }
}

#[test]
fn new_node_state() {
    let n = Node::new(3);
    assert_eq!(n.id, 3);
    assert_eq!(n.round, 0);
    assert_eq!(n.desire_level.exponent, 1);
    assert_eq!(n.phase, Phase::Idle);
    assert!(n.neighbors.is_empty());
    assert!(!n.is_in_mis);
}

#[test]
fn neighbor_context_update() {
    let mut c = NeighborContext::new(4);
    assert_eq!(c.desire_level.exponent, 1);
    assert!(!c.responded);
    c.update(data(4, 2, 3, true));
    assert_eq!(c.round, 2);
    assert!(c.is_marked);
    assert_eq!(c.desire_level.exponent, 3);
    assert!(c.responded);
}

#[test]
fn register_neighbor_is_idempotent() {
    let mut n = node_with(0, &[1, 2]);
    n.register_neighbor(1);
    assert_eq!(n.get_neighbors_id(), vec![1, 2]);
}

#[test]
fn isolated_node_marks_and_reports_at_once() {
    let mut n = Node::new(0);
    let out = n.handle_with_draw(Message::Start(0), 0).unwrap();
    assert!(n.is_get_marked);
    assert!(out.to_neighbors.is_empty());
    assert!(matches!(out.to_coordinator.as_slice(), [CentralMessage::Round1Complete(0)]));
    let out = n.on_start_round2().unwrap();
    assert!(n.is_in_mis);
    match out.to_coordinator.as_slice() {
        [CentralMessage::Finish(r)] => {
            assert_eq!(r.id, 0);
            assert!(r.is_in_mis);
            assert_eq!(r.nodes_to_remove, vec![0]);
        }
        _ => panic!("expected a terminal record"),
    }
    assert_eq!(n.phase, Phase::Done);
}

#[test]
fn start_sends_requests_and_answers_early_ones() {
    let mut n = node_with(0, &[1, 2]);
    assert!(n.on_request(2, 0).unwrap().to_neighbors.is_empty());
    let out = n.on_start(0, 0).unwrap();
    assert!(n.is_get_marked);
    assert_eq!(n.phase, Phase::AwaitingResponses);
    assert_eq!(out.to_neighbors.len(), 3);
    assert!(matches!(out.to_neighbors[0].message, Message::Request { from: 0, round: 0 }));
    assert_eq!(out.to_neighbors[1].to, 2);
    match &out.to_neighbors[2].message {
        Message::Response(d) => {
            assert_eq!(out.to_neighbors[2].to, 2);
            assert!(d.is_get_marked);
            assert_eq!(d.round, 0);
        }
        _ => panic!("expected a response"),
    }
    assert!(n.pending_requests.is_empty());
}

#[test]
fn draw_above_level_does_not_mark() {
    let mut n = node_with(0, &[1]);
    n.on_start(0, 1u64 << 63).unwrap();
    assert!(!n.is_get_marked);
    let mut m = node_with(0, &[1]);
    m.on_start(0, (1u64 << 63) - 1).unwrap();
    assert!(m.is_get_marked);
}

#[test]
fn responses_complete_the_first_phase() {
    let mut n = node_with(0, &[1, 2]);
    n.on_start(0, 0).unwrap();
    let out = n.on_response(data(1, 0, 1, false)).unwrap();
    assert!(out.to_coordinator.is_empty());
    let out = n.on_response(data(2, 0, 2, true)).unwrap();
    assert!(matches!(out.to_coordinator.as_slice(), [CentralMessage::Round1Complete(0)]));
    assert_eq!(n.phase, Phase::AwaitingStartRound2);
    assert!(n.is_any_neighbor_marked());
}

#[test]
fn duplicate_response_is_refused() {
    let mut n = node_with(0, &[1, 2]);
    n.on_start(0, 0).unwrap();
    n.on_response(data(1, 0, 1, false)).unwrap();
    let e = n.on_response(data(1, 0, 1, false)).unwrap_err();
    assert_eq!(e.kind, ViolationKind::DuplicateReport(1));
    assert_eq!(e.receiver, 0);
}

#[test]
fn stale_response_is_refused() {
    let mut n = node_with(0, &[1]);
    n.on_start(3, 0).unwrap();
    let e = n.on_response(data(1, 2, 1, false)).unwrap_err();
    assert_eq!(e.kind, ViolationKind::RoundMismatch { expected: 3, received: 2 });
}

#[test]
fn unknown_peer_is_refused() {
    let mut n = node_with(0, &[1]);
    let e = n.on_request(7, 0).unwrap_err();
    assert_eq!(e.kind, ViolationKind::UnknownPeer(7));
}

#[test]
fn message_out_of_phase_is_refused() {
    let mut n = node_with(0, &[1]);
    let e = n.on_start_round2().unwrap_err();
    assert_eq!(e.kind, ViolationKind::UnexpectedMessage);
    assert_eq!(n.phase, Phase::Idle);
    let e = n.on_start(0, 0).and_then(|_| n.on_start(1, 0)).unwrap_err();
    assert_eq!(e.kind, ViolationKind::UnexpectedMessage);
}

#[test]
fn marked_without_marked_neighbour_joins() {
    let mut n = node_with(0, &[1]);
    n.on_start(0, 0).unwrap();
    n.on_response(data(1, 0, 1, false)).unwrap();
    let out = n.on_start_round2().unwrap();
    assert!(n.is_in_mis);
    assert_eq!(n.desire_level.exponent, 1);
    assert!(matches!(out.to_neighbors[0].message, Message::JoinedMIS { joined: true, from: 0 }));
    let out = n.on_joined(false, 1).unwrap();
    assert!(matches!(out.to_coordinator.as_slice(), [CentralMessage::Finish(_)]));
    assert_eq!(n.phase, Phase::Done);
}

#[test]
fn conflict_halves_desire_when_crowded() {
    let mut n = node_with(0, &[1, 2, 3, 4]);
    n.on_start(0, 0).unwrap();
    for j in 1..=4 {
        n.on_response(data(j, 0, 1, j == 1)).unwrap();
    }
    assert_eq!(n.get_effective_degree(), CROWDED_WEIGHT as u128);
    n.on_start_round2().unwrap();
    assert!(!n.is_in_mis);
    assert_eq!(n.desire_level.exponent, 2);
}

#[test]
fn uncrowded_neighbourhood_doubles_desire_capped() {
    let mut n = node_with(0, &[1, 2, 3]);
    n.on_start(0, u64::MAX).unwrap();
    for j in 1..=3 {
        n.on_response(data(j, 0, 1, false)).unwrap();
    }
    assert_eq!(n.get_effective_degree(), 3u128 << 61);
    n.on_start_round2().unwrap();
    assert!(!n.is_in_mis);
    assert_eq!(n.desire_level.exponent, 1);
}

#[test]
fn early_decision_is_recorded_and_neighbour_join_resolves() {
    let mut n = node_with(0, &[1]);
    n.on_start(0, u64::MAX).unwrap();
    n.on_response(data(1, 0, 1, true)).unwrap();
    let out = n.on_joined(true, 1).unwrap();
    assert!(out.to_coordinator.is_empty());
    assert_eq!(n.phase, Phase::AwaitingStartRound2);
    let out = n.on_start_round2().unwrap();
    match out.to_coordinator.as_slice() {
        [CentralMessage::Finish(r)] => assert!(!r.is_in_mis),
        _ => panic!("expected a terminal record"),
    }
}

#[test]
fn undecided_round_steps() {
    let mut n = node_with(0, &[1]);
    n.on_start(0, u64::MAX).unwrap();
    n.on_response(data(1, 0, 1, false)).unwrap();
    n.on_start_round2().unwrap();
    let out = n.on_joined(false, 1).unwrap();
    assert!(matches!(out.to_coordinator.as_slice(), [CentralMessage::Step(0)]));
    assert_eq!(n.phase, Phase::Idle);
}

#[test]
fn pruning_to_isolation_joins_and_leaves() {
    let mut n = node_with(0, &[1, 2]);
    let out = n.on_remove_neighbors(&vec![1]).unwrap();
    assert_eq!(n.get_neighbors_id(), vec![2]);
    match out.to_coordinator.as_slice() {
        [CentralMessage::ReconfigComplete(r)] => {
            assert_eq!(*r, ReconfigResult { id: 0, is_leaving: false })
        }
        _ => panic!("expected an acknowledgement"),
    }
    let out = n.on_remove_neighbors(&vec![2, 5]).unwrap();
    assert!(n.is_in_mis);
    assert_eq!(n.phase, Phase::Done);
    match out.to_coordinator.as_slice() {
        [CentralMessage::ReconfigComplete(r), CentralMessage::Finish(f)] => {
            assert_eq!(*r, ReconfigResult { id: 0, is_leaving: true });
            assert_eq!(f.id, 0);
            assert!(f.is_in_mis);
            assert_eq!(f.nodes_to_remove, vec![0]);
        }
        _ => panic!("expected an acknowledgement and a terminal record"),
    }
}

#[test]
fn pruning_while_waiting_rechecks_the_phase() {
    let mut n = node_with(0, &[1, 2]);
    n.on_start(0, 0).unwrap();
    n.on_response(data(1, 0, 1, false)).unwrap();
    let out = n.handle(Message::RemoveNeighbors(vec![2])).unwrap();
    assert_eq!(n.get_neighbors_id(), vec![1]);
    assert_eq!(n.phase, Phase::AwaitingStartRound2);
    match out.to_coordinator.as_slice() {
        [CentralMessage::ReconfigComplete(r), CentralMessage::Round1Complete(0)] => {
            assert_eq!(*r, ReconfigResult { id: 0, is_leaving: false })
        }
        _ => panic!("expected an acknowledgement and the end of the first phase"),
    }
}

#[test]
fn pruning_while_waiting_for_decisions_ends_the_round() {
    let mut n = node_with(0, &[1, 2]);
    n.on_start(0, u64::MAX).unwrap();
    n.on_response(data(1, 0, 1, false)).unwrap();
    n.on_response(data(2, 0, 1, false)).unwrap();
    n.on_start_round2().unwrap();
    n.on_joined(false, 1).unwrap();
    let out = n.on_remove_neighbors(&vec![2]).unwrap();
    assert!(matches!(
        out.to_coordinator.as_slice(),
        [CentralMessage::ReconfigComplete(_), CentralMessage::Step(0)]
    ));
    assert_eq!(n.phase, Phase::Idle);
}

#[test]
fn isolated_node_unmarked_steps() {
    let mut n = Node::new(0);
    n.on_start(0, u64::MAX).unwrap();
    assert!(!n.is_get_marked);
    let out = n.on_start_round2().unwrap();
    assert!(!n.is_in_mis);
    assert!(matches!(out.to_coordinator.as_slice(), [CentralMessage::Step(0)]));
}

#[test]
fn refusals_name_their_reason() {
    let mut n = node_with(0, &[1]);
    n.on_start(1, 0).unwrap();
    let e = n.handle(Message::Request { from: 1, round: 0 }).unwrap_err();
    assert_eq!(e.kind, ViolationKind::RoundMismatch { expected: 1, received: 0 });
    let e = n.handle(Message::JoinedMIS { joined: true, from: 1 }).unwrap_err();
    assert_eq!(e.kind, ViolationKind::UnexpectedMessage);
}

#[test]
fn pruned_node_stops_silently() {
    let mut n = node_with(0, &[1]);
    let out = n.on_remove_neighbors(&vec![0, 1]).unwrap();
    assert!(out.to_coordinator.is_empty());
    assert!(n.neighbors.is_empty());
    assert_eq!(n.phase, Phase::Done);
    assert!(!n.is_in_mis);
}

#[test]
fn departed_neighbour_no_longer_awaited() {
    let mut n = node_with(0, &[1, 2]);
    n.on_start(0, 0).unwrap();
    n.on_response(data(1, 0, 1, false)).unwrap();
    let out = n.neighbor_departed(2);
    assert!(matches!(out.to_coordinator.as_slice(), [CentralMessage::Round1Complete(0)]));
    assert_eq!(n.get_neighbors_id(), vec![1]);
    let out = n.neighbor_departed(9);
    assert!(out.to_coordinator.is_empty());
}

#[test]
fn request_answered_with_current_data() {
    let mut n = node_with(5, &[1]);
    n.on_start(2, 0).unwrap();
    let out = n.handle(Message::Request { from: 1, round: 2 }).unwrap();
    match &out.to_neighbors[0].message {
        Message::Response(d) => {
            assert_eq!(*d, data(5, 2, 1, true));
        }
        _ => panic!("expected a response"),
    }
}

#[test]
fn debug_mark_lists_views() {
    let mut n = node_with(0, &[1, 2]);
    n.on_start(0, 0).unwrap();
    n.on_response(data(2, 0, 1, true)).unwrap();
    assert_eq!(n.debug_mark(), vec![(1, false), (2, true)]);
}

#[test]
fn effective_degree_is_the_exact_sum() {
    let mut n = node_with(0, &[1, 2, 3, 4, 5, 6]);
    n.on_start(0, 0).unwrap();
    for j in 1..=6 {
        n.on_response(data(j, 0, 1, false)).unwrap();
    }
    // Six neighbours at 1/2: three, in units of 2^-62.
    assert_eq!(n.get_effective_degree(), 3u128 << 62);
}
