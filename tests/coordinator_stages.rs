use local_mis::coordinator::{Coordinator, Stage};
use local_mis::protocol::{CentralMessage, Message, NodeResult, ReconfigResult, ViolationKind};

fn finish(id: usize, in_mis: bool) -> CentralMessage {
    CentralMessage::Finish(NodeResult { id, is_in_mis: in_mis, nodes_to_remove: vec![id] })
}

#[test]
fn new_coordinator_state() {
    let c = Coordinator::new(3);
    assert_eq!(c.stage, Stage::Start);
    assert_eq!(c.round, 0);
    assert_eq!(c.curr_num_node, 3);
    assert!(!c.is_done());
    assert_eq!(c.live_nodes(), vec![0, 1, 2]);
}

#[test]
fn full_round_with_pruning() {
    let mut c = Coordinator::new(3);
    let b = c.advance().unwrap();
    assert!(matches!(b.message, Message::Start(0)));
    assert_eq!(b.targets, vec![0, 1, 2]);
    assert!(c.advance().is_none());
    for v in 0..3 {
        c.receive(CentralMessage::Round1Complete(v)).unwrap();
    }
    let b = c.advance().unwrap();
    assert!(matches!(b.message, Message::StartRound2));
    c.receive(finish(0, true)).unwrap();
    c.receive(finish(1, false)).unwrap();
    c.receive(CentralMessage::Step(2)).unwrap();
    let b = c.advance().unwrap();
    assert_eq!(c.stage, Stage::Reconfigure);
    assert_eq!(b.targets, vec![2]);
    match b.message {
        Message::RemoveNeighbors(ids) => assert_eq!(ids, vec![0, 0, 1, 1]),
        _ => panic!("expected a pruning"),
    }
    assert_eq!(c.curr_num_node, 1);
    c.receive(CentralMessage::ReconfigComplete(ReconfigResult { id: 2, is_leaving: true })).unwrap();
    assert!(!c.is_done());
    assert!(c.is_waiting());
    let e = c.receive(finish(2, false)).unwrap_err();
    assert_eq!(e.kind, ViolationKind::UnexpectedMessage);
    c.receive(finish(2, true)).unwrap();
    assert!(c.is_done());
    assert_eq!(c.curr_num_node, 0);
    assert!(c.advance().is_none());
    let mis = c.get_mis_result();
    assert_eq!(mis.len(), 2);
    assert!(mis.contains(&0) && mis.contains(&2));
}

#[test]
fn round_without_resolution_starts_next_round() {
    let mut c = Coordinator::new(2);
    c.advance().unwrap();
    c.receive(CentralMessage::Round1Complete(0)).unwrap();
    c.receive(CentralMessage::Round1Complete(1)).unwrap();
    c.advance().unwrap();
    c.receive(CentralMessage::Step(0)).unwrap();
    c.receive(CentralMessage::Step(1)).unwrap();
    assert!(c.advance().is_none());
    assert_eq!(c.stage, Stage::Start);
    assert_eq!(c.round, 1);
    let b = c.advance().unwrap();
    assert!(matches!(b.message, Message::Start(1)));
}

#[test]
fn duplicate_report_is_refused() {
    let mut c = Coordinator::new(2);
    c.advance().unwrap();
    c.receive(CentralMessage::Round1Complete(0)).unwrap();
    let e = c.receive(CentralMessage::Round1Complete(0)).unwrap_err();
    assert_eq!(e.kind, ViolationKind::DuplicateReport(0));
    assert_eq!(c.num_awaiting, 1);
}

#[test]
fn report_of_another_stage_is_refused() {
    let mut c = Coordinator::new(2);
    c.advance().unwrap();
    let e = c.receive(CentralMessage::Step(0)).unwrap_err();
    assert_eq!(e.kind, ViolationKind::UnexpectedMessage);
}

#[test]
fn report_of_unknown_vertex_is_refused() {
    let mut c = Coordinator::new(2);
    c.advance().unwrap();
    let e = c.receive(CentralMessage::Round1Complete(5)).unwrap_err();
    assert_eq!(e.kind, ViolationKind::UnknownPeer(5));
    c.receive(CentralMessage::Round1Complete(0)).unwrap();
    c.receive(CentralMessage::Round1Complete(1)).unwrap();
    c.advance().unwrap();
    let bad = CentralMessage::Finish(NodeResult { id: 0, is_in_mis: true, nodes_to_remove: vec![9] });
    let e = c.receive(bad).unwrap_err();
    assert_eq!(e.kind, ViolationKind::UnknownPeer(9));
}

#[test]
fn waiting_reflects_pending_reports() {
    let mut c = Coordinator::new(1);
    assert!(!c.is_waiting());
    c.advance().unwrap();
    assert!(c.is_waiting());
    c.receive(CentralMessage::Round1Complete(0)).unwrap();
    assert!(!c.is_waiting());
}

#[test]
fn broadcast_builders() {
    let c = Coordinator::new(2);
    assert!(matches!(c.start_next_round().message, Message::Start(0)));
    assert!(matches!(c.inform_nodes().message, Message::StartRound2));
    let b = c.remove_neighbors(vec![1]);
    assert_eq!(b.targets, vec![0]);
    let b = c.remove_neighbors(vec![]);
    assert!(b.targets.is_empty());
}

#[test]
fn second_record_of_a_vertex_is_refused() {
    let mut c = Coordinator::new(2);
    c.advance().unwrap();
    c.receive(CentralMessage::Round1Complete(0)).unwrap();
    c.receive(CentralMessage::Round1Complete(1)).unwrap();
    c.advance().unwrap();
    c.receive(finish(0, true)).unwrap();
    let e = c.receive(finish(0, true)).unwrap_err();
    assert_eq!(e.kind, ViolationKind::DuplicateReport(0));
    assert_eq!(c.result_list.len(), 1);
}
