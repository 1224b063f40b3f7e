//! The messages exchanged between vertices, and between a vertex and the
//! coordinator.

use vstd::prelude::*;

use crate::desire::DesireLevel;

verus! {

/// What a vertex reports of itself when a neighbour asks.
#[derive(Clone, Copy, Debug, PartialEq, Eq, Structural)]
pub struct Data {
    pub sender_id: usize,
    pub round: usize,
    pub desire_level: DesireLevel,
    pub is_get_marked: bool,
}

/// A message to a vertex, from a neighbour or from the coordinator.
#[derive(Clone, Debug)]
pub enum Message {
    /// A neighbour asks for this vertex's data of a round.
    Request { from: usize, round: usize },
    /// A neighbour's answer to a request.
    Response(Data),
    /// A neighbour's decision of this round: whether it joined the set.
    JoinedMIS { joined: bool, from: usize },
    /// The coordinator prunes these vertices from the graph.
    RemoveNeighbors(Vec<usize>),
    /// The coordinator starts the given round.
    Start(usize),
    /// The coordinator starts the decision phase of the round.
    StartRound2,
}

/// The terminal record of a vertex.
#[derive(Clone, Debug)]
pub struct NodeResult {
    pub id: usize,
    pub is_in_mis: bool,
    pub nodes_to_remove: Vec<usize>,
}

/// A vertex's acknowledgement of a pruning; `is_leaving` when the pruning
/// left it without neighbours, so that it joined the set and left.
#[derive(Clone, Copy, Debug, PartialEq, Eq, Structural)]
pub struct ReconfigResult {
    pub id: usize,
    pub is_leaving: bool,
}

/// A report of a vertex to the coordinator.
#[derive(Clone, Debug)]
pub enum CentralMessage {
    /// The vertex stays for another round.
    Step(usize),
    /// The vertex has resolved.
    Finish(NodeResult),
    /// The vertex has heard from all its live neighbours.
    Round1Complete(usize),
    /// The vertex has applied a pruning.
    ReconfigComplete(ReconfigResult),
}

/// A message addressed to a vertex.
#[derive(Clone, Debug)]
pub struct Envelope {
    pub to: usize,
    pub message: Message,
}

/// What went wrong when a message came that the receiver's state does not
/// allow.
#[derive(Clone, Copy, Debug, PartialEq, Eq, Structural)]
pub enum ViolationKind {
    /// The message is not valid in the receiver's current phase or stage.
    UnexpectedMessage,
    /// The message names a vertex that is not a live neighbour or node.
    UnknownPeer(usize),
    /// The message belongs to another round than the receiver's.
    RoundMismatch { expected: usize, received: usize },
    /// A second report of the same kind from one sender.
    DuplicateReport(usize),
}

/// A message that is impossible in the receiver's state: fatal for the run.
#[derive(Clone, Copy, Debug, PartialEq, Eq, Structural)]
pub struct ProtocolViolation {
    /// The receiving vertex, or the coordinator's vertex count.
    pub receiver: usize,
    /// The receiver's round.
    pub round: usize,
    pub kind: ViolationKind,
}

} // verus!
