//! A randomized, round-synchronous computation of a maximal independent set
//! under the LOCAL model: one actor per vertex, one coordinator driving the
//! rounds. The actors and the coordinator are state machines; moving their
//! messages between threads is left to the caller.

pub mod coordinator;
pub mod correctness;
pub mod creater;
pub mod desire;
pub mod graph;
pub mod node;
pub mod protocol;
pub mod random;
pub mod text;
pub mod validation;
