//! Concurrent download orchestrator: a work list of (destination, source)
//! pairs is turned into a bounded-parallel set of transfers, each modeled as
//! a finite state machine whose transitions are reported through an ordered
//! event channel to a single rendering consumer.

pub mod cli;
pub mod errors;
pub mod fetcher;
pub mod template;
