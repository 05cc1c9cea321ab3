//! A newline-delimited TCP chat relay, as verified logic.
//!
//! The library holds what decides: the wire text that a chat produces, the
//! per-connection session state machine, and the broadcaster's registry of
//! output sinks with its fan-out pass. Reading sockets, writing them and
//! scheduling the tasks are left to the caller, which reports each outcome back.
pub mod message;
pub mod model;
pub mod broadcaster;
pub mod session;
pub mod laws;
