//! Interactive session front-end: a command index with prefix lookup, a
//! keystroke state machine with inline completion, and the decision logic
//! of a poll-driven source/sink reactor.

pub mod hint;
pub mod term;
pub mod autocomp;
pub mod mux;
