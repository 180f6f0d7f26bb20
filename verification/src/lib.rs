//! A record-and-replay harness for programs that draw random numbers, read
//! input and write output.
//!
//! Every call that crosses the program's boundary is either passed through,
//! appended to a session log, or replayed from a log recorded earlier while
//! the live behaviour is held against what was recorded.

pub mod codec;
pub mod decimal;
pub mod error;
pub mod event;
pub mod laws;
pub mod outside;
pub mod session;
