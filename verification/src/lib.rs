//! Verified core of a hot-reload process supervisor.
//!
//! The supervisor runs a user command, mirrors the child's standard output
//! and error streams to its own, restarts the child when the operator presses
//! the reload key, and quits on an interrupt key.  The modules here hold the
//! decision logic of that loop: decoding terminal input into a reload
//! decision, planning the ordered lifecycle actions of a reload, routing
//! readiness events to transfers, propagating the child's exit code, and the
//! fixed transfer buffer.  The surrounding binary performs the actual
//! terminal, pipe and process I/O and obeys the plans produced here.

pub mod args;
pub mod decision;
pub mod pipe;
pub mod supervisor;
