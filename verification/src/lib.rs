//! Core of a terminal-session multiplexer: a registry of live
//! pseudo-terminal sessions keyed by caller-chosen identifiers, the
//! decision logic of the per-session reader loop, and the derivation of
//! the event names under which a session's output is delivered.
//!
//! The registry and all decision logic are verified. The host that owns
//! the OS-level handles (child processes, writers, masters) performs the
//! actual syscalls and event delivery; it addresses each session's
//! resources through the opaque numeric handle stored here.

pub mod decode;
pub mod error;
pub mod events;
pub mod reader;
pub mod registry;
pub mod shell;
