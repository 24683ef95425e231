//! Error taxonomy of the session registry and its operations.

use vstd::prelude::*;

verus! {

/// Everything a registry-facing operation can fail with.
///
/// The first three variants can only arise while a session is being
/// created: the pseudo-terminal pair could not be opened, the shell
/// process could not be launched under its subordinate side, or the
/// writer/reader handles could not be obtained from the master side
/// after a successful open. `NotFound` reports an operation on an
/// identifier with no live session. `IoFailure` reports a failed
/// write, flush, or resize syscall on a session that does exist.
/// Each OS-level variant carries the OS error's description.
#[derive(Debug)]
pub enum PtyError {
    AllocationFailure(String),
    SpawnFailure(String),
    HandleAcquisitionFailure(String),
    NotFound,
    IoFailure(String),
}

impl PtyError {
    /// The description surfaced to the caller: the carried OS error
    /// text, or the fixed text for a missing session.
    pub fn message(&self) -> (r: String)
        ensures
            match self {
                PtyError::AllocationFailure(d) => r@ == d@,
                PtyError::SpawnFailure(d) => r@ == d@,
                PtyError::HandleAcquisitionFailure(d) => r@ == d@,
                PtyError::NotFound => r@ == "Terminal not found"@,
                PtyError::IoFailure(d) => r@ == d@,
            },
    {
        match self {
            PtyError::AllocationFailure(d) => d.clone(),
            PtyError::SpawnFailure(d) => d.clone(),
            PtyError::HandleAcquisitionFailure(d) => d.clone(),
            PtyError::NotFound => String::from_str("Terminal not found"),
            PtyError::IoFailure(d) => d.clone(),
        }
    }

    /// True exactly on the variant that reports a missing session.
    pub fn is_not_found(&self) -> (r: bool)
        ensures
            r == (self is NotFound),
    {
        match self {
            PtyError::NotFound => true,
            _ => false,
        }
    }
}

} // verus!
