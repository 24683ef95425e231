//! Choice of the shell program a new session runs.
//!
//! The host consults the platform's environment variable — `SHELL` on
//! POSIX-like systems, `COMSPEC` on the Windows family — and hands its
//! value here; the fallback per platform family is fixed.

use vstd::prelude::*;

verus! {

/// The program a new session's child process runs: the environment's
/// override when one is set, else the platform family's default shell.
pub fn shell_program(env_override: Option<String>, windows: bool) -> (r: String)
    ensures
        match env_override {
            Some(s) => r@ == s@,
            None => r@ == (if windows {
                "powershell.exe"@
            } else {
                "/bin/bash"@
            }),
        },
{
    match env_override {
        Some(s) => s,
        None => if windows {
            String::from_str("powershell.exe")
        } else {
            String::from_str("/bin/bash")
        },
    }
}

} // verus!
