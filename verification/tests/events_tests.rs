use pty_mux::error::PtyError;
use pty_mux::events::{data_event_name, exit_event_name};
use pty_mux::shell::shell_program;

#[test]
fn event_names_are_scoped_to_the_identifier() {
    assert_eq!(data_event_name("t1"), "pty:data:t1");
    assert_eq!(exit_event_name("t1"), "pty:exit:t1");
}

#[test]
fn distinct_identifiers_get_distinct_names() {
    assert_ne!(data_event_name("t1"), data_event_name("t2"));
    assert_ne!(exit_event_name("t1"), exit_event_name("t2"));
    assert_ne!(data_event_name("t1"), exit_event_name("t1"));
}

#[test]
fn shell_override_wins() {
    assert_eq!(shell_program(Some(String::from("/usr/bin/zsh")), false), "/usr/bin/zsh");
    assert_eq!(shell_program(Some(String::from("cmd.exe")), true), "cmd.exe");
}

#[test]
fn shell_defaults_per_platform_family() {
    assert_eq!(shell_program(None, false), "/bin/bash");
    assert_eq!(shell_program(None, true), "powershell.exe");
}

#[test]
fn not_found_message_matches_the_registry_report() {
    assert_eq!(PtyError::NotFound.message(), "Terminal not found");
    assert!(PtyError::NotFound.is_not_found());
}

#[test]
fn os_failures_carry_their_description() {
    assert_eq!(PtyError::AllocationFailure(String::from("out of ptys")).message(), "out of ptys");
    assert_eq!(PtyError::SpawnFailure(String::from("no such shell")).message(), "no such shell");
    assert_eq!(
        PtyError::HandleAcquisitionFailure(String::from("no writer")).message(),
        "no writer"
    );
    assert_eq!(PtyError::IoFailure(String::from("broken pipe")).message(), "broken pipe");
    assert!(!PtyError::IoFailure(String::from("broken pipe")).is_not_found());
}
