use pty_mux::registry::{
    kill_all, pty_kill, pty_resize, pty_spawn, pty_write, PtyManager, PtySession,
};

#[test]
fn new_registry_is_empty() {
    let m = PtyManager::new();
    assert_eq!(m.lookup(&String::from("t1")), None);
}

#[test]
fn spawn_then_lookup() {
    let mut m = PtyManager::new();
    pty_spawn(&mut m, String::from("t1"), 5, 24, 80);
    assert_eq!(
        m.lookup(&String::from("t1")),
        Some(PtySession { handle: 5, rows: 24, cols: 80 })
    );
    assert_eq!(m.lookup(&String::from("t2")), None);
}

#[test]
fn write_routes_bytes_to_the_named_session() {
    let mut m = PtyManager::new();
    pty_spawn(&mut m, String::from("t1"), 5, 24, 80);
    pty_spawn(&mut m, String::from("t2"), 9, 24, 80);
    let cmd = pty_write(&m, &String::from("t1"), "echo hi\n").unwrap();
    assert_eq!(cmd.handle, 5);
    assert_eq!(cmd.bytes, b"echo hi\n".to_vec());
    let cmd2 = pty_write(&m, &String::from("t2"), "ls\n").unwrap();
    assert_eq!(cmd2.handle, 9);
    assert_eq!(cmd2.bytes, b"ls\n".to_vec());
}

#[test]
fn write_unknown_id_is_not_found() {
    let mut m = PtyManager::new();
    pty_spawn(&mut m, String::from("t1"), 5, 24, 80);
    let err = pty_write(&m, &String::from("nope"), "x").unwrap_err();
    assert!(err.is_not_found());
    assert_eq!(err.message(), "Terminal not found");
    // No observable side effect: the one live session is untouched.
    assert_eq!(
        m.lookup(&String::from("t1")),
        Some(PtySession { handle: 5, rows: 24, cols: 80 })
    );
}

#[test]
fn resize_unknown_id_is_not_found() {
    let mut m = PtyManager::new();
    pty_spawn(&mut m, String::from("t1"), 5, 24, 80);
    let err = pty_resize(&mut m, &String::from("nope"), 30, 90).unwrap_err();
    assert!(err.is_not_found());
    assert_eq!(
        m.lookup(&String::from("t1")),
        Some(PtySession { handle: 5, rows: 24, cols: 80 })
    );
}

#[test]
fn spawn_then_resize_updates_geometry() {
    let mut m = PtyManager::new();
    pty_spawn(&mut m, String::from("t1"), 5, 24, 80);
    let cmd = pty_resize(&mut m, &String::from("t1"), 50, 132).unwrap();
    assert_eq!(cmd.handle, 5);
    assert_eq!(cmd.rows, 50);
    assert_eq!(cmd.cols, 132);
    assert_eq!(cmd.pixel_width, 0);
    assert_eq!(cmd.pixel_height, 0);
    assert_eq!(
        m.lookup(&String::from("t1")),
        Some(PtySession { handle: 5, rows: 50, cols: 132 })
    );
}

#[test]
fn kill_unknown_id_is_a_noop() {
    let mut m = PtyManager::new();
    pty_spawn(&mut m, String::from("t1"), 5, 24, 80);
    assert_eq!(pty_kill(&mut m, &String::from("nope")), None);
    // Other sessions are unaffected.
    assert_eq!(
        m.lookup(&String::from("t1")),
        Some(PtySession { handle: 5, rows: 24, cols: 80 })
    );
}

#[test]
fn kill_removes_the_session() {
    let mut m = PtyManager::new();
    pty_spawn(&mut m, String::from("t1"), 5, 24, 80);
    pty_spawn(&mut m, String::from("t2"), 9, 24, 80);
    assert_eq!(pty_kill(&mut m, &String::from("t1")), Some(5));
    let err = pty_write(&m, &String::from("t1"), "x").unwrap_err();
    assert!(err.is_not_found());
    assert_eq!(
        m.lookup(&String::from("t2")),
        Some(PtySession { handle: 9, rows: 24, cols: 80 })
    );
}

#[test]
fn kill_all_silences_every_identifier() {
    let mut m = PtyManager::new();
    pty_spawn(&mut m, String::from("t1"), 5, 24, 80);
    pty_spawn(&mut m, String::from("t2"), 9, 24, 80);
    let mut handles = kill_all(&mut m);
    handles.sort();
    assert_eq!(handles, vec![5, 9]);
    assert!(pty_write(&m, &String::from("t1"), "x").unwrap_err().is_not_found());
    assert!(pty_write(&m, &String::from("t2"), "x").unwrap_err().is_not_found());
    assert!(pty_resize(&mut m, &String::from("t1"), 30, 90).unwrap_err().is_not_found());
    assert!(pty_resize(&mut m, &String::from("t2"), 30, 90).unwrap_err().is_not_found());
}

#[test]
fn spawn_on_a_live_identifier_replaces_the_entry() {
    let mut m = PtyManager::new();
    pty_spawn(&mut m, String::from("t1"), 5, 24, 80);
    pty_spawn(&mut m, String::from("t1"), 9, 40, 120);
    assert_eq!(
        m.lookup(&String::from("t1")),
        Some(PtySession { handle: 9, rows: 40, cols: 120 })
    );
    // One entry, not two: killing it empties the registry.
    assert_eq!(pty_kill(&mut m, &String::from("t1")), Some(9));
    assert_eq!(m.lookup(&String::from("t1")), None);
}
