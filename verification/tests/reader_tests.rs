use pty_mux::reader::{reader_step, session_transcript, PtyEvent, ReadOutcome, ReaderAction};

#[test]
fn chunk_becomes_one_data_event() {
    match reader_step(&ReadOutcome::Data(b"hi".to_vec())) {
        ReaderAction::EmitData(text) => assert_eq!(text, "hi"),
        ReaderAction::Stop => panic!("a chunk must not stop the loop"),
    }
}

#[test]
fn invalid_bytes_are_repaired_not_fatal() {
    match reader_step(&ReadOutcome::Data(vec![0xff, b'h', b'i'])) {
        ReaderAction::EmitData(text) => assert_eq!(text, "\u{FFFD}hi"),
        ReaderAction::Stop => panic!("bad encoding must not stop the loop"),
    }
}

#[test]
fn eof_stops_the_loop() {
    assert!(matches!(reader_step(&ReadOutcome::Eof), ReaderAction::Stop));
}

#[test]
fn read_error_stops_the_loop() {
    assert!(matches!(reader_step(&ReadOutcome::ReadError), ReaderAction::Stop));
}

#[test]
fn transcript_ends_with_exactly_one_exit() {
    let reads = vec![
        ReadOutcome::Data(b"first".to_vec()),
        ReadOutcome::Data(b" second".to_vec()),
        ReadOutcome::Eof,
        ReadOutcome::Data(b"after the end".to_vec()),
    ];
    let events = session_transcript(&reads);
    assert_eq!(events.len(), 3);
    match &events[0] {
        PtyEvent::Data(text) => assert_eq!(text, "first"),
        PtyEvent::Exit => panic!("data must come before the exit event"),
    }
    match &events[1] {
        PtyEvent::Data(text) => assert_eq!(text, " second"),
        PtyEvent::Exit => panic!("data must come before the exit event"),
    }
    assert!(matches!(events[2], PtyEvent::Exit));
    let exits = events.iter().filter(|e| matches!(e, PtyEvent::Exit)).count();
    assert_eq!(exits, 1);
}

#[test]
fn transcript_of_no_reads_is_one_exit() {
    let events = session_transcript(&Vec::new());
    assert_eq!(events.len(), 1);
    assert!(matches!(events[0], PtyEvent::Exit));
}

#[test]
fn transcript_of_a_failed_read_is_one_exit() {
    let events = session_transcript(&vec![ReadOutcome::ReadError]);
    assert_eq!(events.len(), 1);
    assert!(matches!(events[0], PtyEvent::Exit));
}
