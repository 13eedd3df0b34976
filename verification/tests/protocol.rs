use reactor::drain::{handle_events, DrainOutcome, DrainState, DrainStep, ReadOutcome};
use reactor::errors::ReactorError;
use reactor::event::Event;
use reactor::registry::{Registry, EDGE_TRIGGERED, READABLE};
use reactor::request::get_req;

#[test]
fn request_line_exact() {
    assert_eq!(
        get_req("/1000/hello"),
        "GET /1000/hello HTTP/1.1\r\nHost: localhost\r\nConnection: close\r\n\r\n"
    );
}

#[test]
fn request_line_empty_path() {
    assert_eq!(
        get_req(""),
        "GET  HTTP/1.1\r\nHost: localhost\r\nConnection: close\r\n\r\n"
    );
}

#[test]
fn event_reports_its_token() {
    let e = Event::new(3);
    assert_eq!(e.token(), 3);
}

#[test]
fn fresh_state_has_no_completions() {
    let s = DrainState::new(4);
    assert_eq!(s.connections(), 4);
    assert_eq!(s.completed_count(), 0);
    assert!(!s.is_handled(0));
    assert!(!s.is_handled(3));
}

#[test]
fn scenario_one_connection_chunked_response() {
    // One connection; the server sends 10000 bytes then closes, in 3 chunks
    // delivered across 2 readiness events for the same token.
    let mut s = DrainState::new(1);
    let first = vec![
        ReadOutcome::Bytes(3334),
        ReadOutcome::Bytes(3333),
        ReadOutcome::WouldBlock,
    ];
    let r1 = s.drain_event(0, &first).unwrap();
    assert_eq!(
        r1,
        DrainOutcome { bytes: 6667, newly_completed: false }
    );
    assert_eq!(s.completed_count(), 0);

    let second = vec![ReadOutcome::Bytes(3333), ReadOutcome::Bytes(0)];
    let r2 = s.drain_event(0, &second).unwrap();
    assert_eq!(
        r2,
        DrainOutcome { bytes: 3333, newly_completed: true }
    );
    assert_eq!(s.completed_count(), 1);
    assert_eq!(r1.bytes + r2.bytes, 10000);
}

#[test]
fn scenario_five_connections_interleaved() {
    // Five connections with tokens 0..4; the servers respond in arbitrary
    // interleaved order; the collect phase ends only when all five have
    // reported a zero-length read exactly once each.
    let mut s = DrainState::new(5);
    let batches: Vec<(Vec<Event>, Vec<Vec<ReadOutcome>>)> = vec![
        (
            vec![Event::new(2), Event::new(0)],
            vec![
                vec![ReadOutcome::Bytes(10), ReadOutcome::Bytes(0)],
                vec![ReadOutcome::Bytes(7), ReadOutcome::WouldBlock],
            ],
        ),
        (
            vec![Event::new(4), Event::new(0), Event::new(1)],
            vec![
                vec![ReadOutcome::Bytes(1), ReadOutcome::Bytes(0)],
                vec![ReadOutcome::Bytes(0)],
                vec![ReadOutcome::Bytes(3), ReadOutcome::Interrupted],
            ],
        ),
        (
            // a stray follow-up notification for an already handled token
            vec![Event::new(2), Event::new(1), Event::new(3)],
            vec![
                vec![ReadOutcome::Bytes(0)],
                vec![ReadOutcome::Bytes(0)],
                vec![ReadOutcome::Bytes(9), ReadOutcome::Bytes(0)],
            ],
        ),
    ];
    let mut completed = 0usize;
    let mut polls = 0usize;
    for (events, outcomes) in &batches {
        assert!(completed < 5);
        completed += handle_events(events, &mut s, outcomes).unwrap();
        polls += 1;
    }
    assert_eq!(completed, 5);
    assert_eq!(s.completed_count(), 5);
    assert_eq!(polls, 3);
    for i in 0..5 {
        assert!(s.is_handled(i));
    }
}

#[test]
fn scenario_silent_peer_keeps_would_blocking() {
    // A server that never closes and sends nothing further: every later
    // attempt for that token would-blocks; nothing completes, nothing fails.
    let mut s = DrainState::new(1);
    let initial = vec![ReadOutcome::Bytes(100), ReadOutcome::WouldBlock];
    let r = s.drain_event(0, &initial).unwrap();
    assert_eq!(r.bytes, 100);
    assert!(!r.newly_completed);
    for _ in 0..3 {
        let again = vec![ReadOutcome::WouldBlock];
        let r = s.drain_event(0, &again).unwrap();
        assert_eq!(r, DrainOutcome { bytes: 0, newly_completed: false });
        assert_eq!(s.completed_count(), 0);
    }
}

#[test]
fn scenario_duplicate_registration_fails() {
    // Registering the same descriptor twice reports a system resource error
    // and leaves the watch set as it was.
    let mut reg = Registry::new();
    assert_eq!(reg.register(7, 0, READABLE | EDGE_TRIGGERED), Ok(()));
    assert_eq!(reg.len(), 1);
    assert_eq!(
        reg.register(7, 0, READABLE | EDGE_TRIGGERED),
        Err(ReactorError::SystemResource)
    );
    assert_eq!(reg.len(), 1);
}

#[test]
fn registering_invalid_descriptor_fails() {
    let mut reg = Registry::new();
    assert_eq!(
        reg.register(-1, 0, READABLE | EDGE_TRIGGERED),
        Err(ReactorError::SystemResource)
    );
    assert_eq!(reg.len(), 0);
    assert!(!reg.contains_fd(-1));
}

#[test]
fn distinct_descriptors_register_in_order() {
    let mut reg = Registry::new();
    for i in 0..5 {
        assert_eq!(reg.register(10 + i, i as usize, READABLE | EDGE_TRIGGERED), Ok(()));
    }
    assert_eq!(reg.len(), 5);
    assert!(reg.contains_fd(12));
    assert!(!reg.contains_fd(9));
}

#[test]
fn repeated_close_is_counted_once() {
    // A zero-length read observed more than once for the same token must not
    // double-count the completion.
    let mut s = DrainState::new(2);
    let close = vec![ReadOutcome::Bytes(0)];
    let r1 = s.drain_event(1, &close).unwrap();
    assert!(r1.newly_completed);
    assert_eq!(s.completed_count(), 1);
    let r2 = s.drain_event(1, &close).unwrap();
    assert!(!r2.newly_completed);
    assert_eq!(s.completed_count(), 1);
    assert!(s.is_handled(1));
    assert!(!s.is_handled(0));
}

#[test]
fn would_block_is_not_an_error() {
    let mut s = DrainState::new(1);
    let step = s.on_read(0, ReadOutcome::WouldBlock);
    assert_eq!(step, DrainStep::Stop);
    assert_eq!(s.completed_count(), 0);
    let step = s.on_read(0, ReadOutcome::Interrupted);
    assert_eq!(step, DrainStep::Stop);
    assert_eq!(s.completed_count(), 0);
}

#[test]
fn read_decisions_follow_the_protocol() {
    let mut s = DrainState::new(1);
    assert_eq!(s.on_read(0, ReadOutcome::Bytes(4096)), DrainStep::Continue);
    assert_eq!(s.on_read(0, ReadOutcome::Bytes(0)), DrainStep::Completed);
    assert_eq!(s.on_read(0, ReadOutcome::Bytes(0)), DrainStep::Stop);
    assert_eq!(s.on_read(0, ReadOutcome::Failed), DrainStep::Fatal);
    assert_eq!(s.completed_count(), 1);
}

#[test]
fn fatal_read_aborts_the_batch() {
    // A fatal failure aborts the whole batch but keeps completions counted
    // before it.
    let mut s = DrainState::new(3);
    let events = vec![Event::new(0), Event::new(1), Event::new(2)];
    let outcomes = vec![
        vec![ReadOutcome::Bytes(5), ReadOutcome::Bytes(0)],
        vec![ReadOutcome::Bytes(2), ReadOutcome::Failed],
        vec![ReadOutcome::Bytes(0)],
    ];
    let r = handle_events(&events, &mut s, &outcomes);
    assert_eq!(r, Err(ReactorError::Io));
    assert_eq!(s.completed_count(), 1);
    assert!(s.is_handled(0));
    assert!(!s.is_handled(2));
}

#[test]
fn empty_batch_completes_nothing() {
    // Zero events returned from a wait: a spurious wake, re-looped without
    // error.
    let mut s = DrainState::new(2);
    let events: Vec<Event> = vec![];
    let outcomes: Vec<Vec<ReadOutcome>> = vec![];
    assert_eq!(handle_events(&events, &mut s, &outcomes), Ok(0));
    assert_eq!(s.completed_count(), 0);
}

#[test]
fn error_kinds_describe_themselves() {
    assert_eq!(ReactorError::SystemResource.describe(), "system resource error");
    assert_eq!(ReactorError::Connect.describe(), "connect error");
    assert_eq!(ReactorError::Io.describe(), "i/o error");
}
