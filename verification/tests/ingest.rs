use winperf_relay::audit::Level;
use winperf_relay::ingest::{IngestAction, IngestEvent, Ingestion};
use winperf_relay::record::{make_key, make_value};

fn received(data: &[u8]) -> IngestEvent {
    IngestEvent::Received { data: Some(data.to_vec()) }
}

fn stored() -> IngestEvent {
    IngestEvent::Stored { error: None }
}

fn connected() -> Ingestion {
    let (mut task, first) = Ingestion::new();
    assert!(matches!(first, IngestAction::Connect));
    let action = task.step(IngestEvent::Connected { ok: true }, false);
    assert!(matches!(action, Some(IngestAction::Read { capacity: 65_536 })));
    task
}

#[test]
fn failed_connect_waits_and_retries() {
    let (mut task, _) = Ingestion::new();
    let action = task.step(IngestEvent::Connected { ok: false }, false);
    assert!(matches!(action, Some(IngestAction::Sleep { ms: 10 })));
    assert!(matches!(task.step(IngestEvent::Done, false), Some(IngestAction::Connect)));
}

#[test]
fn closed_gate_is_polled() {
    let (mut task, _) = Ingestion::new();
    let action = task.step(IngestEvent::Connected { ok: true }, true);
    assert!(matches!(action, Some(IngestAction::Sleep { ms: 250 })));
    let action = task.step(IngestEvent::Done, true);
    assert!(matches!(action, Some(IngestAction::Sleep { ms: 250 })));
    let action = task.step(IngestEvent::Done, false);
    assert!(matches!(action, Some(IngestAction::Read { .. })));
}

#[test]
fn message_is_stamped_and_stored() {
    let mut task = connected();
    assert!(matches!(task.step(received(b"cpu=1"), false), Some(IngestAction::ReadClock)));
    match task.step(IngestEvent::Clock { now_nanos: 777 }, false) {
        Some(IngestAction::Store { key, value }) => {
            assert_eq!(key, make_key(777, 0));
            assert_eq!(value, make_value(777, b"cpu=1"));
        }
        other => panic!("{:?}", other),
    }
    assert!(matches!(task.step(stored(), false), Some(IngestAction::Read { .. })));
}

#[test]
fn gate_closing_after_a_message_holds_the_next_read() {
    let mut task = connected();
    task.step(received(b"a"), true);
    task.step(IngestEvent::Clock { now_nanos: 1 }, true);
    assert!(matches!(task.step(stored(), true), Some(IngestAction::Sleep { ms: 250 })));
}

#[test]
fn clock_lives_on_across_clients() {
    let mut task = connected();
    task.step(received(b"a"), false);
    task.step(IngestEvent::Clock { now_nanos: 50 }, false);
    task.step(stored(), false);
    assert!(matches!(task.step(received(b""), false), Some(IngestAction::Disconnect)));
    assert!(matches!(
        task.step(IngestEvent::Done, false),
        Some(IngestAction::Sleep { ms: 10 })
    ));
    assert!(matches!(task.step(IngestEvent::Done, false), Some(IngestAction::Connect)));
    task.step(IngestEvent::Connected { ok: true }, false);
    task.step(received(b"b"), false);
    match task.step(IngestEvent::Clock { now_nanos: 20 }, false) {
        Some(IngestAction::Store { key, value }) => {
            assert_eq!(key, make_key(50, 1));
            assert_eq!(value, make_value(50, b"b"));
        }
        other => panic!("{:?}", other),
    }
}

#[test]
fn failed_read_parts_from_the_client() {
    let mut task = connected();
    let action = task.step(IngestEvent::Received { data: None }, false);
    assert!(matches!(action, Some(IngestAction::Disconnect)));
}

#[test]
fn failed_insert_is_audited_and_reading_goes_on() {
    let mut task = connected();
    task.step(received(b"a"), false);
    task.step(IngestEvent::Clock { now_nanos: 1 }, false);
    let error = Some("disk gone".to_string());
    match task.step(IngestEvent::Stored { error }, false) {
        Some(IngestAction::Audit { event }) => {
            assert_eq!(event.level, Level::Error);
            assert_eq!(event.event_id, 1022);
            assert_eq!(event.message, "redb insert failed: disk gone");
        }
        other => panic!("{:?}", other),
    }
    assert!(matches!(task.step(IngestEvent::Done, false), Some(IngestAction::Read { .. })));
}

#[test]
fn unexpected_events_change_nothing() {
    let mut task = connected();
    assert!(task.step(IngestEvent::Done, false).is_none());
    assert!(task.step(stored(), false).is_none());
    assert!(task.step(IngestEvent::Clock { now_nanos: 1 }, false).is_none());
    assert!(task.step(IngestEvent::Connected { ok: true }, false).is_none());
    assert!(matches!(task.step(received(b"a"), false), Some(IngestAction::ReadClock)));
    assert!(task.step(received(b"b"), false).is_none());
    match task.step(IngestEvent::Clock { now_nanos: 9 }, false) {
        Some(IngestAction::Store { value, .. }) => assert_eq!(value, make_value(9, b"a")),
        other => panic!("{:?}", other),
    }
}
