use winperf_relay::config::ForwarderConfig;
use winperf_relay::egress::{Egress, EgressAction, EgressEvent};
use winperf_relay::record::{make_key, make_value, Entry};

fn config(batch_size: Option<usize>, base_backoff_ms: Option<u64>) -> ForwarderConfig {
    ForwarderConfig {
        pingora_url: "https://collector.example/ingest".to_string(),
        batch_size,
        request_timeout_seconds: None,
        drain_timeout_seconds: None,
        base_backoff_ms,
        max_backoff_ms: None,
        max_jitter_ms: None,
    }
}

fn entries() -> Vec<Entry> {
    vec![
        Entry { key: make_key(1, 0), value: make_value(1, b"a=1\n") },
        Entry { key: make_key(1, 1), value: make_value(1, b"b=2\n") },
    ]
}

fn response(status: u16) -> EgressEvent {
    EgressEvent::Response { status: Some(status) }
}

/// Sends one batch, and gives the wait after the server's refusal.
fn fail_once(task: &mut Egress) -> u64 {
    task.step(EgressEvent::Batch { entries: entries() });
    let ms = match task.step(response(503)) {
        Some(EgressAction::Sleep { ms }) => ms,
        other => panic!("{:?}", other),
    };
    task.step(EgressEvent::Done);
    ms
}

#[test]
fn default_limit() {
    let (_, first) = Egress::new(&config(None, None));
    assert!(matches!(first, EgressAction::ReadBatch { limit: 1_000 }));
}

#[test]
fn empty_queue_is_polled() {
    let (mut task, first) = Egress::new(&config(Some(7), None));
    assert!(matches!(first, EgressAction::ReadBatch { limit: 7 }));
    let action = task.step(EgressEvent::Batch { entries: Vec::new() });
    assert!(matches!(action, Some(EgressAction::Sleep { ms: 500 })));
    let action = task.step(EgressEvent::Done);
    assert!(matches!(action, Some(EgressAction::ReadBatch { limit: 7 })));
}

#[test]
fn accepted_batch_is_removed() {
    let (mut task, _) = Egress::new(&config(None, None));
    match task.step(EgressEvent::Batch { entries: entries() }) {
        Some(EgressAction::Post { body }) => assert_eq!(body, b"a=1\nb=2\n"),
        other => panic!("{:?}", other),
    }
    match task.step(response(200)) {
        Some(EgressAction::Remove { keys }) => {
            assert_eq!(keys, vec![make_key(1, 0), make_key(1, 1)])
        }
        other => panic!("{:?}", other),
    }
    let action = task.step(EgressEvent::Done);
    assert!(matches!(action, Some(EgressAction::ReadBatch { limit: 1_000 })));
}

#[test]
fn only_2xx_is_acceptance() {
    for (status, ok) in [
        (Some(199), false),
        (Some(200), true),
        (Some(204), true),
        (Some(299), true),
        (Some(300), false),
        (Some(404), false),
        (Some(503), false),
        (None, false),
    ] {
        let (mut task, _) = Egress::new(&config(None, None));
        task.step(EgressEvent::Batch { entries: entries() });
        let action = task.step(EgressEvent::Response { status });
        assert_eq!(matches!(action, Some(EgressAction::Remove { .. })), ok);
        assert_eq!(matches!(action, Some(EgressAction::Sleep { ms: 500 })), !ok);
    }
}

#[test]
fn backoff_doubles_up_to_thirty_seconds() {
    let (mut task, _) = Egress::new(&config(None, None));
    let waits: Vec<u64> = (0..9).map(|_| fail_once(&mut task)).collect();
    assert_eq!(
        waits,
        vec![500, 1_000, 2_000, 4_000, 8_000, 16_000, 30_000, 30_000, 30_000]
    );
}

#[test]
fn acceptance_resets_backoff() {
    let (mut task, _) = Egress::new(&config(None, Some(20)));
    assert_eq!(fail_once(&mut task), 20);
    assert_eq!(fail_once(&mut task), 40);
    task.step(EgressEvent::Batch { entries: entries() });
    task.step(response(202));
    task.step(EgressEvent::Done);
    assert_eq!(fail_once(&mut task), 20);
}

#[test]
fn extreme_base_backoffs() {
    let (mut task, _) = Egress::new(&config(None, Some(0)));
    assert_eq!(fail_once(&mut task), 0);
    assert_eq!(fail_once(&mut task), 0);
    let (mut task, _) = Egress::new(&config(None, Some(60_000)));
    assert_eq!(fail_once(&mut task), 60_000);
    assert_eq!(fail_once(&mut task), 30_000);
    let (mut task, _) = Egress::new(&config(None, Some(u64::MAX)));
    assert_eq!(fail_once(&mut task), u64::MAX);
    assert_eq!(fail_once(&mut task), 30_000);
    let (mut task, _) = Egress::new(&config(None, Some(15_000)));
    assert_eq!(fail_once(&mut task), 15_000);
    assert_eq!(fail_once(&mut task), 30_000);
    let (mut task, _) = Egress::new(&config(None, Some(14_999)));
    assert_eq!(fail_once(&mut task), 14_999);
    assert_eq!(fail_once(&mut task), 29_998);
}

#[test]
fn unexpected_events_leave_the_task_alone() {
    let (mut task, _) = Egress::new(&config(None, None));
    assert!(task.step(EgressEvent::Done).is_none());
    assert!(task.step(response(200)).is_none());
    task.step(EgressEvent::Batch { entries: entries() });
    assert!(task.step(EgressEvent::Done).is_none());
    assert!(task.step(EgressEvent::Batch { entries: Vec::new() }).is_none());
    match task.step(response(200)) {
        Some(EgressAction::Remove { keys }) => assert_eq!(keys.len(), 2),
        other => panic!("{:?}", other),
    }
}
