use std::collections::BTreeMap;

use redb::backends::InMemoryBackend;
use redb::{Database, ReadableDatabase, ReadableTable, TableDefinition};
use winperf_relay::clock::ArrivalClock;
use winperf_relay::config::{BufferConfig, ForwarderConfig};
use winperf_relay::disk_guard::{DiskGuard, IngestGate};
use winperf_relay::egress::{Egress, EgressAction, EgressEvent};
use winperf_relay::ingest::{IngestAction, IngestEvent, Ingestion};
use winperf_relay::record::{batch_payload, make_key, make_value, Entry};

type Queue = BTreeMap<[u8; 16], Vec<u8>>;

struct Relay {
    ingestion: Ingestion,
    egress: Egress,
    next: EgressAction,
    queue: Queue,
    sent: Vec<Vec<u8>>,
}

impl Relay {
    fn new(batch_size: usize, queue: Queue) -> Relay {
        let cfg = ForwarderConfig {
            pingora_url: "https://collector.example".to_string(),
            batch_size: Some(batch_size),
            request_timeout_seconds: None,
            drain_timeout_seconds: None,
            base_backoff_ms: None,
            max_backoff_ms: None,
            max_jitter_ms: None,
        };
        let (mut ingestion, _) = Ingestion::new();
        ingestion.step(IngestEvent::Connected { ok: true }, false);
        let (egress, next) = Egress::new(&cfg);
        Relay { ingestion, egress, next, queue, sent: Vec::new() }
    }

    fn receive(&mut self, message: &[u8], now_nanos: u128) {
        let data = Some(message.to_vec());
        self.ingestion.step(IngestEvent::Received { data }, false);
        match self.ingestion.step(IngestEvent::Clock { now_nanos }, false) {
            Some(IngestAction::Store { key, value }) => {
                assert!(self.queue.insert(key, value).is_none());
            }
            other => panic!("{:?}", other),
        }
        self.ingestion.step(IngestEvent::Stored { error: None }, false);
    }

    /// One round of the egress task, up to the next read.
    fn forward(&mut self, status: Option<u16>) {
        self.round(status, true);
    }

    /// The same, with a removal that takes effect or fails.
    fn round(&mut self, status: Option<u16>, removes: bool) {
        let limit = match self.next {
            EgressAction::ReadBatch { limit } => limit,
            _ => panic!("not about to read"),
        };
        let entries: Vec<Entry> = self
            .queue
            .iter()
            .take(limit)
            .map(|(key, value)| Entry { key: *key, value: value.clone() })
            .collect();
        let mut action = self.egress.step(EgressEvent::Batch { entries }).unwrap();
        if let EgressAction::Post { body } = action {
            if status == Some(200) {
                self.sent.push(body);
            }
            action = self.egress.step(EgressEvent::Response { status }).unwrap();
        }
        if let EgressAction::Remove { keys } = action {
            if removes {
                for key in keys {
                    assert!(self.queue.remove(&key).is_some());
                }
            }
        }
        self.next = self.egress.step(EgressEvent::Done).unwrap();
    }
}

#[test]
fn messages_leave_in_order_of_arrival() {
    let mut relay = Relay::new(2, Queue::new());
    for (i, now) in [9u128, 9, 3, 12, 11, 300].iter().enumerate() {
        relay.receive(&[b'a' + i as u8], *now);
    }
    relay.forward(Some(200));
    relay.receive(b"g", 2);
    relay.forward(Some(200));
    relay.forward(Some(200));
    relay.forward(Some(200));
    assert_eq!(relay.sent.concat(), b"abcdefg");
    assert!(relay.queue.is_empty());
}

#[test]
fn nothing_is_removed_before_it_is_accepted() {
    let mut relay = Relay::new(10, Queue::new());
    relay.receive(b"x", 1);
    relay.receive(b"y", 1);
    relay.forward(Some(500));
    relay.forward(None);
    assert_eq!(relay.queue.len(), 2);
    assert!(relay.sent.is_empty());
    relay.forward(Some(200));
    assert_eq!(relay.sent.concat(), b"xy");
    assert!(relay.queue.is_empty());
}

#[test]
fn refused_requests_change_neither_order_nor_number() {
    let mut relay = Relay::new(2, Queue::new());
    for (i, status) in [500u16, 200, 503, 404, 200, 200].iter().enumerate() {
        relay.receive(&[b'a' + i as u8], 7);
        relay.forward(Some(*status));
    }
    while !relay.queue.is_empty() {
        relay.forward(Some(200));
    }
    assert_eq!(relay.sent.concat(), b"abcdef");
}

#[test]
fn failed_removal_sends_again_and_lets_nothing_overtake() {
    let mut relay = Relay::new(2, Queue::new());
    for (i, now) in [5u128, 5, 6, 4].iter().enumerate() {
        relay.receive(&[b'a' + i as u8], *now);
    }
    relay.round(Some(200), false);
    relay.receive(b"e", 3);
    relay.round(Some(200), false);
    relay.forward(Some(200));
    relay.forward(Some(200));
    relay.forward(Some(200));
    let sent: Vec<&[u8]> = relay.sent.iter().map(|body| body.as_slice()).collect();
    assert_eq!(sent, [&b"ab"[..], b"ab", b"ab", b"cd", b"e"]);
    assert!(relay.queue.is_empty());
}

#[test]
fn each_round_drains_one_batch() {
    let mut relay = Relay::new(3, Queue::new());
    for i in 0..8u8 {
        relay.receive(&[b'a' + i], 1);
    }
    for left in [5usize, 2, 0, 0] {
        relay.forward(Some(200));
        assert_eq!(relay.queue.len(), left);
    }
    assert_eq!(relay.sent, [b"abc".to_vec(), b"def".to_vec(), b"gh".to_vec()]);
}

#[test]
fn each_chunk_becomes_one_record_beside_earlier_ones() {
    let mut queue = Queue::new();
    queue.insert([0; 16], b"junk".to_vec());
    queue.insert([0xff; 16], Vec::new());
    let mut relay = Relay::new(1, queue);
    let chunks = [vec![1u8], vec![7; 65_536], vec![1, 2, 3]];
    for (chunk, now) in chunks.iter().zip([40u128, 40, 39]) {
        relay.receive(chunk, now);
    }
    assert_eq!(relay.queue.len(), 5);
    assert_eq!(relay.queue.remove(&[0; 16]), Some(b"junk".to_vec()));
    assert_eq!(relay.queue.remove(&[0xff; 16]), Some(Vec::new()));
    let stored: Vec<Vec<u8>> = relay.queue.values().map(|v| v[12..].to_vec()).collect();
    assert_eq!(stored, chunks);
}

#[test]
fn full_queue_still_drains() {
    let cfg = BufferConfig {
        metrics_queue: "queue.redb".to_string(),
        max_disk_bytes: Some(10),
        max_age_seconds: None,
        retention_check_interval_seconds: None,
    };
    let guard = DiskGuard::new(&cfg, 9);
    let mut gate = IngestGate::new();
    let mut relay = Relay::new(1, Queue::new());
    relay.receive(b"a", 1);
    guard.check(Some(10), &mut gate);
    let asked = relay.ingestion.step(
        IngestEvent::Received { data: Some(b"b".to_vec()) },
        gate.is_paused(),
    );
    assert!(matches!(asked, Some(IngestAction::ReadClock)));
    let asked = relay.ingestion.step(IngestEvent::Clock { now_nanos: 2 }, gate.is_paused());
    match asked {
        Some(IngestAction::Store { key, value }) => relay.queue.insert(key, value),
        other => panic!("{:?}", other),
    };
    let asked = relay.ingestion.step(IngestEvent::Stored { error: None }, gate.is_paused());
    assert!(matches!(asked, Some(IngestAction::Sleep { ms: 250 })));
    relay.forward(Some(200));
    relay.forward(Some(200));
    assert_eq!(relay.sent.concat(), b"ab");
    assert!(relay.queue.is_empty());
}

#[test]
fn clock_set_back_after_a_restart_still_deletes_nothing_unsent() {
    let mut earlier = Relay::new(1, Queue::new());
    earlier.receive(b"old", 100);
    let mut relay = Relay::new(1, earlier.queue);
    relay.receive(b"new", 50);
    relay.forward(Some(200));
    assert_eq!(relay.sent.concat(), b"new");
    assert_eq!(relay.queue.len(), 1);
    relay.forward(Some(200));
    assert_eq!(relay.sent.concat(), b"newold");
    assert!(relay.queue.is_empty());
}

#[test]
fn backlog_of_an_earlier_run_leaves_first() {
    let mut earlier = Relay::new(1, Queue::new());
    earlier.receive(b"old ", 100);
    earlier.receive(b"older ", 90);
    let mut relay = Relay::new(5, earlier.queue);
    relay.receive(b"new", 101);
    relay.forward(Some(200));
    assert_eq!(relay.sent.concat(), b"old older new");
}

#[test]
fn full_queue_stops_reads_until_there_is_room() {
    let cfg = BufferConfig {
        metrics_queue: "queue.redb".to_string(),
        max_disk_bytes: Some(100),
        max_age_seconds: None,
        retention_check_interval_seconds: None,
    };
    let guard = DiskGuard::new(&cfg, 95);
    let mut gate = IngestGate::new();
    let (mut ingestion, _) = Ingestion::new();

    guard.check(Some(100), &mut gate);
    let action = ingestion.step(IngestEvent::Connected { ok: true }, gate.is_paused());
    assert!(matches!(action, Some(IngestAction::Sleep { ms: 250 })));

    guard.check(Some(96), &mut gate);
    let action = ingestion.step(IngestEvent::Done, gate.is_paused());
    assert!(matches!(action, Some(IngestAction::Sleep { ms: 250 })));

    guard.check(Some(95), &mut gate);
    let action = ingestion.step(IngestEvent::Done, gate.is_paused());
    assert!(matches!(action, Some(IngestAction::Read { .. })));
}

const MESSAGES_TABLE: TableDefinition<[u8; 16], &[u8]> = TableDefinition::new("messages");

#[test]
fn redb_table_lists_entries_in_order_of_arrival() {
    let db = Database::builder().create_with_backend(InMemoryBackend::new()).unwrap();
    let mut clock = ArrivalClock::new();
    let readings = [255u128, 255, 256, 70_000, 3, 1 << 40, (1 << 63) + 1];
    let entries: Vec<Entry> = readings
        .iter()
        .enumerate()
        .map(|(i, now)| {
            let stamp = clock.stamp(*now);
            Entry {
                key: make_key(stamp.ts_ns, stamp.ctr),
                value: make_value(stamp.ts_ns, &[b'0' + i as u8]),
            }
        })
        .collect();
    let txn = db.begin_write().unwrap();
    {
        let mut table = txn.open_table(MESSAGES_TABLE).unwrap();
        for entry in entries.iter().rev() {
            table.insert(entry.key, entry.value.as_slice()).unwrap();
        }
    }
    txn.commit().unwrap();

    let table = db.begin_read().unwrap().open_table(MESSAGES_TABLE).unwrap();
    let oldest: Vec<Entry> = table
        .iter()
        .unwrap()
        .take(5)
        .map(|item| {
            let (k, v) = item.unwrap();
            Entry { key: k.value(), value: v.value().to_vec() }
        })
        .collect();
    assert_eq!(batch_payload(&oldest), b"01234");
}
