use winperf_relay::audit::Level;
use winperf_relay::config::BufferConfig;
use winperf_relay::disk_guard::{DiskGuard, IngestGate};

fn config(max: Option<u64>, interval: Option<u64>) -> BufferConfig {
    BufferConfig {
        metrics_queue: "queue.redb".to_string(),
        max_disk_bytes: max,
        max_age_seconds: None,
        retention_check_interval_seconds: interval,
    }
}

#[test]
fn gate_starts_open_and_follows() {
    let mut gate = IngestGate::new();
    assert!(!gate.is_paused());
    gate.set_paused(true);
    assert!(gate.is_paused());
    gate.set_paused(true);
    assert!(gate.is_paused());
    gate.set_paused(false);
    assert!(!gate.is_paused());
}

#[test]
fn defaults() {
    let cfg = config(None, None);
    assert_eq!(DiskGuard::limit_of(&cfg), 4_294_967_296);
    assert_eq!(DiskGuard::new(&cfg, 0).interval_secs(), 5);
}

#[test]
fn configured_values() {
    let cfg = config(Some(77), Some(9));
    assert_eq!(DiskGuard::limit_of(&cfg), 77);
    assert_eq!(DiskGuard::new(&cfg, 0).interval_secs(), 9);
}

#[test]
fn interval_is_at_least_one_second() {
    assert_eq!(DiskGuard::new(&config(None, Some(0)), 0).interval_secs(), 1);
    assert_eq!(DiskGuard::new(&config(None, Some(1)), 0).interval_secs(), 1);
}

#[test]
fn pauses_at_the_limit_and_resumes_below_the_mark() {
    let cfg = config(Some(1_000), None);
    let resume = (DiskGuard::limit_of(&cfg) as f64 * 0.95) as u64;
    assert_eq!(resume, 950);
    let guard = DiskGuard::new(&cfg, resume);
    let mut gate = IngestGate::new();

    assert!(guard.check(Some(999), &mut gate).is_none());
    assert!(!gate.is_paused());

    let hit = guard.check(Some(1_000), &mut gate).unwrap();
    assert!(gate.is_paused());
    assert_eq!(hit.level, Level::Error);
    assert_eq!(hit.event_id, 1023);
    assert_eq!(hit.message, "Disk limit hit: 1000 bytes. Pausing.");

    assert!(guard.check(Some(2_000), &mut gate).is_none());
    assert!(gate.is_paused());
    assert!(guard.check(Some(951), &mut gate).is_none());
    assert!(gate.is_paused());

    let recovered = guard.check(Some(950), &mut gate).unwrap();
    assert!(!gate.is_paused());
    assert_eq!(recovered.level, Level::Info);
    assert_eq!(recovered.event_id, 1034);
    assert_eq!(recovered.message, "Disk recovered: 950 bytes. Resuming.");

    assert!(guard.check(Some(950), &mut gate).is_none());
    assert!(guard.check(Some(980), &mut gate).is_none());
    assert!(!gate.is_paused());
}

#[test]
fn unreadable_size_counts_as_empty() {
    let guard = DiskGuard::new(&config(Some(10), None), 9);
    let mut gate = IngestGate::new();
    gate.set_paused(true);
    let event = guard.check(None, &mut gate).unwrap();
    assert_eq!(event.message, "Disk recovered: 0 bytes. Resuming.");
    assert!(!gate.is_paused());
}

#[test]
fn zero_limit_always_pauses() {
    let guard = DiskGuard::new(&config(Some(0), None), 0);
    let mut gate = IngestGate::new();
    assert!(guard.check(None, &mut gate).is_some());
    assert!(gate.is_paused());
    assert!(guard.check(Some(0), &mut gate).is_none());
    assert!(gate.is_paused());
}

#[test]
fn largest_size_is_printed_whole() {
    let guard = DiskGuard::new(&config(None, None), 0);
    let mut gate = IngestGate::new();
    let event = guard.check(Some(u64::MAX), &mut gate).unwrap();
    assert_eq!(event.message, "Disk limit hit: 18446744073709551615 bytes. Pausing.");
}
