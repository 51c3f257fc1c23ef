use winperf_relay::clock::{ArrivalClock, Stamp};
use winperf_relay::record::make_key;

#[test]
fn new_instant_starts_at_zero() {
    let mut clock = ArrivalClock::new();
    assert_eq!(clock.stamp(10), Stamp { ts_ns: 10, ctr: 0 });
    assert_eq!(clock.stamp(10), Stamp { ts_ns: 10, ctr: 1 });
    assert_eq!(clock.stamp(10), Stamp { ts_ns: 10, ctr: 2 });
    assert_eq!(clock.stamp(11), Stamp { ts_ns: 11, ctr: 0 });
}

#[test]
fn reading_zero_counts_as_the_start_instant() {
    let mut clock = ArrivalClock::new();
    assert_eq!(clock.stamp(0), Stamp { ts_ns: 0, ctr: 1 });
}

#[test]
fn time_never_runs_backwards() {
    let mut clock = ArrivalClock::new();
    assert_eq!(clock.stamp(100), Stamp { ts_ns: 100, ctr: 0 });
    assert_eq!(clock.stamp(40), Stamp { ts_ns: 100, ctr: 1 });
    assert_eq!(clock.stamp(99), Stamp { ts_ns: 100, ctr: 2 });
    assert_eq!(clock.stamp(101), Stamp { ts_ns: 101, ctr: 0 });
}

#[test]
fn time_keeps_64_bits() {
    let mut clock = ArrivalClock::new();
    let wrap = 1u128 << 64;
    assert_eq!(clock.stamp(wrap + 5), Stamp { ts_ns: 5, ctr: 0 });
    assert_eq!(clock.stamp(wrap - 1), Stamp { ts_ns: u64::MAX, ctr: 0 });
    assert_eq!(clock.stamp(wrap + 6), Stamp { ts_ns: u64::MAX, ctr: 1 });
}

#[test]
fn keys_of_one_run_ascend() {
    let mut clock = ArrivalClock::new();
    let mut last = make_key(0, 0);
    for reading in [3u128, 3, 2, 1, 3, 4, 400, 256, 255, 65_536, 65_536, 0] {
        let stamp = clock.stamp(reading);
        let key = make_key(stamp.ts_ns, stamp.ctr);
        assert!(last < key);
        last = key;
    }
}
