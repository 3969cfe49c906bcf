use system_monitor::rates::{rate, rates_between, RateTracker, NANOS_PER_SEC};
use system_monitor::snapshot::CounterSnapshot;

fn snap(rows: &[(&str, u64, u64)]) -> CounterSnapshot {
    let mut s = CounterSnapshot::new();
    for &(n, a, b) in rows {
        s.insert(n.to_string(), a, b);
    }
    s
}

const SECOND: u64 = NANOS_PER_SEC;

#[test]
fn unchanged_counters_give_zero_rates() {
    let mut t = RateTracker::new();
    let first = t.network_rates_over(&snap(&[("eth0", 1000, 2000)]), SECOND);
    assert!(first.is_empty());
    let second = t.network_rates_over(&snap(&[("eth0", 1000, 2000)]), SECOND);
    assert_eq!(second, vec![("eth0".to_string(), 0, 0)]);
}

#[test]
fn increase_over_one_second() {
    let mut t = RateTracker::new();
    t.network_rates_over(&snap(&[("eth0", 1000, 2000)]), SECOND);
    let r = t.network_rates_over(&snap(&[("eth0", 5000, 2000)]), SECOND);
    assert_eq!(r, vec![("eth0".to_string(), 4000, 0)]);
}

#[test]
fn new_device_reported_from_next_update() {
    let mut t = RateTracker::new();
    t.network_rates_over(&snap(&[("eth0", 10, 10)]), SECOND);
    let r = t.network_rates_over(&snap(&[("eth0", 20, 30), ("wlan0", 100, 100)]), SECOND);
    assert_eq!(r, vec![("eth0".to_string(), 10, 20)]);
    let r = t.network_rates_over(&snap(&[("eth0", 20, 30), ("wlan0", 400, 150)]), SECOND);
    assert_eq!(r, vec![("eth0".to_string(), 0, 0), ("wlan0".to_string(), 300, 50)]);
}

#[test]
fn removed_device_is_dropped() {
    let mut t = RateTracker::new();
    t.disk_rates_over(&snap(&[("sda", 10, 10), ("sdb", 5, 5)]), SECOND);
    let r = t.disk_rates_over(&snap(&[("sdb", 15, 25)]), SECOND);
    assert_eq!(r, vec![("sdb".to_string(), 10, 20)]);
    let r = t.disk_rates_over(&snap(&[("sda", 50, 50), ("sdb", 15, 25)]), SECOND);
    assert_eq!(r, vec![("sdb".to_string(), 0, 0)]);
}

#[test]
fn decreasing_counter_gives_zero() {
    let mut t = RateTracker::new();
    t.network_rates_over(&snap(&[("eth0", 2000, 2000)]), SECOND);
    let r = t.network_rates_over(&snap(&[("eth0", 500, 3000)]), SECOND);
    assert_eq!(r, vec![("eth0".to_string(), 0, 1000)]);
    assert_eq!(rate(2000, 500, 1), 0);
}

#[test]
fn zero_elapsed_keeps_first_snapshot() {
    let mut t = RateTracker::new();
    assert!(t.network_rates_over(&snap(&[("eth0", 1000, 1000)]), SECOND).is_empty());
    assert!(t.network_rates_over(&snap(&[("eth0", 3000, 3000)]), 0).is_empty());
    assert!(t.network_rates_over(&snap(&[("eth0", 4000, 4000)]), 0).is_empty());
    let r = t.network_rates_over(&snap(&[("eth0", 6000, 2000)]), SECOND);
    assert_eq!(r, vec![("eth0".to_string(), 5000, 1000)]);
}

#[test]
fn series_are_independent() {
    let mut t = RateTracker::new();
    t.network_rates_over(&snap(&[("x", 0, 0)]), SECOND);
    t.disk_rates_over(&snap(&[("x", 100, 100)]), SECOND);
    let n = t.network_rates_over(&snap(&[("x", 10, 10)]), SECOND);
    assert_eq!(n, vec![("x".to_string(), 10, 10)]);
    let d = t.disk_rates_over(&snap(&[("x", 300, 100)]), SECOND);
    assert_eq!(d, vec![("x".to_string(), 200, 0)]);
}

#[test]
fn rate_scales_by_interval() {
    assert_eq!(rate(0, 1500, 2 * SECOND), 750);
    assert_eq!(rate(0, 1000, SECOND / 2), 2000);
    assert_eq!(rate(0, 999, 2 * SECOND), 499);
    assert_eq!(rate(0, u64::MAX, 1), u64::MAX);
    assert_eq!(rate(7, 7, SECOND), 0);
}

#[test]
fn rates_between_follows_current_order() {
    let prev = snap(&[("b", 0, 0), ("a", 0, 0)]);
    let cur = snap(&[("a", 2, 4), ("c", 9, 9), ("b", 6, 8)]);
    let r = rates_between(&prev, &cur, 2 * SECOND);
    assert_eq!(r, vec![("a".to_string(), 1, 2), ("b".to_string(), 3, 4)]);
}

#[test]
fn clock_updates_start_empty() {
    let mut t = RateTracker::new();
    assert!(t.update_network_rates(&snap(&[("eth0", 1, 1)])).is_empty());
    assert!(t.update_disk_rates(&snap(&[("sda", 1, 1)])).is_empty());
}

#[test]
fn snapshot_insert_replaces_same_name() {
    let mut s = snap(&[("eth0", 1, 2), ("lo", 3, 4)]);
    assert_eq!(s.len(), 2);
    s.insert("eth0".to_string(), 5, 6);
    assert_eq!(s.len(), 2);
    assert_eq!(s.get(&"eth0".to_string()), Some((5, 6)));
    assert_eq!(s.get(&"lo".to_string()), Some((3, 4)));
    assert_eq!(s.get(&"wlan0".to_string()), None);
    assert_eq!(s.entry(0), ("eth0".to_string(), 5, 6));
    let d = s.duplicate();
    assert_eq!(d.entry(1), ("lo".to_string(), 3, 4));
}
