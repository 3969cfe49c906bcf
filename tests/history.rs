use system_monitor::history::{History, HistoryTracker, Trend, trend_of, TREND_DEADBAND};

fn sample(cpu: u32, mem: u32) -> History {
    History { cpu_usage: cpu, mem_percent_usage: mem, mem_used_mb: 0 }
}

fn tracker_of(max: usize, cpu: &[u32]) -> HistoryTracker {
    let mut t = HistoryTracker::new(max);
    for &c in cpu {
        t.add(sample(c, c));
    }
    t
}

#[test]
fn window_keeps_newest_in_order() {
    let mut t = HistoryTracker::new(3);
    for c in 1..=5u32 {
        t.add(sample(c, 0));
        assert!(t.len() <= 3);
    }
    assert_eq!(t.len(), 3);
    assert_eq!(t.sample(0).cpu_usage, 3);
    assert_eq!(t.sample(1).cpu_usage, 4);
    assert_eq!(t.sample(2).cpu_usage, 5);
}

#[test]
fn window_below_capacity_keeps_all() {
    let t = tracker_of(10, &[7, 8]);
    assert_eq!(t.len(), 2);
    assert_eq!(t.sample(0).cpu_usage, 7);
    assert_eq!(t.sample(1).cpu_usage, 8);
}

#[test]
fn zero_capacity_stays_empty() {
    let t = tracker_of(0, &[1, 2, 3]);
    assert_eq!(t.len(), 0);
    assert!(!t.has_data());
    assert_eq!(t.cpu_avg(), None);
    assert_eq!(t.cpu_max(), None);
    assert_eq!(t.cpu_trend(), Trend::Undetermined);
}

#[test]
fn averages_of_empty_single_and_equal_samples() {
    let t = HistoryTracker::new(10);
    assert!(!t.has_data());
    assert_eq!(t.cpu_avg(), None);
    assert_eq!(t.mem_avg(), None);

    let t = tracker_of(10, &[4250]);
    assert!(t.has_data());
    assert_eq!(t.cpu_avg(), Some(4250));
    assert_eq!(t.mem_avg(), Some(4250));

    let t = tracker_of(10, &[3333, 3333, 3333, 3333, 3333, 3333, 3333]);
    assert_eq!(t.cpu_avg(), Some(3333));
    assert_eq!(t.mem_avg(), Some(3333));
}

#[test]
fn average_rounds_down() {
    let t = tracker_of(10, &[1000, 2000, 2001]);
    assert_eq!(t.cpu_avg(), Some(1667));
    let mut t = HistoryTracker::new(10);
    t.add(sample(0, 10));
    t.add(sample(0, 15));
    assert_eq!(t.mem_avg(), Some(12));
}

#[test]
fn average_over_window_only() {
    let t = tracker_of(2, &[9000, 1000, 3000]);
    assert_eq!(t.cpu_avg(), Some(2000));
}

#[test]
fn trend_rising_falling_flat() {
    assert_eq!(tracker_of(10, &[5000, 5200]).cpu_trend(), Trend::Rising);
    assert_eq!(tracker_of(10, &[5000, 4850]).cpu_trend(), Trend::Falling);
    assert_eq!(tracker_of(10, &[5000, 5050]).cpu_trend(), Trend::Flat);
    assert_eq!(tracker_of(10, &[5000, 5200]).mem_trend(), Trend::Rising);
    assert_eq!(tracker_of(10, &[5000, 4850]).mem_trend(), Trend::Falling);
    assert_eq!(tracker_of(10, &[5000, 5050]).mem_trend(), Trend::Flat);
}

#[test]
fn trend_undetermined_below_two_samples() {
    assert_eq!(HistoryTracker::new(10).cpu_trend(), Trend::Undetermined);
    assert_eq!(HistoryTracker::new(10).mem_trend(), Trend::Undetermined);
    assert_eq!(tracker_of(10, &[5000]).cpu_trend(), Trend::Undetermined);
    assert_eq!(tracker_of(10, &[5000]).mem_trend(), Trend::Undetermined);
}

#[test]
fn trend_uses_last_two_samples() {
    assert_eq!(tracker_of(10, &[9000, 5000, 5200]).cpu_trend(), Trend::Rising);
}

#[test]
fn trend_deadband_is_exclusive() {
    assert_eq!(TREND_DEADBAND, 100);
    assert_eq!(trend_of(5000, 5100, TREND_DEADBAND), Trend::Flat);
    assert_eq!(trend_of(5000, 5101, TREND_DEADBAND), Trend::Rising);
    assert_eq!(trend_of(5000, 4900, TREND_DEADBAND), Trend::Flat);
    assert_eq!(trend_of(5000, 4899, TREND_DEADBAND), Trend::Falling);
    assert_eq!(trend_of(50, 0, TREND_DEADBAND), Trend::Flat);
    assert_eq!(trend_of(u32::MAX - 50, u32::MAX, TREND_DEADBAND), Trend::Flat);
}

#[test]
fn maxima_over_window() {
    let t = tracker_of(10, &[1000, 9000, 3000]);
    assert_eq!(t.cpu_max(), Some(9000));
    assert_eq!(t.mem_max(), Some(9000));
    let e = HistoryTracker::new(10);
    assert_eq!(e.cpu_max(), None);
    assert_eq!(e.mem_max(), None);
}

#[test]
fn maximum_forgets_evicted_samples() {
    let t = tracker_of(2, &[9000, 1000, 3000]);
    assert_eq!(t.cpu_max(), Some(3000));
}

#[test]
fn deadband_is_configurable() {
    let mut t = HistoryTracker::with_deadband(10, 500);
    t.add(sample(5000, 5000));
    t.add(sample(5400, 4400));
    assert_eq!(t.cpu_trend(), Trend::Flat);
    assert_eq!(t.mem_trend(), Trend::Falling);
    let mut t = HistoryTracker::with_deadband(10, 0);
    t.add(sample(5000, 5000));
    t.add(sample(5001, 5000));
    assert_eq!(t.cpu_trend(), Trend::Rising);
    assert_eq!(t.mem_trend(), Trend::Flat);
}
