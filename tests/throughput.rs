use rangefetch::report::{summarize, tick_speed, Speed, Summary};
use rangefetch::throughput::{Snapshot, ThroughputState};

#[test]
fn fresh_state_is_empty() {
    let s = ThroughputState::new(42);
    assert_eq!(s.total_bytes_downloaded(), 0);
    assert_eq!(s.bytes_in_current_window(), 0);
    assert_eq!(s.window_start(), 42);
    let snap = s.snapshot();
    assert!(snap.recent_windows.is_empty());
    assert_eq!(snap.average(), 0);
}

#[test]
fn sub_window_accumulation() {
    let mut s = ThroughputState::new(0);
    s.record(100, 100);
    s.record(200, 400);
    s.record(50, 999);
    assert_eq!(s.bytes_in_current_window(), 350);
    assert_eq!(s.total_bytes_downloaded(), 350);
    assert!(s.snapshot().recent_windows.is_empty());
    assert_eq!(s.window_start(), 0);
}

#[test]
fn window_flush_of_five_hundred() {
    let mut s = ThroughputState::new(0);
    s.record(500, 10);
    assert_eq!(s.bytes_in_current_window(), 500);
    s.record(0, 1000);
    assert_eq!(s.snapshot().recent_windows, vec![500]);
    assert_eq!(s.bytes_in_current_window(), 0);
    assert_eq!(s.window_start(), 1000);
    assert_eq!(s.total_bytes_downloaded(), 500);
}

#[test]
fn flush_closes_window_with_triggering_chunk() {
    let mut s = ThroughputState::new(0);
    s.record(500, 10);
    s.record(100, 1500);
    assert_eq!(s.snapshot().recent_windows, vec![600]);
    assert_eq!(s.bytes_in_current_window(), 0);
    assert_eq!(s.window_start(), 1500);
    assert_eq!(s.total_bytes_downloaded(), 600);
}

#[test]
fn eleven_flushes_evict_the_first() {
    let mut s = ThroughputState::new(0);
    let values: Vec<u64> = (1..=11).map(|k| k * 10).collect();
    for (k, v) in values.iter().enumerate() {
        s.record(*v, (k as u64 + 1) * 1000);
    }
    assert_eq!(s.snapshot().recent_windows, values[1..].to_vec());
    assert_eq!(s.total_bytes_downloaded(), values.iter().sum::<u64>());
}

#[test]
fn history_never_exceeds_ten() {
    let mut s = ThroughputState::new(0);
    for k in 1..=25u64 {
        s.record(k, k * 1000);
        assert!(s.snapshot().recent_windows.len() <= 10);
    }
    assert_eq!(s.snapshot().recent_windows, (16..=25).collect::<Vec<u64>>());
}

#[test]
fn total_is_sum_whatever_the_timing() {
    let sizes: [u64; 6] = [7, 0, 1500, 3, 999, 42];
    let times: [u64; 6] = [5, 1200, 1300, 5000, 5001, 9000];
    let mut s = ThroughputState::new(0);
    for i in 0..6 {
        s.record(sizes[i], times[i]);
    }
    assert_eq!(s.total_bytes_downloaded(), sizes.iter().sum::<u64>());
    let snap = s.snapshot();
    let closed: u64 = snap.recent_windows.iter().sum();
    assert_eq!(closed + s.bytes_in_current_window(), s.total_bytes_downloaded());
}

#[test]
fn clock_going_backwards_does_not_flush() {
    let mut s = ThroughputState::new(5000);
    s.record(10, 1000);
    assert_eq!(s.bytes_in_current_window(), 10);
    assert!(s.snapshot().recent_windows.is_empty());
}

#[test]
fn average_uses_integer_division() {
    let snap = Snapshot { recent_windows: vec![10, 20, 4], total_bytes_downloaded: 34 };
    assert_eq!(snap.average(), 11);
    let empty = Snapshot { recent_windows: vec![], total_bytes_downloaded: 99 };
    assert_eq!(empty.average(), 0);
}

#[test]
fn speed_units() {
    assert_eq!(
        Speed::from_bytes_per_sec(3 * 1024 * 1024 + 5),
        Speed { bytes_per_sec: 3_145_733, kib_per_sec: 3072, mib_per_sec: 3 }
    );
    assert_eq!(
        Speed::from_bytes_per_sec(1023),
        Speed { bytes_per_sec: 1023, kib_per_sec: 0, mib_per_sec: 0 }
    );
}

#[test]
fn tick_and_summary_read_the_snapshot() {
    let mut s = ThroughputState::new(0);
    s.record(2048, 1000);
    s.record(4096, 2000);
    s.record(77, 2100);
    let snap = s.snapshot();
    assert_eq!(
        tick_speed(&snap),
        Speed { bytes_per_sec: 3072, kib_per_sec: 3, mib_per_sec: 0 }
    );
    assert_eq!(
        summarize(&snap),
        Summary {
            total_bytes: 6221,
            speed: Speed { bytes_per_sec: 3072, kib_per_sec: 3, mib_per_sec: 0 }
        }
    );
}
