use pcopy::progress::{percent, CopyProgress};

#[test]
fn new_counters_start_at_zero() {
    let p = CopyProgress::new(1000, 0);
    assert_eq!(p.total_bytes(), 1000);
    assert_eq!(p.current_bytes(), 0);
    assert_eq!(p.current_file_size(), 0);
    assert_eq!(p.current_file_progress(), 0);
    assert_eq!(p.smoothed_speed(), 0);
    assert!(!p.is_finished());
}

#[test]
fn set_current_file_resets_per_file_progress() {
    let mut p = CopyProgress::new(100, 0);
    p.set_current_file("a.txt", 60);
    p.inc_current(10, 1);
    assert_eq!(p.current_file_progress(), 10);
    assert_eq!(p.current_bytes(), 10);
    p.set_current_file("b.txt", 40);
    assert_eq!(p.current_file_name().as_str(), "b.txt");
    assert_eq!(p.current_file_size(), 40);
    assert_eq!(p.current_file_progress(), 0);
    assert_eq!(p.current_bytes(), 10);
}

#[test]
fn first_speed_sample_initializes_the_estimate() {
    let mut p = CopyProgress::new(10_000, 0);
    p.set_current_file("a.bin", 10_000);
    // 1000 bytes over one second: 1000 bytes per second.
    p.inc_current(1000, 1000);
    assert_eq!(p.smoothed_speed(), 1000);
}

#[test]
fn later_samples_are_smoothed_four_to_one() {
    let mut p = CopyProgress::new(100_000, 0);
    p.set_current_file("a.bin", 100_000);
    p.inc_current(1000, 1000);
    assert_eq!(p.smoothed_speed(), 1000);
    // 6000 more bytes over the next second: sample 6000, smoothed
    // (4 * 1000 + 6000) / 5 = 2000.
    p.inc_current(6000, 2000);
    assert_eq!(p.smoothed_speed(), 2000);
}

#[test]
fn samples_under_100ms_are_not_taken() {
    let mut p = CopyProgress::new(10_000, 0);
    p.set_current_file("a.bin", 10_000);
    p.inc_current(1000, 50);
    assert_eq!(p.smoothed_speed(), 0);
    p.inc_current(1000, 99);
    assert_eq!(p.smoothed_speed(), 0);
}

#[test]
fn finish_is_idempotent_and_keeps_counters() {
    let mut p = CopyProgress::new(100, 0);
    p.set_current_file("a.txt", 50);
    p.inc_current(50, 10);
    p.finish();
    assert!(p.is_finished());
    assert_eq!(p.current_bytes(), 50);
    p.finish();
    assert!(p.is_finished());
    assert_eq!(p.current_bytes(), 50);
    assert_eq!(p.total_bytes(), 100);
}

#[test]
fn percent_is_clamped_for_display() {
    assert_eq!(percent(0, 100), 0);
    assert_eq!(percent(50, 100), 50);
    assert_eq!(percent(100, 100), 100);
    assert_eq!(percent(250, 100), 100);
    assert_eq!(percent(5, 0), 0);
    assert_eq!(percent(1, 3), 33);
}

#[test]
fn progress_invariants_hold_under_randomized_interleavings() {
    // A small linear congruential generator stands in for a random driver.
    let mut seed: u64 = 0x2545F4914F6CDD1D;
    let mut next = move || {
        seed = seed.wrapping_mul(6364136223846793005).wrapping_add(1442695040888963407);
        seed >> 33
    };

    let mut p = CopyProgress::new(1 << 40, 0);
    let mut now: u64 = 0;
    let mut last_total = p.current_bytes();
    for _ in 0..200 {
        let size = next() % 5000;
        p.set_current_file("f", size);
        let mut left = size;
        while left > 0 {
            let delta = 1 + next() % left.max(1);
            let delta = delta.min(left);
            now += next() % 300;
            p.inc_current(delta, now);
            left -= delta;
            // The per-file progress never exceeds the declared size.
            assert!(p.current_file_progress() <= p.current_file_size());
            // The cumulative counter never moves backwards.
            assert!(p.current_bytes() >= last_total);
            last_total = p.current_bytes();
        }
        assert_eq!(p.current_file_progress(), p.current_file_size());
    }
}

#[test]
fn counters_saturate_at_the_largest_u64() {
    let mut p = CopyProgress::new(u64::MAX, 0);
    p.set_current_file("huge", u64::MAX);
    p.inc_current(u64::MAX, 1);
    p.inc_current(1, 2);
    assert_eq!(p.current_bytes(), u64::MAX);
    assert_eq!(p.current_file_progress(), u64::MAX);
}
