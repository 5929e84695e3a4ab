use pcopy::cli::TestMode;
use pcopy::pacing::{chunk_cap, pacing_wait_nanos, BUFFER_SIZE};

#[test]
fn chunk_cap_follows_mode() {
    assert_eq!(chunk_cap(TestMode::Unthrottled, BUFFER_SIZE), BUFFER_SIZE);
    assert_eq!(chunk_cap(TestMode::Delay(50), BUFFER_SIZE), BUFFER_SIZE);
    assert_eq!(chunk_cap(TestMode::SpeedLimit(100), BUFFER_SIZE), 100);
    assert_eq!(
        chunk_cap(TestMode::SpeedLimit(10_000_000), BUFFER_SIZE),
        BUFFER_SIZE
    );
}

#[test]
fn unthrottled_never_waits() {
    assert_eq!(pacing_wait_nanos(TestMode::Unthrottled, 12345, 0), 0);
    assert_eq!(pacing_wait_nanos(TestMode::Unthrottled, 0, 999), 0);
}

#[test]
fn fixed_delay_waits_its_span_every_flush() {
    assert_eq!(pacing_wait_nanos(TestMode::Delay(50), 1, 0), 50_000_000);
    assert_eq!(pacing_wait_nanos(TestMode::Delay(50), 1_000_000, 40_000_000), 50_000_000);
    assert_eq!(pacing_wait_nanos(TestMode::Delay(0), 1, 0), 0);
}

#[test]
fn rate_limit_waits_for_the_shortfall() {
    let mode = TestMode::SpeedLimit(1024);
    assert_eq!(pacing_wait_nanos(mode, 1024, 0), 1_000_000_000);
    assert_eq!(pacing_wait_nanos(mode, 1024, 400_000_000), 600_000_000);
    assert_eq!(pacing_wait_nanos(mode, 1024, 2_000_000_000), 0);
    assert_eq!(pacing_wait_nanos(mode, 512, 0), 500_000_000);
    assert_eq!(pacing_wait_nanos(TestMode::SpeedLimit(0), 100, 0), 0);
}

#[test]
fn rate_limited_four_kib_at_one_kib_per_second_takes_four_seconds() {
    let bps: u64 = 1024;
    let mode = TestMode::SpeedLimit(bps);
    let file_size: u64 = 4096;
    let cap = chunk_cap(mode, BUFFER_SIZE) as u64;
    assert_eq!(cap, 1024);
    let mut remaining = file_size;
    let mut total_nanos: u64 = 0;
    while remaining > 0 {
        let chunk = remaining.min(cap);
        // An instantaneous read and write: the whole ideal duration is owed.
        total_nanos += pacing_wait_nanos(mode, chunk, 0);
        remaining -= chunk;
    }
    assert_eq!(total_nanos, 4_000_000_000);
}

#[test]
fn fixed_delay_flush_count_bounds_elapsed_time() {
    let ms: u64 = 50;
    let mode = TestMode::Delay(ms);
    let file_size: u64 = 3 * BUFFER_SIZE as u64;
    let mut remaining = file_size;
    let mut flushes: u64 = 0;
    let mut waited_nanos: u64 = 0;
    while remaining > 0 {
        let chunk = remaining.min(BUFFER_SIZE as u64);
        flushes += 1;
        waited_nanos += pacing_wait_nanos(mode, chunk, 0);
        remaining -= chunk;
    }
    assert_eq!(flushes, 3);
    // The elapsed run time includes every wait, so flushes x ms bounds it
    // from below.
    assert_eq!(waited_nanos, flushes * ms * 1_000_000);
}
