//! Pacing arithmetic for the transfer engine: the chunk size a pacing
//! mode allows and the delay owed after each buffer flush.

use vstd::prelude::*;
use crate::cli::TestMode;

verus! {

/// The fixed transfer buffer size, in bytes.
pub const BUFFER_SIZE: usize = 1024 * 1024;

/// The largest chunk one read may fill under `mode`: rate limiting caps
/// it at the bytes-per-second budget, everything else uses the whole
/// buffer.
pub open spec fn spec_chunk_cap(mode: TestMode, buffer_len: usize) -> usize {
    match mode {
        TestMode::SpeedLimit(bps) => {
            if bps < buffer_len {
                bps as usize
            } else {
                buffer_len
            }
        },
        _ => buffer_len,
    }
}

/// Computes the chunk cap for one read.
pub fn chunk_cap(mode: TestMode, buffer_len: usize) -> (r: usize)
    ensures
        r == spec_chunk_cap(mode, buffer_len),
{
    match mode {
        TestMode::SpeedLimit(bps) => {
            if bps < buffer_len as u64 {
                bps as usize
            } else {
                buffer_len
            }
        },
        _ => buffer_len,
    }
}

/// The ideal duration of a chunk under a byte-per-second budget, in
/// nanoseconds, rounded down.
pub open spec fn ideal_nanos(chunk: u64, bps: u64) -> int {
    chunk * 1_000_000_000 / (bps as int)
}

/// The delay owed after flushing `chunk` bytes when `elapsed` nanoseconds
/// of wall time have passed since the last pacing checkpoint: a fixed
/// delay ignores both and always waits its span; a rate limit waits for
/// the shortfall against the chunk's ideal duration; no throttling never
/// waits. Values past the largest `u64` saturate.
pub open spec fn spec_wait_nanos(mode: TestMode, chunk: u64, elapsed: u64) -> u64 {
    match mode {
        TestMode::Unthrottled => 0,
        TestMode::Delay(ms) => {
            if ms * 1_000_000 > u64::MAX {
                u64::MAX
            } else {
                (ms * 1_000_000) as u64
            }
        },
        TestMode::SpeedLimit(bps) => {
            if bps == 0 {
                0
            } else {
                let t = if ideal_nanos(chunk, bps) > u64::MAX {
                    u64::MAX as int
                } else {
                    ideal_nanos(chunk, bps)
                };
                if elapsed < t {
                    (t - elapsed) as u64
                } else {
                    0
                }
            }
        },
    }
}

/// Computes the delay owed after one buffer flush.
pub fn pacing_wait_nanos(mode: TestMode, chunk: u64, elapsed: u64) -> (r: u64)
    ensures
        r == spec_wait_nanos(mode, chunk, elapsed),
{
    match mode {
        TestMode::Unthrottled => 0,
        TestMode::Delay(ms) => {
            if ms > u64::MAX / 1_000_000 {
                proof {
                    assert(ms * 1_000_000 > u64::MAX) by (nonlinear_arith)
                        requires
                            ms > u64::MAX / 1_000_000,
                    {}
                }
                u64::MAX
            } else {
                proof {
                    assert(ms * 1_000_000 <= u64::MAX) by (nonlinear_arith)
                        requires
                            ms <= u64::MAX / 1_000_000,
                    {}
                }
                ms * 1_000_000
            }
        },
        TestMode::SpeedLimit(bps) => {
            if bps == 0 {
                return 0;
            }
            let t128: u128 = (chunk as u128) * 1_000_000_000u128 / (bps as u128);
            proof {
                assert(t128 == ideal_nanos(chunk, bps));
            }
            let target: u64 = if t128 > u64::MAX as u128 {
                u64::MAX
            } else {
                t128 as u64
            };
            if elapsed < target {
                target - elapsed
            } else {
                0
            }
        },
    }
}

/// Rate-limit pacing is honored chunk by chunk: once the owed delay is
/// waited out, the time spent on a chunk is at least its ideal duration.
pub proof fn lemma_rate_limit_wait(bps: u64, chunk: u64, elapsed: u64)
    requires
        bps > 0,
        chunk <= bps,
    ensures
        elapsed + spec_wait_nanos(TestMode::SpeedLimit(bps), chunk, elapsed) >= ideal_nanos(
            chunk,
            bps,
        ),
{
    assert(ideal_nanos(chunk, bps) <= 1_000_000_000) by (nonlinear_arith)
        requires
            bps > 0,
            chunk <= bps,
    {}
}

/// Fixed-delay pacing always waits its full span after a flush, whatever
/// the chunk size was and however long the flush took.
pub proof fn lemma_fixed_delay_wait(ms: u64, chunk: u64, elapsed: u64)
    requires
        ms <= u64::MAX / 1_000_000,
    ensures
        spec_wait_nanos(TestMode::Delay(ms), chunk, elapsed) == ms * 1_000_000,
{
    assert(ms * 1_000_000 <= u64::MAX) by (nonlinear_arith)
        requires
            ms <= u64::MAX / 1_000_000,
    {}
}

/// The total ideal duration of a sequence of chunks under a
/// byte-per-second budget, in nanoseconds.
pub open spec fn total_ideal_nanos(chunks: Seq<u64>, bps: u64) -> int
    decreases chunks.len(),
{
    if chunks.len() == 0 {
        0
    } else {
        total_ideal_nanos(chunks.drop_last(), bps) + ideal_nanos(chunks.last(), bps)
    }
}

/// The wall time a transfer spends on its chunks: for each, the time its
/// flush itself took and then the owed delay.
pub open spec fn total_transfer_nanos(
    mode: TestMode,
    chunks: Seq<u64>,
    elapsed: Seq<u64>,
) -> int
    decreases chunks.len(),
{
    if chunks.len() == 0 {
        0
    } else {
        total_transfer_nanos(mode, chunks.drop_last(), elapsed.drop_last()) + elapsed.last()
            + spec_wait_nanos(mode, chunks.last(), elapsed.last())
    }
}

/// A whole rate-limited transfer takes at least the total ideal duration
/// of the bytes it moved, however long each flush itself took: moving
/// `N` bytes at a budget of `bps` bytes per second takes at least the
/// total of the chunks' `N / bps` shares.
pub proof fn lemma_rate_limit_total(chunks: Seq<u64>, elapsed: Seq<u64>, bps: u64)
    requires
        bps > 0,
        chunks.len() == elapsed.len(),
        forall|i: int| 0 <= i < chunks.len() ==> #[trigger] chunks[i] <= bps,
    ensures
        total_transfer_nanos(TestMode::SpeedLimit(bps), chunks, elapsed) >= total_ideal_nanos(
            chunks,
            bps,
        ),
    decreases chunks.len(),
{
    if chunks.len() > 0 {
        lemma_rate_limit_total(chunks.drop_last(), elapsed.drop_last(), bps);
        lemma_rate_limit_wait(bps, chunks.last(), elapsed.last());
    }
}

/// A whole fixed-delay transfer spends its full span waiting after every
/// one of its flushes, so the flush count times the span never exceeds
/// the elapsed wall time.
pub proof fn lemma_fixed_delay_total(chunks: Seq<u64>, elapsed: Seq<u64>, ms: u64)
    requires
        ms <= u64::MAX / 1_000_000,
        chunks.len() == elapsed.len(),
    ensures
        total_transfer_nanos(TestMode::Delay(ms), chunks, elapsed) >= chunks.len() * (ms
            * 1_000_000),
    decreases chunks.len(),
{
    if chunks.len() > 0 {
        lemma_fixed_delay_total(chunks.drop_last(), elapsed.drop_last(), ms);
        lemma_fixed_delay_wait(ms, chunks.last(), elapsed.last());
        let n = chunks.len() as int;
        let k = ms * 1_000_000;
        assert(spec_wait_nanos(TestMode::Delay(ms), chunks.last(), elapsed.last()) == k);
        assert(total_transfer_nanos(TestMode::Delay(ms), chunks, elapsed) >= (n - 1) * k
            + elapsed.last() + k);
        assert(n * k == (n - 1) * k + k) by (nonlinear_arith);
    } else {
        assert(chunks.len() * (ms * 1_000_000) == 0) by (nonlinear_arith)
            requires
                chunks.len() == 0,
        {}
    }
}

} // verus!
