//! Progress aggregation: cumulative and per-file byte counters and a
//! smoothed transfer-speed estimate, mutated by the transfer engine's
//! callbacks and read by a display. The display itself, and the lock that
//! shares one of these values between the transferring task and an
//! interrupt handler, live outside the library.

use vstd::prelude::*;
use crate::arith::sat_add;

verus! {

/// The progress state as the specifications see it. Speeds are in bytes
/// per second; timestamps in milliseconds of a monotonic clock.
#[verifier::ext_equal]
pub ghost struct ProgressView {
    pub total_bytes: u64,
    pub current_bytes: u64,
    pub current_file: Seq<char>,
    pub current_file_size: u64,
    pub current_file_progress: u64,
    pub last_update_ms: u64,
    pub last_bytes: u64,
    pub smoothed_speed: u64,
    pub finished: bool,
}

/// The byte-count snapshot never runs ahead of the bytes counted.
pub open spec fn wf(v: ProgressView) -> bool {
    v.last_bytes <= v.current_bytes
}

/// The instantaneous throughput sample, in bytes per second: the bytes
/// gained since the last snapshot over the elapsed milliseconds, capped
/// at the largest `u64`.
pub open spec fn spec_sample(cb: u64, lb: u64, elapsed_ms: u64) -> u64
    recommends
        lb <= cb,
        elapsed_ms > 0,
{
    if (cb - lb) * 1000 / (elapsed_ms as int) > u64::MAX {
        u64::MAX
    } else {
        ((cb - lb) * 1000 / (elapsed_ms as int)) as u64
    }
}

/// Exponential smoothing: four parts the previous estimate, one part the
/// new sample; a first sample initializes the estimate directly.
pub open spec fn spec_smooth(prev: u64, sample: u64) -> u64 {
    if prev > 0 {
        ((4 * prev + sample) / 5) as u64
    } else {
        sample
    }
}

/// The state after one `inc_current(delta)` at time `now_ms`: both byte
/// counters advance by `delta` (saturating); when at least 100 ms have
/// passed since the last speed sample, the speed estimate folds in a new
/// sample and the snapshot moves up.
pub open spec fn spec_inc(v: ProgressView, delta: u64, now_ms: u64) -> ProgressView
    recommends
        wf(v),
        v.last_update_ms <= now_ms,
{
    let cb = sat_add(v.current_bytes, delta);
    let cfp = sat_add(v.current_file_progress, delta);
    if now_ms - v.last_update_ms >= 100 {
        ProgressView {
            total_bytes: v.total_bytes,
            current_bytes: cb,
            current_file: v.current_file,
            current_file_size: v.current_file_size,
            current_file_progress: cfp,
            last_update_ms: now_ms,
            last_bytes: cb,
            smoothed_speed: spec_smooth(
                v.smoothed_speed,
                spec_sample(cb, v.last_bytes, (now_ms - v.last_update_ms) as u64),
            ),
            finished: v.finished,
        }
    } else {
        ProgressView {
            total_bytes: v.total_bytes,
            current_bytes: cb,
            current_file: v.current_file,
            current_file_size: v.current_file_size,
            current_file_progress: cfp,
            last_update_ms: v.last_update_ms,
            last_bytes: v.last_bytes,
            smoothed_speed: v.smoothed_speed,
            finished: v.finished,
        }
    }
}

/// The state after one `set_current_file(name, size)`: the per-file
/// progress restarts at zero; nothing else moves.
pub open spec fn spec_set_file(v: ProgressView, name: Seq<char>, size: u64) -> ProgressView {
    ProgressView {
        total_bytes: v.total_bytes,
        current_bytes: v.current_bytes,
        current_file: name,
        current_file_size: size,
        current_file_progress: 0,
        last_update_ms: v.last_update_ms,
        last_bytes: v.last_bytes,
        smoothed_speed: v.smoothed_speed,
        finished: v.finished,
    }
}

/// The freshly created state: everything at zero but the precomputed
/// total, with the clock anchored at `now_ms`.
pub open spec fn spec_new(total_bytes: u64, now_ms: u64) -> ProgressView {
    ProgressView {
        total_bytes,
        current_bytes: 0,
        current_file: Seq::empty(),
        current_file_size: 0,
        current_file_progress: 0,
        last_update_ms: now_ms,
        last_bytes: 0,
        smoothed_speed: 0,
        finished: false,
    }
}

/// The progress counters of one run.
pub struct CopyProgress {
    total_bytes: u64,
    current_bytes: u64,
    current_file: String,
    current_file_size: u64,
    current_file_progress: u64,
    last_update_ms: u64,
    last_bytes: u64,
    smoothed_speed: u64,
    finished: bool,
}

impl View for CopyProgress {
    type V = ProgressView;

    closed spec fn view(&self) -> ProgressView {
        ProgressView {
            total_bytes: self.total_bytes,
            current_bytes: self.current_bytes,
            current_file: self.current_file@,
            current_file_size: self.current_file_size,
            current_file_progress: self.current_file_progress,
            last_update_ms: self.last_update_ms,
            last_bytes: self.last_bytes,
            smoothed_speed: self.smoothed_speed,
            finished: self.finished,
        }
    }
}

impl CopyProgress {
    /// Creates the counters for a run whose estimated total is
    /// `total_bytes`, with the speed clock starting at `now_ms`.
    pub fn new(total_bytes: u64, now_ms: u64) -> (r: CopyProgress)
        ensures
            r@ == spec_new(total_bytes, now_ms),
            wf(r@),
    {
        CopyProgress {
            total_bytes,
            current_bytes: 0,
            current_file: String::new(),
            current_file_size: 0,
            current_file_progress: 0,
            last_update_ms: now_ms,
            last_bytes: 0,
            smoothed_speed: 0,
            finished: false,
        }
    }

    /// Begins a new file: records its name and size and resets the
    /// per-file progress to zero. Called exactly once per file, before
    /// its first byte is read.
    pub fn set_current_file(&mut self, name: &str, size: u64)
        requires
            !old(self)@.finished,
        ensures
            final(self)@ == spec_set_file(old(self)@, name@, size),
            wf(old(self)@) ==> wf(final(self)@),
    {
        self.current_file = String::from_str(name);
        self.current_file_size = size;
        self.current_file_progress = 0;
    }

    /// Advances both byte counters by `delta` and, every 100 ms or more,
    /// folds a fresh throughput sample into the smoothed speed.
    pub fn inc_current(&mut self, delta: u64, now_ms: u64)
        requires
            !old(self)@.finished,
            wf(old(self)@),
            old(self)@.last_update_ms <= now_ms,
        ensures
            final(self)@ == spec_inc(old(self)@, delta, now_ms),
            wf(final(self)@),
            final(self)@.current_bytes >= old(self)@.current_bytes,
            final(self)@.last_update_ms <= now_ms,
    {
        let ghost v = self@;
        self.current_bytes = if self.current_bytes > u64::MAX - delta {
            u64::MAX
        } else {
            self.current_bytes + delta
        };
        self.current_file_progress = if self.current_file_progress > u64::MAX - delta {
            u64::MAX
        } else {
            self.current_file_progress + delta
        };
        let elapsed = now_ms - self.last_update_ms;
        if elapsed >= 100 {
            let diff = self.current_bytes - self.last_bytes;
            let prod: u128 = (diff as u128) * 1000;
            let samp_wide: u128 = prod / (elapsed as u128);
            let sample: u64 = if samp_wide > u64::MAX as u128 {
                u64::MAX
            } else {
                samp_wide as u64
            };
            proof {
                assert(sample == spec_sample(self.current_bytes, v.last_bytes, elapsed));
            }
            let smoothed: u64 = if self.smoothed_speed > 0 {
                let wide: u128 = (self.smoothed_speed as u128) * 4 + (sample as u128);
                proof {
                    assert(wide / 5 <= u64::MAX as u128);
                }
                (wide / 5) as u64
            } else {
                sample
            };
            self.smoothed_speed = smoothed;
            self.last_update_ms = now_ms;
            self.last_bytes = self.current_bytes;
        }
        proof {
            assert(self@ =~= spec_inc(v, delta, now_ms));
        }
    }

    /// Ends the run: a terminal, idempotent mark. Safe to call again, at
    /// any time, from any exit path; nothing else changes.
    pub fn finish(&mut self)
        ensures
            final(self)@ == (ProgressView { finished: true, ..old(self)@ }),
            wf(old(self)@) ==> wf(final(self)@),
    {
        self.finished = true;
    }

    /// The precomputed byte total of the run.
    pub fn total_bytes(&self) -> (r: u64)
        ensures
            r == self@.total_bytes,
    {
        self.total_bytes
    }

    /// The bytes transferred so far.
    pub fn current_bytes(&self) -> (r: u64)
        ensures
            r == self@.current_bytes,
    {
        self.current_bytes
    }

    /// The name of the file being transferred.
    pub fn current_file_name(&self) -> (r: &String)
        ensures
            r@ == self@.current_file,
    {
        &self.current_file
    }

    /// The size of the file being transferred.
    pub fn current_file_size(&self) -> (r: u64)
        ensures
            r == self@.current_file_size,
    {
        self.current_file_size
    }

    /// The bytes of the current file transferred so far.
    pub fn current_file_progress(&self) -> (r: u64)
        ensures
            r == self@.current_file_progress,
    {
        self.current_file_progress
    }

    /// The smoothed transfer speed, in bytes per second.
    pub fn smoothed_speed(&self) -> (r: u64)
        ensures
            r == self@.smoothed_speed,
    {
        self.smoothed_speed
    }

    /// Whether the run has been finalized.
    pub fn is_finished(&self) -> (r: bool)
        ensures
            r == self@.finished,
    {
        self.finished
    }
}

/// A percentage for display: `part` out of `whole`, clamped to 100, and
/// zero when the whole is zero.
pub open spec fn spec_percent(part: u64, whole: u64) -> u16 {
    if whole == 0 {
        0
    } else if part * 100 / (whole as int) > 100 {
        100
    } else {
        (part * 100 / (whole as int)) as u16
    }
}

/// Computes a display percentage.
pub fn percent(part: u64, whole: u64) -> (r: u16)
    ensures
        r == spec_percent(part, whole),
{
    if whole == 0 {
        return 0;
    }
    let wide: u128 = (part as u128) * 100 / (whole as u128);
    if wide > 100 {
        100
    } else {
        wide as u16
    }
}

/// One recorded callback from the transfer engine: a new file beginning,
/// or bytes flushed at some instant of the monotonic clock.
pub ghost enum ProgressEvent {
    NewFile { name: Seq<char>, size: u64 },
    Bytes { delta: u64, now_ms: u64 },
}

/// The state after a sequence of callbacks.
pub open spec fn run_events(v: ProgressView, es: Seq<ProgressEvent>) -> ProgressView
    decreases es.len(),
{
    if es.len() == 0 {
        v
    } else {
        let u = run_events(v, es.drop_last());
        match es.last() {
            ProgressEvent::NewFile { name, size } => spec_set_file(u, name, size),
            ProgressEvent::Bytes { delta, now_ms } => spec_inc(u, delta, now_ms),
        }
    }
}

/// A callback trace the sequential transfer engine can produce: nothing
/// after the run is finished, clocks never running backwards, and each
/// flush staying within the declared size of the current file.
pub open spec fn events_valid(v: ProgressView, es: Seq<ProgressEvent>) -> bool
    decreases es.len(),
{
    if es.len() == 0 {
        true
    } else {
        let u = run_events(v, es.drop_last());
        events_valid(v, es.drop_last()) && !u.finished && match es.last() {
            ProgressEvent::NewFile { name, size } => true,
            ProgressEvent::Bytes { delta, now_ms } => u.last_update_ms <= now_ms
                && u.current_file_progress + delta <= u.current_file_size,
        }
    }
}

/// The cumulative byte counter never decreases: at every point of every
/// callback trace, the bytes counted so far are at least what any earlier
/// point had counted.
pub proof fn lemma_current_bytes_monotonic(v: ProgressView, es: Seq<ProgressEvent>, k: int)
    requires
        0 <= k <= es.len(),
    ensures
        run_events(v, es.take(k)).current_bytes <= run_events(v, es).current_bytes,
    decreases es.len(),
{
    if k == es.len() {
        assert(es.take(k) =~= es);
    } else {
        assert(es.drop_last().take(k) =~= es.take(k));
        lemma_current_bytes_monotonic(v, es.drop_last(), k);
        let u = run_events(v, es.drop_last());
        match es.last() {
            ProgressEvent::NewFile { name, size } => {},
            ProgressEvent::Bytes { delta, now_ms } => {
                assert(spec_inc(u, delta, now_ms).current_bytes >= u.current_bytes);
            },
        }
    }
}

/// On every trace the engine can produce, the per-file progress never
/// exceeds the declared size of the current file.
pub proof fn lemma_file_progress_bounded(v: ProgressView, es: Seq<ProgressEvent>)
    requires
        events_valid(v, es),
        v.current_file_progress <= v.current_file_size,
    ensures
        run_events(v, es).current_file_progress <= run_events(v, es).current_file_size,
    decreases es.len(),
{
    if es.len() > 0 {
        lemma_file_progress_bounded(v, es.drop_last());
    }
}

} // verus!
