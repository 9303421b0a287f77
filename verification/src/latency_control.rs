//! The latched FAST/SLOW decision of one drive. The smoothed latency and
//! its slope are measured by the caller; this latch decides what a reading
//! or a slope does to the drive's state.

use vstd::prelude::*;

verus! {

/// How many readings the smoothing window holds; the slope is judged only
/// over a full window.
pub const SMOOTHING_SAMPLES: usize = 10;

/// A latency reading as the latch sees it.
#[derive(Debug, Clone, Copy, PartialEq, Eq)]
pub enum Reading {
    /// No usable reading: none was taken, or it was not a finite,
    /// non-negative number of milliseconds.
    Missing,
    /// A usable reading; `below_recovery` tells whether it is under 1 ms.
    Valid { below_recovery: bool },
}

/// What a reading asks of the caller's trend measurement.
#[derive(Debug, Clone, Copy, PartialEq, Eq)]
pub struct ReadingOutcome {
    /// The smoothing window and the previous slope point must be discarded
    /// before this reading is taken in.
    pub reset_trend: bool,
    /// With this reading the window is full: its smoothed value becomes the
    /// slope point, and a slope from the previous point is to be judged.
    pub window_full: bool,
    /// A slope point from an earlier full window is held, so a slope can be
    /// measured from it; never without a full window.
    pub has_slope_point: bool,
}

/// The state of a drive's latch.
pub struct LatchState {
    /// The drive is FAST.
    pub fast: bool,
    /// The readings the smoothing window holds.
    pub samples: nat,
    /// A slope point is held.
    pub has_point: bool,
}

/// A drive's latch: FAST until a steep slope over a full window, then SLOW
/// until a valid reading under 1 ms.
pub struct SlowLatch {
    fast: bool,
    samples: usize,
    has_point: bool,
}

/// The latch state after a reading, and the outcome.
pub open spec fn read_step(st: LatchState, reading: Reading) -> (LatchState, ReadingOutcome) {
    match reading {
        Reading::Missing => (
            LatchState { fast: st.fast, samples: 0, has_point: false },
            ReadingOutcome { reset_trend: true, window_full: false, has_slope_point: false },
        ),
        Reading::Valid { below_recovery } => {
            let recovers = !st.fast && below_recovery;
            let base: nat = if recovers {
                0
            } else {
                st.samples
            };
            let point = !recovers && st.has_point;
            let n: nat = if base + 1 < SMOOTHING_SAMPLES {
                base + 1
            } else {
                SMOOTHING_SAMPLES as nat
            };
            let full = n == SMOOTHING_SAMPLES;
            (
                LatchState { fast: st.fast || recovers, samples: n, has_point: point || full },
                ReadingOutcome { reset_trend: recovers, window_full: full, has_slope_point: full && point },
            )
        },
    }
}

/// Whether the latch stays FAST once a slope has been judged.
pub open spec fn judge_step(st: LatchState, steep: bool) -> bool {
    st.fast && !(steep && st.samples == SMOOTHING_SAMPLES)
}

/// One sample as the caller takes it: the reading, then, over a full
/// window, the judgement of the slope (`steep`).
pub open spec fn sample_step(st: LatchState, reading: Reading, steep: bool) -> (LatchState, ReadingOutcome) {
    let (next, o) = read_step(st, reading);
    if o.window_full {
        (LatchState { fast: judge_step(next, steep), ..next }, o)
    } else {
        (next, o)
    }
}

/// The state after the samples `xs` from `st`.
pub open spec fn latch_run(st: LatchState, xs: Seq<(Reading, bool)>) -> LatchState
    decreases xs.len(),
{
    if xs.len() == 0 {
        st
    } else {
        sample_step(latch_run(st, xs.drop_last()), xs.last().0, xs.last().1).0
    }
}

impl SlowLatch {
    #[verifier::type_invariant]
    spec fn window_bounded(self) -> bool {
        &&& self.samples <= SMOOTHING_SAMPLES
        &&& self.has_point ==> self.samples == SMOOTHING_SAMPLES
    }

    /// The latch's state.
    pub closed spec fn state(&self) -> LatchState {
        LatchState { fast: self.fast, samples: self.samples as nat, has_point: self.has_point }
    }

    pub fn new() -> (l: SlowLatch)
        ensures
            l.state() == (LatchState { fast: true, samples: 0, has_point: false }),
    {
        SlowLatch { fast: true, samples: 0, has_point: false }
    }

    pub fn is_fast(&self) -> (b: bool)
        ensures
            b == self.state().fast,
    {
        self.fast
    }

    /// Takes in one reading. A missing reading discards the trend but keeps
    /// the latched state; a valid reading under 1 ms releases a SLOW latch
    /// and restarts the trend; every valid reading fills the window by one,
    /// and a full window's reading becomes the next slope point.
    pub fn read(&mut self, reading: Reading) -> (o: ReadingOutcome)
        ensures
            (final(self).state(), o) == read_step(old(self).state(), reading),
    {
        proof {
            use_type_invariant(&*self);
        }
        match reading {
            Reading::Missing => {
                *self = SlowLatch { fast: self.fast, samples: 0, has_point: false };
                ReadingOutcome { reset_trend: true, window_full: false, has_slope_point: false }
            },
            Reading::Valid { below_recovery } => {
                let recovers = !self.fast && below_recovery;
                let base: usize = if recovers {
                    0
                } else {
                    self.samples
                };
                let point = !recovers && self.has_point;
                let n: usize = if base + 1 < SMOOTHING_SAMPLES {
                    base + 1
                } else {
                    SMOOTHING_SAMPLES
                };
                let full = n == SMOOTHING_SAMPLES;
                *self = SlowLatch { fast: self.fast || recovers, samples: n, has_point: point || full };
                ReadingOutcome { reset_trend: recovers, window_full: full, has_slope_point: full && point }
            },
        }
    }

    /// Judges the slope of a full window: a steep one latches SLOW. Over a
    /// window that is not full, a slope changes nothing.
    pub fn judge_slope(&mut self, steep: bool)
        ensures
            final(self).state() == (LatchState { fast: judge_step(old(self).state(), steep), ..old(self).state() }),
    {
        proof {
            use_type_invariant(&*self);
        }
        if steep && self.samples == SMOOTHING_SAMPLES {
            *self = SlowLatch { fast: false, samples: self.samples, has_point: self.has_point };
        }
    }
}

/// Missing readings never release, and never set, the SLOW latch; they
/// discard the trend, the slope point with it, and give no slope.
pub proof fn missing_reading_keeps_state(st: LatchState)
    ensures
        read_step(st, Reading::Missing).0 == (LatchState { fast: st.fast, samples: 0, has_point: false }),
        !read_step(st, Reading::Missing).1.has_slope_point,
{
}

/// A SLOW latch is released only by a valid reading under 1 ms.
pub proof fn only_low_reading_recovers(st: LatchState, reading: Reading)
    requires
        !st.fast,
    ensures
        read_step(st, reading).0.fast <==> reading == (Reading::Valid { below_recovery: true }),
        read_step(st, reading).0.fast ==> read_step(st, reading).1.reset_trend
            && !read_step(st, reading).1.has_slope_point && read_step(st, reading).0.samples == 1
            && !read_step(st, reading).0.has_point,
{
}

/// Readings never latch SLOW; only a steep slope over a full window does.
pub proof fn slow_needs_steep_full_window(st: LatchState, steep: bool, reading: Reading)
    ensures
        st.fast ==> read_step(st, reading).0.fast,
        st.fast && !judge_step(st, steep) ==> steep && st.samples == SMOOTHING_SAMPLES,
        !st.fast ==> !judge_step(st, steep),
{
}

/// A drive's window never holds more than `SMOOTHING_SAMPLES` readings.
pub proof fn window_holds_at_most_ten(st: LatchState, reading: Reading)
    requires
        st.samples <= SMOOTHING_SAMPLES,
    ensures
        read_step(st, reading).0.samples <= SMOOTHING_SAMPLES,
        SMOOTHING_SAMPLES == 10,
{
}

/// The slope is judged only once `SMOOTHING_SAMPLES` consecutive valid
/// readings have been taken since the trend was last discarded.
pub proof fn full_window_needs_consecutive_readings(st: LatchState, reading: Reading)
    ensures
        read_step(st, reading).1.window_full ==> reading is Valid,
        read_step(st, reading).1.window_full && !read_step(st, reading).1.reset_trend ==> st.samples
            + 1 >= SMOOTHING_SAMPLES,
        read_step(st, reading).1.has_slope_point ==> read_step(st, reading).1.window_full,
{
}

proof fn lemma_fresh_trend(st: LatchState, xs: Seq<(Reading, bool)>, j: int)
    requires
        st.samples == 0,
        !st.has_point,
        0 <= j <= xs.len(),
        j < SMOOTHING_SAMPLES,
    ensures
        latch_run(st, xs.take(j)).samples <= j,
        !latch_run(st, xs.take(j)).has_point,
    decreases j,
{
    if j == 0 {
        assert(xs.take(0) =~= Seq::<(Reading, bool)>::empty());
    } else {
        lemma_fresh_trend(st, xs, j - 1);
        assert(xs.take(j).drop_last() =~= xs.take(j - 1));
    }
}

/// After a missing reading, or from a new latch, none of the next `SMOOTHING_SAMPLES` samples gives a slope:
/// a slope needs a point from an earlier full window.
pub proof fn no_slope_within_ten_readings_of_reset(st: LatchState, xs: Seq<(Reading, bool)>, j: int)
    requires
        st.samples == 0,
        !st.has_point,
        0 <= j < xs.len(),
        j < SMOOTHING_SAMPLES,
    ensures
        !sample_step(latch_run(st, xs.take(j)), xs[j].0, xs[j].1).1.has_slope_point,
{
    lemma_fresh_trend(st, xs, j);
}

/// A full window stays full: once a FAST drive's window holds
/// `SMOOTHING_SAMPLES` readings, each further valid reading keeps it full,
/// so its slope is judged again, measured from the point held before.
pub proof fn full_window_stays_full(st: LatchState, below_recovery: bool)
    requires
        st.fast,
        st.samples == SMOOTHING_SAMPLES,
    ensures
        read_step(st, Reading::Valid { below_recovery }).0.samples == SMOOTHING_SAMPLES,
        read_step(st, Reading::Valid { below_recovery }).0.fast,
        read_step(st, Reading::Valid { below_recovery }).0.has_point,
        read_step(st, Reading::Valid { below_recovery }).1.window_full,
        !read_step(st, Reading::Valid { below_recovery }).1.reset_trend,
        read_step(st, Reading::Valid { below_recovery }).1.has_slope_point == st.has_point,
{
}

/// A measured slope can latch SLOW: after any reading that gives a slope,
/// judging that slope steep leaves the drive SLOW, and judging it gentle
/// leaves the drive as the reading left it.
pub proof fn measured_steep_slope_latches_slow(st: LatchState, reading: Reading)
    requires
        read_step(st, reading).1.has_slope_point,
    ensures
        read_step(st, reading).1.window_full,
        !judge_step(read_step(st, reading).0, true),
        !sample_step(st, reading, true).0.fast,
        judge_step(read_step(st, reading).0, false) == read_step(st, reading).0.fast,
{
}

/// A judgement never releases SLOW; a gentle slope changes nothing; a
/// steep slope over a full window always latches SLOW.
pub proof fn judgement_law(st: LatchState, steep: bool)
    ensures
        judge_step(st, steep) ==> st.fast,
        judge_step(st, false) == st.fast,
        st.samples == SMOOTHING_SAMPLES ==> !judge_step(st, true),
        st.samples < SMOOTHING_SAMPLES ==> judge_step(st, steep) == st.fast,
{
}

proof fn lemma_steady_run(xs: Seq<(Reading, bool)>, k: int)
    requires
        0 <= k <= xs.len(),
        forall|i: int| 0 <= i < xs.len() ==> (#[trigger] xs[i]).0 == (Reading::Valid { below_recovery: false }),
    ensures
        latch_run(LatchState { fast: true, samples: 0, has_point: false }, xs.take(k)).samples == if k
            < SMOOTHING_SAMPLES {
            k as nat
        } else {
            SMOOTHING_SAMPLES as nat
        },
        latch_run(LatchState { fast: true, samples: 0, has_point: false }, xs.take(k)).has_point <==> k
            >= SMOOTHING_SAMPLES,
    decreases k,
{
    if k == 0 {
        assert(xs.take(0) =~= Seq::<(Reading, bool)>::empty());
    } else {
        lemma_steady_run(xs, k - 1);
        assert(xs.take(k).drop_last() =~= xs.take(k - 1));
        assert(xs.take(k).last() == xs[k - 1]);
    }
}

/// From a new latch, a run of valid readings that are not under 1 ms fills
/// the window with its first `SMOOTHING_SAMPLES` readings, and every later
/// reading gives a slope; a steep one latches the drive SLOW.
pub proof fn steady_readings_give_slopes(xs: Seq<(Reading, bool)>, k: int)
    requires
        forall|i: int| 0 <= i < xs.len() ==> (#[trigger] xs[i]).0 == (Reading::Valid { below_recovery: false }),
        0 <= k < xs.len(),
    ensures
        ({
            let st = latch_run(LatchState { fast: true, samples: 0, has_point: false }, xs.take(k));
            &&& sample_step(st, xs[k].0, xs[k].1).1.window_full <==> k + 1 >= SMOOTHING_SAMPLES
            &&& sample_step(st, xs[k].0, xs[k].1).1.has_slope_point <==> k >= SMOOTHING_SAMPLES
            &&& (k >= SMOOTHING_SAMPLES && xs[k].1 ==> !sample_step(st, xs[k].0, xs[k].1).0.fast)
        }),
{
    lemma_steady_run(xs, k);
}

} // verus!
