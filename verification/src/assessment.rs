//! Burst-assessment policy. A burst's length counts samples with writes,
//! not seconds or elapsed ticks.

use vstd::prelude::*;

verus! {

/// Shorter bursts are dominated by rsync startup overhead and give no
/// meaningful assessment.
pub const MIN_MEANINGFUL_BURST: u32 = 5;

/// Drives that sustain writes this long are at once suitable for normal
/// operation.
pub const ASSESSMENT_COMPLETE_BURST: u32 = 300;

#[derive(Debug, Clone, Copy, PartialEq, Eq)]
pub enum Verdict {
    Continue,
    Complete,
    CantContinue,
}

/// Tracks the best burst so far: the longest sustained burst observed.
pub struct Assessment {
    bbsf: Option<u32>,
}

/// The verdict on `burst` when the best burst so far is `best`.
pub open spec fn verdict_for(best: Option<u32>, burst: u32) -> Verdict {
    if burst < MIN_MEANINGFUL_BURST {
        Verdict::CantContinue
    } else if burst >= ASSESSMENT_COMPLETE_BURST {
        Verdict::Complete
    } else {
        match best {
            None => Verdict::Continue,
            Some(b) => if burst > b {
                Verdict::Continue
            } else {
                Verdict::Complete
            },
        }
    }
}

/// The best burst so far once `burst` is recorded after `best`.
pub open spec fn best_after(best: Option<u32>, burst: u32) -> Option<u32> {
    if burst < MIN_MEANINGFUL_BURST {
        best
    } else if burst >= ASSESSMENT_COMPLETE_BURST {
        Some(burst)
    } else {
        match best {
            None => Some(burst),
            Some(b) => if burst > b {
                Some(burst)
            } else {
                best
            },
        }
    }
}

/// The best burst so far after recording `bursts`, in order, from none.
pub open spec fn best_of(bursts: Seq<u32>) -> Option<u32>
    decreases bursts.len(),
{
    if bursts.len() == 0 {
        None
    } else {
        best_after(best_of(bursts.drop_last()), bursts.last())
    }
}

impl Assessment {
    /// The best burst so far, if any burst was meaningful.
    pub closed spec fn best(&self) -> Option<u32> {
        self.bbsf
    }

    pub fn new() -> (a: Assessment)
        ensures
            a.best() is None,
    {
        Assessment { bbsf: None }
    }

    /// Records a burst of `burst` samples. Too short a burst cannot be
    /// assessed; a long enough one completes the assessment at once; any
    /// other continues it while it beats the best burst so far.
    pub fn record_burst(&mut self, burst: u32) -> (v: Verdict)
        ensures
            v == verdict_for(old(self).best(), burst),
            final(self).best() == best_after(old(self).best(), burst),
    {
        if burst < MIN_MEANINGFUL_BURST {
            return Verdict::CantContinue;
        }
        if burst >= ASSESSMENT_COMPLETE_BURST {
            self.bbsf = Some(burst);
            return Verdict::Complete;
        }
        match self.bbsf {
            None => {
                self.bbsf = Some(burst);
                Verdict::Continue
            },
            Some(bbsf) => {
                if burst > bbsf {
                    self.bbsf = Some(burst);
                    Verdict::Continue
                } else {
                    Verdict::Complete
                }
            },
        }
    }
}

impl Default for Assessment {
    fn default() -> (a: Assessment)
        ensures
            a.best() is None,
    {
        Assessment::new()
    }
}

/// Consecutive rises in latency that end a burst.
pub const REQUIRED_CONSECUTIVE_RISES: u32 = 2;

/// Smoothed readings of a burst that only build its latency baseline.
pub const BASELINE_SAMPLES: usize = 4;

/// The counting state of burst tracking.
pub struct BurstState {
    /// A burst is under way.
    pub active: bool,
    /// The writing samples the burst has lasted.
    pub length: nat,
    /// The smoothed readings taken into the burst's baseline.
    pub baseline: nat,
    /// The consecutive judged readings that showed a latency rise.
    pub rises: nat,
}

pub open spec fn burst_start() -> BurstState {
    BurstState { active: false, length: 0, baseline: 0, rises: 0 }
}

/// Whether a reading in state `st` is judged for a rise (rather than
/// building the baseline): the burst is under way and its baseline is full.
pub open spec fn judges(st: BurstState) -> bool {
    st.active && st.baseline >= BASELINE_SAMPLES
}

/// One sample: whether it wrote, whether it brought a smoothed latency
/// reading, and whether that reading, if judged, shows a rise. Gives the
/// next state and the length of a burst that the sample ended.
pub open spec fn burst_step(st: BurstState, writing: bool, reading: bool, rise: bool) -> (
    BurstState,
    Option<nat>,
) {
    let grow: nat = if writing {
        1
    } else {
        0
    };
    if !st.active {
        if writing {
            (BurstState { active: true, length: 1, baseline: 0, rises: 0 }, None)
        } else {
            (st, None)
        }
    } else if reading && st.baseline < BASELINE_SAMPLES {
        (BurstState { baseline: st.baseline + 1, length: st.length + grow, ..st }, None)
    } else if reading {
        let r: nat = if rise {
            st.rises + 1
        } else {
            0
        };
        if r >= REQUIRED_CONSECUTIVE_RISES {
            (burst_start(), Some(st.length))
        } else {
            (BurstState { rises: r, length: st.length + grow, ..st }, None)
        }
    } else {
        (BurstState { length: st.length + grow, ..st }, None)
    }
}

/// The counting side of burst tracking: whether a burst is under way, how
/// many writing samples it has lasted, how many readings its baseline
/// holds, and how many consecutive readings have shown a latency rise.
/// Whether a reading shows a rise is measured by the caller.
pub struct BurstCounter {
    active: bool,
    length: u32,
    baseline: usize,
    consecutive_rises: u32,
}

impl BurstCounter {
    #[verifier::type_invariant]
    spec fn counts_bounded(self) -> bool {
        &&& self.consecutive_rises < REQUIRED_CONSECUTIVE_RISES
        &&& self.baseline <= BASELINE_SAMPLES
    }

    /// The counting state.
    pub closed spec fn state(&self) -> BurstState {
        BurstState {
            active: self.active,
            length: self.length as nat,
            baseline: self.baseline as nat,
            rises: self.consecutive_rises as nat,
        }
    }

    pub fn new() -> (c: BurstCounter)
        ensures
            c.state() == burst_start(),
    {
        BurstCounter { active: false, length: 0, baseline: 0, consecutive_rises: 0 }
    }

    pub fn is_active(&self) -> (b: bool)
        ensures
            b == self.state().active,
    {
        self.active
    }

    pub fn length(&self) -> (n: u32)
        ensures
            n == self.state().length,
    {
        self.length
    }

    /// Whether this sample's reading, if it brings one, is judged for a rise.
    pub fn judges_next(&self) -> (b: bool)
        ensures
            b == judges(self.state()),
    {
        self.active && self.baseline >= BASELINE_SAMPLES
    }

    /// Whether taking this sample would lengthen the burst past `u32::MAX`.
    pub fn would_overflow(&self, writing: bool, reading: bool, rise: bool) -> (b: bool)
        ensures
            b == (burst_step(self.state(), writing, reading, rise).0.length > u32::MAX),
    {
        proof {
            use_type_invariant(self);
        }
        if !self.active || !writing {
            return false;
        }
        if reading && self.baseline >= BASELINE_SAMPLES {
            let r: u32 = if rise {
                self.consecutive_rises + 1
            } else {
                0
            };
            if r >= REQUIRED_CONSECUTIVE_RISES {
                return false;
            }
        }
        self.length == u32::MAX
    }

    /// Takes one sample. A writing sample starts a burst when none is under
    /// way; in a burst, the first readings build the baseline, later ones
    /// are judged, and the second consecutive rise ends the burst and
    /// returns its length (the ending sample left out); every other writing
    /// sample lengthens it. Idle or missing-write samples neither lengthen
    /// nor end a burst.
    pub fn record_sample(&mut self, writing: bool, reading: bool, rise: bool) -> (done: Option<u32>)
        requires
            burst_step(old(self).state(), writing, reading, rise).0.length <= u32::MAX,
        ensures
            final(self).state() == burst_step(old(self).state(), writing, reading, rise).0,
            match burst_step(old(self).state(), writing, reading, rise).1 {
                Some(n) => done == Some(n as u32),
                None => done is None,
            },
    {
        proof {
            use_type_invariant(&*self);
        }
        let grow: u32 = if writing {
            1
        } else {
            0
        };
        if !self.active {
            if writing {
                *self = BurstCounter { active: true, length: 1, baseline: 0, consecutive_rises: 0 };
            }
            return None;
        }
        if reading && self.baseline < BASELINE_SAMPLES {
            *self = BurstCounter {
                active: true,
                length: self.length + grow,
                baseline: self.baseline + 1,
                consecutive_rises: self.consecutive_rises,
            };
            return None;
        }
        if reading {
            let r: u32 = if rise {
                self.consecutive_rises + 1
            } else {
                0
            };
            if r >= REQUIRED_CONSECUTIVE_RISES {
                let completed = self.length;
                *self = BurstCounter { active: false, length: 0, baseline: 0, consecutive_rises: 0 };
                return Some(completed);
            }
            *self = BurstCounter {
                active: true,
                length: self.length + grow,
                baseline: self.baseline,
                consecutive_rises: r,
            };
            return None;
        }
        *self = BurstCounter {
            active: true,
            length: self.length + grow,
            baseline: self.baseline,
            consecutive_rises: self.consecutive_rises,
        };
        None
    }
}

/// A sample of a run: whether it wrote, brought a reading, and showed a rise.
pub open spec fn writes(x: (bool, bool, bool)) -> bool {
    x.0
}

/// The state after the samples `xs`, from no burst.
pub open spec fn burst_after(xs: Seq<(bool, bool, bool)>) -> BurstState
    decreases xs.len(),
{
    if xs.len() == 0 {
        burst_start()
    } else {
        let x = xs.last();
        burst_step(burst_after(xs.drop_last()), x.0, x.1, x.2).0
    }
}

/// What sample `j` of `xs` returns.
pub open spec fn burst_output(xs: Seq<(bool, bool, bool)>, j: int) -> Option<nat> {
    burst_step(burst_after(xs.take(j)), xs[j].0, xs[j].1, xs[j].2).1
}

/// How many of `xs` wrote.
pub open spec fn writing_count(xs: Seq<(bool, bool, bool)>) -> nat
    decreases xs.len(),
{
    if xs.len() == 0 {
        0
    } else {
        writing_count(xs.drop_last()) + if xs.last().0 {
            1nat
        } else {
            0nat
        }
    }
}

proof fn lemma_take_step(xs: Seq<(bool, bool, bool)>, k: int)
    requires
        0 <= k < xs.len(),
    ensures
        xs.take(k + 1).drop_last() == xs.take(k),
        xs.take(k + 1).last() == xs[k],
        burst_after(xs.take(k + 1)) == burst_step(burst_after(xs.take(k)), xs[k].0, xs[k].1, xs[k].2).0,
{
    assert(xs.take(k + 1).drop_last() =~= xs.take(k));
}

proof fn lemma_before_first_write(xs: Seq<(bool, bool, bool)>, k: int)
    requires
        0 <= k <= xs.len(),
        forall|i: int| 0 <= i < k ==> !(#[trigger] xs[i]).0,
    ensures
        burst_after(xs.take(k)) == burst_start(),
    decreases k,
{
    if k == 0 {
        assert(xs.take(0) =~= Seq::<(bool, bool, bool)>::empty());
    } else {
        lemma_before_first_write(xs, k - 1);
        lemma_take_step(xs, k - 1);
    }
}

proof fn lemma_burst_under_way(xs: Seq<(bool, bool, bool)>, s: int, k: int)
    requires
        0 <= s < k <= xs.len(),
        xs[s].0,
        forall|i: int| 0 <= i < s ==> !(#[trigger] xs[i]).0,
        forall|j: int| 0 <= j < k ==> #[trigger] burst_output(xs, j) is None,
    ensures
        burst_after(xs.take(k)).active,
        burst_after(xs.take(k)).length == writing_count(xs.subrange(s, k)),
        burst_after(xs.take(k)).baseline + burst_after(xs.take(k)).rises <= k - s - 1,
        burst_after(xs.take(k)).baseline <= BASELINE_SAMPLES,
        burst_after(xs.take(k)).rises < REQUIRED_CONSECUTIVE_RISES,
    decreases k,
{
    lemma_take_step(xs, k - 1);
    assert(xs.subrange(s, k).drop_last() =~= xs.subrange(s, k - 1));
    assert(xs.subrange(s, k).last() == xs[k - 1]);
    assert(burst_output(xs, k - 1) is None);
    if k - 1 == s {
        lemma_before_first_write(xs, s);
        assert(xs.subrange(s, s) =~= Seq::<(bool, bool, bool)>::empty());
        assert(writing_count(xs.subrange(s, s)) == 0);
        assert(writing_count(xs.subrange(s, k)) == 1);
    } else {
        lemma_burst_under_way(xs, s, k - 1);
    }
}

/// A run of samples from no burst (fresh, or just after a burst ended)
/// returns nothing until it ends a burst, and the first burst it ends:
/// began at the first writing sample `s`; ends on a sample that brought a
/// reading, no earlier than six samples after `s` (four baseline readings,
/// then two consecutive rises); and has the length of the writing samples
/// from `s` on, the ending sample left out, so at least one.
pub proof fn burst_length_law(xs: Seq<(bool, bool, bool)>, s: int, m: int)
    requires
        0 <= s < xs.len(),
        xs[s].0,
        forall|i: int| 0 <= i < s ==> !(#[trigger] xs[i]).0,
        0 <= m < xs.len(),
        forall|j: int| 0 <= j < m ==> #[trigger] burst_output(xs, j) is None,
        burst_output(xs, m) is Some,
    ensures
        m >= s + 6,
        xs[m].1,
        burst_output(xs, m) == Some(writing_count(xs.subrange(s, m))),
        writing_count(xs.subrange(s, m)) >= 1,
{
    if m <= s {
        lemma_before_first_write(xs, m);
        assert(!xs[m].0 || m == s);
        assert(burst_output(xs, m) is None);
    } else {
        lemma_burst_under_way(xs, s, m);
        assert(xs.subrange(s, m) =~= xs.subrange(s, m));
        lemma_writing_count_first(xs, s, m);
    }
}

proof fn lemma_writing_count_first(xs: Seq<(bool, bool, bool)>, s: int, m: int)
    requires
        0 <= s < m <= xs.len(),
        xs[s].0,
    ensures
        writing_count(xs.subrange(s, m)) >= 1,
    decreases m,
{
    assert(xs.subrange(s, m).drop_last() =~= xs.subrange(s, m - 1));
    if m - 1 > s {
        lemma_writing_count_first(xs, s, m - 1);
    } else {
        assert(xs.subrange(s, m).last() == xs[s]);
    }
}

/// A single rise never ends a burst: ending takes two consecutive judged
/// readings with a rise, and a judged reading without one starts the count
/// again.
pub proof fn burst_ends_on_persistent_rise(st: BurstState, writing: bool, rise: bool)
    requires
        judges(st),
        st.rises < REQUIRED_CONSECUTIVE_RISES,
    ensures
        !rise ==> burst_step(st, writing, true, rise).1 is None && burst_step(st, writing, true, rise).0.rises == 0,
        rise && st.rises == 0 ==> burst_step(st, writing, true, rise).1 is None,
        rise && st.rises == 1 ==> burst_step(st, writing, true, rise).1 == Some(st.length)
            && burst_step(st, writing, true, rise).0 == burst_start(),
{
}

/// While no burst reaches the completing length, the best burst so far is
/// the longest meaningful burst recorded: it is one of them, and none is
/// longer.
pub proof fn best_burst_is_longest(bursts: Seq<u32>)
    requires
        forall|i: int| 0 <= i < bursts.len() ==> #[trigger] bursts[i] < ASSESSMENT_COMPLETE_BURST,
    ensures
        best_of(bursts) is None <==> (forall|i: int|
            0 <= i < bursts.len() ==> #[trigger] bursts[i] < MIN_MEANINGFUL_BURST),
        best_of(bursts) matches Some(b) ==> (exists|i: int|
            0 <= i < bursts.len() && #[trigger] bursts[i] == b) && b >= MIN_MEANINGFUL_BURST
            && forall|i: int| 0 <= i < bursts.len() ==> #[trigger] bursts[i] <= b,
    decreases bursts.len(),
{
    if bursts.len() > 0 {
        let init = bursts.drop_last();
        let last = bursts.len() - 1;
        let x = bursts[last];
        assert(x == bursts.last());
        assert forall|i: int| 0 <= i < init.len() implies #[trigger] init[i]
            < ASSESSMENT_COMPLETE_BURST by {
            assert(init[i] == bursts[i]);
        }
        assert forall|i: int| 0 <= i < last implies bursts[i] == #[trigger] init[i] by {}
        best_burst_is_longest(init);
        match best_of(init) {
            None => {
                if x >= MIN_MEANINGFUL_BURST {
                    assert(best_of(bursts) == Some(x));
                    assert forall|i: int| 0 <= i < bursts.len() implies #[trigger] bursts[i]
                        <= x by {
                        if i < last {
                            assert(init[i] < MIN_MEANINGFUL_BURST);
                        }
                    }
                } else {
                    assert(best_of(bursts) is None);
                    assert forall|i: int| 0 <= i < bursts.len() implies #[trigger] bursts[i]
                        < MIN_MEANINGFUL_BURST by {
                        if i < last {
                            assert(init[i] < MIN_MEANINGFUL_BURST);
                        }
                    }
                }
            },
            Some(b) => {
                let i0 = choose|i: int| 0 <= i < init.len() && #[trigger] init[i] == b;
                assert(bursts[i0] == b);
                if x >= MIN_MEANINGFUL_BURST && x > b {
                    assert(best_of(bursts) == Some(x));
                    assert forall|i: int| 0 <= i < bursts.len() implies #[trigger] bursts[i]
                        <= x by {
                        if i < last {
                            assert(init[i] <= b);
                        }
                    }
                } else {
                    assert(best_of(bursts) == Some(b));
                    assert forall|i: int| 0 <= i < bursts.len() implies #[trigger] bursts[i]
                        <= b by {
                        if i < last {
                            assert(init[i] <= b);
                        }
                    }
                    assert(!(forall|i: int|
                        0 <= i < bursts.len() ==> #[trigger] bursts[i] < MIN_MEANINGFUL_BURST)) by {
                        assert(bursts[i0] >= MIN_MEANINGFUL_BURST);
                    }
                }
            },
        }
    }
}

/// While no burst reaches the completing length, a burst continues the
/// assessment exactly when it is meaningful and longer than every earlier
/// burst.
pub proof fn continue_means_new_best(bursts: Seq<u32>, burst: u32)
    requires
        forall|i: int| 0 <= i < bursts.len() ==> #[trigger] bursts[i] < ASSESSMENT_COMPLETE_BURST,
        burst < ASSESSMENT_COMPLETE_BURST,
    ensures
        verdict_for(best_of(bursts), burst) == Verdict::Continue <==> burst >= MIN_MEANINGFUL_BURST
            && forall|i: int| 0 <= i < bursts.len() ==> #[trigger] bursts[i] < burst,
{
    best_burst_is_longest(bursts);
    if burst >= MIN_MEANINGFUL_BURST {
        if let Some(b) = best_of(bursts) {
            let i0 = choose|i: int| 0 <= i < bursts.len() && #[trigger] bursts[i] == b;
            assert(bursts[i0] == b);
        }
    }
}

/// The longest meaningful burst among `bursts`, if any is meaningful.
pub open spec fn longest_meaningful(bursts: Seq<u32>) -> Option<u32>
    decreases bursts.len(),
{
    if bursts.len() == 0 {
        None
    } else {
        let prev = longest_meaningful(bursts.drop_last());
        let x = bursts.last();
        if x < MIN_MEANINGFUL_BURST {
            prev
        } else {
            match prev {
                None => Some(x),
                Some(m) => if x > m {
                    Some(x)
                } else {
                    Some(m)
                },
            }
        }
    }
}

/// The longest meaningful burst is the maximum of the meaningful bursts:
/// one of them, and no meaningful burst is longer.
pub proof fn longest_is_maximum(bursts: Seq<u32>)
    ensures
        longest_meaningful(bursts) is None <==> (forall|i: int|
            0 <= i < bursts.len() ==> #[trigger] bursts[i] < MIN_MEANINGFUL_BURST),
        longest_meaningful(bursts) matches Some(m) ==> m >= MIN_MEANINGFUL_BURST && (exists|i: int|
            0 <= i < bursts.len() && #[trigger] bursts[i] == m) && forall|i: int|
            0 <= i < bursts.len() && #[trigger] bursts[i] >= MIN_MEANINGFUL_BURST ==> bursts[i] <= m,
    decreases bursts.len(),
{
    if bursts.len() > 0 {
        let init = bursts.drop_last();
        let last = bursts.len() - 1;
        longest_is_maximum(init);
        assert(bursts[last] == bursts.last());
        assert forall|i: int| 0 <= i < last implies bursts[i] == #[trigger] init[i] by {}
        if let Some(m) = longest_meaningful(init) {
            let k = choose|i: int| 0 <= i < init.len() && #[trigger] init[i] == m;
            assert(bursts[k] == m);
        }
        assert forall|i: int|
            0 <= i < bursts.len() && #[trigger] bursts[i] >= MIN_MEANINGFUL_BURST implies bursts[i]
            <= longest_meaningful(bursts).unwrap() by {
            if i < last {
                assert(init[i] == bursts[i]);
            }
        }
        if longest_meaningful(bursts) is None {
            assert forall|i: int| 0 <= i < bursts.len() implies #[trigger] bursts[i]
                < MIN_MEANINGFUL_BURST by {
                if i < last {
                    assert(init[i] == bursts[i]);
                }
            }
        }
    }
}

/// The verdict on `burst` after the longest meaningful burst `longest`.
pub open spec fn verdict_by_longest(longest: Option<u32>, burst: u32) -> Verdict {
    if burst < MIN_MEANINGFUL_BURST {
        Verdict::CantContinue
    } else if burst >= ASSESSMENT_COMPLETE_BURST {
        Verdict::Complete
    } else {
        match longest {
            None => Verdict::Continue,
            Some(m) => if burst > m {
                Verdict::Continue
            } else {
                Verdict::Complete
            },
        }
    }
}

proof fn lemma_best_tracks_longest(bursts: Seq<u32>)
    ensures
        best_of(bursts) is None <==> longest_meaningful(bursts) is None,
        best_of(bursts) matches Some(b) ==> longest_meaningful(bursts) matches Some(m) && (m
            < ASSESSMENT_COMPLETE_BURST ==> b == m) && (m >= ASSESSMENT_COMPLETE_BURST ==> b
            >= ASSESSMENT_COMPLETE_BURST),
    decreases bursts.len(),
{
    if bursts.len() > 0 {
        lemma_best_tracks_longest(bursts.drop_last());
    }
}

/// Whatever bursts were recorded before, of any length, the verdict on a
/// burst is decided by the longest meaningful burst among them: too short a
/// burst cannot be assessed, a long enough one completes, and any other
/// continues exactly when it is longer than every earlier meaningful burst.
pub proof fn verdict_follows_longest_burst(bursts: Seq<u32>, burst: u32)
    ensures
        verdict_for(best_of(bursts), burst) == verdict_by_longest(longest_meaningful(bursts), burst),
        burst < MIN_MEANINGFUL_BURST ==> best_after(best_of(bursts), burst) == best_of(bursts),
{
    lemma_best_tracks_longest(bursts);
}

/// A sample that brings no latency reading, in a burst under way, neither
/// ends the burst nor touches its baseline or its run of rises: it only
/// lengthens the burst when it writes.
pub proof fn sample_without_reading_keeps_rises(st: BurstState, writing: bool, rise: bool)
    requires
        st.active,
    ensures
        burst_step(st, writing, false, rise).1 is None,
        burst_step(st, writing, false, rise).0.active,
        burst_step(st, writing, false, rise).0.rises == st.rises,
        burst_step(st, writing, false, rise).0.baseline == st.baseline,
        burst_step(st, writing, false, rise).0.length == st.length + if writing { 1nat } else { 0nat },
{
}

/// A judged reading with a rise, after one with a rise, ends the burst,
/// however many samples without a reading came between them.
pub proof fn rises_across_samples_without_reading(st: BurstState, w1: bool, gap: Seq<bool>, w2: bool)
    requires
        judges(st),
        st.rises == 0,
    ensures
        burst_step(gaps_after(burst_step(st, w1, true, true).0, gap), w2, true, true).1 is Some,
{
    lemma_gaps(burst_step(st, w1, true, true).0, gap);
}

/// The state after samples `gap` (whether each wrote) that bring no reading.
pub open spec fn gaps_after(st: BurstState, gap: Seq<bool>) -> BurstState
    decreases gap.len(),
{
    if gap.len() == 0 {
        st
    } else {
        burst_step(gaps_after(st, gap.drop_last()), gap.last(), false, false).0
    }
}

proof fn lemma_gaps(st: BurstState, gap: Seq<bool>)
    requires
        st.active,
    ensures
        gaps_after(st, gap).active,
        gaps_after(st, gap).rises == st.rises,
        gaps_after(st, gap).baseline == st.baseline,
    decreases gap.len(),
{
    if gap.len() > 0 {
        lemma_gaps(st, gap.drop_last());
    }
}

/// The verdict on a burst after any recorded bursts: too short a burst
/// (under 5) cannot be assessed; a burst of 300 or more completes; any other
/// continues exactly when it is longer than every earlier burst of 5 or more,
/// and completes otherwise.
pub proof fn verdict_law(bursts: Seq<u32>, burst: u32)
    ensures
        verdict_for(best_of(bursts), burst) == if burst < 5 {
            Verdict::CantContinue
        } else if burst >= 300 {
            Verdict::Complete
        } else if forall|i: int| 0 <= i < bursts.len() && #[trigger] bursts[i] >= 5 ==> bursts[i] < burst {
            Verdict::Continue
        } else {
            Verdict::Complete
        },
{
    verdict_follows_longest_burst(bursts, burst);
    longest_is_maximum(bursts);
    if let Some(m) = longest_meaningful(bursts) {
        let k = choose|i: int| 0 <= i < bursts.len() && #[trigger] bursts[i] == m;
        assert(bursts[k] == m);
    }
}

} // verus!
