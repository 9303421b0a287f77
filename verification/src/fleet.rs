//! The pool decision: one SLOW drive slows the whole stream, and the
//! canary reported for the pool is the drive that most warrants watching.

use vstd::prelude::*;

use crate::text::{chars_equal, text_chars};

verus! {

/// The bandwidth limit while the pool runs FAST, in KiB/s.
pub const FAST_POKE_KB: u64 = 40_000;

/// The bandwidth limit while any drive is SLOW, in KiB/s.
pub const SLOW_POKE_KB: u64 = 1000;

/// The rsync bandwidth limit for the pool's state.
pub fn bwlimit_kb(fast: bool) -> (kb: u64)
    ensures
        kb == if fast { FAST_POKE_KB } else { SLOW_POKE_KB },
{
    if fast {
        FAST_POKE_KB
    } else {
        SLOW_POKE_KB
    }
}

/// What the controller does after a pool decision.
#[derive(Debug, Clone, Copy, PartialEq, Eq)]
pub struct ControlActions {
    /// Report the new canary at once.
    pub report_canary: bool,
    /// Poke rsync's bandwidth limit to this many KiB/s.
    pub poke_kb: Option<u64>,
}

/// The actions for a pool decision: a changed canary is reported at once,
/// and the bandwidth limit is poked only when the pool's FAST/SLOW state
/// changes, never to reassert an unchanged state.
pub fn control_actions(fast: bool, want_fast: bool, canary_changed: bool) -> (a: ControlActions)
    ensures
        a.report_canary == canary_changed,
        a.poke_kb == if want_fast != fast {
            Some(if want_fast { FAST_POKE_KB } else { SLOW_POKE_KB })
        } else {
            None::<u64>
        },
{
    ControlActions {
        report_canary: canary_changed,
        poke_kb: if want_fast != fast {
            Some(bwlimit_kb(want_fast))
        } else {
            None
        },
    }
}

/// The first sample, of those whose drive names are `names`, that belongs
/// to the drive `name`.
pub fn sample_index(names: &Vec<String>, name: &str) -> (i: Option<usize>)
    ensures
        match i {
            Some(k) => k < names@.len() && names@[k as int]@ == name@ && forall|j: int|
                0 <= j < k ==> (#[trigger] names@[j])@ != name@,
            None => forall|j: int| 0 <= j < names@.len() ==> (#[trigger] names@[j])@ != name@,
        },
{
    let wanted = text_chars(name);
    let mut k: usize = 0;
    while k < names.len()
        invariant
            0 <= k <= names@.len(),
            wanted@ == name@,
            forall|j: int| 0 <= j < k ==> (#[trigger] names@[j])@ != name@,
        decreases names.len() - k,
    {
        if chars_equal(&text_chars(names[k].as_str()), &wanted) {
            return Some(k);
        }
        k += 1;
    }
    None
}

/// One drive's standing in a pool decision.
#[derive(Debug, Clone, Copy, PartialEq, Eq)]
pub struct DriveStatus {
    /// The drive's latch is FAST.
    pub fast: bool,
    /// An integer whose order is that of the drive's latest latency
    /// reading; a drive without a reading ranks below every reading.
    pub latency_rank: i64,
}

/// `a` warrants watching more than `b`: a SLOW drive before a FAST one,
/// then the higher latency.
pub open spec fn outranks(a: DriveStatus, b: DriveStatus) -> bool {
    (!a.fast && b.fast) || (a.fast == b.fast && a.latency_rank > b.latency_rank)
}

/// `i` is the canary of `rows`: no drive outranks it, and it is the last
/// of the drives that tie with it.
pub open spec fn is_canary(rows: Seq<DriveStatus>, i: int) -> bool {
    &&& 0 <= i < rows.len()
    &&& forall|j: int| 0 <= j < rows.len() ==> !outranks(#[trigger] rows[j], rows[i])
    &&& forall|j: int| i < j < rows.len() ==> outranks(rows[i], #[trigger] rows[j])
}

/// Whether the pool may run FAST: every drive is FAST.
pub fn pool_is_fast(rows: &Vec<DriveStatus>) -> (b: bool)
    ensures
        b == (forall|i: int| 0 <= i < rows@.len() ==> (#[trigger] rows@[i]).fast),
{
    let mut i: usize = 0;
    while i < rows.len()
        invariant
            0 <= i <= rows@.len(),
            forall|j: int| 0 <= j < i ==> (#[trigger] rows@[j]).fast,
        decreases rows.len() - i,
    {
        if !rows[i].fast {
            return false;
        }
        i += 1;
    }
    true
}

/// The index of the canary: the highest-latency SLOW drive, or the
/// highest-latency drive when none is SLOW; the last of equals.
pub fn select_canary(rows: &Vec<DriveStatus>) -> (i: usize)
    requires
        rows@.len() > 0,
    ensures
        is_canary(rows@, i as int),
{
    let mut best: usize = 0;
    let mut j: usize = 1;
    while j < rows.len()
        invariant
            1 <= j <= rows@.len(),
            0 <= best < j,
            forall|k: int| 0 <= k < j ==> !outranks(#[trigger] rows@[k], rows@[best as int]),
            forall|k: int| best < k < j ==> outranks(rows@[best as int], #[trigger] rows@[k]),
        decreases rows.len() - j,
    {
        let b = rows[best];
        let c = rows[j];
        let keeps = (!b.fast && c.fast) || (b.fast == c.fast && b.latency_rank > c.latency_rank);
        if !keeps {
            best = j;
        }
        j += 1;
    }
    best
}

/// One SLOW drive keeps the whole pool from running FAST, and then the
/// canary is a SLOW drive with the highest latency among the SLOW drives;
/// with no SLOW drive, the canary has the highest latency of all.
pub proof fn canary_rule(rows: Seq<DriveStatus>, i: int)
    requires
        is_canary(rows, i),
    ensures
        (exists|j: int| 0 <= j < rows.len() && !(#[trigger] rows[j]).fast) ==> !rows[i].fast
            && forall|j: int|
            0 <= j < rows.len() && !(#[trigger] rows[j]).fast ==> rows[j].latency_rank
                <= rows[i].latency_rank,
        (forall|j: int| 0 <= j < rows.len() ==> (#[trigger] rows[j]).fast) ==> forall|j: int|
            0 <= j < rows.len() ==> (#[trigger] rows[j]).latency_rank <= rows[i].latency_rank,
{
    if exists|j: int| 0 <= j < rows.len() && !(#[trigger] rows[j]).fast {
        let j0 = choose|j: int| 0 <= j < rows.len() && !(#[trigger] rows[j]).fast;
        assert(!outranks(rows[j0], rows[i]));
    }
}

/// The canary comes last among the drives that stand exactly as it does:
/// no later drive has both its latch state and its latency rank.
pub proof fn canary_is_last_of_equals(rows: Seq<DriveStatus>, i: int)
    requires
        is_canary(rows, i),
    ensures
        forall|j: int|
            i < j < rows.len() ==> !((#[trigger] rows[j]).fast == rows[i].fast && rows[j].latency_rank
                == rows[i].latency_rank),
        forall|j: int|
            0 <= j < rows.len() && (#[trigger] rows[j]).fast == rows[i].fast ==> rows[j].latency_rank
                <= rows[i].latency_rank,
        forall|j: int| 0 <= j < rows.len() && !(#[trigger] rows[j]).fast ==> !rows[i].fast,
{
    assert forall|j: int| i < j < rows.len() implies !((#[trigger] rows[j]).fast == rows[i].fast
        && rows[j].latency_rank == rows[i].latency_rank) by {
        assert(outranks(rows[i], rows[j]));
    }
    assert forall|j: int|
        0 <= j < rows.len() && (#[trigger] rows[j]).fast == rows[i].fast implies rows[j].latency_rank
        <= rows[i].latency_rank by {
        assert(!outranks(rows[j], rows[i]));
    }
    assert forall|j: int| 0 <= j < rows.len() && !(#[trigger] rows[j]).fast implies !rows[i].fast by {
        assert(!outranks(rows[j], rows[i]));
    }
}

} // verus!
