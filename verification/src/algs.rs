//! Counter deltas between two observations, and the verdict on an
//! observation's missing measurements.

use vstd::prelude::*;

use crate::types::{Decision, DiskStats, DriveId, MissingData, Severity, ThrottleAction};

verus! {

/// Position of "sectors written" in `DiskStats::fields` (diskstats column 9).
pub const SECTORS_WRITTEN: usize = 6;

/// Position of "writes completed" in `DiskStats::fields` (diskstats column 7).
pub const WRITES_COMPLETED: usize = 4;

/// Position of "time spent writing (ms)" in `DiskStats::fields` (diskstats column 10).
pub const WRITE_TIME_MS: usize = 7;

/// Bytes written between two samples: the growth of the sectors-written
/// counter times the traditional 512-byte diskstats sector. None when a
/// sample has no statistics or no such counter, when the counter went
/// backwards, or when the product does not fit in a `u64`.
pub open spec fn bytes_written_between(old: Option<DiskStats>, new: Option<DiskStats>) -> Option<u64> {
    match (old, new) {
        (Some(o), Some(n)) => if o.fields@.len() > SECTORS_WRITTEN && n.fields@.len()
            > SECTORS_WRITTEN && n.fields@[SECTORS_WRITTEN as int] >= o.fields@[SECTORS_WRITTEN as int]
            && (n.fields@[SECTORS_WRITTEN as int] - o.fields@[SECTORS_WRITTEN as int]) * 512
            <= u64::MAX {
            Some(((n.fields@[SECTORS_WRITTEN as int] - o.fields@[SECTORS_WRITTEN as int]) * 512) as u64)
        } else {
            None
        },
        _ => None,
    }
}

/// The bytes a drive wrote between two samples of its statistics.
pub fn drive_bytes_written(old: Option<&DiskStats>, new: Option<&DiskStats>) -> (r: Option<u64>)
    ensures
        r == bytes_written_between(
            match old {
                Some(o) => Some(*o),
                None => None,
            },
            match new {
                Some(n) => Some(*n),
                None => None,
            },
        ),
{
    let old = match old {
        Some(o) => o,
        None => return None,
    };
    let new = match new {
        Some(n) => n,
        None => return None,
    };
    if old.fields.len() <= SECTORS_WRITTEN || new.fields.len() <= SECTORS_WRITTEN {
        return None;
    }
    let old_sectors = old.fields[SECTORS_WRITTEN];
    let new_sectors = new.fields[SECTORS_WRITTEN];
    let sectors_written = match new_sectors.checked_sub(old_sectors) {
        Some(d) => d,
        None => return None,
    };
    sectors_written.checked_mul(512)
}

/// The growth of the writes-completed and write-time counters between
/// two samples, `(writes, milliseconds)`; none when a sample lacks them,
/// when either went backwards, or when no write completed.
pub open spec fn write_deltas_between(old: Seq<u64>, new: Seq<u64>) -> Option<(u64, u64)> {
    if old.len() > WRITE_TIME_MS && new.len() > WRITE_TIME_MS && new[WRITES_COMPLETED as int]
        >= old[WRITES_COMPLETED as int] && new[WRITE_TIME_MS as int] >= old[WRITE_TIME_MS as int]
        && new[WRITES_COMPLETED as int] != old[WRITES_COMPLETED as int] {
        Some(
            (
                (new[WRITES_COMPLETED as int] - old[WRITES_COMPLETED as int]) as u64,
                (new[WRITE_TIME_MS as int] - old[WRITE_TIME_MS as int]) as u64,
            ),
        )
    } else {
        None
    }
}

/// The completed writes and the milliseconds spent writing between two
/// samples, from which the mean write latency is their quotient.
pub fn write_deltas(old: &DiskStats, new: &DiskStats) -> (r: Option<(u64, u64)>)
    ensures
        r == write_deltas_between(old.fields@, new.fields@),
{
    if old.fields.len() <= WRITE_TIME_MS || new.fields.len() <= WRITE_TIME_MS {
        return None;
    }
    let writes_delta = match new.fields[WRITES_COMPLETED].checked_sub(old.fields[WRITES_COMPLETED]) {
        Some(d) => d,
        None => return None,
    };
    let time_delta = match new.fields[WRITE_TIME_MS].checked_sub(old.fields[WRITE_TIME_MS]) {
        Some(d) => d,
        None => return None,
    };
    if writes_delta == 0 {
        return None;
    }
    Some((writes_delta, time_delta))
}

/// Rsync progress between two observations, in bytes: none unless both
/// observations have a count and it did not go backwards.
pub fn progress_delta(old: Option<u64>, new: Option<u64>) -> (r: Option<u64>)
    ensures
        r == (match (old, new) {
            (Some(o), Some(n)) => if n >= o {
                Some((n - o) as u64)
            } else {
                None
            },
            _ => None,
        }),
{
    match (old, new) {
        (Some(o), Some(n)) => if n >= o {
            Some(n - o)
        } else {
            None
        },
        _ => None,
    }
}

/// The order of severities, mildest first.
pub open spec fn rank_of(level: Severity) -> nat {
    match level {
        Severity::Ignore => 0,
        Severity::Warning => 1,
        Severity::Pause => 2,
        Severity::Abort => 3,
    }
}

pub fn rank(level: &Severity) -> (r: u8)
    ensures
        r == rank_of(*level),
{
    match level {
        Severity::Ignore => 0,
        Severity::Warning => 1,
        Severity::Pause => 2,
        Severity::Abort => 3,
    }
}

/// How serious a missing measurement is.
pub open spec fn severity_of(flag: MissingData) -> Severity {
    match flag {
        MissingData::RsyncProgress => Severity::Warning,
        MissingData::NvmeTemperature(_) => Severity::Warning,
        MissingData::WriteCounters(_) => Severity::Pause,
        MissingData::WriteLatency(_) => Severity::Abort,
    }
}

/// The text reported for a missing measurement.
pub open spec fn message_of(flag: MissingData) -> Seq<char> {
    match flag {
        MissingData::RsyncProgress => "Missing rsync progress"@,
        MissingData::NvmeTemperature(id) => "Missing temperature for "@ + id.name@,
        MissingData::WriteCounters(id) => "Missing write counters for "@ + id.name@,
        MissingData::WriteLatency(id) => "Missing write latency for "@ + id.name@,
    }
}

fn named(prefix: &str, id: &DriveId) -> (s: String)
    ensures
        s@ == prefix@ + id.name@,
{
    let mut s = String::from_str(prefix);
    s.append(id.name.as_str());
    s
}

/// The severity and the text of a missing measurement.
pub fn classify(flag: &MissingData) -> (r: (Severity, String))
    ensures
        r.0 == severity_of(*flag),
        r.1@ == message_of(*flag),
{
    match flag {
        MissingData::RsyncProgress => (Severity::Warning, String::from_str("Missing rsync progress")),
        MissingData::NvmeTemperature(id) => (
            Severity::Warning,
            named("Missing temperature for ", id),
        ),
        MissingData::WriteCounters(id) => (Severity::Pause, named("Missing write counters for ", id)),
        MissingData::WriteLatency(id) => (Severity::Abort, named("Missing write latency for ", id)),
    }
}

/// The most serious severity among `flags`; the first of equals, and
/// `Ignore` for none.
pub open spec fn worst(flags: Seq<MissingData>) -> Severity
    decreases flags.len(),
{
    if flags.len() == 0 {
        Severity::Ignore
    } else {
        let w = worst(flags.drop_last());
        if rank_of(severity_of(flags.last())) > rank_of(w) {
            severity_of(flags.last())
        } else {
            w
        }
    }
}

/// The texts `parts` joined by `sep`, as `[&str]::join` joins them.
pub open spec fn joined(parts: Seq<Seq<char>>, sep: Seq<char>) -> Seq<char>
    decreases parts.len(),
{
    if parts.len() == 0 {
        seq![]
    } else if parts.len() == 1 {
        parts[0]
    } else {
        joined(parts.drop_last(), sep) + sep + parts.last()
    }
}

/// The verdict on an observation's missing measurements: the most serious
/// severity among them, their texts joined by `"; "` (no text when nothing
/// is missing), and no throttle change.
pub fn evaluate(flags: &Vec<MissingData>) -> (d: Decision)
    ensures
        d.severity == worst(flags@),
        d.message is None <==> flags@.len() == 0,
        d.message matches Some(m) ==> m@ == joined(flags@.map_values(|f: MissingData| message_of(f)), "; "@),
        d.action is Hold,
{
    let ghost texts = flags@.map_values(|f: MissingData| message_of(f));
    let mut severity = Severity::Ignore;
    let mut message = String::new();
    let mut i: usize = 0;
    while i < flags.len()
        invariant
            0 <= i <= flags@.len(),
            texts == flags@.map_values(|f: MissingData| message_of(f)),
            severity == worst(flags@.take(i as int)),
            message@ == joined(texts.take(i as int), "; "@),
        decreases flags.len() - i,
    {
        assert(flags@.take(i + 1).drop_last() =~= flags@.take(i as int));
        assert(texts.take(i + 1).drop_last() =~= texts.take(i as int));
        let (level, text) = classify(&flags[i]);
        if rank(&level) > rank(&severity) {
            severity = level;
        }
        if i > 0 {
            message.append("; ");
        } else {
            assert(message@ =~= Seq::<char>::empty());
        }
        message.append(text.as_str());
        i += 1;
    }
    assert(flags@.take(flags@.len() as int) =~= flags@);
    assert(texts.take(texts.len() as int) =~= texts);
    Decision {
        severity,
        message: if flags.len() == 0 {
            None
        } else {
            Some(message)
        },
        action: ThrottleAction::Hold,
    }
}

/// The verdict's severity is that of the most serious missing measurement:
/// none is more serious, and it is one of theirs unless nothing is missing.
pub proof fn verdict_is_most_serious(flags: Seq<MissingData>)
    ensures
        forall|i: int| 0 <= i < flags.len() ==> rank_of(severity_of(#[trigger] flags[i])) <= rank_of(worst(flags)),
        flags.len() == 0 ==> worst(flags) == Severity::Ignore,
        flags.len() > 0 ==> exists|i: int| 0 <= i < flags.len() && worst(flags) == severity_of(#[trigger] flags[i]),
    decreases flags.len(),
{
    if flags.len() > 0 {
        let init = flags.drop_last();
        verdict_is_most_serious(init);
        let last = flags.len() - 1;
        assert(flags[last] == flags.last());
        assert forall|i: int| 0 <= i < last implies flags[i] == #[trigger] init[i] by {}
        if init.len() > 0 && worst(flags) == worst(init) {
            let k = choose|i: int| 0 <= i < init.len() && worst(init) == severity_of(#[trigger] init[i]);
            assert(flags[k] == init[k]);
        }
        assert forall|i: int| 0 <= i < flags.len() implies rank_of(severity_of(#[trigger] flags[i]))
            <= rank_of(worst(flags)) by {
            if i < last {
                assert(flags[i] == init[i]);
            }
        }
    }
}

/// Latency counters: when both samples hold the counters, neither went
/// backwards and at least one write completed, the deltas are the growth of
/// each counter, a zero time growth included (writes that took under a
/// millisecond in all); otherwise there is no reading.
pub proof fn write_deltas_law(old: Seq<u64>, new: Seq<u64>)
    ensures
        old.len() >= 8 && new.len() >= 8 && new[4] > old[4] && new[7] >= old[7]
            ==> write_deltas_between(old, new) == Some(((new[4] - old[4]) as u64, (new[7] - old[7]) as u64)),
        old.len() < 8 || new.len() < 8 ==> write_deltas_between(old, new) is None,
        old.len() >= 8 && new.len() >= 8 && (new[4] <= old[4] || new[7] < old[7])
            ==> write_deltas_between(old, new) is None,
        write_deltas_between(old, new) matches Some((w, t)) ==> w > 0 && old[4] + w == new[4]
            && old[7] + t == new[7],
{
}

/// Sector counters: the bytes written are 512 times the growth of the
/// sectors-written counter whenever both samples hold it, it did not go
/// backwards and the product fits.
pub proof fn bytes_written_law(old: DiskStats, new: DiskStats)
    ensures
        old.fields@.len() >= 7 && new.fields@.len() >= 7 && new.fields@[6] >= old.fields@[6]
            && (new.fields@[6] - old.fields@[6]) * 512 <= u64::MAX ==> bytes_written_between(
            Some(old),
            Some(new),
        ) == Some(((new.fields@[6] - old.fields@[6]) * 512) as u64),
        bytes_written_between(Some(old), Some(new)) matches Some(b) ==> old.fields@[6] * 512 + b
            == new.fields@[6] * 512,
        bytes_written_between(None, Some(new)) is None && bytes_written_between(Some(old), None) is None,
{
}

} // verus!
