//! Which measurements an observation lacks.

use vstd::prelude::*;

use crate::types::{DriveId, MissingData};

verus! {

/// The missing measurements of one probed drive, given as the drive, whether
/// it reports a temperature, and the probe's result: `None` when the probe
/// failed, else whether a temperature was read.
pub open spec fn drive_flags(d: (DriveId, bool, Option<bool>)) -> Seq<MissingData> {
    match d.2 {
        None => seq![MissingData::WriteCounters(d.0)],
        Some(has_temperature) => if d.1 && !has_temperature {
            seq![MissingData::NvmeTemperature(d.0)]
        } else {
            seq![]
        },
    }
}

/// The missing measurements of the drives, in drive order.
pub open spec fn drives_flags(drives: Seq<(DriveId, bool, Option<bool>)>) -> Seq<MissingData>
    decreases drives.len(),
{
    if drives.len() == 0 {
        seq![]
    } else {
        drives_flags(drives.drop_last()) + drive_flags(drives.last())
    }
}

/// An observation's missing measurements: each drive's, then the rsync
/// progress when no byte count was read.
pub open spec fn flags_of(drives: Seq<(DriveId, bool, Option<bool>)>, progress: Option<u64>) -> Seq<
    MissingData,
> {
    drives_flags(drives) + if progress is None {
        seq![MissingData::RsyncProgress]
    } else {
        seq![]
    }
}

fn same_drive(id: &DriveId) -> (c: DriveId)
    ensures
        c == *id,
{
    DriveId { name: id.name.clone() }
}

/// The measurements an observation lacks: a drive whose probe failed lacks
/// its write counters; a drive that reports a temperature but gave none
/// lacks its temperature; and a missing byte count is missing progress.
pub fn missing_flags(drives: &Vec<(DriveId, bool, Option<bool>)>, progress: Option<u64>) -> (f: Vec<
    MissingData,
>)
    ensures
        f@ == flags_of(drives@, progress),
{
    let mut f: Vec<MissingData> = Vec::new();
    let mut i: usize = 0;
    while i < drives.len()
        invariant
            0 <= i <= drives@.len(),
            f@ == drives_flags(drives@.take(i as int)),
        decreases drives.len() - i,
    {
        assert(drives@.take(i + 1).drop_last() =~= drives@.take(i as int));
        let ghost before = f@;
        let d = &drives[i];
        match d.2 {
            None => f.push(MissingData::WriteCounters(same_drive(&d.0))),
            Some(has_temperature) => {
                if d.1 && !has_temperature {
                    f.push(MissingData::NvmeTemperature(same_drive(&d.0)));
                }
            },
        }
        assert(f@ =~= before + drive_flags(drives@[i as int]));
        i += 1;
    }
    assert(drives@.take(drives@.len() as int) =~= drives@);
    let ghost before = f@;
    if progress.is_none() {
        f.push(MissingData::RsyncProgress);
    }
    assert(f@ =~= flags_of(drives@, progress)) by {
        assert(before == drives_flags(drives@));
    }
    f
}

} // verus!
