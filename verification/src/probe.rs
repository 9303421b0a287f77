//! Reading one device's row out of `/proc/diskstats`.

use vstd::prelude::*;

use crate::text::{
    char_views, chars_equal, lines, parse_u64, parse_u64_chars, split_lines, split_words, text_chars,
    words, NumberError,
};
use crate::types::DiskStats;

verus! {

/// Why no statistics could be read for a device.
#[derive(Debug, Clone, Copy, PartialEq, Eq)]
pub enum DiskStatsError {
    /// No row names the device.
    DeviceNotFound,
    /// A numeric column of the device's row is no `u64`.
    BadField(NumberError),
    /// The row has this many numeric columns, too few to hold the write counters.
    Incomplete(usize),
}

/// Whether a `/proc/diskstats` row belongs to `device`: its third column names it.
pub open spec fn names_device(line: Seq<char>, device: Seq<char>) -> bool {
    words(line).len() > 2 && words(line)[2] == device
}

/// The index of the first line that belongs to `device`.
pub open spec fn first_device_line(ls: Seq<Seq<char>>, device: Seq<char>) -> Option<int>
    decreases ls.len(),
{
    if ls.len() == 0 {
        None
    } else if names_device(ls[0], device) {
        Some(0)
    } else {
        match first_device_line(ls.drop_first(), device) {
            Some(i) => Some(i + 1),
            None => None,
        }
    }
}

/// Every word read as a `u64`, or the error of the first that is not one.
pub open spec fn parse_all_u64(ws: Seq<Seq<char>>) -> Result<Seq<u64>, NumberError>
    decreases ws.len(),
{
    if ws.len() == 0 {
        Ok(seq![])
    } else {
        match parse_all_u64(ws.drop_last()) {
            Err(e) => Err(e),
            Ok(v) => match parse_u64(ws.last()) {
                Ok(x) => Ok(v.push(x)),
                Err(e) => Err(e),
            },
        }
    }
}

/// The numeric columns of `device`'s row in `contents`.
pub open spec fn disk_stats_of(contents: Seq<char>, device: Seq<char>) -> Result<
    Seq<u64>,
    DiskStatsError,
> {
    let ls = lines(contents);
    match first_device_line(ls, device) {
        None => Err(DiskStatsError::DeviceNotFound),
        Some(i) => match parse_all_u64(words(ls[i]).skip(3)) {
            Err(e) => Err(DiskStatsError::BadField(e)),
            Ok(f) => if f.len() <= 7 {
                Err(DiskStatsError::Incomplete(f.len() as usize))
            } else {
                Ok(f)
            },
        },
    }
}

proof fn lemma_first_device_line(ls: Seq<Seq<char>>, device: Seq<char>, i: int)
    requires
        0 <= i <= ls.len(),
        forall|j: int| 0 <= j < i ==> !names_device(#[trigger] ls[j], device),
    ensures
        i < ls.len() && names_device(ls[i], device) ==> first_device_line(ls, device) == Some(i),
        i == ls.len() ==> first_device_line(ls, device) is None,
    decreases i,
{
    if i > 0 {
        let rest = ls.drop_first();
        assert forall|j: int| 0 <= j < i - 1 implies !names_device(#[trigger] rest[j], device) by {
            assert(rest[j] == ls[j + 1]);
        }
        lemma_first_device_line(rest, device, i - 1);
        assert(!names_device(ls[0], device));
    }
}

/// The numeric columns of `device`'s row in the text of `/proc/diskstats`:
/// the first line whose third column is `device`, its columns from the
/// fourth on read as `u64`; fewer than eight of them is an error.
pub fn parse_disk_stats(contents: &str, device: &str) -> (r: Result<DiskStats, DiskStatsError>)
    ensures
        match disk_stats_of(contents@, device@) {
            Ok(f) => r matches Ok(stats) && stats.fields@ == f,
            Err(e) => r == Err::<DiskStats, DiskStatsError>(e),
        },
{
    let text = text_chars(contents);
    let dev = text_chars(device);
    let ls = split_lines(&text);
    let ghost lv = char_views(ls@);
    let mut i: usize = 0;
    while i < ls.len()
        invariant
            lv == char_views(ls@),
            lv == lines(contents@),
            dev@ == device@,
            0 <= i <= ls@.len(),
            forall|j: int| 0 <= j < i ==> !names_device(#[trigger] lv[j], device@),
        decreases ls.len() - i,
    {
        let ws = split_words(&ls[i]);
        assert(lv[i as int] == ls@[i as int]@);
        if ws.len() > 2 && chars_equal(&ws[2], &dev) {
            proof {
                lemma_first_device_line(lv, device@, i as int);
            }
            return parse_row(&ws);
        }
        i += 1;
    }
    proof {
        lemma_first_device_line(lv, device@, i as int);
    }
    Err(DiskStatsError::DeviceNotFound)
}

proof fn lemma_parse_all_err(ws: Seq<Seq<char>>, k: int)
    requires
        0 <= k <= ws.len(),
        parse_all_u64(ws.take(k)) is Err,
    ensures
        parse_all_u64(ws) == parse_all_u64(ws.take(k)),
    decreases ws.len() - k,
{
    if k < ws.len() {
        assert(ws.take(k + 1).drop_last() =~= ws.take(k));
        lemma_parse_all_err(ws, k + 1);
    } else {
        assert(ws.take(k) =~= ws);
    }
}

/// The columns of a matched row, from the fourth on.
fn parse_row(ws: &Vec<Vec<char>>) -> (r: Result<DiskStats, DiskStatsError>)
    requires
        ws@.len() > 2,
    ensures
        match parse_all_u64(char_views(ws@).skip(3)) {
            Err(e) => r == Err::<DiskStats, DiskStatsError>(DiskStatsError::BadField(e)),
            Ok(f) => if f.len() <= 7 {
                r == Err::<DiskStats, DiskStatsError>(DiskStatsError::Incomplete(f.len() as usize))
            } else {
                r matches Ok(stats) && stats.fields@ == f
            },
        },
{
    let ghost cols = char_views(ws@).skip(3);
    let mut fields: Vec<u64> = Vec::new();
    let mut i: usize = 3;
    while i < ws.len()
        invariant
            3 <= i <= ws@.len(),
            cols == char_views(ws@).skip(3),
            parse_all_u64(cols.take(i - 3)) == Ok::<Seq<u64>, NumberError>(fields@),
        decreases ws.len() - i,
    {
        assert(cols.take(i - 2).drop_last() =~= cols.take(i - 3));
        assert(cols.take(i - 2).last() == ws@[i as int]@);
        match parse_u64_chars(&ws[i]) {
            Ok(x) => fields.push(x),
            Err(e) => {
                proof {
                    lemma_parse_all_err(cols, i - 2);
                }
                return Err(DiskStatsError::BadField(e));
            },
        }
        i += 1;
    }
    assert(cols.take(i - 3) =~= cols);
    if fields.len() <= 7 {
        return Err(DiskStatsError::Incomplete(fields.len()));
    }
    Ok(DiskStats { fields })
}

proof fn lemma_parse_all_ok(ws: Seq<Seq<char>>)
    ensures
        parse_all_u64(ws) matches Ok(v) ==> v.len() == ws.len() && forall|k: int|
            0 <= k < ws.len() ==> parse_u64(#[trigger] ws[k]) == Ok::<u64, NumberError>(v[k]),
        parse_all_u64(ws) is Err ==> exists|k: int| 0 <= k < ws.len() && #[trigger] parse_u64(ws[k]) is Err,
    decreases ws.len(),
{
    if ws.len() > 0 {
        let t = ws.drop_last();
        lemma_parse_all_ok(t);
        assert forall|k: int| 0 <= k < t.len() implies t[k] == #[trigger] ws[k] by {}
        if let Ok(v) = parse_all_u64(ws) {
            assert forall|k: int| 0 <= k < ws.len() implies parse_u64(#[trigger] ws[k]) == Ok::<
                u64,
                NumberError,
            >(v[k]) by {
                if k < t.len() {
                    assert(t[k] == ws[k]);
                }
            }
        }
        if parse_all_u64(ws) is Err {
            if parse_all_u64(t) is Err {
                let k = choose|k: int| 0 <= k < t.len() && #[trigger] parse_u64(t[k]) is Err;
                assert(t[k] == ws[k]);
            } else {
                assert(parse_u64(ws[ws.len() - 1]) is Err);
            }
        }
    }
}

proof fn lemma_first_device_line_found(ls: Seq<Seq<char>>, device: Seq<char>)
    ensures
        first_device_line(ls, device) matches Some(i) ==> 0 <= i < ls.len() && names_device(ls[i], device)
            && forall|j: int| 0 <= j < i ==> !names_device(#[trigger] ls[j], device),
        first_device_line(ls, device) is None ==> forall|j: int|
            0 <= j < ls.len() ==> !names_device(#[trigger] ls[j], device),
    decreases ls.len(),
{
    if ls.len() > 0 {
        let rest = ls.drop_first();
        lemma_first_device_line_found(rest, device);
        assert forall|j: int| 0 < j < ls.len() implies ls[j] == #[trigger] rest[j - 1] by {}
        if let Some(i) = first_device_line(ls, device) {
            if i > 0 {
                assert forall|j: int| 0 <= j < i implies !names_device(#[trigger] ls[j], device) by {
                    if j > 0 {
                        assert(ls[j] == rest[j - 1]);
                    }
                }
                assert(ls[i] == rest[i - 1]);
            }
        } else {
            assert forall|j: int| 0 <= j < ls.len() implies !names_device(#[trigger] ls[j], device) by {
                if j > 0 {
                    assert(ls[j] == rest[j - 1]);
                }
            }
        }
    }
}

/// The statistics read for a device come from the first line of the text
/// whose third word names it: there are as many as that line has words
/// after the third, each read as a `u64`, and at least eight of them. A
/// device that no line names is not found; a named row with a word that is
/// no `u64` or with fewer than eight numbers gives no statistics.
pub proof fn disk_stats_law(contents: Seq<char>, device: Seq<char>)
    ensures
        disk_stats_of(contents, device) matches Ok(f) ==> f.len() >= 8 && exists|i: int|
            0 <= i < lines(contents).len() && words(lines(contents)[i]).len() == f.len() + 3 && words(
                lines(contents)[i],
            )[2] == device && (forall|j: int|
                0 <= j < i ==> !names_device(#[trigger] lines(contents)[j], device)) && forall|k: int|
                0 <= k < f.len() ==> parse_u64(#[trigger] words(lines(contents)[i])[k + 3])
                    == Ok::<u64, NumberError>(f[k]),
        (forall|j: int| 0 <= j < lines(contents).len() ==> !names_device(#[trigger] lines(contents)[j], device))
            ==> disk_stats_of(contents, device) == Err::<Seq<u64>, DiskStatsError>(DiskStatsError::DeviceNotFound),
        (exists|j: int| 0 <= j < lines(contents).len() && names_device(#[trigger] lines(contents)[j], device))
            ==> !(disk_stats_of(contents, device) == Err::<Seq<u64>, DiskStatsError>(
            DiskStatsError::DeviceNotFound,
        )),
{
    let ls = lines(contents);
    lemma_first_device_line_found(ls, device);
    if let Some(i) = first_device_line(ls, device) {
        let cols = words(ls[i]).skip(3);
        lemma_parse_all_ok(cols);
        if let Ok(f) = parse_all_u64(cols) {
            assert forall|k: int| 0 <= k < f.len() implies parse_u64(#[trigger] words(ls[i])[k + 3])
                == Ok::<u64, NumberError>(f[k]) by {
                assert(cols[k] == words(ls[i])[k + 3]);
            }
        }
    } else {
        if exists|j: int| 0 <= j < ls.len() && names_device(#[trigger] ls[j], device) {
            let j = choose|j: int| 0 <= j < ls.len() && names_device(#[trigger] ls[j], device);
            assert(!names_device(ls[j], device));
        }
    }
}

} // verus!
