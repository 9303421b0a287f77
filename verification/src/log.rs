//! The fixed parts of the CSV log and the console status lines.

use vstd::prelude::*;

use crate::text::{chars_equal, text_chars, trim_end, trim_end_chars};

verus! {

/// The header line of the observation CSV.
pub const CSV_HEADER: &'static str = "timestamp,drive,temperature_millicelsius,writes,sectors_written,write_time_ms,weighted_io_time_ms,rsync_progress_bytes,rsync_velocity_mb_s,poke_state,bwlimit_kb_s,write_latency_ms,canary_latency_slope_ms_per_s";

/// Whether an existing log whose first line is `first_line` may be appended
/// to: it is empty, or its header is this log's header.
pub fn header_compatible(first_line: &str) -> (b: bool)
    ensures
        b == (first_line@.len() == 0 || trim_end(first_line@) == CSV_HEADER@),
{
    let line = text_chars(first_line);
    if line.len() == 0 {
        return true;
    }
    let trimmed = trim_end_chars(&line);
    chars_equal(&trimmed, &text_chars(CSV_HEADER))
}

/// The label a console status line shows for an event.
pub open spec fn label_of(event: Seq<char>) -> Seq<char> {
    if event == "POKE INITIAL"@ {
        "START"@
    } else if event == "POKE CHANGE"@ {
        "CHANGE"@
    } else if event == "CANARY"@ {
        "CANARY"@
    } else {
        "STATUS"@
    }
}

/// The label a console status line shows for an event.
pub fn event_label(event: &str) -> (l: &'static str)
    ensures
        l@ == label_of(event@),
{
    let e = text_chars(event);
    if chars_equal(&e, &text_chars("POKE INITIAL")) {
        "START"
    } else if chars_equal(&e, &text_chars("POKE CHANGE")) {
        "CHANGE"
    } else if chars_equal(&e, &text_chars("CANARY")) {
        "CANARY"
    } else {
        "STATUS"
    }
}

/// The poke state a CSV row records.
pub fn poke_state(fast: bool) -> (s: &'static str)
    ensures
        s@ == if fast { "FAST_POKE"@ } else { "SLOW_POKE"@ },
{
    if fast {
        "FAST_POKE"
    } else {
        "SLOW_POKE"
    }
}

} // verus!
