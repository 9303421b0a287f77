//! Reading rsync's `--info=progress2` output: which records carry a
//! transferred-byte count, and what count they carry.

use vstd::prelude::*;
use vstd::utf8::{decode_utf8, encode_utf8, encode_utf8_decode_utf8, valid_utf8};

use crate::text::{
    all_digits, decimal_value, is_digit, unsigned_reading_law, parse_u64, parse_u64_chars, parse_u8, parse_u8_chars, slice_chars, split_words,
    text_chars, trim, trim_chars, words,
};

verus! {

/// `std::str::from_utf8`, which accepts exactly the well-formed UTF-8 byte
/// sequences and then returns the text that those bytes encode; the
/// contract claims that and nothing more.
#[verifier::external_body]
fn utf8_text(bytes: &[u8]) -> (r: Option<&str>)
    ensures
        r is Some <==> valid_utf8(bytes@),
        r matches Some(s) ==> encode_utf8(s@) == bytes@,
{
    std::str::from_utf8(bytes).ok()
}

/// A character allowed in a byte count: a digit or a thousands separator.
pub open spec fn is_count_char(c: char) -> bool {
    is_digit(c) || c == ','
}

/// `s` with its commas removed.
pub open spec fn without_commas(s: Seq<char>) -> Seq<char>
    decreases s.len(),
{
    if s.len() == 0 {
        s
    } else if s.last() == ',' {
        without_commas(s.drop_last())
    } else {
        without_commas(s.drop_last()).push(s.last())
    }
}

/// The byte count of a progress record's text: its first word, made of
/// digits and commas, when its second word is a percentage of at most
/// 100 (`"1,234 10% 2.0MB/s"` carries 1234).
pub open spec fn progress_of_text(t: Seq<char>) -> Option<u64> {
    let w = words(t);
    if w.len() < 2 {
        None
    } else {
        let count = w[0];
        let pct = w[1];
        if pct.len() == 0 || pct.last() != '%' {
            None
        } else {
            match parse_u8(pct.drop_last()) {
                Err(_) => None,
                Ok(p) => if p > 100 || !(forall|i: int|
                    0 <= i < count.len() ==> is_count_char(#[trigger] count[i])) {
                    None
                } else {
                    match parse_u64(without_commas(count)) {
                        Ok(v) => Some(v),
                        Err(_) => None,
                    }
                },
            }
        }
    }
}

/// The byte count of a raw progress record: none unless it is UTF-8.
pub open spec fn progress_of_record(b: Seq<u8>) -> Option<u64> {
    if valid_utf8(b) {
        progress_of_text(decode_utf8(b))
    } else {
        None
    }
}

fn remove_commas(s: &Vec<char>) -> (r: Vec<char>)
    ensures
        r@ == without_commas(s@),
{
    let mut r: Vec<char> = Vec::new();
    let mut i: usize = 0;
    while i < s.len()
        invariant
            0 <= i <= s@.len(),
            r@ == without_commas(s@.take(i as int)),
        decreases s.len() - i,
    {
        assert(s@.take(i + 1).drop_last() =~= s@.take(i as int));
        if s[i] != ',' {
            r.push(s[i]);
        }
        i += 1;
    }
    assert(s@.take(s@.len() as int) =~= s@);
    r
}

fn all_count_chars(s: &Vec<char>) -> (b: bool)
    ensures
        b == (forall|i: int| 0 <= i < s@.len() ==> is_count_char(#[trigger] s@[i])),
{
    let mut i: usize = 0;
    while i < s.len()
        invariant
            0 <= i <= s@.len(),
            forall|j: int| 0 <= j < i ==> is_count_char(#[trigger] s@[j]),
        decreases s.len() - i,
    {
        let c = s[i];
        if !(('0' <= c && c <= '9') || c == ',') {
            assert(!is_count_char(s@[i as int]));
            return false;
        }
        i += 1;
    }
    true
}

/// The byte count of a progress record's text.
pub fn progress_of_chars(t: &Vec<char>) -> (r: Option<u64>)
    ensures
        r == progress_of_text(t@),
{
    let w = split_words(t);
    if w.len() < 2 {
        return None;
    }
    let count = &w[0];
    let pct = &w[1];
    assert(count@ == words(t@)[0]);
    assert(pct@ == words(t@)[1]);
    let n = pct.len();
    if n == 0 || pct[n - 1] != '%' {
        return None;
    }
    let digits = slice_chars(pct, 0, n - 1);
    assert(digits@ =~= pct@.drop_last());
    match parse_u8_chars(&digits) {
        Err(_) => None,
        Ok(p) => {
            if p > 100 || !all_count_chars(count) {
                return None;
            }
            let bare = remove_commas(count);
            match parse_u64_chars(&bare) {
                Ok(v) => Some(v),
                Err(_) => None,
            }
        },
    }
}

/// The byte count carried by one progress record, if it is one: UTF-8
/// text whose first word is a count of digits and commas and whose
/// second word is a percentage no larger than 100. Other rsync output,
/// such as `"123 files to consider"`, carries none.
pub fn parse_progress(record: &[u8]) -> (r: Option<u64>)
    ensures
        r == progress_of_record(record@),
{
    let text = match utf8_text(record) {
        Some(t) => t,
        None => return None,
    };
    proof {
        encode_utf8_decode_utf8(text@);
    }
    let chars = text_chars(text);
    progress_of_chars(&chars)
}

/// The byte count stored in the progress file: its trimmed text as a `u64`.
pub fn parse_byte_count(text: &str) -> (r: Option<u64>)
    ensures
        r == (match parse_u64(trim(text@)) {
            Ok(v) => Some(v),
            Err(_) => None::<u64>,
        }),
{
    let chars = text_chars(text);
    let t = trim_chars(&chars);
    match parse_u64_chars(&t) {
        Ok(v) => Some(v),
        Err(_) => None,
    }
}

/// Splits rsync's standard output into records at each carriage return
/// or line feed, the ends that `--info=progress2` writes.
pub struct ProgressRecords {
    chunk: Vec<u8>,
}

impl ProgressRecords {
    /// The bytes of the record not yet ended.
    pub closed spec fn pending(&self) -> Seq<u8> {
        self.chunk@
    }

    pub fn new() -> (r: ProgressRecords)
        ensures
            r.pending() == Seq::<u8>::empty(),
    {
        ProgressRecords { chunk: Vec::new() }
    }

    /// Takes the next output byte. A carriage return or line feed ends the
    /// pending record, and the record's byte count, if it carries one, is
    /// returned.
    pub fn push_byte(&mut self, byte: u8) -> (r: Option<u64>)
        ensures
            byte == 13 || byte == 10 ==> r == progress_of_record(old(self).pending())
                && final(self).pending() == Seq::<u8>::empty(),
            !(byte == 13 || byte == 10) ==> r is None && final(self).pending() == old(
                self,
            ).pending().push(byte),
    {
        if byte == 13 || byte == 10 {
            let r = parse_progress(self.chunk.as_slice());
            self.chunk = Vec::new();
            r
        } else {
            self.chunk.push(byte);
            None
        }
    }

    /// The byte count of the record left pending when the output ends.
    pub fn finish(&self) -> (r: Option<u64>)
        ensures
            r == progress_of_record(self.pending()),
    {
        parse_progress(self.chunk.as_slice())
    }
}

proof fn lemma_no_commas(s: Seq<char>)
    requires
        all_digits(s),
    ensures
        without_commas(s) == s,
    decreases s.len(),
{
    if s.len() > 0 {
        let t = s.drop_last();
        assert forall|i: int| 0 <= i < t.len() implies is_digit(#[trigger] t[i]) by {
            assert(t[i] == s[i]);
        }
        lemma_no_commas(t);
        assert(is_digit(s[s.len() - 1]));
        assert(t.push(s.last()) =~= s);
    }
}

/// A progress record's text gives a byte count exactly in this shape: its
/// first word is the count and its second a percentage. With a count of
/// plain digits that fits a `u64` and a percentage of digits no larger than
/// 100, the count is given; a percentage over 100, a second word without
/// `%`, a count with anything but digits and commas, or fewer than two
/// words give none.
pub proof fn progress_law(t: Seq<char>)
    ensures
        words(t).len() < 2 ==> progress_of_text(t) is None,
        words(t).len() >= 2 ==> ({
            let c = words(t)[0];
            let p = words(t)[1];
            &&& (p.len() >= 2 && p.last() == '%' && all_digits(p.drop_last()) && decimal_value(
                p.drop_last(),
            ) <= 100 && c.len() > 0 && all_digits(c) && decimal_value(c) <= u64::MAX)
                ==> progress_of_text(t) == Some(decimal_value(c) as u64)
            &&& (p.len() >= 2 && p.last() == '%' && all_digits(p.drop_last()) && decimal_value(
                p.drop_last(),
            ) > 100) ==> progress_of_text(t) is None
            &&& !(p.len() > 0 && p.last() == '%') ==> progress_of_text(t) is None
            &&& (exists|i: int| 0 <= i < c.len() && !is_count_char(#[trigger] c[i]))
                ==> progress_of_text(t) is None
        }),
{
    if words(t).len() >= 2 {
        let c = words(t)[0];
        let p = words(t)[1];
        if p.len() >= 2 && p.last() == '%' && all_digits(p.drop_last()) {
            unsigned_reading_law(p.drop_last(), u8::MAX as nat);
        }
        if c.len() > 0 && all_digits(c) {
            unsigned_reading_law(c, u64::MAX as nat);
            lemma_no_commas(c);
            assert forall|i: int| 0 <= i < c.len() implies is_count_char(#[trigger] c[i]) by {
                assert(is_digit(c[i]));
            }
        }
    }
}

} // verus!
