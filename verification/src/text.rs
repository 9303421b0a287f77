//! Character-level text handling shared by the parsers: whitespace, words,
//! lines, trimming and decimal integers, each with the meaning that Rust's
//! `str` methods and integer `FromStr` give them.

use vstd::prelude::*;

verus! {

/// Unicode `White_Space`, the set that `char::is_whitespace` accepts.
pub open spec fn is_white(c: char) -> bool {
    let u = c as u32;
    ||| 0x9 <= u <= 0xd
    ||| u == 0x20
    ||| u == 0x85
    ||| u == 0xa0
    ||| u == 0x1680
    ||| 0x2000 <= u <= 0x200a
    ||| u == 0x2028
    ||| u == 0x2029
    ||| u == 0x202f
    ||| u == 0x205f
    ||| u == 0x3000
}

/// Whether `c` is Unicode whitespace, as `char::is_whitespace` decides.
pub fn is_white_char(c: char) -> (b: bool)
    ensures
        b == is_white(c),
{
    let u = c as u32;
    (0x9 <= u && u <= 0xd) || u == 0x20 || u == 0x85 || u == 0xa0 || u == 0x1680 || (0x2000 <= u
        && u <= 0x200a) || u == 0x2028 || u == 0x2029 || u == 0x202f || u == 0x205f || u == 0x3000
}

/// The characters of `s`, in order.
pub fn text_chars(s: &str) -> (v: Vec<char>)
    ensures
        v@ == s@,
{
    let mut v: Vec<char> = Vec::new();
    for c in it: s.chars()
        invariant
            v@ == it.seq().take(it.index() as int),
    {
        v.push(c);
    }
    v
}

/// `String`'s `FromIterator<&char>` (through `Iterator::collect`): the
/// string built holds exactly the characters of `v`, in order. The contract
/// claims that and nothing more.
#[verifier::external_body]
pub(crate) fn chars_to_string(v: &Vec<char>) -> (s: String)
    ensures
        s@ == v@,
{
    v.iter().collect()
}

/// Left-to-right word scan: the words completed so far and the word in progress.
pub open spec fn word_scan(s: Seq<char>) -> (Seq<Seq<char>>, Seq<char>)
    decreases s.len(),
{
    if s.len() == 0 {
        (seq![], seq![])
    } else {
        let (done, cur) = word_scan(s.drop_last());
        let c = s.last();
        if is_white(c) {
            if cur.len() > 0 {
                (done.push(cur), seq![])
            } else {
                (done, cur)
            }
        } else {
            (done, cur.push(c))
        }
    }
}

/// The maximal runs of non-whitespace characters of `s`, as
/// `str::split_whitespace` yields them.
pub open spec fn words(s: Seq<char>) -> Seq<Seq<char>> {
    let (done, cur) = word_scan(s);
    if cur.len() > 0 {
        done.push(cur)
    } else {
        done
    }
}

/// A line without the carriage return that ended it.
pub open spec fn strip_cr(l: Seq<char>) -> Seq<char> {
    if l.len() > 0 && l.last() == '\r' {
        l.drop_last()
    } else {
        l
    }
}

/// Left-to-right line scan: the lines ended by `'\n'` so far and the line in progress.
pub open spec fn line_scan(s: Seq<char>) -> (Seq<Seq<char>>, Seq<char>)
    decreases s.len(),
{
    if s.len() == 0 {
        (seq![], seq![])
    } else {
        let (done, cur) = line_scan(s.drop_last());
        let c = s.last();
        if c == '\n' {
            (done.push(strip_cr(cur)), seq![])
        } else {
            (done, cur.push(c))
        }
    }
}

/// The lines of `s`, as `str::lines` yields them: split at `"\n"` or
/// `"\r\n"`, with no empty line after a final line ending.
pub open spec fn lines(s: Seq<char>) -> Seq<Seq<char>> {
    let (done, cur) = line_scan(s);
    if cur.len() > 0 {
        done.push(cur)
    } else {
        done
    }
}

/// `s` without its leading whitespace.
pub open spec fn trim_start(s: Seq<char>) -> Seq<char>
    decreases s.len(),
{
    if s.len() > 0 && is_white(s[0]) {
        trim_start(s.drop_first())
    } else {
        s
    }
}

/// `s` without its trailing whitespace.
pub open spec fn trim_end(s: Seq<char>) -> Seq<char>
    decreases s.len(),
{
    if s.len() > 0 && is_white(s.last()) {
        trim_end(s.drop_last())
    } else {
        s
    }
}

/// `s` without leading and trailing whitespace, as `str::trim` gives it.
pub open spec fn trim(s: Seq<char>) -> Seq<char> {
    trim_end(trim_start(s))
}

/// The characters `s[from..to]`.
pub fn slice_chars(s: &Vec<char>, from: usize, to: usize) -> (v: Vec<char>)
    requires
        from <= to <= s@.len(),
    ensures
        v@ == s@.subrange(from as int, to as int),
{
    let mut v: Vec<char> = Vec::new();
    let mut i: usize = from;
    while i < to
        invariant
            from <= i <= to <= s@.len(),
            v@ == s@.subrange(from as int, i as int),
        decreases to - i,
    {
        v.push(s[i]);
        i += 1;
    }
    v
}

/// Whether two character sequences are equal.
pub fn chars_equal(a: &Vec<char>, b: &Vec<char>) -> (r: bool)
    ensures
        r == (a@ == b@),
{
    if a.len() != b.len() {
        return false;
    }
    let mut i: usize = 0;
    while i < a.len()
        invariant
            a@.len() == b@.len(),
            0 <= i <= a@.len(),
            forall|j: int| 0 <= j < i ==> a@[j] == b@[j],
        decreases a.len() - i,
    {
        if a[i] != b[i] {
            return false;
        }
        i += 1;
    }
    assert(a@ =~= b@);
    true
}

/// Whether `s` begins with `p`.
pub open spec fn has_prefix(s: Seq<char>, p: Seq<char>) -> bool {
    p.len() <= s.len() && s.subrange(0, p.len() as int) == p
}

/// Whether `s` begins with `p`.
pub fn starts_with(s: &Vec<char>, p: &Vec<char>) -> (r: bool)
    ensures
        r == has_prefix(s@, p@),
{
    if p.len() > s.len() {
        return false;
    }
    let mut i: usize = 0;
    while i < p.len()
        invariant
            p@.len() <= s@.len(),
            0 <= i <= p@.len(),
            forall|j: int| 0 <= j < i ==> s@[j] == p@[j],
        decreases p.len() - i,
    {
        if s[i] != p[i] {
            return false;
        }
        i += 1;
    }
    assert(s@.subrange(0, p@.len() as int) =~= p@);
    true
}

proof fn lemma_word_scan_step(s: Seq<char>, i: int)
    requires
        0 <= i < s.len(),
    ensures
        s.take(i + 1).drop_last() == s.take(i),
        s.take(i + 1).last() == s[i],
{
    assert(s.take(i + 1).drop_last() =~= s.take(i));
}

/// The character sequences held by `v`.
pub open spec fn char_views(v: Seq<Vec<char>>) -> Seq<Seq<char>> {
    v.map_values(|x: Vec<char>| x@)
}

/// The words of `s`, as `str::split_whitespace` yields them.
pub fn split_words(s: &Vec<char>) -> (w: Vec<Vec<char>>)
    ensures
        char_views(w@) == words(s@),
{
    let mut done: Vec<Vec<char>> = Vec::new();
    let mut cur: Vec<char> = Vec::new();
    let mut i: usize = 0;
    while i < s.len()
        invariant
            0 <= i <= s@.len(),
            word_scan(s@.take(i as int)) == (char_views(done@), cur@),
        decreases s.len() - i,
    {
        proof {
            lemma_word_scan_step(s@, i as int);
        }
        let c = s[i];
        if is_white_char(c) {
            if cur.len() > 0 {
                let ghost old_done = char_views(done@);
                let ghost old_cur = cur@;
                done.push(cur);
                cur = Vec::new();
                assert(char_views(done@) =~= old_done.push(old_cur));
            }
        } else {
            cur.push(c);
        }
        i += 1;
    }
    assert(s@.take(s@.len() as int) =~= s@);
    if cur.len() > 0 {
        let ghost old_done = char_views(done@);
        let ghost old_cur = cur@;
        done.push(cur);
        assert(char_views(done@) =~= old_done.push(old_cur));
    }
    done
}

/// The lines of `s`, as `str::lines` yields them.
pub fn split_lines(s: &Vec<char>) -> (l: Vec<Vec<char>>)
    ensures
        char_views(l@) == lines(s@),
{
    let mut done: Vec<Vec<char>> = Vec::new();
    let mut cur: Vec<char> = Vec::new();
    let mut i: usize = 0;
    while i < s.len()
        invariant
            0 <= i <= s@.len(),
            line_scan(s@.take(i as int)) == (char_views(done@), cur@),
        decreases s.len() - i,
    {
        proof {
            lemma_word_scan_step(s@, i as int);
        }
        let c = s[i];
        if c == '\n' {
            let ghost old_done = char_views(done@);
            let ghost old_cur = cur@;
            let n = cur.len();
            if n > 0 && cur[n - 1] == '\r' {
                cur.pop();
            }
            assert(cur@ == strip_cr(old_cur));
            done.push(cur);
            cur = Vec::new();
            assert(char_views(done@) =~= old_done.push(strip_cr(old_cur)));
        } else {
            cur.push(c);
        }
        i += 1;
    }
    assert(s@.take(s@.len() as int) =~= s@);
    if cur.len() > 0 {
        let ghost old_done = char_views(done@);
        let ghost old_cur = cur@;
        done.push(cur);
        assert(char_views(done@) =~= old_done.push(old_cur));
    }
    done
}

proof fn lemma_trim_start_skip(s: Seq<char>, i: int)
    requires
        0 <= i <= s.len(),
        forall|j: int| 0 <= j < i ==> is_white(#[trigger] s[j]),
    ensures
        trim_start(s) == trim_start(s.subrange(i, s.len() as int)),
    decreases i,
{
    if i > 0 {
        lemma_trim_start_skip(s, i - 1);
        let t = s.subrange(i - 1, s.len() as int);
        assert(t[0] == s[i - 1]);
        assert(t.drop_first() =~= s.subrange(i, s.len() as int));
    } else {
        assert(s.subrange(0, s.len() as int) =~= s);
    }
}

proof fn lemma_trim_end_cut(s: Seq<char>, k: int)
    requires
        0 <= k <= s.len(),
        forall|j: int| k <= j < s.len() ==> is_white(#[trigger] s[j]),
    ensures
        trim_end(s) == trim_end(s.subrange(0, k)),
    decreases s.len() - k,
{
    if k < s.len() {
        lemma_trim_end_cut(s, k + 1);
        let t = s.subrange(0, k + 1);
        assert(t.last() == s[k]);
        assert(t.drop_last() =~= s.subrange(0, k));
    } else {
        assert(s.subrange(0, s.len() as int) =~= s);
    }
}

/// `s` without leading and trailing whitespace, as `str::trim` gives it.
pub fn trim_chars(s: &Vec<char>) -> (t: Vec<char>)
    ensures
        t@ == trim(s@),
{
    let n = s.len();
    let mut i: usize = 0;
    while i < n && is_white_char(s[i])
        invariant
            n == s@.len(),
            0 <= i <= n,
            forall|j: int| 0 <= j < i ==> is_white(#[trigger] s@[j]),
        decreases n - i,
    {
        i += 1;
    }
    proof {
        lemma_trim_start_skip(s@, i as int);
    }
    let ghost rest = s@.subrange(i as int, n as int);
    assert(trim_start(rest) == rest);
    let mut k: usize = n;
    while k > i && is_white_char(s[k - 1])
        invariant
            n == s@.len(),
            0 <= i <= k <= n,
            rest == s@.subrange(i as int, n as int),
            forall|j: int| k - i <= j < rest.len() ==> is_white(#[trigger] rest[j]),
        decreases k,
    {
        k -= 1;
    }
    proof {
        lemma_trim_end_cut(rest, k - i);
        assert(rest.subrange(0, k - i) =~= s@.subrange(i as int, k as int));
    }
    slice_chars(s, i, k)
}

/// `s` without trailing whitespace, as `str::trim_end` gives it.
pub fn trim_end_chars(s: &Vec<char>) -> (t: Vec<char>)
    ensures
        t@ == trim_end(s@),
{
    let n = s.len();
    let mut k: usize = n;
    while k > 0 && is_white_char(s[k - 1])
        invariant
            n == s@.len(),
            0 <= k <= n,
            forall|j: int| k <= j < n ==> is_white(#[trigger] s@[j]),
        decreases k,
    {
        k -= 1;
    }
    proof {
        lemma_trim_end_cut(s@, k as int);
    }
    slice_chars(s, 0, k)
}

/// Why a decimal integer could not be read; the kinds of `std::num::IntErrorKind`
/// that decimal parsing produces.
#[derive(Debug, Clone, Copy, PartialEq, Eq)]
pub enum NumberError {
    Empty,
    InvalidDigit,
    TooLarge,
    TooSmall,
}

pub open spec fn is_digit(c: char) -> bool {
    '0' <= c <= '9'
}

pub open spec fn digit_value(c: char) -> nat {
    (c as int - '0' as int) as nat
}

/// Reads the digits `s` after the value `acc` read so far, failing at the
/// first character that is no digit or that takes the value past `limit`.
pub open spec fn accumulate(acc: nat, s: Seq<char>, limit: nat, overflow: NumberError) -> Result<
    nat,
    NumberError,
>
    decreases s.len(),
{
    if s.len() == 0 {
        Ok(acc)
    } else if !is_digit(s[0]) {
        Err(NumberError::InvalidDigit)
    } else if acc * 10 + digit_value(s[0]) > limit {
        Err(overflow)
    } else {
        accumulate(acc * 10 + digit_value(s[0]), s.drop_first(), limit, overflow)
    }
}

/// Decimal reading of an unsigned integer no larger than `limit`, as the
/// `FromStr` of Rust's unsigned integer types does it: an optional `+`,
/// then one or more digits.
pub open spec fn parse_unsigned(s: Seq<char>, limit: nat) -> Result<nat, NumberError> {
    if s.len() == 0 {
        Err(NumberError::Empty)
    } else if s.len() == 1 && (s[0] == '+' || s[0] == '-') {
        Err(NumberError::InvalidDigit)
    } else if s[0] == '+' {
        accumulate(0, s.drop_first(), limit, NumberError::TooLarge)
    } else {
        accumulate(0, s, limit, NumberError::TooLarge)
    }
}

pub open spec fn parse_u64(s: Seq<char>) -> Result<u64, NumberError> {
    match parse_unsigned(s, u64::MAX as nat) {
        Ok(n) => Ok(n as u64),
        Err(e) => Err(e),
    }
}

pub open spec fn parse_u8(s: Seq<char>) -> Result<u8, NumberError> {
    match parse_unsigned(s, u8::MAX as nat) {
        Ok(n) => Ok(n as u8),
        Err(e) => Err(e),
    }
}

/// Decimal reading of an `i32`, as `i32::from_str` does it: an optional
/// sign, then one or more digits.
pub open spec fn parse_i32(s: Seq<char>) -> Result<i32, NumberError> {
    if s.len() == 0 {
        Err(NumberError::Empty)
    } else if s.len() == 1 && (s[0] == '+' || s[0] == '-') {
        Err(NumberError::InvalidDigit)
    } else if s[0] == '-' {
        match accumulate(0, s.drop_first(), 0x8000_0000, NumberError::TooSmall) {
            Ok(n) => Ok((-n) as i32),
            Err(e) => Err(e),
        }
    } else {
        let body = if s[0] == '+' {
            s.drop_first()
        } else {
            s
        };
        match accumulate(0, body, 0x7fff_ffff, NumberError::TooLarge) {
            Ok(n) => Ok(n as i32),
            Err(e) => Err(e),
        }
    }
}

/// Reads the digits `s[start..]`, failing as `accumulate` does.
fn accumulate_digits(s: &Vec<char>, start: usize, limit: u64, overflow: NumberError) -> (r: Result<
    u64,
    NumberError,
>)
    requires
        start <= s@.len(),
    ensures
        match accumulate(0, s@.subrange(start as int, s@.len() as int), limit as nat, overflow) {
            Ok(n) => r == Ok::<u64, NumberError>(n as u64) && n <= limit,
            Err(e) => r == Err::<u64, NumberError>(e),
        },
{
    let n = s.len();
    let mut acc: u64 = 0;
    let mut i: usize = start;
    while i < n
        invariant
            n == s@.len(),
            start <= i <= n,
            acc <= limit,
            accumulate(0, s@.subrange(start as int, n as int), limit as nat, overflow) == accumulate(
                acc as nat,
                s@.subrange(i as int, n as int),
                limit as nat,
                overflow,
            ),
        decreases n - i,
    {
        let ghost rest = s@.subrange(i as int, n as int);
        assert(rest[0] == s@[i as int]);
        assert(rest.drop_first() =~= s@.subrange(i + 1, n as int));
        let c = s[i];
        if !('0' <= c && c <= '9') {
            return Err(NumberError::InvalidDigit);
        }
        let d = (c as u32 - '0' as u32) as u64;
        assert(d == digit_value(c));
        let next: u128 = acc as u128 * 10 + d as u128;
        if next > limit as u128 {
            return Err(overflow);
        }
        acc = next as u64;
        i += 1;
    }
    assert(s@.subrange(n as int, n as int).len() == 0);
    Ok(acc)
}

/// Reads `s` as decimal `u64`, as `u64::from_str` does.
pub fn parse_u64_chars(s: &Vec<char>) -> (r: Result<u64, NumberError>)
    ensures
        r == parse_u64(s@),
{
    parse_unsigned_chars(s, u64::MAX)
}

/// Reads `s` as decimal `u8`, as `u8::from_str` does.
pub fn parse_u8_chars(s: &Vec<char>) -> (r: Result<u8, NumberError>)
    ensures
        r == parse_u8(s@),
{
    match parse_unsigned_chars(s, 255) {
        Ok(v) => Ok(v as u8),
        Err(e) => Err(e),
    }
}

fn parse_unsigned_chars(s: &Vec<char>, limit: u64) -> (r: Result<u64, NumberError>)
    ensures
        match parse_unsigned(s@, limit as nat) {
            Ok(n) => r == Ok::<u64, NumberError>(n as u64) && n <= limit,
            Err(e) => r == Err::<u64, NumberError>(e),
        },
{
    let n = s.len();
    if n == 0 {
        return Err(NumberError::Empty);
    }
    if n == 1 && (s[0] == '+' || s[0] == '-') {
        return Err(NumberError::InvalidDigit);
    }
    if s[0] == '+' {
        assert(s@.subrange(1, n as int) =~= s@.drop_first());
        accumulate_digits(s, 1, limit, NumberError::TooLarge)
    } else {
        assert(s@.subrange(0, n as int) =~= s@);
        accumulate_digits(s, 0, limit, NumberError::TooLarge)
    }
}

/// Reads `s` as decimal `i32`, as `i32::from_str` does.
pub fn parse_i32_chars(s: &Vec<char>) -> (r: Result<i32, NumberError>)
    ensures
        r == parse_i32(s@),
{
    let n = s.len();
    if n == 0 {
        return Err(NumberError::Empty);
    }
    if n == 1 && (s[0] == '+' || s[0] == '-') {
        return Err(NumberError::InvalidDigit);
    }
    if s[0] == '-' {
        assert(s@.subrange(1, n as int) =~= s@.drop_first());
        match accumulate_digits(s, 1, 0x8000_0000, NumberError::TooSmall) {
            Ok(m) => Ok((0 - (m as i64)) as i32),
            Err(e) => Err(e),
        }
    } else {
        let start: usize = if s[0] == '+' {
            1
        } else {
            0
        };
        assert(s@.subrange(1, n as int) =~= s@.drop_first());
        assert(s@.subrange(0, n as int) =~= s@);
        match accumulate_digits(s, start, 0x7fff_ffff, NumberError::TooLarge) {
            Ok(m) => Ok(m as i32),
            Err(e) => Err(e),
        }
    }
}

/// The number that a string of decimal digits writes, most significant
/// digit first.
pub open spec fn decimal_value(s: Seq<char>) -> nat
    decreases s.len(),
{
    if s.len() == 0 {
        0
    } else {
        decimal_value(s.drop_last()) * 10 + digit_value(s.last())
    }
}

pub open spec fn all_digits(s: Seq<char>) -> bool {
    forall|i: int| 0 <= i < s.len() ==> is_digit(#[trigger] s[i])
}

proof fn lemma_accumulate_push(acc: nat, s: Seq<char>, c: char, limit: nat, e: NumberError)
    ensures
        accumulate(acc, s.push(c), limit, e) == match accumulate(acc, s, limit, e) {
            Ok(v) => if !is_digit(c) {
                Err(NumberError::InvalidDigit)
            } else if v * 10 + digit_value(c) > limit {
                Err(e)
            } else {
                Ok(v * 10 + digit_value(c))
            },
            Err(x) => Err(x),
        },
    decreases s.len(),
{
    if s.len() == 0 {
        let one = s.push(c);
        assert(one.drop_first() =~= Seq::<char>::empty());
        assert(one[0] == c);
        assert(accumulate(acc, s, limit, e) == Ok::<nat, NumberError>(acc));
        if is_digit(c) && acc * 10 + digit_value(c) <= limit {
            assert(accumulate(acc * 10 + digit_value(c), one.drop_first(), limit, e) == Ok::<
                nat,
                NumberError,
            >(acc * 10 + digit_value(c)));
        }
    } else {
        assert(s.push(c)[0] == s[0]);
        assert(s.push(c).drop_first() =~= s.drop_first().push(c));
        if is_digit(s[0]) && acc * 10 + digit_value(s[0]) <= limit {
            lemma_accumulate_push(acc * 10 + digit_value(s[0]), s.drop_first(), c, limit, e);
        }
    }
}

proof fn lemma_accumulate_digits(s: Seq<char>, limit: nat, e: NumberError)
    ensures
        all_digits(s) ==> accumulate(0, s, limit, e) == if decimal_value(s) <= limit {
            Ok::<nat, NumberError>(decimal_value(s))
        } else {
            Err(e)
        },
        accumulate(0, s, limit, e) matches Ok(v) ==> all_digits(s) && v == decimal_value(s) && v <= limit,
    decreases s.len(),
{
    if s.len() > 0 {
        let t = s.drop_last();
        let c = s.last();
        lemma_accumulate_digits(t, limit, e);
        assert(t.push(c) =~= s);
        lemma_accumulate_push(0, t, c, limit, e);
        if all_digits(s) {
            assert forall|i: int| 0 <= i < t.len() implies is_digit(#[trigger] t[i]) by {
                assert(t[i] == s[i]);
            }
            assert(is_digit(s[s.len() - 1]));
        }
        if accumulate(0, s, limit, e) is Ok {
            assert forall|i: int| 0 <= i < s.len() implies is_digit(#[trigger] s[i]) by {
                if i < t.len() {
                    assert(t[i] == s[i]);
                }
            }
        }
    }
}

/// Unsigned decimal reading: a non-empty string of digits, with or without
/// a leading `+`, reads as the number it writes when that number is at most
/// the limit, and as too large otherwise; and a reading succeeds only on
/// such a string, giving that number.
pub proof fn unsigned_reading_law(s: Seq<char>, limit: nat)
    ensures
        s.len() > 0 && all_digits(s) ==> parse_unsigned(s, limit) == if decimal_value(s) <= limit {
            Ok::<nat, NumberError>(decimal_value(s))
        } else {
            Err(NumberError::TooLarge)
        },
        s.len() > 0 && all_digits(s) ==> parse_unsigned(seq!['+'] + s, limit) == parse_unsigned(s, limit),
        parse_unsigned(s, limit) matches Ok(v) ==> v <= limit && ((all_digits(s) && v == decimal_value(s))
            || (s[0] == '+' && all_digits(s.drop_first()) && v == decimal_value(s.drop_first()))),
        s.len() == 0 ==> parse_unsigned(s, limit) == Err::<nat, NumberError>(NumberError::Empty),
{
    lemma_accumulate_digits(s, limit, NumberError::TooLarge);
    if s.len() > 0 {
        lemma_accumulate_digits(s.drop_first(), limit, NumberError::TooLarge);
        let p = seq!['+'] + s;
        assert(p.drop_first() =~= s);
        assert(p[0] == '+');
    }
}

/// Signed decimal reading of an `i32`: digits read as their number, at most
/// 2147483647; digits after `-` read as its negation, at least -2147483648;
/// beyond those bounds the reading is too large or too small.
pub proof fn signed_reading_law(s: Seq<char>)
    requires
        s.len() > 0,
        all_digits(s),
    ensures
        parse_i32(s) == if decimal_value(s) <= 0x7fff_ffff {
            Ok::<i32, NumberError>(decimal_value(s) as i32)
        } else {
            Err(NumberError::TooLarge)
        },
        parse_i32(seq!['-'] + s) == if decimal_value(s) <= 0x8000_0000 {
            Ok::<i32, NumberError>((-decimal_value(s)) as i32)
        } else {
            Err(NumberError::TooSmall)
        },
{
    lemma_accumulate_digits(s, 0x7fff_ffff, NumberError::TooLarge);
    lemma_accumulate_digits(s, 0x8000_0000, NumberError::TooSmall);
    assert(is_digit(s[0]));
    let p = seq!['-'] + s;
    assert(p.drop_first() =~= s);
    assert(p[0] == '-');
}

pub open spec fn no_white(w: Seq<char>) -> bool {
    forall|i: int| 0 <= i < w.len() ==> !is_white(#[trigger] w[i])
}

proof fn lemma_word_scan_shape(s: Seq<char>)
    ensures
        forall|k: int|
            0 <= k < word_scan(s).0.len() ==> (#[trigger] word_scan(s).0[k]).len() > 0 && no_white(
                word_scan(s).0[k],
            ),
        no_white(word_scan(s).1),
        no_white(s) ==> word_scan(s).0.len() == 0 && word_scan(s).1 == s,
        (forall|i: int| 0 <= i < s.len() ==> is_white(#[trigger] s[i])) ==> word_scan(s).0.len() == 0
            && word_scan(s).1.len() == 0,
    decreases s.len(),
{
    if s.len() > 0 {
        let t = s.drop_last();
        lemma_word_scan_shape(t);
        let (done, cur) = word_scan(t);
        let c = s.last();
        assert(c == s[s.len() - 1]);
        if no_white(s) {
            assert forall|i: int| 0 <= i < t.len() implies !is_white(#[trigger] t[i]) by {
                assert(t[i] == s[i]);
            }
            assert(t.push(c) =~= s);
        }
        if forall|i: int| 0 <= i < s.len() ==> is_white(#[trigger] s[i]) {
            assert forall|i: int| 0 <= i < t.len() implies is_white(#[trigger] t[i]) by {
                assert(t[i] == s[i]);
            }
        }
        if !is_white(c) {
            assert forall|i: int| 0 <= i < cur.push(c).len() implies !is_white(#[trigger] cur.push(c)[i]) by {
                if i < cur.len() {
                    assert(cur.push(c)[i] == cur[i]);
                }
            }
        } else if cur.len() > 0 {
            assert forall|k: int| 0 <= k < done.push(cur).len() implies (#[trigger] done.push(cur)[k]).len()
                > 0 && no_white(done.push(cur)[k]) by {
                if k < done.len() {
                    assert(done.push(cur)[k] == done[k]);
                }
            }
            assert(no_white(Seq::<char>::empty()));
        }
    }
}

/// The words of a text are non-empty runs without whitespace; a text with
/// no whitespace is a single word (or none, when empty); a text of nothing
/// but whitespace has no words.
pub proof fn words_law(s: Seq<char>)
    ensures
        forall|k: int| 0 <= k < words(s).len() ==> (#[trigger] words(s)[k]).len() > 0 && no_white(words(s)[k]),
        no_white(s) && s.len() > 0 ==> words(s) == seq![s],
        (forall|i: int| 0 <= i < s.len() ==> is_white(#[trigger] s[i])) ==> words(s).len() == 0,
{
    lemma_word_scan_shape(s);
    let (done, cur) = word_scan(s);
    if cur.len() > 0 {
        assert forall|k: int| 0 <= k < done.push(cur).len() implies (#[trigger] done.push(cur)[k]).len() > 0
            && no_white(done.push(cur)[k]) by {
            if k < done.len() {
                assert(done.push(cur)[k] == done[k]);
            }
        }
    }
    if no_white(s) && s.len() > 0 {
        assert(done.push(cur) =~= seq![s]);
    }
}

proof fn lemma_trim_start_shape(s: Seq<char>)
    ensures
        exists|k: int|
            0 <= k <= s.len() && trim_start(s) == s.subrange(k, s.len() as int) && (forall|i: int|
                0 <= i < k ==> is_white(#[trigger] s[i])),
        trim_start(s).len() > 0 ==> !is_white(trim_start(s)[0]),
    decreases s.len(),
{
    if s.len() > 0 && is_white(s[0]) {
        let t = s.drop_first();
        lemma_trim_start_shape(t);
        let k = choose|k: int|
            0 <= k <= t.len() && trim_start(t) == t.subrange(k, t.len() as int) && (forall|i: int|
                0 <= i < k ==> is_white(#[trigger] t[i]));
        assert(t.subrange(k, t.len() as int) =~= s.subrange(k + 1, s.len() as int));
        assert forall|i: int| 0 <= i < k + 1 implies is_white(#[trigger] s[i]) by {
            if i > 0 {
                assert(s[i] == t[i - 1]);
            }
        }
    } else {
        assert(s.subrange(0, s.len() as int) =~= s);
    }
}

proof fn lemma_trim_end_shape(s: Seq<char>)
    ensures
        exists|k: int|
            0 <= k <= s.len() && trim_end(s) == s.subrange(0, k) && (forall|i: int|
                k <= i < s.len() ==> is_white(#[trigger] s[i])),
        trim_end(s).len() > 0 ==> !is_white(trim_end(s).last()),
    decreases s.len(),
{
    if s.len() > 0 && is_white(s.last()) {
        let t = s.drop_last();
        lemma_trim_end_shape(t);
        let k = choose|k: int|
            0 <= k <= t.len() && trim_end(t) == t.subrange(0, k) && (forall|i: int|
                k <= i < t.len() ==> is_white(#[trigger] t[i]));
        assert(t.subrange(0, k) =~= s.subrange(0, k));
        assert forall|i: int| k <= i < s.len() implies is_white(#[trigger] s[i]) by {
            if i < t.len() {
                assert(s[i] == t[i]);
            }
        }
    } else {
        assert(s.subrange(0, s.len() as int) =~= s);
    }
}

/// Trimming keeps the middle of a text: it removes only whitespace, from
/// each end, and what remains neither starts nor ends with whitespace.
pub proof fn trim_law(s: Seq<char>)
    ensures
        exists|a: int, b: int|
            0 <= a <= b <= s.len() && trim(s) == s.subrange(a, b) && (forall|i: int|
                0 <= i < a ==> is_white(#[trigger] s[i])) && (forall|i: int|
                b <= i < s.len() ==> is_white(#[trigger] s[i])),
        trim(s).len() > 0 ==> !is_white(trim(s)[0]) && !is_white(trim(s).last()),
{
    lemma_trim_start_shape(s);
    let ts = trim_start(s);
    let a = choose|k: int|
        0 <= k <= s.len() && ts == s.subrange(k, s.len() as int) && (forall|i: int|
            0 <= i < k ==> is_white(#[trigger] s[i]));
    lemma_trim_end_shape(ts);
    let k = choose|k: int|
        0 <= k <= ts.len() && trim_end(ts) == ts.subrange(0, k) && (forall|i: int|
            k <= i < ts.len() ==> is_white(#[trigger] ts[i]));
    assert(ts.subrange(0, k) =~= s.subrange(a, a + k));
    assert forall|i: int| a + k <= i < s.len() implies is_white(#[trigger] s[i]) by {
        assert(s[i] == ts[i - a]);
    }
    if trim(s).len() > 0 {
        assert(trim(s)[0] == ts[0]);
    }
}

pub open spec fn no_newline(w: Seq<char>) -> bool {
    forall|i: int| 0 <= i < w.len() ==> #[trigger] w[i] != '\n'
}

proof fn lemma_line_scan_shape(s: Seq<char>)
    ensures
        forall|k: int| 0 <= k < line_scan(s).0.len() ==> no_newline(#[trigger] line_scan(s).0[k]),
        no_newline(line_scan(s).1),
        no_newline(s) ==> line_scan(s).0.len() == 0 && line_scan(s).1 == s,
    decreases s.len(),
{
    if s.len() > 0 {
        let t = s.drop_last();
        lemma_line_scan_shape(t);
        let (done, cur) = line_scan(t);
        let c = s.last();
        assert(c == s[s.len() - 1]);
        if no_newline(s) {
            assert forall|i: int| 0 <= i < t.len() implies #[trigger] t[i] != '\n' by {
                assert(t[i] == s[i]);
            }
            assert(t.push(c) =~= s);
        }
        if c != '\n' {
            assert forall|i: int| 0 <= i < cur.push(c).len() implies #[trigger] cur.push(c)[i] != '\n' by {
                if i < cur.len() {
                    assert(cur.push(c)[i] == cur[i]);
                }
            }
        } else {
            let l = strip_cr(cur);
            assert forall|i: int| 0 <= i < l.len() implies #[trigger] l[i] != '\n' by {
                assert(l[i] == cur[i]);
            }
            assert forall|k: int| 0 <= k < done.push(l).len() implies no_newline(#[trigger] done.push(l)[k]) by {
                if k < done.len() {
                    assert(done.push(l)[k] == done[k]);
                }
            }
            assert(no_newline(Seq::<char>::empty()));
        }
    }
}

/// The lines of a text hold no line feed; a text without a line feed is a
/// single line (or none, when empty), and so is such a text ended by a line
/// feed, without the line feed and a carriage return before it.
pub proof fn lines_law(s: Seq<char>)
    ensures
        forall|k: int| 0 <= k < lines(s).len() ==> no_newline(#[trigger] lines(s)[k]),
        no_newline(s) && s.len() > 0 ==> lines(s) == seq![s],
        no_newline(s) && s.len() == 0 ==> lines(s).len() == 0,
        no_newline(s) ==> lines(s.push('\n')) == seq![strip_cr(s)],
{
    lemma_line_scan_shape(s);
    let (done, cur) = line_scan(s);
    if cur.len() > 0 {
        assert forall|k: int| 0 <= k < done.push(cur).len() implies no_newline(#[trigger] done.push(cur)[k]) by {
            if k < done.len() {
                assert(done.push(cur)[k] == done[k]);
            }
        }
    }
    if no_newline(s) {
        if s.len() > 0 {
            assert(done.push(cur) =~= seq![s]);
        }
        assert(s.push('\n').drop_last() =~= s);
        assert(seq![strip_cr(s)] =~= Seq::<Seq<char>>::empty().push(strip_cr(s)));
    }
}

} // verus!
