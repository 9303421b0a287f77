//! The startup questions: which source and destination to transfer,
//! whether to log CSV, and the answers remembered from the last run.

use vstd::prelude::*;

use crate::text::{
    char_views, chars_to_string, has_prefix, is_white, line_scan, lines, slice_chars, split_lines,
    starts_with, strip_cr, text_chars, trim, trim_chars, trim_end, trim_start,
};

verus! {

/// The answers a run starts from.
#[derive(Debug, Clone)]
pub struct PreflightResult {
    pub source: String,
    pub destination: String,
    pub debug_log: bool,
}

/// Why the answers cannot start a transfer.
#[derive(Debug, Clone, Copy, PartialEq, Eq)]
pub enum PreflightError {
    EmptySource,
    EmptyDestination,
    DestinationMissing,
    DestinationNotDirectory,
}

/// What the filesystem holds at the destination path.
#[derive(Debug, Clone, Copy, PartialEq, Eq)]
pub enum PathKind {
    Missing,
    NotDirectory,
    Directory,
}

/// The value an answer gives: the trimmed answer, or the offered default
/// when the answer is blank.
pub open spec fn answer_value(input: Seq<char>, default: Option<Seq<char>>) -> Seq<char> {
    if trim(input).len() == 0 && default is Some {
        default.unwrap()
    } else {
        trim(input)
    }
}

/// The answer to a question, or `default` when the answer is blank.
pub fn answer_or_default(input: &str, default: Option<&str>) -> (s: String)
    ensures
        s@ == answer_value(
            input@,
            match default {
                Some(d) => Some(d@),
                None => None,
            },
        ),
{
    let chars = text_chars(input);
    let t = trim_chars(&chars);
    if t.len() == 0 {
        if let Some(value) = default {
            return String::from_str(value);
        }
    }
    chars_to_string(&t)
}

pub open spec fn ascii_lower(c: char) -> char {
    if 'A' <= c <= 'Z' {
        ((c as int) + 32) as char
    } else {
        c
    }
}

/// Whether a yes/no answer is yes: `y` or `yes` in any letter case, around
/// any whitespace. Anything else, a blank answer too, is no.
pub open spec fn is_yes(input: Seq<char>) -> bool {
    let lowered = trim(input).map_values(|c: char| ascii_lower(c));
    lowered == "y"@ || lowered == "yes"@
}

/// CSV logging is off unless asked for: a blank answer is no.
pub proof fn blank_answer_is_no(input: Seq<char>)
    requires
        trim(input).len() == 0,
    ensures
        !is_yes(input),
{
    reveal_strlit("y");
    reveal_strlit("yes");
    assert(trim(input).map_values(|c: char| ascii_lower(c)).len() == 0);
}

fn same_letter(c: char, lower: char) -> (b: bool)
    requires
        'a' <= lower <= 'z',
    ensures
        b == (ascii_lower(c) == lower),
{
    c == lower || (c as u32) + 32 == lower as u32
}

/// Whether the answer to a yes/no question is yes.
pub fn answer_is_yes(input: &str) -> (b: bool)
    ensures
        b == is_yes(input@),
{
    let chars = text_chars(input);
    let t = trim_chars(&chars);
    let ghost lowered = t@.map_values(|c: char| ascii_lower(c));
    proof {
        reveal_strlit("y");
        reveal_strlit("yes");
    }
    if t.len() == 1 {
        let r = same_letter(t[0], 'y');
        assert(r ==> lowered =~= "y"@);
        assert(lowered == "y"@ ==> r) by {
            if lowered == "y"@ {
                assert(lowered[0] == 'y');
            }
        }
        assert(lowered != "yes"@);
        r
    } else if t.len() == 3 {
        let r = same_letter(t[0], 'y') && same_letter(t[1], 'e') && same_letter(t[2], 's');
        assert(r ==> lowered =~= "yes"@);
        assert(lowered == "yes"@ ==> r) by {
            if lowered == "yes"@ {
                assert(lowered[0] == 'y');
                assert(lowered[1] == 'e');
                assert(lowered[2] == 's');
            }
        }
        assert(lowered.len() == 3);
        assert(lowered != "y"@);
        r
    } else {
        assert(lowered.len() == t@.len());
        false
    }
}

/// A source must not be blank.
pub fn validate_source(source: &str) -> (r: Result<(), PreflightError>)
    ensures
        r == if trim(source@).len() == 0 {
            Err(PreflightError::EmptySource)
        } else {
            Ok::<(), PreflightError>(())
        },
{
    let chars = text_chars(source);
    let t = trim_chars(&chars);
    if t.len() == 0 {
        return Err(PreflightError::EmptySource);
    }
    Ok(())
}

/// The verdict on a destination path, given what the filesystem holds there.
pub open spec fn destination_verdict(destination: Seq<char>, kind: PathKind) -> Result<(), PreflightError> {
    if trim(destination).len() == 0 {
        Err(PreflightError::EmptyDestination)
    } else {
        match kind {
            PathKind::Missing => Err(PreflightError::DestinationMissing),
            PathKind::NotDirectory => Err(PreflightError::DestinationNotDirectory),
            PathKind::Directory => Ok(()),
        }
    }
}

/// A destination must not be blank, and must be an existing directory;
/// `kind` is what the filesystem holds at `destination`.
pub fn validate_destination(destination: &str, kind: PathKind) -> (r: Result<(), PreflightError>)
    ensures
        r == destination_verdict(destination@, kind),
{
    let chars = text_chars(destination);
    let t = trim_chars(&chars);
    if t.len() == 0 {
        return Err(PreflightError::EmptyDestination);
    }
    match kind {
        PathKind::Missing => Err(PreflightError::DestinationMissing),
        PathKind::NotDirectory => Err(PreflightError::DestinationNotDirectory),
        PathKind::Directory => Ok(()),
    }
}

/// The startup answers as a run: the source and destination answers, each
/// defaulting to the remembered value, and CSV logging on a yes. The source
/// is checked first, then the destination, whose filesystem state is
/// `destination_kind`.
pub fn run(
    remembered: Option<&PreflightResult>,
    source_answer: &str,
    destination_answer: &str,
    logging_answer: &str,
    destination_kind: PathKind,
) -> (r: Result<PreflightResult, PreflightError>)
    ensures
        ({
            let source = answer_value(
                source_answer@,
                match remembered {
                    Some(m) => Some(m.source@),
                    None => None,
                },
            );
            let destination = answer_value(
                destination_answer@,
                match remembered {
                    Some(m) => Some(m.destination@),
                    None => None,
                },
            );
            if trim(source).len() == 0 {
                r == Err::<PreflightResult, PreflightError>(PreflightError::EmptySource)
            } else if destination_verdict(destination, destination_kind) is Err {
                r == Err::<PreflightResult, PreflightError>(
                    destination_verdict(destination, destination_kind)->Err_0,
                )
            } else {
                r matches Ok(p) && p.source@ == source && p.destination@ == destination
                    && p.debug_log == is_yes(logging_answer@)
            }
        }),
{
    let (source_default, destination_default) = match remembered {
        Some(m) => (Some(m.source.as_str()), Some(m.destination.as_str())),
        None => (None, None),
    };
    let source = answer_or_default(source_answer, source_default);
    let destination = answer_or_default(destination_answer, destination_default);
    let debug_log = answer_is_yes(logging_answer);
    match validate_source(source.as_str()) {
        Err(e) => return Err(e),
        Ok(()) => {},
    }
    match validate_destination(destination.as_str(), destination_kind) {
        Err(e) => return Err(e),
        Ok(()) => {},
    }
    Ok(PreflightResult { source, destination, debug_log })
}

/// The value of the last line that begins with `key`, after the key.
pub open spec fn last_value(ls: Seq<Seq<char>>, key: Seq<char>) -> Option<Seq<char>>
    decreases ls.len(),
{
    if ls.len() == 0 {
        None
    } else if has_prefix(ls.last(), key) {
        Some(ls.last().skip(key.len() as int))
    } else {
        last_value(ls.drop_last(), key)
    }
}

/// The remembered source and destination in the text of the last-run
/// file: the last `source=` line and the last `destination=` line.
pub open spec fn remembered_in(contents: Seq<char>) -> Option<(Seq<char>, Seq<char>)> {
    match (last_value(lines(contents), "source="@), last_value(lines(contents), "destination="@)) {
        (Some(s), Some(d)) => Some((s, d)),
        _ => None,
    }
}

/// The value of the last line of `ls` that begins with `key`.
fn find_last_value(ls: &Vec<Vec<char>>, key: &Vec<char>) -> (r: Option<Vec<char>>)
    ensures
        match last_value(char_views(ls@), key@) {
            Some(v) => r matches Some(x) && x@ == v,
            None => r is None,
        },
{
    let ghost lv = char_views(ls@);
    assert(lv.take(lv.len() as int) =~= lv);
    let mut i: usize = ls.len();
    while i > 0
        invariant
            0 <= i <= ls@.len(),
            lv == char_views(ls@),
            last_value(lv, key@) == last_value(lv.take(i as int), key@),
        decreases i,
    {
        let line = &ls[i - 1];
        assert(lv.take(i as int).last() == line@);
        assert(lv.take(i as int).drop_last() =~= lv.take(i - 1));
        if starts_with(line, key) {
            return Some(slice_chars(line, key.len(), line.len()));
        }
        i -= 1;
    }
    None
}

/// The source and destination remembered in the last-run file's text,
/// when it holds both; logging is never remembered.
pub fn parse_last_run(contents: &str) -> (r: Option<PreflightResult>)
    ensures
        match remembered_in(contents@) {
            Some((s, d)) => r matches Some(p) && p.source@ == s && p.destination@ == d
                && !p.debug_log,
            None => r is None,
        },
{
    let text = text_chars(contents);
    let ls = split_lines(&text);
    assert(char_views(ls@).take(ls@.len() as int) =~= char_views(ls@));
    let source = find_last_value(&ls, &text_chars("source="));
    let destination = find_last_value(&ls, &text_chars("destination="));
    match (source, destination) {
        (Some(s), Some(d)) => Some(
            PreflightResult {
                source: chars_to_string(&s),
                destination: chars_to_string(&d),
                debug_log: false,
            },
        ),
        _ => None,
    }
}

/// The text of the last-run file for `source` and `destination`.
pub open spec fn last_run_text(source: Seq<char>, destination: Seq<char>) -> Seq<char> {
    "source="@ + source + "\n"@ + "destination="@ + destination + "\n"@
}

/// The last-run file's text for a run's answers.
pub fn last_run_contents(result: &PreflightResult) -> (s: String)
    ensures
        s@ == last_run_text(result.source@, result.destination@),
{
    let mut s = String::from_str("source=");
    s.append(result.source.as_str());
    s.append("\n");
    s.append("destination=");
    s.append(result.destination.as_str());
    s.append("\n");
    s
}

/// A value that a line of the last-run file can hold whole: no line feed,
/// and no carriage return at its end.
pub open spec fn fits_on_line(v: Seq<char>) -> bool {
    (forall|i: int| 0 <= i < v.len() ==> v[i] != '\n') && !(v.len() > 0 && v.last() == '\r')
}

proof fn lemma_line_scan_plain(p: Seq<char>, t: Seq<char>)
    requires
        forall|i: int| 0 <= i < t.len() ==> t[i] != '\n',
    ensures
        line_scan(p + t) == (line_scan(p).0, line_scan(p).1 + t),
    decreases t.len(),
{
    if t.len() == 0 {
        assert(p + t =~= p);
        assert(line_scan(p).1 + t =~= line_scan(p).1);
    } else {
        let u = t.drop_last();
        lemma_line_scan_plain(p, u);
        assert((p + t).drop_last() =~= p + u);
        assert((p + t).last() == t.last());
        assert(line_scan(p).1 + u + seq![t.last()] =~= line_scan(p).1 + t);
    }
}

proof fn lemma_line_scan_line(p: Seq<char>, t: Seq<char>)
    requires
        forall|i: int| 0 <= i < t.len() ==> t[i] != '\n',
    ensures
        line_scan(p + t + "\n"@) == (line_scan(p).0.push(strip_cr(line_scan(p).1 + t)), Seq::<
            char,
        >::empty()),
{
    reveal_strlit("\n");
    lemma_line_scan_plain(p, t);
    let q = p + t;
    assert((q + "\n"@).drop_last() =~= q);
    assert((q + "\n"@).last() == '\n');
}

/// What the last-run file remembers is what was written to it: the text
/// written for a source and a destination reads back as that source and
/// destination, when each fits on one line.
pub proof fn last_run_round_trip(source: Seq<char>, destination: Seq<char>)
    requires
        fits_on_line(source),
        fits_on_line(destination),
    ensures
        remembered_in(last_run_text(source, destination)) == Some((source, destination)),
{
    reveal_strlit("source=");
    reveal_strlit("destination=");
    reveal_strlit("\n");
    let ks = "source="@;
    let kd = "destination="@;
    let l1 = ks + source;
    let l2 = kd + destination;
    assert forall|i: int| 0 <= i < l1.len() implies l1[i] != '\n' by {
        if i >= ks.len() {
            assert(l1[i] == source[i - ks.len()]);
        }
    }
    assert forall|i: int| 0 <= i < l2.len() implies l2[i] != '\n' by {
        if i >= kd.len() {
            assert(l2[i] == destination[i - kd.len()]);
        }
    }
    let e = Seq::<char>::empty();
    lemma_line_scan_line(e, l1);
    assert(e + l1 =~= l1);
    assert(line_scan(e) == (Seq::<Seq<char>>::empty(), e));
    assert(e + l1 + "\n"@ =~= l1 + "\n"@);
    let first = l1 + "\n"@;
    lemma_line_scan_line(first, l2);
    assert(e + l2 =~= l2);
    assert(line_scan(e).1 + l1 =~= l1);
    assert(strip_cr(l1) == l1) by {
        if source.len() > 0 {
            assert(l1.last() == source.last());
        } else {
            assert(l1 =~= ks);
        }
    }
    assert(strip_cr(l2) == l2) by {
        if destination.len() > 0 {
            assert(l2.last() == destination.last());
        } else {
            assert(l2 =~= kd);
        }
    }
    let text = last_run_text(source, destination);
    assert(text =~= first + l2 + "\n"@);
    assert(line_scan(first).1 + l2 =~= l2);
    let ls = lines(text);
    assert(ls =~= seq![l1, l2]);
    assert(has_prefix(l2, kd)) by {
        assert(l2.subrange(0, kd.len() as int) =~= kd);
    }
    assert(l2.skip(kd.len() as int) =~= destination);
    assert(!has_prefix(l2, ks)) by {
        assert(l2[0] == 'd');
    }
    assert(has_prefix(l1, ks)) by {
        assert(l1.subrange(0, ks.len() as int) =~= ks);
    }
    assert(l1.skip(ks.len() as int) =~= source);
    assert(ls.drop_last() =~= seq![l1]);
    assert(seq![l1].drop_last() =~= Seq::<Seq<char>>::empty());
    assert(ls.last() == l2);
    assert(last_value(ls, kd) == Some(destination));
    assert(last_value(ls.drop_last(), ks) == Some(source));
    assert(last_value(ls, ks) == Some(source));
}

proof fn lemma_trim_single(c: char)
    ensures
        is_white(c) ==> trim(seq![c]).len() == 0,
        !is_white(c) ==> trim(seq![c]) == seq![c],
{
    let s = seq![c];
    assert(s.drop_first() =~= Seq::<char>::empty());
    assert(s.drop_last() =~= Seq::<char>::empty());
    assert(trim_start(Seq::<char>::empty()) == Seq::<char>::empty());
    assert(trim_end(Seq::<char>::empty()) == Seq::<char>::empty());
}

/// The yes/no answer ignores letter case: two answers whose trimmed texts
/// agree once ASCII letters are lowered are both yes or both no.
pub proof fn yes_ignores_case(a: Seq<char>, b: Seq<char>)
    requires
        trim(a).map_values(|c: char| ascii_lower(c)) == trim(b).map_values(|c: char| ascii_lower(c)),
    ensures
        is_yes(a) == is_yes(b),
{
}

/// A one-letter answer is yes exactly when it is `y` or `Y`.
pub proof fn one_letter_yes(c: char)
    ensures
        is_yes(seq![c]) <==> c == 'y' || c == 'Y',
{
    reveal_strlit("y");
    reveal_strlit("yes");
    lemma_trim_single(c);
    if !is_white(c) {
        let l = seq![c].map_values(|x: char| ascii_lower(x));
        assert(l.len() == 1);
        assert(l[0] == ascii_lower(c));
        if c == 'y' || c == 'Y' {
            assert(l =~= "y"@);
        }
    } else {
        assert(trim(seq![c]).map_values(|x: char| ascii_lower(x)).len() == 0);
    }
}

/// A three-letter answer is yes exactly when it spells `yes` in any mix of
/// letter cases.
pub proof fn three_letter_yes(a: char, b: char, c: char)
    requires
        !is_white(a),
        !is_white(c),
    ensures
        is_yes(seq![a, b, c]) <==> (a == 'y' || a == 'Y') && (b == 'e' || b == 'E') && (c == 's'
            || c == 'S'),
{
    reveal_strlit("y");
    reveal_strlit("yes");
    let s = seq![a, b, c];
    assert(trim_start(s) == s);
    assert(trim_end(s) == s);
    let l = s.map_values(|x: char| ascii_lower(x));
    assert(l.len() == 3);
    assert(l[0] == ascii_lower(a) && l[1] == ascii_lower(b) && l[2] == ascii_lower(c));
    if (a == 'y' || a == 'Y') && (b == 'e' || b == 'E') && (c == 's' || c == 'S') {
        assert(l =~= "yes"@);
    }
    if l == "yes"@ {
        assert(l[0] == 'y' && l[1] == 'e' && l[2] == 's');
    }
}

} // verus!
