//! Naming an NVMe drive's controller and reading its temperature sensor text.

use vstd::prelude::*;

use crate::text::{chars_to_string, parse_i32, parse_i32_chars, slice_chars, text_chars, trim, trim_chars, NumberError};

verus! {

/// The block device name in a device path: what follows its last `/`.
pub open spec fn block_name_of(d: Seq<char>) -> Seq<char>
    decreases d.len(),
{
    if d.len() == 0 {
        d
    } else if d.last() == '/' {
        seq![]
    } else {
        block_name_of(d.drop_last()).push(d.last())
    }
}

/// The block device name of a device path, as `rsplit('/').next()` finds it.
pub fn block_name(device: &str) -> (b: String)
    ensures
        b@ == block_name_of(device@),
{
    let d = text_chars(device);
    let mut start: usize = 0;
    let mut i: usize = 0;
    while i < d.len()
        invariant
            0 <= start <= i <= d@.len(),
            block_name_of(d@.take(i as int)) == d@.subrange(start as int, i as int),
        decreases d.len() - i,
    {
        assert(d@.take(i + 1).drop_last() =~= d@.take(i as int));
        if d[i] == '/' {
            start = i + 1;
            assert(d@.subrange(start as int, i + 1) =~= Seq::<char>::empty());
        } else {
            assert(d@.subrange(start as int, i + 1) =~= d@.subrange(start as int, i as int).push(d@[i as int]));
        }
        i += 1;
    }
    assert(d@.take(d@.len() as int) =~= d@);
    chars_to_string(&slice_chars(&d, start, d.len()))
}

/// `"n1"` begins at position `i` of `b`.
pub open spec fn n1_at(b: Seq<char>, i: int) -> bool {
    0 <= i && i + 1 < b.len() && b[i] == 'n' && b[i + 1] == '1'
}

/// The controller of an NVMe block device (`nvme0` for `nvme0n1p2`): the
/// name up to its first `"n1"`; none when the name holds no `"n1"`.
pub fn nvme_controller(block: &str) -> (c: Option<String>)
    ensures
        (forall|i: int| !n1_at(block@, i)) <==> c is None,
        c matches Some(s) ==> exists|i: int|
            n1_at(block@, i) && (forall|j: int| 0 <= j < i ==> !n1_at(block@, j)) && s@ == block@.take(i),
{
    let b = text_chars(block);
    let mut i: usize = 0;
    while i < b.len() && i + 1 < b.len()
        invariant
            b@ == block@,
            0 <= i <= b@.len(),
            forall|j: int| 0 <= j < i ==> !n1_at(block@, j),
        decreases b.len() - i,
    {
        if b[i] == 'n' && b[i + 1] == '1' {
            let c = slice_chars(&b, 0, i);
            assert(c@ =~= block@.take(i as int));
            assert(n1_at(block@, i as int));
            return Some(chars_to_string(&c));
        }
        i += 1;
    }
    assert forall|j: int| !n1_at(block@, j) by {
        if 0 <= j < i {
        }
    }
    None
}

/// The millidegrees Celsius in a sensor's text: the trimmed text as an `i32`.
pub fn parse_temperature(raw: &str) -> (r: Result<i32, NumberError>)
    ensures
        r == parse_i32(trim(raw@)),
{
    let chars = text_chars(raw);
    let t = trim_chars(&chars);
    parse_i32_chars(&t)
}

/// The block device name is the end of the path after its last `/`: it
/// holds no `/`, the path ends with it, and what comes before it is empty
/// or ends with `/`.
pub proof fn block_name_law(d: Seq<char>)
    ensures
        forall|i: int| 0 <= i < block_name_of(d).len() ==> #[trigger] block_name_of(d)[i] != '/',
        block_name_of(d).len() <= d.len(),
        d.subrange(d.len() - block_name_of(d).len(), d.len() as int) == block_name_of(d),
        block_name_of(d).len() < d.len() ==> d[d.len() - block_name_of(d).len() - 1] == '/',
    decreases d.len(),
{
    if d.len() > 0 {
        let t = d.drop_last();
        block_name_law(t);
        let b = block_name_of(t);
        if d.last() != '/' {
            assert forall|i: int| 0 <= i < b.push(d.last()).len() implies #[trigger] b.push(d.last())[i]
                != '/' by {
                if i < b.len() {
                    assert(b.push(d.last())[i] == b[i]);
                }
            }
            assert(d.subrange(d.len() - b.len() - 1, d.len() as int) =~= t.subrange(
                t.len() - b.len(),
                t.len() as int,
            ).push(d.last()));
            if b.len() < t.len() {
                assert(d[d.len() - b.len() - 2] == t[t.len() - b.len() - 1]);
            }
        } else {
            assert(d.subrange(d.len() as int, d.len() as int) =~= Seq::<char>::empty());
        }
    } else {
        assert(d.subrange(0, 0) =~= Seq::<char>::empty());
    }
}

} // verus!
