//! Reading the physical members of a ZFS pool out of `zpool status -LP`.

use vstd::prelude::*;

use crate::text::{
    char_views, chars_equal, chars_to_string, has_prefix, lines, slice_chars, split_lines,
    split_words, starts_with, text_chars, words,
};

verus! {

/// The pool of a ZFS dataset source (`tank` for `tank/backup`): the text
/// before its first `/`.
pub open spec fn pool_name_of(source: Seq<char>) -> Seq<char>
    decreases source.len(),
{
    if source.len() == 0 {
        source
    } else if source[0] == '/' {
        seq![]
    } else {
        seq![source[0]] + pool_name_of(source.drop_first())
    }
}

/// The pool of a ZFS dataset source, as `split('/').next()` finds it.
pub fn pool_name(source: &str) -> (p: String)
    ensures
        p@ == pool_name_of(source@),
{
    let s = text_chars(source);
    let mut i: usize = 0;
    assert(s@.skip(0) =~= s@);
    assert(s@.take(0) + pool_name_of(s@) =~= pool_name_of(s@));
    while i < s.len() && s[i] != '/'
        invariant
            0 <= i <= s@.len(),
            pool_name_of(source@) == s@.take(i as int) + pool_name_of(s@.skip(i as int)),
            s@ == source@,
        decreases s.len() - i,
    {
        assert(s@.skip(i as int).drop_first() =~= s@.skip(i + 1));
        assert(s@.take(i + 1) =~= s@.take(i as int) + seq![s@[i as int]]);
        i += 1;
    }
    proof {
        if i == s@.len() {
            assert(s@.skip(i as int) =~= Seq::<char>::empty());
        }
    }
    assert(s@.take(i as int) + pool_name_of(s@.skip(i as int)) =~= s@.take(i as int));
    chars_to_string(&slice_chars(&s, 0, i))
}

/// Whether a whole-disk block device name is an NVMe namespace's.
pub fn is_nvme_name(name: &str) -> (b: bool)
    ensures
        b == has_prefix(name@, "nvme"@),
{
    starts_with(&text_chars(name), &text_chars("nvme"))
}

/// Why no pool members could be taken from a status report.
#[derive(Debug, Clone, PartialEq, Eq)]
pub enum PoolError {
    /// This member is listed in a state other than `ONLINE`.
    MemberNotOnline(String),
    /// The report lists no physical member device.
    NoMembers,
}

/// What a scan of the report has seen so far.
pub struct PoolScan {
    /// The `config:` section has begun.
    pub config: bool,
    /// The current entries are cache devices or spares, which are not watched.
    pub auxiliary: bool,
    /// The `errors:` line has ended the configuration.
    pub stopped: bool,
    /// The first member found not `ONLINE`.
    pub offline: Option<Seq<char>>,
    /// The member device paths, in report order.
    pub paths: Seq<Seq<char>>,
}

pub open spec fn pool_scan_start() -> PoolScan {
    PoolScan { config: false, auxiliary: false, stopped: false, offline: None, paths: seq![] }
}

/// The effect of one report line on the scan.
pub open spec fn pool_step(st: PoolScan, line: Seq<char>) -> PoolScan {
    let f = words(line);
    if st.stopped || st.offline is Some || f.len() == 0 {
        st
    } else {
        let name = f[0];
        if name == "config:"@ {
            PoolScan { config: true, ..st }
        } else if name == "errors:"@ {
            PoolScan { stopped: true, ..st }
        } else if !st.config {
            st
        } else if name == "cache"@ || name == "spares"@ {
            PoolScan { auxiliary: true, ..st }
        } else if name == "logs"@ || name == "special"@ || name == "dedup"@ {
            PoolScan { auxiliary: false, ..st }
        } else if st.auxiliary || name == "NAME"@ {
            st
        } else if f.len() >= 2 && f[1] != "ONLINE"@ {
            PoolScan { offline: Some(name), ..st }
        } else if has_prefix(name, "/dev/"@) {
            PoolScan { paths: st.paths.push(name), ..st }
        } else {
            st
        }
    }
}

/// The scan after the lines `ls`.
pub open spec fn pool_scan(ls: Seq<Seq<char>>) -> PoolScan
    decreases ls.len(),
{
    if ls.len() == 0 {
        pool_scan_start()
    } else {
        pool_step(pool_scan(ls.drop_last()), ls.last())
    }
}

pub open spec fn string_views(v: Seq<String>) -> Seq<Seq<char>> {
    v.map_values(|s: String| s@)
}

proof fn lemma_pool_scan_settled(ls: Seq<Seq<char>>, k: int)
    requires
        0 <= k <= ls.len(),
        pool_scan(ls.take(k)).stopped || pool_scan(ls.take(k)).offline is Some,
    ensures
        pool_scan(ls) == pool_scan(ls.take(k)),
    decreases ls.len() - k,
{
    if k < ls.len() {
        assert(ls.take(k + 1).drop_last() =~= ls.take(k));
        lemma_pool_scan_settled(ls, k + 1);
    } else {
        assert(ls.take(k) =~= ls);
    }
}

/// The member device paths of a pool, from the text of `zpool status -LP`.
/// Lines before `config:` and from `errors:` on are ignored; so are the
/// entries under `cache` and `spares` (until `logs`, `special` or `dedup`)
/// and the `NAME` header. A member with a state other than `ONLINE` is an
/// error; entries naming a `/dev/` path are the members.
pub fn pool_paths(status: &str) -> (r: Result<Vec<String>, PoolError>)
    ensures
        ({
            let st = pool_scan(lines(status@));
            match st.offline {
                Some(name) => r matches Err(PoolError::MemberNotOnline(n)) && n@ == name,
                None => if st.paths.len() == 0 {
                    r == Err::<Vec<String>, PoolError>(PoolError::NoMembers)
                } else {
                    r matches Ok(p) && string_views(p@) == st.paths
                },
            }
        }),
{
    let text = text_chars(status);
    let ls = split_lines(&text);
    let ghost lv = char_views(ls@);
    let kw_config = text_chars("config:");
    let kw_errors = text_chars("errors:");
    let kw_cache = text_chars("cache");
    let kw_spares = text_chars("spares");
    let kw_logs = text_chars("logs");
    let kw_special = text_chars("special");
    let kw_dedup = text_chars("dedup");
    let kw_name = text_chars("NAME");
    let kw_online = text_chars("ONLINE");
    let kw_dev = text_chars("/dev/");
    let mut config = false;
    let mut auxiliary = false;
    let mut paths: Vec<String> = Vec::new();
    let mut i: usize = 0;
    assert(lv.take(0) =~= Seq::<Seq<char>>::empty());
    assert(lv.take(lv.len() as int) =~= lv);
    assert(string_views(paths@) =~= Seq::<Seq<char>>::empty());
    while i < ls.len()
        invariant
            lv == char_views(ls@),
            lv == lines(status@),
            lv.len() == ls@.len(),
            lv.take(lv.len() as int) == lv,
            0 <= i <= ls@.len(),
            kw_config@ == "config:"@,
            kw_errors@ == "errors:"@,
            kw_cache@ == "cache"@,
            kw_spares@ == "spares"@,
            kw_logs@ == "logs"@,
            kw_special@ == "special"@,
            kw_dedup@ == "dedup"@,
            kw_name@ == "NAME"@,
            kw_online@ == "ONLINE"@,
            kw_dev@ == "/dev/"@,
            pool_scan(lv.take(i as int)) == (PoolScan {
                config,
                auxiliary,
                stopped: false,
                offline: None,
                paths: string_views(paths@),
            }),
        ensures
            pool_scan(lv).offline is None,
            pool_scan(lv).paths == string_views(paths@),
        decreases ls.len() - i,
    {
        assert(lv.take(i + 1).drop_last() =~= lv.take(i as int));
        assert(lv.take(i + 1).last() == ls@[i as int]@);
        let f = split_words(&ls[i]);
        if f.len() == 0 {
            i += 1;
            continue;
        }
        let name = &f[0];
        assert(name@ == words(ls@[i as int]@)[0]);
        if chars_equal(name, &kw_config) {
            config = true;
        } else if chars_equal(name, &kw_errors) {
            proof {
                lemma_pool_scan_settled(lv, i + 1);
                assert(lv.take(lv.len() as int) =~= lv);
            }
            break;
        } else if !config {
        } else if chars_equal(name, &kw_cache) || chars_equal(name, &kw_spares) {
            auxiliary = true;
        } else if chars_equal(name, &kw_logs) || chars_equal(name, &kw_special) || chars_equal(
            name,
            &kw_dedup,
        ) {
            auxiliary = false;
        } else if auxiliary || chars_equal(name, &kw_name) {
        } else if f.len() >= 2 && !chars_equal(&f[1], &kw_online) {
            proof {
                lemma_pool_scan_settled(lv, i + 1);
            }
            return Err(PoolError::MemberNotOnline(chars_to_string(name)));
        } else if starts_with(name, &kw_dev) {
            let ghost before = paths@;
            paths.push(chars_to_string(name));
            assert(string_views(paths@) =~= string_views(before).push(name@));
        }
        i += 1;
    }
    assert(string_views(paths@).len() == paths@.len());
    if paths.len() == 0 {
        return Err(PoolError::NoMembers);
    }
    Ok(paths)
}

/// Whether `name` is one of the words that head a section of the report
/// rather than name an entry.
pub open spec fn is_section_word(name: Seq<char>) -> bool {
    name == "config:"@ || name == "errors:"@ || name == "cache"@ || name == "spares"@ || name
        == "logs"@ || name == "special"@ || name == "dedup"@ || name == "NAME"@
}

/// Within the configuration, outside cache devices and spares, every entry
/// whose state is not `ONLINE` stops the scan as not online, whatever its
/// name: the pool, a vdev, a member path or a device GUID.
pub proof fn any_entry_not_online_is_refused(st: PoolScan, line: Seq<char>)
    requires
        st.config,
        !st.auxiliary,
        !st.stopped,
        st.offline is None,
        words(line).len() >= 2,
        !is_section_word(words(line)[0]),
        words(line)[1] != "ONLINE"@,
    ensures
        pool_step(st, line).offline == Some(words(line)[0]),
{
}

/// An `ONLINE` entry named by a `/dev/` path, within the configuration and
/// outside cache devices and spares, is a member: it is added, in order.
pub proof fn online_device_is_member(st: PoolScan, line: Seq<char>)
    requires
        st.config,
        !st.auxiliary,
        !st.stopped,
        st.offline is None,
        words(line).len() >= 1,
        !is_section_word(words(line)[0]),
        words(line).len() >= 2 ==> words(line)[1] == "ONLINE"@,
        has_prefix(words(line)[0], "/dev/"@),
    ensures
        pool_step(st, line) == (PoolScan { paths: st.paths.push(words(line)[0]), ..st }),
{
}

/// Once an entry is refused, or the `errors:` line ends the configuration,
/// no later line changes the outcome; a refused entry makes `pool_paths`
/// fail naming it.
pub proof fn refusal_is_final(ls: Seq<Seq<char>>, k: int)
    requires
        0 <= k <= ls.len(),
        pool_scan(ls.take(k)).stopped || pool_scan(ls.take(k)).offline is Some,
    ensures
        pool_scan(ls) == pool_scan(ls.take(k)),
{
    lemma_pool_scan_settled(ls, k);
}

/// Entries under `cache` or `spares` are never checked nor kept, until
/// `logs`, `special` or `dedup` begins another section.
pub proof fn auxiliary_entries_ignored(st: PoolScan, line: Seq<char>)
    requires
        st.config,
        st.auxiliary,
        words(line).len() >= 1,
        !is_section_word(words(line)[0]),
    ensures
        pool_step(st, line) == st,
{
}

/// The pool name is the start of the source before its first `/`: it
/// holds no `/`, the source begins with it, and what follows it is empty or
/// begins with `/`.
pub proof fn pool_name_law(source: Seq<char>)
    ensures
        forall|i: int| 0 <= i < pool_name_of(source).len() ==> #[trigger] pool_name_of(source)[i] != '/',
        pool_name_of(source).len() <= source.len(),
        source.subrange(0, pool_name_of(source).len() as int) == pool_name_of(source),
        pool_name_of(source).len() < source.len() ==> source[pool_name_of(source).len() as int] == '/',
    decreases source.len(),
{
    if source.len() > 0 {
        let t = source.drop_first();
        pool_name_law(t);
        let p = pool_name_of(t);
        if source[0] != '/' {
            let q = seq![source[0]] + p;
            assert forall|i: int| 0 <= i < q.len() implies #[trigger] q[i] != '/' by {
                if i > 0 {
                    assert(q[i] == p[i - 1]);
                }
            }
            assert(source.subrange(0, q.len() as int) =~= q) by {
                assert forall|i: int| 0 <= i < q.len() implies source.subrange(0, q.len() as int)[i] == q[i] by {
                    if i > 0 {
                        assert(q[i] == p[i - 1]);
                        assert(t.subrange(0, p.len() as int)[i - 1] == p[i - 1]);
                    }
                }
            }
            if q.len() < source.len() {
                assert(source[q.len() as int] == t[p.len() as int]);
            }
        } else {
            assert(source.subrange(0, 0) =~= Seq::<char>::empty());
        }
    } else {
        assert(source.subrange(0, 0) =~= Seq::<char>::empty());
    }
}

} // verus!
