//! The largest top-level directories, as measured with `du -s -m -x`.
use vstd::prelude::*;

use crate::sorting::{is_stable_sort, is_top, lemma_top_item_from_input, lemma_top_keeps_leaders, stable_sort, Ranked};

verus! {

/// Number of directories the disk panel keeps.
pub const TOP_DIRS: usize = 8;

/// One measured directory: its path, size in MiB (as `du -m` reports it),
/// and its share of the disk in percent.
#[derive(Clone, Debug)]
pub struct DirInfo {
    pub path: String,
    pub size_mb: u64,
    pub percent: u32,
}

/// The directories that are measured, in this order; only these, so that a
/// scan stays quick.
pub open spec fn spec_scan_targets() -> Seq<Seq<char>> {
    seq![
        "/home"@,
        "/usr"@,
        "/var"@,
        "/opt"@,
        "/tmp"@,
        "/boot"@,
        "/srv"@,
        "/root"@,
        "/snap"@,
    ]
}

/// The directories to measure.
pub fn scan_targets() -> (r: Vec<&'static str>)
    ensures
        r@.map_values(|s: &str| s@) == spec_scan_targets(),
{
    let r = vec!["/home", "/usr", "/var", "/opt", "/tmp", "/boot", "/srv", "/root", "/snap"];
    assert(r@.map_values(|s: &str| s@) =~= spec_scan_targets());
    r
}

/// Index of the first `c` in `s`, or `s.len()` when there is none.
pub open spec fn index_of(s: Seq<char>, c: char) -> int
    decreases s.len(),
{
    if s.len() == 0 {
        0
    } else if s[0] == c {
        0
    } else {
        1 + index_of(s.drop_first(), c)
    }
}

/// The first line of `text` as `str::lines` yields it: up to the first
/// `'\n'`, without a `'\r'` just before it; the whole text when it has no
/// `'\n'`; none for empty text.
pub open spec fn first_line(text: Seq<char>) -> Option<Seq<char>> {
    if text.len() == 0 {
        None
    } else {
        let k = index_of(text, '\n');
        if k < text.len() {
            let l = text.take(k);
            if l.len() > 0 && l.last() == '\r' {
                Some(l.drop_last())
            } else {
                Some(l)
            }
        } else {
            Some(text)
        }
    }
}

/// The part of a line before its first tab, when it has a tab (the first
/// piece of `splitn(2, '\t')`, when there are two).
pub open spec fn size_field(line: Seq<char>) -> Option<Seq<char>> {
    let k = index_of(line, '\t');
    if k < line.len() {
        Some(line.take(k))
    } else {
        None
    }
}

/// Characters with the Unicode `White_Space` property (`char::is_whitespace`).
pub open spec fn is_white_space(c: char) -> bool {
    let u = c as u32;
    ||| 0x09 <= u <= 0x0d
    ||| u == 0x20
    ||| u == 0x85
    ||| u == 0xa0
    ||| u == 0x1680
    ||| 0x2000 <= u <= 0x200a
    ||| u == 0x2028
    ||| u == 0x2029
    ||| u == 0x202f
    ||| u == 0x205f
    ||| u == 0x3000
}

/// `s` without leading white space.
pub open spec fn trim_start(s: Seq<char>) -> Seq<char>
    decreases s.len(),
{
    if s.len() > 0 && is_white_space(s[0]) {
        trim_start(s.drop_first())
    } else {
        s
    }
}

/// `s` without trailing white space.
pub open spec fn trim_end(s: Seq<char>) -> Seq<char>
    decreases s.len(),
{
    if s.len() > 0 && is_white_space(s.last()) {
        trim_end(s.drop_last())
    } else {
        s
    }
}

/// `s` without leading and trailing white space (`str::trim`).
pub open spec fn trim(s: Seq<char>) -> Seq<char> {
    trim_end(trim_start(s))
}

/// An ASCII decimal digit.
pub open spec fn is_digit(c: char) -> bool {
    '0' as u32 <= c as u32 <= '9' as u32
}

/// Every character of `s` is a decimal digit.
pub open spec fn all_digits(s: Seq<char>) -> bool {
    forall|i: int| 0 <= i < s.len() ==> is_digit(#[trigger] s[i])
}

/// The number that the decimal digits `s` spell.
pub open spec fn decimal(s: Seq<char>) -> int
    decreases s.len(),
{
    if s.len() == 0 {
        0
    } else {
        decimal(s.drop_last()) * 10 + (s.last() as u32 - '0' as u32)
    }
}

/// One or more decimal digits whose value fits in a `u64`.
pub open spec fn parse_digits(d: Seq<char>) -> Option<u64> {
    if d.len() == 0 || !all_digits(d) || decimal(d) > u64::MAX {
        None
    } else {
        Some(decimal(d) as u64)
    }
}

/// `u64::from_str`: an optional `'+'`, then one or more decimal digits whose
/// value fits in a `u64`.
pub open spec fn parse_u64(s: Seq<char>) -> Option<u64> {
    if s.len() > 0 && s[0] == '+' {
        parse_digits(s.drop_first())
    } else {
        parse_digits(s)
    }
}

/// The size that a `du -s -m` report gives: the number before the first tab
/// of its first line, white space trimmed, when that is a `u64` above zero.
pub open spec fn spec_du_size(text: Seq<char>) -> Option<u64> {
    match first_line(text) {
        None => None,
        Some(line) => match size_field(line) {
            None => None,
            Some(field) => match parse_u64(trim(field)) {
                Some(v) => if v > 0 {
                    Some(v)
                } else {
                    None
                },
                None => None,
            },
        },
    }
}

proof fn lemma_index_of(s: Seq<char>, c: char, k: int)
    requires
        0 <= k <= s.len(),
        forall|j: int| 0 <= j < k ==> s[j] != c,
        k < s.len() ==> s[k] == c,
    ensures
        index_of(s, c) == k,
    decreases k,
{
    if k > 0 {
        lemma_index_of(s.drop_first(), c, k - 1);
    }
}

proof fn lemma_trim_start(s: Seq<char>, a: int)
    requires
        0 <= a <= s.len(),
        forall|j: int| 0 <= j < a ==> is_white_space(#[trigger] s[j]),
        a < s.len() ==> !is_white_space(s[a]),
    ensures
        trim_start(s) == s.skip(a),
    decreases a,
{
    if a == 0 {
        assert(s.skip(0) =~= s);
    } else {
        lemma_trim_start(s.drop_first(), a - 1);
        assert(s.drop_first().skip(a - 1) =~= s.skip(a));
    }
}

proof fn lemma_trim_end(s: Seq<char>, b: int)
    requires
        0 <= b <= s.len(),
        forall|j: int| b <= j < s.len() ==> is_white_space(#[trigger] s[j]),
        b > 0 ==> !is_white_space(s[b - 1]),
    ensures
        trim_end(s) == s.take(b),
    decreases s.len() - b,
{
    if b == s.len() {
        assert(s.take(b) =~= s);
    } else {
        lemma_trim_end(s.drop_last(), b);
        assert(s.drop_last().take(b) =~= s.take(b));
    }
}

proof fn lemma_decimal_grows(d: Seq<char>, j: int)
    requires
        all_digits(d),
        0 <= j <= d.len(),
    ensures
        decimal(d.take(j)) <= decimal(d),
        decimal(d.take(j)) >= 0,
    decreases d.len() - j,
{
    if j == d.len() {
        assert(d.take(j) =~= d);
        lemma_decimal_nonneg(d);
    } else {
        lemma_decimal_grows(d, j + 1);
        assert(d.take(j + 1).drop_last() =~= d.take(j));
        assert(is_digit(d[j]));
        lemma_decimal_nonneg(d.take(j));
    }
}

proof fn lemma_decimal_nonneg(d: Seq<char>)
    requires
        all_digits(d),
    ensures
        decimal(d) >= 0,
    decreases d.len(),
{
    if d.len() > 0 {
        assert(all_digits(d.drop_last()));
        assert(is_digit(d[d.len() - 1]));
        lemma_decimal_nonneg(d.drop_last());
    }
}

/// Parses the characters `text[start..end]` as `u64::from_str` does.
fn parse_u64_range(text: &str, start: usize, end: usize) -> (r: Option<u64>)
    requires
        start <= end <= text@.len(),
    ensures
        r == parse_u64(text@.subrange(start as int, end as int)),
{
    let ghost s = text@.subrange(start as int, end as int);
    let mut i = start;
    if i < end && text.get_char(i) == '+' {
        i = i + 1;
    }
    let ghost d = text@.subrange(i as int, end as int);
    assert(s.len() > 0 ==> s[0] == text@[start as int]);
    assert(parse_u64(s) == parse_digits(d)) by {
        if s.len() > 0 && s[0] == '+' {
            assert(d =~= s.drop_first());
        } else {
            assert(d =~= s);
        }
    }
    if i == end {
        return None;
    }
    let mut j = i;
    while j < end
        invariant
            i <= j <= end <= text@.len(),
            d == text@.subrange(i as int, end as int),
            parse_u64(text@.subrange(start as int, end as int)) == parse_digits(d),
            forall|k: int| 0 <= k < j - i ==> is_digit(#[trigger] d[k]),
        decreases end - j,
    {
        let c = text.get_char(j);
        assert(d[j - i] == c);
        if !((c as u32) >= ('0' as u32) && (c as u32) <= ('9' as u32)) {
            assert(!is_digit(d[j - i]));
            return None;
        }
        j = j + 1;
    }
    assert(all_digits(d));
    let mut v: u64 = 0;
    let mut j = i;
    assert(d.take(0) =~= Seq::<char>::empty());
    while j < end
        invariant
            i <= j <= end <= text@.len(),
            d == text@.subrange(i as int, end as int),
            parse_u64(text@.subrange(start as int, end as int)) == parse_digits(d),
            all_digits(d),
            v == decimal(d.take(j - i)),
        decreases end - j,
    {
        let c = text.get_char(j);
        assert(d[j - i] == c);
        assert(is_digit(d[j - i]));
        let digit = ((c as u32) - ('0' as u32)) as u64;
        assert(d.take(j - i + 1).drop_last() =~= d.take(j - i));
        assert(d.take(j - i + 1).last() == c);
        assert(decimal(d.take(j - i + 1)) == v * 10 + digit);
        match v.checked_mul(10) {
            Some(t) => match t.checked_add(digit) {
                Some(w) => {
                    v = w;
                },
                None => {
                    proof {
                        lemma_decimal_grows(d, j - i + 1);
                    }
                    return None;
                },
            },
            None => {
                proof {
                    lemma_decimal_grows(d, j - i + 1);
                }
                return None;
            },
        }
        j = j + 1;
    }
    assert(d.take(d.len() as int) =~= d);
    Some(v)
}

/// The size in MiB that a `du -s -m` report gives, when it is above zero:
/// see [`spec_du_size`].
pub fn du_size(text: &str) -> (r: Option<u64>)
    ensures
        r == spec_du_size(text@),
{
    let n = text.unicode_len();
    if n == 0 {
        return None;
    }
    let ghost t = text@;
    // end of the first line
    let mut k: usize = 0;
    while k < n && text.get_char(k) != '\n'
        invariant
            k <= n == t.len(),
            t == text@,
            forall|j: int| 0 <= j < k ==> t[j] != '\n',
        decreases n - k,
    {
        k = k + 1;
    }
    proof {
        lemma_index_of(t, '\n', k as int);
    }
    let mut e = k;
    if k < n && k > 0 && text.get_char(k - 1) == '\r' {
        e = k - 1;
    }
    let ghost line = t.take(e as int);
    assert(first_line(t) == Some(line)) by {
        if k < n {
            if k > 0 && t[k - 1] == '\r' {
                assert(t.take(k as int).drop_last() =~= line);
            } else {
                assert(t.take(k as int) =~= line);
            }
        } else {
            assert(t =~= line);
        }
    }
    // the first tab of the line
    let mut tab: usize = 0;
    while tab < e && text.get_char(tab) != '\t'
        invariant
            tab <= e <= n == t.len(),
            t == text@,
            line == t.take(e as int),
            forall|j: int| 0 <= j < tab ==> t[j] != '\t',
        decreases e - tab,
    {
        tab = tab + 1;
    }
    proof {
        lemma_index_of(line, '\t', tab as int);
    }
    if tab == e {
        return None;
    }
    let ghost field = line.take(tab as int);
    assert(field =~= t.subrange(0, tab as int));
    // leading white space
    let mut a: usize = 0;
    while a < tab && is_whitespace(text.get_char(a))
        invariant
            a <= tab < n == t.len(),
            t == text@,
            field == t.subrange(0, tab as int),
            forall|j: int| 0 <= j < a ==> is_white_space(#[trigger] t[j]),
        decreases tab - a,
    {
        a = a + 1;
    }
    proof {
        assert forall|j: int| 0 <= j < a implies is_white_space(#[trigger] field[j]) by {
            assert(field[j] == t[j]);
        }
        lemma_trim_start(field, a as int);
    }
    let ghost rest = field.skip(a as int);
    // trailing white space
    let mut b: usize = tab;
    while b > a && is_whitespace(text.get_char(b - 1))
        invariant
            a <= b <= tab < n == t.len(),
            t == text@,
            rest == t.subrange(a as int, tab as int),
            forall|j: int| b <= j < tab ==> is_white_space(#[trigger] t[j]),
        decreases b - a,
    {
        b = b - 1;
    }
    proof {
        assert(rest =~= t.subrange(a as int, tab as int));
        assert forall|j: int| b - a <= j < rest.len() implies is_white_space(#[trigger] rest[j]) by {
            assert(rest[j] == t[j + a]);
        }
        lemma_trim_end(rest, b - a);
        assert(rest.take(b - a) =~= t.subrange(a as int, b as int));
    }
    match parse_u64_range(text, a, b) {
        Some(v) => if v > 0 {
            Some(v)
        } else {
            None
        },
        None => None,
    }
}

/// Whether `c` has the Unicode `White_Space` property.
pub fn is_whitespace(c: char) -> (r: bool)
    ensures
        r == is_white_space(c),
{
    let u = c as u32;
    (0x09 <= u && u <= 0x0d) || u == 0x20 || u == 0x85 || u == 0xa0 || u == 0x1680 || (0x2000 <= u
        && u <= 0x200a) || u == 0x2028 || u == 0x2029 || u == 0x202f || u == 0x205f || u == 0x3000
}

/// The only order of the directory list: largest first.
#[derive(Clone, Copy, Debug, PartialEq, Eq, Structural)]
pub struct LargestFirst;

impl Ranked for DirInfo {
    type Order = LargestFirst;

    open spec fn ranks_before(a: DirInfo, b: DirInfo, order: LargestFirst) -> bool {
        a.size_mb > b.size_mb
    }

    proof fn lemma_ranks_order(x: DirInfo, c: DirInfo, a: DirInfo, order: LargestFirst) {
    }

    fn ranks_first(&self, other: &DirInfo, order: LargestFirst) -> (r: bool) {
        self.size_mb > other.size_mb
    }
}

/// The panel entry for a measured directory (its share is not computed).
pub open spec fn dir_entry(m: (u64, String)) -> DirInfo {
    DirInfo { path: m.1, size_mb: m.0, percent: 0 }
}

/// `top` holds the first [`TOP_DIRS`] directories sorted by size, largest
/// first, ties in measured order (all of them when there are fewer).
pub open spec fn is_top_by_size(dirs: Seq<DirInfo>, top: Seq<DirInfo>) -> bool {
    is_top(dirs, top, LargestFirst, TOP_DIRS)
}

/// The disk panel lists the largest directories, largest first: any
/// measured directory larger than the last one listed is listed.
pub proof fn lemma_top_dirs_are_largest(dirs: Seq<DirInfo>, top: Seq<DirInfo>, m: int)
    requires
        is_top_by_size(dirs, top),
        0 <= m < dirs.len(),
    ensures
        forall|i: int, j: int| 0 <= i < j < top.len() ==> top[i].size_mb >= top[j].size_mb,
        dirs[m].size_mb > top.last().size_mb ==> top.contains(dirs[m]),
{
    lemma_top_keeps_leaders(dirs, top, LargestFirst, TOP_DIRS, m);
    assert forall|i: int, j: int| 0 <= i < j < top.len() implies top[i].size_mb >= top[j].size_mb by {
        assert(!DirInfo::ranks_before(top[j], top[i], LargestFirst));
    }
}

/// `e` lists a measured directory: its path with exactly its measured size,
/// and no share.
pub open spec fn is_measured(e: DirInfo, measured: Seq<(u64, String)>) -> bool {
    exists|j: int| 0 <= j < measured.len() && e.size_mb == measured[j].0 && e.path == measured[j].1 && e.percent == 0
}

/// The directory list shows measured sizes, largest first: every entry is
/// the path of some measured directory with exactly its measured size (and
/// no share); entries never grow down the list; at most [`TOP_DIRS`] are
/// listed, all of them when fewer were measured; and a measured directory
/// larger than the last one listed is listed with its size.
pub proof fn lemma_ranked_dirs_are_measured(measured: Seq<(u64, String)>, top: Seq<DirInfo>)
    requires
        is_top_by_size(measured.map_values(|m: (u64, String)| dir_entry(m)), top),
    ensures
        forall|i: int|
            0 <= i < top.len() ==> exists|j: int|
                0 <= j < measured.len() && (#[trigger] top[i]).size_mb == measured[j].0 && top[i].path
                    == measured[j].1 && top[i].percent == 0,
        forall|i: int, j: int| 0 <= i < j < top.len() ==> top[i].size_mb >= top[j].size_mb,
        top.len() == (if measured.len() < TOP_DIRS {
            measured.len() as int
        } else {
            TOP_DIRS as int
        }),
        forall|m: int|
            0 <= m < measured.len() && top.len() > 0 && (#[trigger] measured[m]).0 > top.last().size_mb
                ==> exists|k: int| 0 <= k < top.len() && top[k].size_mb == measured[m].0 && top[k].path == measured[m].1,
{
    let entries = measured.map_values(|m: (u64, String)| dir_entry(m));
    assert forall|i: int|
        0 <= i < top.len() implies exists|j: int|
            0 <= j < measured.len() && (#[trigger] top[i]).size_mb == measured[j].0 && top[i].path
                == measured[j].1 && top[i].percent == 0 by {
        let j = lemma_top_item_from_input(entries, top, LargestFirst, TOP_DIRS, i);
        assert(entries[j] == dir_entry(measured[j]));
    }
    if measured.len() > 0 {
        lemma_top_dirs_are_largest(entries, top, 0);
        lemma_top_keeps_leaders(entries, top, LargestFirst, TOP_DIRS, 0);
    } else {
        let sorted = choose|sorted: Seq<DirInfo>|
            #![trigger is_stable_sort(entries, sorted, LargestFirst)]
            is_stable_sort(entries, sorted, LargestFirst) && top == sorted.take(
                if sorted.len() < TOP_DIRS {
                    sorted.len() as int
                } else {
                    TOP_DIRS as int
                },
            );
        let p = choose|p: Seq<int>| crate::sorting::stable_arrangement(entries, sorted, p, LargestFirst);
    }
    assert forall|m: int|
        0 <= m < measured.len() && top.len() > 0 && (#[trigger] measured[m]).0 > top.last().size_mb
            implies exists|k: int| 0 <= k < top.len() && top[k].size_mb == measured[m].0 && top[k].path == measured[m].1 by {
        assert(entries[m] == dir_entry(measured[m]));
        lemma_top_dirs_are_largest(entries, top, m);
        let k = choose|k: int| 0 <= k < top.len() && top[k] == entries[m];
    }
}

/// The [`TOP_DIRS`] largest measured directories, largest first, from
/// `(size in MiB, path)` pairs in measured order.
pub fn rank_dirs(measured: Vec<(u64, String)>) -> (top: Vec<DirInfo>)
    ensures
        is_top_by_size(measured@.map_values(|m: (u64, String)| dir_entry(m)), top@),
        forall|i: int| 0 <= i < top@.len() ==> is_measured(#[trigger] top@[i], measured@),
        forall|i: int, j: int| 0 <= i < j < top@.len() ==> top@[i].size_mb >= top@[j].size_mb,
{
    let ghost entries = measured@.map_values(|m: (u64, String)| dir_entry(m));
    let mut input = measured;
    let mut dirs: Vec<DirInfo> = Vec::new();
    let ghost orig = input@;
    let n = input.len();
    let mut i: usize = 0;
    while i < n
        invariant
            n == orig.len(),
            i <= n,
            entries == orig.map_values(|m: (u64, String)| dir_entry(m)),
            input@ =~= orig.subrange(i as int, n as int),
            dirs@ =~= entries.take(i as int),
        decreases n - i,
    {
        let (size_mb, path) = input.remove(0);
        dirs.push(DirInfo { path, size_mb, percent: 0 });
        assert(entries.take(i + 1) =~= entries.take(i as int).push(entries[i as int]));
        i = i + 1;
    }
    assert(entries.take(n as int) =~= entries);
    let mut sorted = stable_sort(dirs, LargestFirst);
    let ghost full = sorted@;
    sorted.truncate(TOP_DIRS);
    assert(is_stable_sort(entries, full, LargestFirst));
    assert(sorted@ =~= full.take(
        if full.len() < TOP_DIRS {
            full.len() as int
        } else {
            TOP_DIRS as int
        },
    ));
    proof {
        lemma_ranked_dirs_are_measured(measured@, sorted@);
        assert forall|i: int| 0 <= i < sorted@.len() implies is_measured(#[trigger] sorted@[i], measured@) by {
            let j = choose|j: int|
                0 <= j < measured@.len() && sorted@[i].size_mb == measured@[j].0 && sorted@[i].path
                    == measured@[j].1 && sorted@[i].percent == 0;
            assert(0 <= j < measured@.len() && sorted@[i].size_mb == measured@[j].0);
        }
    }
    sorted
}

} // verus!
