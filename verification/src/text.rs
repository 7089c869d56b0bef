//! The short texts of the dashboard: clipped names, sort labels, the clock.
use vstd::prelude::*;
use vstd::utf8::{
    decode_utf8, decode_utf8_encode_utf8, encode_utf8, encode_utf8_decode_utf8, encode_utf8_valid_utf8,
    is_char_boundary, is_char_boundary_iff_not_is_continuation_byte, is_char_boundary_start_end_of_seq,
    valid_utf8_concat, valid_utf8_split,
};

use crate::procs::SortBy;
use vstd::arithmetic::div_mod::{lemma_fundamental_div_mod, lemma_mod_mod};
use std::time::{Duration, SystemTime, SystemTimeError};

verus! {

/// `s` clipped to `max` bytes: unchanged when it fits, else its first
/// `max - 1` bytes (none when `max` is zero) followed by `'…'`.
pub open spec fn clipped(s: Seq<char>, max: usize) -> Seq<char> {
    let bytes = encode_utf8(s);
    if bytes.len() <= max {
        s
    } else {
        decode_utf8(bytes.take(clip_cut(max))) + seq!['…']
    }
}

/// Where a clipped text is cut: `max - 1`, or 0 when `max` is 0.
pub open spec fn clip_cut(max: usize) -> int {
    if max > 0 {
        max - 1
    } else {
        0
    }
}

/// The byte slicing of [`clip`] falls on a character boundary (else it
/// panics).
pub open spec fn clip_is_safe(s: Seq<char>, max: usize) -> bool {
    encode_utf8(s).len() <= max || is_char_boundary(encode_utf8(s), clip_cut(max))
}

/// Clips `s` to at most `max` bytes, marking a cut with `'…'`.
pub fn clip(s: &str, max: usize) -> (r: String)
    requires
        clip_is_safe(s@, max),
    ensures
        r@ == clipped(s@, max),
{
    if s.as_bytes().len() <= max {
        s.to_owned()
    } else {
        let cut: usize = if max > 0 {
            max - 1
        } else {
            0
        };
        let (head, _tail) = s.split_at(cut);
        let mut r = head.to_owned();
        r.append("…");
        proof {
            reveal_strlit("…");
            encode_utf8_decode_utf8(head@);
            assert(encode_utf8(s@).take(cut as int) =~= encode_utf8(s@).subrange(0, cut as int));
            assert(decode_utf8(encode_utf8(s@).take(cut as int)) == head@);
        }
        r
    }
}

/// The encoding of two texts one after the other is the encoding of the
/// first followed by that of the second.
proof fn lemma_encode_concat(a: Seq<char>, b: Seq<char>)
    ensures
        encode_utf8(a + b) == encode_utf8(a) + encode_utf8(b),
    decreases a.len(),
{
    if a.len() == 0 {
        assert(a + b =~= b);
        assert(encode_utf8(a) + encode_utf8(b) =~= encode_utf8(b));
    } else {
        assert((a + b).drop_first() =~= a.drop_first() + b);
        lemma_encode_concat(a.drop_first(), b);
        assert(encode_utf8(a + b) =~= encode_utf8(a) + encode_utf8(b));
    }
}

/// Clipping a clipped text again changes nothing, and is again safe.
pub proof fn lemma_clip_idempotent(s: Seq<char>, max: usize)
    requires
        clip_is_safe(s, max),
    ensures
        clip_is_safe(clipped(s, max), max),
        clipped(clipped(s, max), max) == clipped(s, max),
{
    let bytes = encode_utf8(s);
    if bytes.len() > max {
        let cut = clip_cut(max);
        let kept = bytes.take(cut);
        let head = decode_utf8(kept);
        let ellipsis = seq!['…'];
        let once = head + ellipsis;
        encode_utf8_valid_utf8(s);
        valid_utf8_split(bytes, cut);
        assert(kept =~= bytes.subrange(0, cut));
        decode_utf8_encode_utf8(kept);
        let tail = encode_utf8(ellipsis);
        encode_utf8_valid_utf8(ellipsis);
        assert(tail.len() > 0);
        lemma_encode_concat(head, ellipsis);
        let again = encode_utf8(once);
        assert(again == kept + tail);
        if again.len() > max {
            is_char_boundary_start_end_of_seq(tail);
            is_char_boundary_iff_not_is_continuation_byte(tail, 0);
            valid_utf8_concat(kept, tail);
            assert(again[cut] == tail[0]);
            is_char_boundary_iff_not_is_continuation_byte(again, cut);
            assert(again.take(cut) =~= kept);
        }
    }
}

/// `String::push`: appends `c` to `s`.
#[verifier::external_body]
fn push_char(s: &mut String, c: char)
    ensures
        final(s)@ == old(s)@.push(c),
{
    s.push(c);
}

/// `s` without its trailing slashes.
pub open spec fn strip_slashes(s: Seq<char>) -> Seq<char>
    decreases s.len(),
{
    if s.len() > 0 && s.last() == '/' {
        strip_slashes(s.drop_last())
    } else {
        s
    }
}

/// The part of `s` after its last slash; all of `s` when it has none.
pub open spec fn after_last_slash(s: Seq<char>) -> Seq<char>
    decreases s.len(),
{
    if s.len() == 0 {
        s
    } else if s.last() == '/' {
        Seq::empty()
    } else {
        after_last_slash(s.drop_last()).push(s.last())
    }
}

/// The last component of a path (trailing slashes ignored).
pub open spec fn last_component(path: Seq<char>) -> Seq<char> {
    after_last_slash(strip_slashes(path))
}

/// A path shown by its last component, clipped to `max` bytes, after a slash.
pub open spec fn clipped_path(path: Seq<char>, max: usize) -> Seq<char> {
    seq!['/'] + clipped(last_component(path), max)
}

proof fn lemma_strip_slashes(s: Seq<char>, e: int)
    requires
        0 <= e <= s.len(),
        forall|j: int| e <= j < s.len() ==> s[j] == '/',
        e > 0 ==> s[e - 1] != '/',
    ensures
        strip_slashes(s) == s.take(e),
    decreases s.len() - e,
{
    if e == s.len() {
        assert(s.take(e) =~= s);
    } else {
        lemma_strip_slashes(s.drop_last(), e);
        assert(s.drop_last().take(e) =~= s.take(e));
    }
}

proof fn lemma_after_last_slash(s: Seq<char>, st: int)
    requires
        0 <= st <= s.len(),
        forall|j: int| st <= j < s.len() ==> s[j] != '/',
        st > 0 ==> s[st - 1] == '/',
    ensures
        after_last_slash(s) == s.skip(st),
    decreases s.len() - st,
{
    if st == s.len() {
        if s.len() > 0 {
            assert(s.skip(st) =~= Seq::<char>::empty());
        } else {
            assert(s.skip(st) =~= s);
        }
    } else {
        lemma_after_last_slash(s.drop_last(), st);
        assert(s.drop_last().skip(st).push(s.last()) =~= s.skip(st));
    }
}

/// Shows a path by its last component, clipped to `max` bytes, after a slash.
pub fn clip_path(path: &str, max: usize) -> (r: String)
    requires
        clip_is_safe(last_component(path@), max),
    ensures
        r@ == clipped_path(path@, max),
{
    let ghost p = path@;
    let n = path.unicode_len();
    let mut e: usize = n;
    while e > 0 && path.get_char(e - 1) == '/'
        invariant
            e <= n == p.len(),
            p == path@,
            forall|j: int| e <= j < n ==> p[j] == '/',
        decreases e,
    {
        e = e - 1;
    }
    proof {
        lemma_strip_slashes(p, e as int);
    }
    let ghost name = p.take(e as int);
    let mut st: usize = e;
    while st > 0 && path.get_char(st - 1) != '/'
        invariant
            st <= e <= n == p.len(),
            p == path@,
            name == p.take(e as int),
            forall|j: int| st <= j < e ==> p[j] != '/',
        decreases st,
    {
        st = st - 1;
    }
    proof {
        assert forall|j: int| st <= j < name.len() implies name[j] != '/' by {
            assert(name[j] == p[j]);
        }
        if st > 0 {
            assert(name[st - 1] == p[st - 1]);
        }
        lemma_after_last_slash(name, st as int);
        assert(name.skip(st as int) =~= p.subrange(st as int, e as int));
    }
    let last = path.substring_char(st, e);
    let mut r = String::from_str("/");
    let tail = clip(last, max);
    r.append(tail.as_str());
    proof {
        reveal_strlit("/");
    }
    r
}

/// The label of a sort order, as shown in the table title and the footer.
pub open spec fn spec_sort_label(s: SortBy) -> Seq<char> {
    match s {
        SortBy::CpuDesc => "cpu ▼"@,
        SortBy::CpuAsc => "cpu ▲"@,
        SortBy::MemDesc => "mem ▼"@,
        SortBy::MemAsc => "mem ▲"@,
        SortBy::Pid => "pid"@,
        SortBy::Name => "name"@,
    }
}

/// The label of a sort order.
pub fn sort_label(s: SortBy) -> (r: &'static str)
    ensures
        r@ == spec_sort_label(s),
{
    match s {
        SortBy::CpuDesc => "cpu ▼",
        SortBy::CpuAsc => "cpu ▲",
        SortBy::MemDesc => "mem ▼",
        SortBy::MemAsc => "mem ▲",
        SortBy::Pid => "pid",
        SortBy::Name => "name",
    }
}

/// A column heading with an arrow when the table is sorted by that column:
/// `" ▼"` for its descending order, `" ▲"` for its ascending one.
pub open spec fn spec_sort_col_label(
    base: Seq<char>,
    current: SortBy,
    desc: SortBy,
    asc: SortBy,
) -> Seq<char> {
    if current == desc {
        base + " ▼"@
    } else if current == asc {
        base + " ▲"@
    } else {
        base
    }
}

/// The heading of a sortable column.
pub fn sort_col_label(base: &str, current: SortBy, desc: SortBy, asc: SortBy) -> (r: String)
    ensures
        r@ == spec_sort_col_label(base@, current, desc, asc),
{
    let mut r = base.to_owned();
    if current == desc {
        r.append(" ▼");
    } else if current == asc {
        r.append(" ▲");
    }
    r
}

/// The decimal digit `d` (below ten) as a character.
pub open spec fn digit_char(d: int) -> char {
    (48 + d) as char
}

/// A number below 100 in two digits, with a leading zero.
pub open spec fn two_digits(n: int) -> Seq<char> {
    seq![digit_char(n / 10), digit_char(n % 10)]
}

/// The time of day, `HH:MM:SS`, of a count of seconds since the Unix epoch
/// (UTC).
pub open spec fn clock_text(secs: u64) -> Seq<char> {
    let t = secs as int;
    two_digits((t % 86400) / 3600) + seq![':'] + two_digits((t % 3600) / 60) + seq![':']
        + two_digits(t % 60)
}

/// Two digits read back give the number: the first is its tens, the
/// second its units, both decimal digits.
pub proof fn lemma_two_digits_read_back(n: int)
    requires
        0 <= n < 100,
    ensures
        two_digits(n).len() == 2,
        '0' <= two_digits(n)[0] <= '9',
        '0' <= two_digits(n)[1] <= '9',
        (two_digits(n)[0] as int - 48) * 10 + (two_digits(n)[1] as int - 48) == n,
{
}

/// The clock shows the time of day of its seconds: `HH:MM:SS` with hours
/// below 24, minutes and seconds below 60, which together make up the
/// seconds since the last midnight (UTC).
pub proof fn lemma_clock_shows_time_of_day(secs: u64)
    ensures
        exists|h: int, m: int, s: int|
            0 <= h < 24 && 0 <= m < 60 && 0 <= s < 60 && h * 3600 + m * 60 + s == secs % 86400 && clock_text(secs)
                == two_digits(h) + seq![':'] + two_digits(m) + seq![':'] + two_digits(s),
        clock_text(secs).len() == 8,
        clock_text(secs)[2] == ':' && clock_text(secs)[5] == ':',
{
    let t = secs as int;
    let d = t % 86400;
    let h = d / 3600;
    let r = d % 3600;
    lemma_mod_mod(t, 3600, 24);
    lemma_mod_mod(t, 60, 60);
    lemma_fundamental_div_mod(d, 3600);
    lemma_fundamental_div_mod(r, 60);
    assert(r == t % 3600);
    assert(r % 60 == t % 60);
    let m = r / 60;
    let s = r % 60;
    assert(h * 3600 + m * 60 + s == d);
    assert(clock_text(secs) == two_digits(h) + seq![':'] + two_digits(m) + seq![':'] + two_digits(s));
}

/// Appends `n` (below 100) in two digits.
fn push_two_digits(s: &mut String, n: u64)
    requires
        n < 100,
    ensures
        final(s)@ == old(s)@ + two_digits(n as int),
{
    let hi = (n / 10) as u8;
    let lo = (n % 10) as u8;
    push_char(s, (48u8 + hi) as char);
    push_char(s, (48u8 + lo) as char);
    assert(final(s)@ =~= old(s)@ + two_digits(n as int));
}

/// The time of day of `secs` seconds since the Unix epoch, as `HH:MM:SS`.
pub fn clock(secs: u64) -> (r: String)
    ensures
        r@ == clock_text(secs),
{
    let mut r = String::new();
    push_two_digits(&mut r, (secs % 86400) / 3600);
    push_char(&mut r, ':');
    push_two_digits(&mut r, (secs % 3600) / 60);
    push_char(&mut r, ':');
    push_two_digits(&mut r, secs % 60);
    assert(r@ =~= clock_text(secs));
    r
}

#[verifier::external_type_specification]
#[verifier::external_body]
pub struct ExSystemTime(SystemTime);

#[verifier::external_type_specification]
#[verifier::external_body]
pub struct ExSystemTimeError(SystemTimeError);

/// `SystemTime::now`: the current reading of the system clock. It depends
/// on the moment of the call, so nothing is stated of it.
#[verifier::external_body]
fn system_now() -> SystemTime {
    SystemTime::now()
}

/// `SystemTime::duration_since(UNIX_EPOCH)`: the time elapsed since the Unix
/// epoch, or an error when `t` lies before it. The value is opaque here, so
/// nothing is stated of it.
#[verifier::external_body]
fn since_unix_epoch(t: &SystemTime) -> Result<Duration, SystemTimeError> {
    t.duration_since(std::time::UNIX_EPOCH)
}

/// The whole seconds of a duration, as `Duration::as_secs` gives them.
pub uninterp spec fn duration_secs(d: Duration) -> u64;

/// `Duration::as_secs`: the whole seconds of `d`, a function of `d` alone,
/// named [`duration_secs`].
#[verifier::external_body]
fn whole_seconds(d: &Duration) -> (r: u64)
    ensures
        r == duration_secs(*d),
{
    d.as_secs()
}

/// The time of day of a reading of the clock since the Unix epoch, as
/// `HH:MM:SS`: that of its whole seconds, or midnight when the clock read
/// before the epoch.
pub fn clock_since_epoch(elapsed: Result<Duration, SystemTimeError>) -> (r: String)
    ensures
        elapsed is Err ==> r@ == clock_text(0),
        elapsed matches Ok(d) ==> r@ == clock_text(duration_secs(d)),
{
    let secs: u64 = match elapsed {
        Ok(d) => whole_seconds(&d),
        Err(_) => 0,
    };
    clock(secs)
}

/// The current time of day (UTC) as `HH:MM:SS`; midnight when the clock
/// reads before the Unix epoch.
pub fn wall_time() -> (r: String)
    ensures
        exists|secs: u64| r@ == clock_text(secs),
{
    let now = system_now();
    clock_since_epoch(since_unix_epoch(&now))
}

} // verus!
