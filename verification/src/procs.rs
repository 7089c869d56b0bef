//! Process rows and the orders in which the process table can be shown.
use vstd::prelude::*;
use vstd::utf8::encode_utf8;

use crate::sorting::Ranked;

verus! {

/// The order of the process table.
#[derive(Clone, Copy, Debug, PartialEq, Eq, Structural)]
pub enum SortBy {
    /// Most CPU first (the default).
    CpuDesc,
    /// Least CPU first.
    CpuAsc,
    /// Most memory first.
    MemDesc,
    /// Least memory first.
    MemAsc,
    /// By PID, ascending.
    Pid,
    /// By name, in byte order.
    Name,
}

impl Default for SortBy {
    fn default() -> (s: SortBy)
        ensures
            s == SortBy::CpuDesc,
    {
        SortBy::CpuDesc
    }
}

/// One row of the process table.
///
/// `cpu_bits` is the bit pattern of the `f32` CPU usage; rows are ordered by
/// its key (see [`cpu_key_of_bits`]), so that comparing keys as unsigned
/// integers compares the usages.
#[derive(Clone, Debug)]
pub struct ProcInfo {
    pub pid: u32,
    pub name: String,
    pub cpu_bits: u32,
    pub mem_mb: u64,
}

/// Maps the bit pattern of an `f32` to a key whose unsigned order follows the
/// numeric order of the floats: negative values have every bit flipped, the
/// others get the sign bit set, and negative zero gets the key of zero, as
/// the two compare equal.
pub open spec fn spec_cpu_key(bits: u32) -> u32 {
    if bits == 0x8000_0000 {
        0x8000_0000
    } else if bits & 0x8000_0000 != 0 {
        !bits
    } else {
        bits | 0x8000_0000
    }
}

/// The order key of a row's CPU usage.
pub open spec fn cpu_key(p: ProcInfo) -> u32 {
    spec_cpu_key(p.cpu_bits)
}

/// Order key of an `f32` usage given by its bit pattern.
pub fn cpu_key_of_bits(bits: u32) -> (key: u32)
    ensures
        key == spec_cpu_key(bits),
{
    if bits == 0x8000_0000 {
        0x8000_0000
    } else if bits & 0x8000_0000 != 0 {
        !bits
    } else {
        bits | 0x8000_0000
    }
}

/// Keys follow the order of the floats: among non-negative floats (sign bit
/// clear) larger bit patterns are larger values and get larger keys; among
/// negative ones (sign bit set) larger bit patterns are smaller values and
/// get smaller keys; every float below zero gets a key below every
/// non-negative one's; and the two zeros get the same key.
pub proof fn lemma_cpu_key_monotone(a: u32, b: u32)
    ensures
        a < 0x8000_0000 && b < 0x8000_0000 ==> (a < b <==> spec_cpu_key(a) < spec_cpu_key(b)),
        a > 0x8000_0000 && b < 0x8000_0000 ==> spec_cpu_key(a) < spec_cpu_key(b),
        a >= 0x8000_0000 && b >= 0x8000_0000 ==> (a < b <==> spec_cpu_key(a) > spec_cpu_key(b)),
        spec_cpu_key(0x8000_0000) == spec_cpu_key(0),
{
    assert(a < 0x8000_0000 && b < 0x8000_0000 ==> (a < b <==> spec_cpu_key(a) < spec_cpu_key(b)))
        by (bit_vector);
    assert(a > 0x8000_0000 && b < 0x8000_0000 ==> spec_cpu_key(a) < spec_cpu_key(b))
        by (bit_vector);
    assert(a >= 0x8000_0000 && b >= 0x8000_0000 ==> (a < b <==> spec_cpu_key(a) > spec_cpu_key(b)))
        by (bit_vector);
    assert(spec_cpu_key(0x8000_0000) == spec_cpu_key(0)) by (bit_vector);
}

/// Lexicographic order on byte strings (the order of `str` and `String`).
pub open spec fn bytes_lt(a: Seq<u8>, b: Seq<u8>) -> bool
    decreases a.len(),
{
    if b.len() == 0 {
        false
    } else if a.len() == 0 {
        true
    } else if a[0] != b[0] {
        a[0] < b[0]
    } else {
        bytes_lt(a.drop_first(), b.drop_first())
    }
}

/// The UTF-8 bytes of a process name.
pub open spec fn name_bytes(p: ProcInfo) -> Seq<u8> {
    encode_utf8(p.name@)
}

/// `a` comes strictly before `b` in the table sorted by `sort`.
pub open spec fn before(a: ProcInfo, b: ProcInfo, sort: SortBy) -> bool {
    match sort {
        SortBy::CpuDesc => cpu_key(a) > cpu_key(b),
        SortBy::CpuAsc => cpu_key(a) < cpu_key(b),
        SortBy::MemDesc => a.mem_mb > b.mem_mb,
        SortBy::MemAsc => a.mem_mb < b.mem_mb,
        SortBy::Pid => a.pid < b.pid,
        SortBy::Name => bytes_lt(name_bytes(a), name_bytes(b)),
    }
}

/// Byte-string order is asymmetric.
pub proof fn lemma_bytes_lt_asymmetric(a: Seq<u8>, b: Seq<u8>)
    ensures
        bytes_lt(a, b) ==> !bytes_lt(b, a),
    decreases a.len(),
{
    if a.len() > 0 && b.len() > 0 && a[0] == b[0] {
        lemma_bytes_lt_asymmetric(a.drop_first(), b.drop_first());
    }
}

/// If `x` is below `a`, any `c` is above `x` or below `a`.
pub proof fn lemma_bytes_lt_split(x: Seq<u8>, c: Seq<u8>, a: Seq<u8>)
    ensures
        bytes_lt(x, a) ==> bytes_lt(x, c) || bytes_lt(c, a),
    decreases x.len(),
{
    if x.len() > 0 && a.len() > 0 && c.len() > 0 && x[0] == a[0] && c[0] == x[0] {
        lemma_bytes_lt_split(x.drop_first(), c.drop_first(), a.drop_first());
    }
}

/// `before` is a strict weak order: asymmetric, and when `x` is before `a`,
/// every `c` is after `x` or before `a`.
pub proof fn lemma_before_order(x: ProcInfo, c: ProcInfo, a: ProcInfo, sort: SortBy)
    ensures
        before(x, a, sort) ==> !before(a, x, sort),
        before(x, a, sort) ==> before(x, c, sort) || before(c, a, sort),
{
    if sort == SortBy::Name {
        lemma_bytes_lt_asymmetric(name_bytes(x), name_bytes(a));
        lemma_bytes_lt_split(name_bytes(x), name_bytes(c), name_bytes(a));
    }
}

/// Whether byte string `a` is below `b` in lexicographic order.
pub fn bytes_less(a: &[u8], b: &[u8]) -> (r: bool)
    ensures
        r == bytes_lt(a@, b@),
{
    let mut i: usize = 0;
    assert(a@.skip(0) =~= a@);
    assert(b@.skip(0) =~= b@);
    while i < a.len() && i < b.len()
        invariant
            i <= a@.len(),
            i <= b@.len(),
            bytes_lt(a@, b@) == bytes_lt(a@.skip(i as int), b@.skip(i as int)),
        decreases a@.len() - i,
    {
        if a[i] != b[i] {
            return a[i] < b[i];
        }
        assert(a@.skip(i as int).drop_first() =~= a@.skip(i + 1));
        assert(b@.skip(i as int).drop_first() =~= b@.skip(i + 1));
        i = i + 1;
    }
    i < b.len()
}

/// Whether row `a` comes strictly before row `b` in `sort` order.
pub fn precedes(a: &ProcInfo, b: &ProcInfo, sort: SortBy) -> (r: bool)
    ensures
        r == before(*a, *b, sort),
{
    match sort {
        SortBy::CpuDesc => cpu_key_of_bits(a.cpu_bits) > cpu_key_of_bits(b.cpu_bits),
        SortBy::CpuAsc => cpu_key_of_bits(a.cpu_bits) < cpu_key_of_bits(b.cpu_bits),
        SortBy::MemDesc => a.mem_mb > b.mem_mb,
        SortBy::MemAsc => a.mem_mb < b.mem_mb,
        SortBy::Pid => a.pid < b.pid,
        SortBy::Name => bytes_less(a.name.as_str().as_bytes(), b.name.as_str().as_bytes()),
    }
}

impl Ranked for ProcInfo {
    type Order = SortBy;

    open spec fn ranks_before(a: ProcInfo, b: ProcInfo, order: SortBy) -> bool {
        before(a, b, order)
    }

    proof fn lemma_ranks_order(x: ProcInfo, c: ProcInfo, a: ProcInfo, order: SortBy) {
        lemma_before_order(x, c, a, order);
    }

    fn ranks_first(&self, other: &ProcInfo, order: SortBy) -> (r: bool) {
        precedes(self, other, order)
    }
}

} // verus!
