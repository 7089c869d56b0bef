//! Stable sorting of items by a strict weak order.
use vstd::prelude::*;
use vstd::set_lib::{lemma_int_range, lemma_subset_equality, set_int_range};

verus! {

/// Items that can be ordered by a strict weak order chosen by `Order`.
pub trait Ranked: Sized {
    type Order: Copy;

    /// `a` comes strictly before `b` in `order`.
    spec fn ranks_before(a: Self, b: Self, order: Self::Order) -> bool;

    /// The order is asymmetric, and when `x` is before `a`, every `c` is
    /// after `x` or before `a`.
    proof fn lemma_ranks_order(x: Self, c: Self, a: Self, order: Self::Order)
        ensures
            Self::ranks_before(x, a, order) ==> !Self::ranks_before(a, x, order),
            Self::ranks_before(x, a, order) ==> Self::ranks_before(x, c, order)
                || Self::ranks_before(c, a, order),
    ;

    /// Whether `self` comes strictly before `other` in `order`.
    fn ranks_first(&self, other: &Self, order: Self::Order) -> (r: bool)
        ensures
            r == Self::ranks_before(*self, *other, order),
    ;
}

/// Neither item comes before the other.
pub open spec fn ties<T: Ranked>(a: T, b: T, order: T::Order) -> bool {
    !T::ranks_before(a, b, order) && !T::ranks_before(b, a, order)
}

/// `out` is `orig` rearranged by `perm` (`out[i]` is `orig[perm[i]]`), in
/// `order`, with tied items in their input order.
pub open spec fn stable_arrangement<T: Ranked>(
    orig: Seq<T>,
    out: Seq<T>,
    perm: Seq<int>,
    order: T::Order,
) -> bool {
    &&& out.len() == orig.len()
    &&& perm.len() == orig.len()
    &&& forall|i: int| 0 <= i < perm.len() ==> 0 <= #[trigger] perm[i] < orig.len()
    &&& forall|i: int, j: int| 0 <= i < j < perm.len() ==> perm[i] != perm[j]
    &&& forall|i: int| 0 <= i < out.len() ==> #[trigger] out[i] == orig[perm[i]]
    &&& forall|i: int, j: int|
        0 <= i < j < out.len() ==> !T::ranks_before(#[trigger] out[j], #[trigger] out[i], order)
    &&& forall|i: int, j: int|
        0 <= i < j < out.len() && ties::<T>(#[trigger] out[i], #[trigger] out[j], order) ==> perm[i]
            < perm[j]
}

/// `out` is the stable sort of `orig` by `order`: a permutation of it in
/// `order` in which tied items keep their relative input order.
pub open spec fn is_stable_sort<T: Ranked>(orig: Seq<T>, out: Seq<T>, order: T::Order) -> bool {
    exists|perm: Seq<int>| stable_arrangement(orig, out, perm, order)
}

/// Inserting `x` (input position `k`) at `pos` keeps the arrangement of
/// the first `k` items stable and sorted.
proof fn lemma_insert_step<T: Ranked>(
    orig: Seq<T>,
    out: Seq<T>,
    perm: Seq<int>,
    k: int,
    pos: int,
    order: T::Order,
)
    requires
        0 <= k < orig.len(),
        stable_arrangement(orig.take(k), out, perm, order),
        0 <= pos <= out.len(),
        forall|j: int| pos <= j < out.len() ==> T::ranks_before(orig[k], #[trigger] out[j], order),
        pos > 0 ==> !T::ranks_before(orig[k], out[pos - 1], order),
    ensures
        stable_arrangement(orig.take(k + 1), out.insert(pos, orig[k]), perm.insert(pos, k), order),
{
    let x = orig[k];
    let out2 = out.insert(pos, x);
    let perm2 = perm.insert(pos, k);
    let orig2 = orig.take(k + 1);
    assert forall|i: int| 0 <= i < pos implies !T::ranks_before(x, #[trigger] out[i], order) by {
        if i < pos - 1 {
            T::lemma_ranks_order(x, out[pos - 1], out[i], order);
        }
    }
    assert forall|i: int| 0 <= i < out2.len() implies #[trigger] out2[i] == orig2[perm2[i]] by {
        if i < pos {
            assert(out2[i] == out[i]);
        } else if i > pos {
            assert(out2[i] == out[i - 1]);
        }
    }
    assert forall|i: int, j: int| 0 <= i < j < out2.len() implies !T::ranks_before(
        #[trigger] out2[j],
        #[trigger] out2[i],
        order,
    ) by {
        if j < pos {
        } else if j == pos {
            assert(out2[i] == out[i]);
        } else if i < pos {
            assert(out2[j] == out[j - 1]);
            T::lemma_ranks_order(x, out[i], out[j - 1], order);
            assert(!T::ranks_before(out[j - 1], out[i], order));
        } else if i == pos {
            assert(out2[j] == out[j - 1]);
            T::lemma_ranks_order(x, x, out[j - 1], order);
        } else {
            assert(out2[j] == out[j - 1]);
            assert(out2[i] == out[i - 1]);
        }
    }
    assert forall|i: int, j: int|
        0 <= i < j < out2.len() && ties::<T>(#[trigger] out2[i], #[trigger] out2[j], order) implies perm2[i]
        < perm2[j] by {
        if j < pos {
        } else if j == pos {
            assert(perm[i] < k);
        } else if i < pos {
            assert(out2[j] == out[j - 1]);
        } else if i == pos {
            assert(out2[j] == out[j - 1]);
        } else {
            assert(out2[j] == out[j - 1]);
            assert(out2[i] == out[i - 1]);
        }
    }
    assert forall|i: int, j: int| 0 <= i < j < perm2.len() implies perm2[i] != perm2[j] by {
        if i < pos && j > pos {
            assert(perm2[j] == perm[j - 1]);
        } else if i > pos {
            assert(perm2[j] == perm[j - 1]);
            assert(perm2[i] == perm[i - 1]);
        } else if i == pos {
            assert(perm2[j] == perm[j - 1]);
        }
    }
    assert forall|i: int| 0 <= i < perm2.len() implies 0 <= #[trigger] perm2[i] < orig2.len() by {
        if i > pos {
            assert(perm2[i] == perm[i - 1]);
        }
    }
}

/// Stable insertion sort: the result is the permutation of `items` in
/// `order` in which tied items keep their relative input order, as
/// `slice::sort_by` produces it.
pub fn stable_sort<T: Ranked>(items: Vec<T>, order: T::Order) -> (out: Vec<T>)
    ensures
        is_stable_sort(items@, out@, order),
{
    let ghost orig = items@;
    let n = items.len();
    let mut input = items;
    let mut out: Vec<T> = Vec::new();
    let ghost mut perm: Seq<int> = Seq::empty();
    let mut k: usize = 0;
    assert(orig.take(0) =~= Seq::<T>::empty());
    while k < n
        invariant
            n == orig.len(),
            k <= n,
            input@ =~= orig.subrange(k as int, n as int),
            stable_arrangement(orig.take(k as int), out@, perm, order),
        decreases n - k,
    {
        let x = input.remove(0);
        assert(x == orig[k as int]);
        let mut pos: usize = out.len();
        while pos > 0 && x.ranks_first(&out[pos - 1], order)
            invariant
                pos <= out@.len(),
                forall|j: int| pos <= j < out@.len() ==> T::ranks_before(x, #[trigger] out@[j], order),
            decreases pos,
        {
            pos = pos - 1;
        }
        proof {
            lemma_insert_step(orig, out@, perm, k as int, pos as int, order);
            perm = perm.insert(pos as int, k as int);
        }
        out.insert(pos, x);
        k = k + 1;
    }
    assert(orig.take(n as int) =~= orig);
    out
}

/// Index `l` of `orig` goes before index `m` in a stable sort: its item
/// comes first, or the two tie and `l` is the earlier.
pub open spec fn index_precedes<T: Ranked>(orig: Seq<T>, l: int, m: int, order: T::Order) -> bool {
    T::ranks_before(orig[l], orig[m], order) || (ties::<T>(orig[l], orig[m], order) && l < m)
}

proof fn lemma_arrangement_increasing<T: Ranked>(
    orig: Seq<T>,
    out: Seq<T>,
    perm: Seq<int>,
    order: T::Order,
    i: int,
    j: int,
)
    requires
        stable_arrangement(orig, out, perm, order),
        0 <= i < j < out.len(),
    ensures
        index_precedes(orig, perm[i], perm[j], order),
{
    assert(out[i] == orig[perm[i]]);
    assert(out[j] == orig[perm[j]]);
    assert(!T::ranks_before(out[j], out[i], order));
}

proof fn lemma_index_precedes_asymmetric<T: Ranked>(orig: Seq<T>, l: int, m: int, order: T::Order)
    ensures
        !(index_precedes(orig, l, m, order) && index_precedes(orig, m, l, order)),
{
    T::lemma_ranks_order(orig[l], orig[l], orig[m], order);
}

proof fn lemma_perm_onto(perm: Seq<int>, n: int, a: int)
    requires
        perm.len() == n,
        forall|i: int| 0 <= i < perm.len() ==> 0 <= #[trigger] perm[i] < n,
        forall|i: int, j: int| 0 <= i < j < perm.len() ==> perm[i] != perm[j],
        0 <= a < n,
    ensures
        exists|j: int| 0 <= j < n && perm[j] == a,
{
    assert(perm.no_duplicates()) by {
        assert forall|i: int, j: int|
            0 <= i < perm.len() && 0 <= j < perm.len() && i != j implies perm[i] != perm[j] by {
            if i > j {
                assert(perm[j] != perm[i]);
            }
        }
    }
    perm.unique_seq_to_set();
    lemma_int_range(0, n);
    assert(perm.to_set().subset_of(set_int_range(0, n)));
    lemma_subset_equality(perm.to_set(), set_int_range(0, n));
    assert(set_int_range(0, n).contains(a));
    assert(perm.to_set().contains(a));
}

proof fn lemma_perms_agree_up_to<T: Ranked>(
    orig: Seq<T>,
    out1: Seq<T>,
    p1: Seq<int>,
    out2: Seq<T>,
    p2: Seq<int>,
    order: T::Order,
    i: int,
)
    requires
        stable_arrangement(orig, out1, p1, order),
        stable_arrangement(orig, out2, p2, order),
        0 <= i <= orig.len(),
    ensures
        forall|k: int| 0 <= k < i ==> p1[k] == p2[k],
    decreases i,
{
    if i > 0 {
        lemma_perms_agree_up_to(orig, out1, p1, out2, p2, order, i - 1);
        let k = i - 1;
        let a = p1[k];
        let b = p2[k];
        if a != b {
            let n = orig.len() as int;
            lemma_perm_onto(p2, n, a);
            let j = choose|j: int| 0 <= j < n && p2[j] == a;
            lemma_perm_onto(p1, n, b);
            let l = choose|l: int| 0 <= l < n && p1[l] == b;
            if j < k {
                assert(p1[j] == p2[j]);
            }
            if l < k {
                assert(p1[l] == p2[l]);
            }
            assert(j > k);
            assert(l > k);
            lemma_arrangement_increasing(orig, out2, p2, order, k, j);
            lemma_arrangement_increasing(orig, out1, p1, order, k, l);
            lemma_index_precedes_asymmetric(orig, a, b, order);
        }
    }
}

/// Every item of `orig` appears in its stable sort.
pub proof fn lemma_sort_keeps_items<T: Ranked>(orig: Seq<T>, out: Seq<T>, order: T::Order, m: int)
    requires
        is_stable_sort(orig, out, order),
        0 <= m < orig.len(),
    ensures
        exists|k: int| 0 <= k < out.len() && out[k] == orig[m],
{
    let p = choose|p: Seq<int>| stable_arrangement(orig, out, p, order);
    lemma_perm_onto(p, orig.len() as int, m);
    let k = choose|k: int| 0 <= k < orig.len() && p[k] == m;
    assert(out[k] == orig[p[k]]);
}

/// The first `k` items of the stable sort of `orig` (all of them when there
/// are fewer).
pub open spec fn is_top<T: Ranked>(orig: Seq<T>, top: Seq<T>, order: T::Order, k: usize) -> bool {
    exists|sorted: Seq<T>|
        #![trigger is_stable_sort(orig, sorted, order)]
        is_stable_sort(orig, sorted, order) && top == sorted.take(
            if sorted.len() < k {
                sorted.len() as int
            } else {
                k as int
            },
        )
}

/// Every item kept from a stable sort is an item of the input: the `i`-th
/// kept is the input's `m`-th.
pub proof fn lemma_top_item_from_input<T: Ranked>(orig: Seq<T>, top: Seq<T>, order: T::Order, k: usize, i: int) -> (m: int)
    requires
        is_top(orig, top, order, k),
        0 <= i < top.len(),
    ensures
        0 <= m < orig.len(),
        top[i] == orig[m],
{
    let sorted = choose|sorted: Seq<T>|
        is_stable_sort(orig, sorted, order) && top == sorted.take(
            if sorted.len() < k {
                sorted.len() as int
            } else {
                k as int
            },
        );
    let p = choose|p: Seq<int>| stable_arrangement(orig, sorted, p, order);
    assert(top[i] == sorted[i]);
    assert(0 <= p[i] < orig.len());
    p[i]
}

/// Keeping the first `k` of a stable sort keeps the leaders: the kept items
/// are in order, there are `k` of them (or all), and any item that comes
/// before the last one kept is kept.
pub proof fn lemma_top_keeps_leaders<T: Ranked>(
    orig: Seq<T>,
    top: Seq<T>,
    order: T::Order,
    k: usize,
    m: int,
)
    requires
        is_top(orig, top, order, k),
        0 <= m < orig.len(),
        k > 0,
    ensures
        forall|i: int, j: int|
            0 <= i < j < top.len() ==> !T::ranks_before(#[trigger] top[j], #[trigger] top[i], order),
        top.len() == (if orig.len() < k {
            orig.len() as int
        } else {
            k as int
        }),
        top.len() > 0,
        T::ranks_before(orig[m], top.last(), order) ==> top.contains(orig[m]),
{
    let sorted = choose|sorted: Seq<T>|
        is_stable_sort(orig, sorted, order) && top == sorted.take(
            if sorted.len() < k {
                sorted.len() as int
            } else {
                k as int
            },
        );
    let p = choose|p: Seq<int>| stable_arrangement(orig, sorted, p, order);
    assert forall|i: int, j: int| 0 <= i < j < top.len() implies !T::ranks_before(
        #[trigger] top[j],
        #[trigger] top[i],
        order,
    ) by {
        assert(top[i] == sorted[i]);
        assert(top[j] == sorted[j]);
    }
    lemma_sort_keeps_items(orig, sorted, order, m);
    let q = choose|q: int| 0 <= q < sorted.len() && sorted[q] == orig[m];
    if T::ranks_before(orig[m], top.last(), order) {
        let last = top.len() - 1;
        assert(top.last() == sorted[last]);
        assert(q <= last);
        assert(top[q] == orig[m]);
    }
}

/// A stable sort has a single outcome: any two stable sorts of the same
/// items by the same order are equal.
pub proof fn lemma_stable_sort_unique<T: Ranked>(
    orig: Seq<T>,
    out1: Seq<T>,
    out2: Seq<T>,
    order: T::Order,
)
    requires
        is_stable_sort(orig, out1, order),
        is_stable_sort(orig, out2, order),
    ensures
        out1 == out2,
{
    let p1 = choose|p: Seq<int>| stable_arrangement(orig, out1, p, order);
    let p2 = choose|p: Seq<int>| stable_arrangement(orig, out2, p, order);
    lemma_perms_agree_up_to(orig, out1, p1, out2, p2, order, orig.len() as int);
    assert forall|i: int| 0 <= i < out1.len() implies out1[i] == out2[i] by {
        assert(out1[i] == orig[p1[i]]);
        assert(out2[i] == orig[p2[i]]);
    }
    assert(out1 =~= out2);
}

/// Sorting items that are already sorted leaves them as they are; so a
/// second sort by the same order changes nothing.
pub proof fn lemma_stable_sort_idempotent<T: Ranked>(
    orig: Seq<T>,
    sorted: Seq<T>,
    again: Seq<T>,
    order: T::Order,
)
    requires
        is_stable_sort(orig, sorted, order),
        is_stable_sort(sorted, again, order),
    ensures
        again == sorted,
{
    let p = choose|p: Seq<int>| stable_arrangement(orig, sorted, p, order);
    let id = Seq::new(sorted.len(), |i: int| i);
    assert(stable_arrangement(sorted, sorted, id, order)) by {
        assert forall|i: int, j: int|
            0 <= i < j < sorted.len() && ties::<T>(
                #[trigger] sorted[i],
                #[trigger] sorted[j],
                order,
            ) implies id[i] < id[j] by {}
    }
    lemma_stable_sort_unique(sorted, sorted, again, order);
}

} // verus!
