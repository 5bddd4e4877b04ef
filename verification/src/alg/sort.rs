//! Sorting: selection sort and quicksort, ascending or descending.
//!
//! Both sorts permute the input, and both are proved to order it whenever
//! the element type's comparison is a total order (quicksort also needs
//! `clone` to hand back its argument, since it partitions against a copy
//! of the pivot value).

use vstd::prelude::*;
use vstd::std_specs::cmp::PartialOrdSpec;
use vstd::seq_lib::{lemma_multiset_commutative, to_multiset_update};
use crate::alg::{
    clone_exact, eq_of, gt_of, lt_of, lemma_ord_flip, lemma_ord_le_trans, lemma_ord_mirror,
    ord_le, ord_lt, sorted, total_ordered,
};
use crate::alg::search;

verus! {

/// Exchanges the elements at `i` and `j`.
pub(crate) fn swap_items<T>(list: &mut Vec<T>, i: usize, j: usize)
    requires
        i < old(list)@.len(),
        j < old(list)@.len(),
    ensures
        final(list)@ == old(list)@.update(i as int, old(list)@[j as int]).update(
            j as int,
            old(list)@[i as int],
        ),
{
    let ghost s0 = list@;
    if i == j {
        proof {
            assert(s0.update(i as int, s0[j as int]).update(j as int, s0[i as int]) =~= s0);
        }
        return;
    }
    let (a, b) = if i < j {
        (i, j)
    } else {
        (j, i)
    };
    let mut tmp = list.remove(a);
    proof {
        assert(list@[b - 1] == s0[b as int]);
    }
    list.set_and_swap(b - 1, &mut tmp);
    list.insert(a, tmp);
    proof {
        assert(list@ =~= s0.update(i as int, s0[j as int]).update(j as int, s0[i as int]));
    }
}

/// Exchanging two elements leaves the multiset of elements unchanged.
pub(crate) proof fn lemma_swap_multiset<T>(s: Seq<T>, i: int, j: int)
    requires
        0 <= i < s.len(),
        0 <= j < s.len(),
    ensures
        s.update(i, s[j]).update(j, s[i]).to_multiset() == s.to_multiset(),
{
    broadcast use to_multiset_update;

    let s1 = s.update(i, s[j]);
    assert(s1.to_multiset() == s.to_multiset().insert(s[j]).remove(s[i]));
    assert(s1.update(j, s[i]).to_multiset() == s1.to_multiset().insert(s[i]).remove(s1[j]));
    assert(s1[j] == s[j]);
    assert(s1.update(j, s[i]).to_multiset() =~= s.to_multiset()) by {
        broadcast use vstd::seq_lib::group_to_multiset_ensures;

        assert(s.contains(s[i]));
        assert(s.to_multiset().count(s[i]) > 0);
    }
}

/// Exchanging two elements inside a window leaves the window's multiset of
/// elements unchanged, and its length.
pub(crate) proof fn lemma_swap_in_window<T>(s: Seq<T>, lo: int, hi: int, i: int, j: int)
    requires
        0 <= lo <= i < hi <= s.len(),
        lo <= j < hi,
    ensures
        ({
            let t = s.update(i, s[j]).update(j, s[i]);
            t.subrange(lo, hi).to_multiset() == s.subrange(lo, hi).to_multiset()
        }),
{
    let t = s.update(i, s[j]).update(j, s[i]);
    let w = s.subrange(lo, hi);
    assert(t.subrange(lo, hi) =~= w.update(i - lo, w[j - lo]).update(j - lo, w[i - lo]));
    lemma_swap_multiset(w, i - lo, j - lo);
}

/// When one part of a window is rearranged and the rest of the window is
/// untouched, the window's multiset of elements is unchanged.
pub(crate) proof fn lemma_window_multiset<T>(s0: Seq<T>, s1: Seq<T>, lo: int, a: int, b: int, hi: int)
    requires
        0 <= lo <= a <= b <= hi,
        hi <= s0.len(),
        s0.len() == s1.len(),
        s1.subrange(a, b).to_multiset() == s0.subrange(a, b).to_multiset(),
        forall|k: int| lo <= k < a ==> s1[k] == s0[k],
        forall|k: int| b <= k < hi ==> s1[k] == s0[k],
    ensures
        s1.subrange(lo, hi).to_multiset() == s0.subrange(lo, hi).to_multiset(),
{
    assert(s1.subrange(lo, hi) =~= s1.subrange(lo, a) + s1.subrange(a, b) + s1.subrange(b, hi));
    assert(s0.subrange(lo, hi) =~= s0.subrange(lo, a) + s0.subrange(a, b) + s0.subrange(b, hi));
    assert(s1.subrange(lo, a) =~= s0.subrange(lo, a));
    assert(s1.subrange(b, hi) =~= s0.subrange(b, hi));
    lemma_multiset_commutative(s1.subrange(lo, a) + s1.subrange(a, b), s1.subrange(b, hi));
    lemma_multiset_commutative(s1.subrange(lo, a), s1.subrange(a, b));
    lemma_multiset_commutative(s0.subrange(lo, a) + s0.subrange(a, b), s0.subrange(b, hi));
    lemma_multiset_commutative(s0.subrange(lo, a), s0.subrange(a, b));
}

/// A window with the same multiset of elements keeps an upper bound that
/// every element of the original window had.
pub(crate) proof fn lemma_ord_le_preserved_above<T: PartialOrd>(
    s0: Seq<T>,
    s1: Seq<T>,
    b: T,
    ascending: bool,
)
    requires
        s1.to_multiset() == s0.to_multiset(),
        forall|k: int| 0 <= k < s0.len() ==> #[trigger] ord_le(s0[k], b, ascending),
    ensures
        forall|k: int| 0 <= k < s1.len() ==> #[trigger] ord_le(s1[k], b, ascending),
{
    broadcast use vstd::seq_lib::group_to_multiset_ensures;

    assert forall|k: int| 0 <= k < s1.len() implies #[trigger] ord_le(s1[k], b, ascending) by {
        assert(s1.contains(s1[k]));
        assert(s1.to_multiset().count(s1[k]) > 0);
        assert(s0.to_multiset().count(s1[k]) > 0);
        assert(s0.contains(s1[k]));
        let idx = choose|idx: int| 0 <= idx < s0.len() && s0[idx] == s1[k];
        assert(ord_le(s0[idx], b, ascending));
    }
}

/// A window with the same multiset of elements keeps a lower bound that
/// every element of the original window had.
pub(crate) proof fn lemma_ord_le_preserved_below<T: PartialOrd>(
    s0: Seq<T>,
    s1: Seq<T>,
    b: T,
    ascending: bool,
)
    requires
        s1.to_multiset() == s0.to_multiset(),
        forall|k: int| 0 <= k < s0.len() ==> #[trigger] ord_le(b, s0[k], ascending),
    ensures
        forall|k: int| 0 <= k < s1.len() ==> #[trigger] ord_le(b, s1[k], ascending),
{
    broadcast use vstd::seq_lib::group_to_multiset_ensures;

    assert forall|k: int| 0 <= k < s1.len() implies #[trigger] ord_le(b, s1[k], ascending) by {
        assert(s1.contains(s1[k]));
        assert(s1.to_multiset().count(s1[k]) > 0);
        assert(s0.to_multiset().count(s1[k]) > 0);
        assert(s0.contains(s1[k]));
        let idx = choose|idx: int| 0 <= idx < s0.len() && s0[idx] == s1[k];
        assert(ord_le(b, s0[idx], ascending));
    }
}

/// Whether `a` comes strictly before `b` in the requested direction.
pub fn compare<T: PartialOrd>(a: &T, b: &T, ascending: bool) -> (r: bool)
    ensures
        T::obeys_partial_cmp_spec() ==> r == ord_lt(*a, *b, ascending),
{
    if ascending {
        a.lt(b)
    } else {
        a.gt(b)
    }
}

/// Selection sort.
///
/// Permutes the elements; orders them in the requested direction whenever
/// the type's comparison is a total order.
pub fn selection<T: PartialOrd>(list: &mut Vec<T>, ascending: bool)
    ensures
        final(list)@.len() == old(list)@.len(),
        final(list)@.to_multiset() == old(list)@.to_multiset(),
        total_ordered::<T>() ==> sorted(final(list)@, ascending),
{
    if list.len() < 2 {
        return;
    }

    let mut current: usize = 0;
    let upper = list.len() - 1;

    while current < upper
        invariant
            list@.len() == old(list)@.len(),
            list@.to_multiset() == old(list)@.to_multiset(),
            upper == list@.len() - 1,
            current <= upper,
            list@.len() >= 2,
            total_ordered::<T>() ==> (forall|x: int, y: int|
                0 <= x < y < current ==> #[trigger] ord_le(list@[x], list@[y], ascending)) && (
            forall|x: int, y: int|
                0 <= x < current <= y < list@.len() ==> #[trigger] ord_le(
                    list@[x],
                    list@[y],
                    ascending,
                )),
        decreases upper - current,
    {
        let sub = vstd::slice::slice_subrange(list.as_slice(), current, list.len());
        let found = if ascending {
            search::min(sub).unwrap() + current
        } else {
            search::max(sub).unwrap() + current
        };
        proof {
            if total_ordered::<T>() {
                assert forall|k: int| current <= k < list@.len() implies ord_le(
                    list@[found as int],
                    list@[k],
                    ascending,
                ) by {
                    assert(sub@[k - current] == list@[k]);
                    assert(sub@[found - current] == list@[found as int]);
                    if ascending {
                        assert(!lt_of(sub@[k - current], sub@[found - current]));
                    } else {
                        assert(!gt_of(sub@[k - current], sub@[found - current]));
                    }
                    lemma_ord_flip(list@[k], list@[found as int], ascending);
                }
            }
        }
        let ghost l0 = list@;
        if compare(&list[found], &list[current], ascending) {
            swap_items(list, current, found);
            proof {
                lemma_swap_multiset(l0, current as int, found as int);
                if total_ordered::<T>() {
                    assert forall|x: int, y: int| 0 <= x < y < current + 1 implies ord_le(
                        list@[x],
                        list@[y],
                        ascending,
                    ) by {
                        if y < current {
                            assert(list@[x] == l0[x] && list@[y] == l0[y]);
                        } else {
                            assert(list@[y] == l0[found as int]);
                            assert(list@[x] == l0[x]);
                            assert(ord_le(l0[x], l0[found as int], ascending));
                        }
                    }
                    assert forall|x: int, y: int|
                        0 <= x < current + 1 <= y < list@.len() implies ord_le(
                        list@[x],
                        list@[y],
                        ascending,
                    ) by {
                        let vy = if y == found {
                            l0[current as int]
                        } else {
                            l0[y]
                        };
                        assert(list@[y] == vy);
                        if x < current {
                            assert(list@[x] == l0[x]);
                            if y == found {
                                assert(ord_le(l0[x], l0[current as int], ascending));
                            } else {
                                assert(ord_le(l0[x], l0[y], ascending));
                            }
                        } else {
                            assert(list@[x] == l0[found as int]);
                            if y == found {
                                assert(ord_lt(l0[found as int], l0[current as int], ascending));
                            } else {
                                assert(ord_le(l0[found as int], l0[y], ascending));
                            }
                        }
                    }
                }
            }
        } else {
            proof {
                if total_ordered::<T>() {
                    lemma_ord_flip(list@[found as int], list@[current as int], ascending);
                    assert forall|x: int, y: int|
                        0 <= x < current + 1 <= y < list@.len() implies ord_le(
                        list@[x],
                        list@[y],
                        ascending,
                    ) by {
                        if x < current {
                            assert(ord_le(list@[x], list@[y], ascending));
                        } else {
                            assert(ord_le(list@[current as int], list@[found as int], ascending));
                            assert(ord_le(list@[found as int], list@[y], ascending));
                            lemma_ord_le_trans(
                                list@[current as int],
                                list@[found as int],
                                list@[y],
                                ascending,
                            );
                        }
                    }
                    assert forall|x: int, y: int| 0 <= x < y < current + 1 implies ord_le(
                        list@[x],
                        list@[y],
                        ascending,
                    ) by {
                        if y == current {
                            assert(ord_le(list@[x], list@[y], ascending));
                        }
                    }
                }
            }
        }
        current += 1;
    }
    proof {
        if total_ordered::<T>() {
            assert forall|x: int, y: int| 0 <= x < y < list@.len() implies ord_le(
                list@[x],
                list@[y],
                ascending,
            ) by {
                if y < upper {
                } else {
                    assert(0 <= x < upper <= y < list@.len());
                }
            }
        }
    }
}

/// Quick sort.
///
/// Permutes the elements; orders them in the requested direction whenever
/// the type's comparison is a total order and its `clone` is exact.
pub fn quick<T: PartialOrd + Clone>(list: &mut Vec<T>, ascending: bool)
    requires
        old(list)@.len() <= usize::MAX / 2,
    ensures
        final(list)@.len() == old(list)@.len(),
        final(list)@.to_multiset() == old(list)@.to_multiset(),
        total_ordered::<T>() && clone_exact::<T>() ==> sorted(final(list)@, ascending),
{
    if list.len() < 2 {
        return;
    }

    let len = list.len();
    recursion(list, 0, len, ascending);
    proof {
        assert(list@.subrange(0, list@.len() as int) =~= list@);
        assert(old(list)@.subrange(0, old(list)@.len() as int) =~= old(list)@);
    }
}

/// One quicksort step on the window `[lo, hi)` of at least two elements:
/// partition against a copy of the middle position's value, then recurse
/// on both sides.
pub(crate) fn recursion<T: PartialOrd + Clone>(
    list: &mut Vec<T>,
    lo: usize,
    hi: usize,
    ascending: bool,
)
    requires
        lo + 2 <= hi,
        hi <= old(list)@.len(),
        old(list)@.len() <= usize::MAX / 2,
    ensures
        final(list)@.len() == old(list)@.len(),
        forall|k: int|
            0 <= k < old(list)@.len() && !(lo <= k < hi) ==> final(list)@[k] == old(list)@[k],
        final(list)@.subrange(lo as int, hi as int).to_multiset() == old(list)@.subrange(
            lo as int,
            hi as int,
        ).to_multiset(),
        total_ordered::<T>() && clone_exact::<T>() ==> (forall|x: int, y: int|
            lo <= x < y < hi ==> #[trigger] ord_le(final(list)@[x], final(list)@[y], ascending)),
    decreases hi - lo,
{
    let ghost c = total_ordered::<T>() && clone_exact::<T>();
    let mid_idx = lo + (hi - lo) / 2;
    let mid_val = list[mid_idx].clone();
    proof {
        vstd::arithmetic::div_mod::lemma_fundamental_div_mod((hi - lo) as int, 2);
        vstd::arithmetic::div_mod::lemma_mod_bound((hi - lo) as int, 2);
        assert(lo < mid_idx < hi);
        if c {
            assert(mid_val == list@[mid_idx as int]);
        }
    }
    let mut i = lo;
    let mut j = hi - 1;
    let ghost mut swapped = false;
    while i <= j
        invariant
            c == (total_ordered::<T>() && clone_exact::<T>()),
            lo + 2 <= hi <= list@.len(),
            lo < mid_idx < hi,
            list@.len() == old(list)@.len(),
            lo <= i <= hi,
            lo <= j < hi,
            forall|k: int|
                0 <= k < old(list)@.len() && !(lo <= k < hi) ==> list@[k] == old(list)@[k],
            list@.subrange(lo as int, hi as int).to_multiset() == old(list)@.subrange(
                lo as int,
                hi as int,
            ).to_multiset(),
            c ==> (forall|k: int| lo <= k < i ==> #[trigger] ord_le(list@[k], mid_val, ascending)),
            c ==> (forall|k: int| j < k < hi ==> #[trigger] ord_le(mid_val, list@[k], ascending)),
            c ==> (swapped ==> i > lo && j + 2 <= hi),
            c ==> (!swapped ==> list@ == old(list)@ && mid_val == list@[mid_idx as int] && i
                <= mid_idx && mid_idx <= j),
        ensures
            c ==> (swapped && i > j),
        decreases (hi - i) + (j - lo),
    {
        let ghost i0 = i;
        let ghost j0 = j;
        while i < hi && compare(&list[i], &mid_val, ascending)
            invariant
                c == (total_ordered::<T>() && clone_exact::<T>()),
                lo <= i <= hi,
                i0 <= i,
                lo < mid_idx < hi,
                hi <= list@.len(),
                c ==> (forall|k: int|
                    lo <= k < i ==> #[trigger] ord_le(list@[k], mid_val, ascending)),
                c ==> (!swapped ==> mid_val == list@[mid_idx as int] && i <= mid_idx),
            decreases hi - i,
        {
            proof {
                if c {
                    assert(ord_le(list@[i as int], mid_val, ascending));
                    if !swapped && i == mid_idx {
                        assert(eq_of(mid_val, mid_val));
                        assert(false);
                    }
                }
            }
            i += 1
        }
        while j > lo && compare(&list[j], &mid_val, !ascending)
            invariant
                c == (total_ordered::<T>() && clone_exact::<T>()),
                lo <= j < hi,
                j <= j0,
                lo < mid_idx < hi,
                hi <= list@.len(),
                c ==> (forall|k: int|
                    j < k < hi ==> #[trigger] ord_le(mid_val, list@[k], ascending)),
                c ==> (!swapped ==> mid_val == list@[mid_idx as int] && mid_idx <= j),
            decreases j - lo,
        {
            proof {
                if c {
                    assert(ord_lt(list@[j as int], mid_val, !ascending));
                    lemma_ord_mirror(list@[j as int], mid_val, ascending);
                    assert(ord_le(mid_val, list@[j as int], ascending));
                    if !swapped && j == mid_idx {
                        assert(eq_of(mid_val, mid_val));
                        assert(false);
                    }
                }
            }
            j -= 1
        }
        if i <= j {
            proof {
                if c {
                    // The left probe stopped on an element, not at the edge.
                    assert(i < hi);
                    assert(!ord_lt(list@[i as int], mid_val, ascending));
                    lemma_ord_flip(list@[i as int], mid_val, ascending);
                    assert(ord_le(mid_val, list@[i as int], ascending));
                    // The right probe cannot have reached the window front.
                    if swapped {
                        assert(j > lo);
                    } else {
                        assert(mid_idx <= j && lo < mid_idx);
                    }
                    assert(j > lo);
                    assert(!ord_lt(list@[j as int], mid_val, !ascending));
                    lemma_ord_flip(list@[j as int], mid_val, !ascending);
                    lemma_ord_mirror(mid_val, list@[j as int], ascending);
                    assert(ord_le(list@[j as int], mid_val, ascending));
                }
            }
            let ghost l0 = list@;
            swap_items(list, i, j);
            proof {
                lemma_swap_in_window(l0, lo as int, hi as int, i as int, j as int);
                swapped = true;
                if c {
                    assert forall|k: int| lo <= k < i + 1 implies #[trigger] ord_le(
                        list@[k],
                        mid_val,
                        ascending,
                    ) by {
                        if k < i {
                            assert(list@[k] == l0[k]);
                        } else if i == j {
                            assert(list@[k] == l0[i as int]);
                        } else {
                            assert(list@[k] == l0[j as int]);
                        }
                    }
                    assert forall|k: int| j - 1 < k < hi implies #[trigger] ord_le(
                        mid_val,
                        list@[k],
                        ascending,
                    ) by {
                        if k > j {
                            assert(list@[k] == l0[k]);
                        } else {
                            assert(list@[k] == l0[i as int]);
                        }
                    }
                }
            }
            i += 1;
            if j == lo {
                proof {
                    if c {
                        assert(false);
                    }
                }
                break ;
            }
            j -= 1;
        }
        proof {
            assert(i > i0 || j < j0 || i > j);
        }
    }
    let ghost l1 = list@;
    if j > lo && j + 1 < hi {
        recursion(list, lo, j + 1, ascending);
        proof {
            lemma_window_multiset(l1, list@, lo as int, lo as int, j + 1 as int, hi as int);
        }
    }
    proof {
        if c {
            // The lower part still holds only elements at or before the pivot.
            assert forall|k: int|
                0 <= k < l1.subrange(lo as int, j + 1 as int).len() implies #[trigger] ord_le(
                l1.subrange(lo as int, j + 1 as int)[k],
                mid_val,
                ascending,
            ) by {
                assert(l1.subrange(lo as int, j + 1 as int)[k] == l1[lo + k]);
                assert(ord_le(l1[lo + k], mid_val, ascending));
            }
            lemma_ord_le_preserved_above(
                l1.subrange(lo as int, j + 1 as int),
                list@.subrange(lo as int, j + 1 as int),
                mid_val,
                ascending,
            );
            assert forall|k: int| lo <= k < j + 1 implies #[trigger] ord_le(
                list@[k],
                mid_val,
                ascending,
            ) by {
                assert(list@.subrange(lo as int, j + 1 as int)[k - lo] == list@[k]);
                assert(ord_le(
                    list@.subrange(lo as int, j + 1 as int)[k - lo],
                    mid_val,
                    ascending,
                ));
            }
            assert forall|k: int| j < k < hi implies #[trigger] ord_le(
                mid_val,
                list@[k],
                ascending,
            ) by {
                assert(list@[k] == l1[k]);
            }
        }
    }
    let ghost l2 = list@;
    if i + 1 < hi && i > lo {
        recursion(list, i, hi, ascending);
        proof {
            lemma_window_multiset(l2, list@, lo as int, i as int, hi as int, hi as int);
        }
    }
    proof {
        if c {
            // The upper part still holds only elements at or after the pivot.
            assert forall|k: int|
                0 <= k < l2.subrange(i as int, hi as int).len() implies #[trigger] ord_le(
                mid_val,
                l2.subrange(i as int, hi as int)[k],
                ascending,
            ) by {
                assert(l2.subrange(i as int, hi as int)[k] == l2[i + k]);
                assert(ord_le(mid_val, l2[i + k], ascending));
            }
            lemma_ord_le_preserved_below(
                l2.subrange(i as int, hi as int),
                list@.subrange(i as int, hi as int),
                mid_val,
                ascending,
            );
            assert forall|k: int| i <= k < hi implies #[trigger] ord_le(
                mid_val,
                list@[k],
                ascending,
            ) by {
                assert(list@.subrange(i as int, hi as int)[k - i] == list@[k]);
                assert(ord_le(mid_val, list@.subrange(i as int, hi as int)[k - i], ascending));
            }
            assert forall|k: int| lo <= k < i implies #[trigger] ord_le(
                list@[k],
                mid_val,
                ascending,
            ) by {
                assert(list@[k] == l2[k]);
            }
            assert forall|x: int, y: int| lo <= x < y < hi implies #[trigger] ord_le(
                list@[x],
                list@[y],
                ascending,
            ) by {
                if y < j + 1 {
                    // both in the sorted lower part
                    assert(ord_le(list@[x], list@[y], ascending));
                } else if x >= i {
                    // both in the sorted upper part
                    assert(ord_le(list@[x], list@[y], ascending));
                } else {
                    // across the pivot: x at or before it, y at or after it
                    assert(ord_le(list@[x], mid_val, ascending));
                    assert(ord_le(mid_val, list@[y], ascending));
                    lemma_ord_le_trans(list@[x], mid_val, list@[y], ascending);
                }
            }
        }
    }
}

} // verus!
