//! Searching: extremum of a slice, and binary search.

use vstd::prelude::*;
use vstd::std_specs::cmp::PartialOrdSpec;
use crate::alg::{eq_of, gt_of, le_of, lt_of, ord_le, sorted, total_ordered};

verus! {

/// Looking for the maximum element.
///
/// Returns the index of the first maximum on a totally ordered type; the
/// index is in range whatever the type's comparison does.
pub fn max<T: PartialOrd>(list: &[T]) -> (r: Option<usize>)
    ensures
        (r is Some) <==> list@.len() > 0,
        r matches Some(idx) ==> idx < list@.len(),
        total_ordered::<T>() ==> (r matches Some(idx) ==> (forall|k: int|
            0 <= k < list@.len() ==> !gt_of(list@[k], list@[idx as int])) && (forall|k: int|
            0 <= k < idx ==> lt_of(list@[k], list@[idx as int]))),
{
    if list.is_empty() {
        return None;
    }
    let mut max_idx: usize = 0;
    let mut max_val = &list[max_idx];
    let mut idx: usize = 0;
    while idx < list.len()
        invariant
            list@.len() > 0,
            max_idx < list@.len(),
            idx <= list@.len(),
            *max_val == list@[max_idx as int],
            total_ordered::<T>() ==> (forall|k: int|
                0 <= k < idx ==> !gt_of(list@[k], list@[max_idx as int])) && (forall|k: int|
                0 <= k < max_idx ==> lt_of(list@[k], list@[max_idx as int])),
        decreases list@.len() - idx,
    {
        let ghost old_m = list@[max_idx as int];
        if list[idx].gt(max_val) {
            proof {
                if total_ordered::<T>() {
                    let newv = list@[idx as int];
                    assert(lt_of(old_m, newv));
                    assert forall|k: int| 0 <= k < idx + 1 implies !gt_of(list@[k], newv) by {
                        if k < idx && gt_of(list@[k], newv) {
                            assert(lt_of(newv, list@[k]));
                            assert(lt_of(old_m, list@[k]));
                            assert(false);
                        }
                        if k == idx {
                            assert(eq_of(newv, newv));
                        }
                    }
                    assert forall|k: int| 0 <= k < idx implies lt_of(list@[k], newv) by {
                        assert(!gt_of(list@[k], old_m));
                        assert(lt_of(list@[k], old_m) || eq_of(list@[k], old_m));
                        if eq_of(list@[k], old_m) {
                            assert(lt_of(list@[k], newv));
                        } else {
                            assert(lt_of(list@[k], old_m));
                            assert(lt_of(list@[k], newv));
                        }
                    }
                }
            }
            max_idx = idx;
            max_val = &list[idx];
        }
        idx += 1;
    }
    Some(max_idx)
}

/// Looking for the minimum element.
///
/// Returns the index of the first minimum on a totally ordered type; the
/// index is in range whatever the type's comparison does.
pub fn min<T: PartialOrd>(list: &[T]) -> (r: Option<usize>)
    ensures
        (r is Some) <==> list@.len() > 0,
        r matches Some(idx) ==> idx < list@.len(),
        total_ordered::<T>() ==> (r matches Some(idx) ==> (forall|k: int|
            0 <= k < list@.len() ==> !lt_of(list@[k], list@[idx as int])) && (forall|k: int|
            0 <= k < idx ==> gt_of(list@[k], list@[idx as int]))),
{
    if list.is_empty() {
        return None;
    }
    let mut min_idx: usize = 0;
    let mut min_val = &list[min_idx];
    let mut idx: usize = 0;
    while idx < list.len()
        invariant
            list@.len() > 0,
            min_idx < list@.len(),
            idx <= list@.len(),
            *min_val == list@[min_idx as int],
            total_ordered::<T>() ==> (forall|k: int|
                0 <= k < idx ==> !lt_of(list@[k], list@[min_idx as int])) && (forall|k: int|
                0 <= k < min_idx ==> gt_of(list@[k], list@[min_idx as int])),
        decreases list@.len() - idx,
    {
        let ghost old_m = list@[min_idx as int];
        if list[idx].lt(min_val) {
            proof {
                if total_ordered::<T>() {
                    let newv = list@[idx as int];
                    assert(lt_of(newv, old_m));
                    assert forall|k: int| 0 <= k < idx + 1 implies !lt_of(list@[k], newv) by {
                        if k < idx && lt_of(list@[k], newv) {
                            assert(lt_of(list@[k], old_m));
                            assert(false);
                        }
                        if k == idx {
                            assert(eq_of(newv, newv));
                        }
                    }
                    assert forall|k: int| 0 <= k < idx implies gt_of(list@[k], newv) by {
                        assert(!lt_of(list@[k], old_m));
                        assert(gt_of(list@[k], old_m) || eq_of(list@[k], old_m));
                        if eq_of(list@[k], old_m) {
                            assert(lt_of(newv, list@[k]));
                        } else {
                            assert(lt_of(old_m, list@[k]));
                            assert(lt_of(newv, list@[k]));
                        }
                    }
                }
            }
            min_idx = idx;
            min_val = &list[idx];
        }
        idx += 1;
    }
    Some(min_idx)
}

/// Binary search in slice.
///
/// The slice must be sorted ascending under a total order, and the sought
/// item must not compare below the first element (the probe would step
/// past the front otherwise). Returns an index of an element comparing
/// equal to `item`, and `None` exactly when no element does.
pub fn binary<T: PartialOrd>(list: &[T], item: T) -> (r: Option<usize>)
    requires
        total_ordered::<T>(),
        sorted(list@, true),
        list@.len() > 0 ==> !lt_of(item, list@[0]),
        list@.len() <= usize::MAX / 2,
    ensures
        r matches Some(i) ==> i < list@.len() && eq_of(list@[i as int], item),
        (r is None) <==> (forall|k: int| 0 <= k < list@.len() ==> !eq_of(list@[k], item)),
{
    if list.is_empty() {
        return None;
    }

    let mut lhs: usize = 0;
    let mut rhs: usize = list.len() - 1;

    while lhs <= rhs
        invariant
            total_ordered::<T>(),
            sorted(list@, true),
            !lt_of(item, list@[0]),
            list@.len() <= usize::MAX / 2,
            0 < list@.len(),
            lhs <= list@.len(),
            rhs < list@.len(),
            lhs <= rhs + 1,
            forall|k: int| 0 <= k < lhs ==> lt_of(list@[k], item),
            forall|k: int| rhs < k < list@.len() ==> gt_of(list@[k], item),
        decreases rhs + 1 - lhs,
    {
        let mid = (lhs + rhs) / 2;
        assert(lhs <= mid <= rhs);
        if list[mid].gt(&item) {
            assert(gt_of(list@[mid as int], item));
            assert(mid >= 1) by {
                if mid == 0 {
                    assert(lt_of(item, list@[0]));
                }
            }
            proof {
                assert forall|k: int| mid - 1 < k < list@.len() implies gt_of(list@[k], item) by {
                    if k > rhs {
                    } else if k == mid {
                    } else {
                        assert(ord_le(list@[mid as int], list@[k], true));
                        assert(le_of(list@[mid as int], list@[k]));
                    }
                }
            }
            rhs = mid - 1;
        } else if list[mid].lt(&item) {
            proof {
                assert forall|k: int| 0 <= k < mid + 1 implies lt_of(list@[k], item) by {
                    if k < lhs {
                    } else if k == mid {
                    } else {
                        assert(ord_le(list@[k], list@[mid as int], true));
                        assert(le_of(list@[k], list@[mid as int]));
                    }
                }
            }
            lhs = mid + 1;
        } else {
            assert(lt_of(list@[mid as int], item) || eq_of(list@[mid as int], item) || gt_of(
                list@[mid as int],
                item,
            ));
            assert(eq_of(list@[mid as int], item));
            return Some(mid);
        }
    }
    None
}

} // verus!

