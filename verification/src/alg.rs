//! Algorithms: searching over slices, in-place sorting of vectors, and a
//! longest common subsequence stub.
//!
//! The routines are generic over `T: PartialOrd`. Their contracts speak
//! through `partial_cmp_spec`, and promise order-dependent results only
//! when that relation is a total order ([`total_ordered`]).

pub mod lcs;
pub mod search;
pub mod sort;

use vstd::prelude::*;
use core::cmp::Ordering;
use vstd::std_specs::cmp::PartialOrdSpec;

verus! {

/// `a` compares below `b`.
pub open spec fn lt_of<T: PartialOrd>(a: T, b: T) -> bool {
    a.partial_cmp_spec(&b) == Some(Ordering::Less)
}

/// `a` compares above `b`.
pub open spec fn gt_of<T: PartialOrd>(a: T, b: T) -> bool {
    a.partial_cmp_spec(&b) == Some(Ordering::Greater)
}

/// `a` and `b` compare as equal.
pub open spec fn eq_of<T: PartialOrd>(a: T, b: T) -> bool {
    a.partial_cmp_spec(&b) == Some(Ordering::Equal)
}

/// `a` compares below `b`, or equal.
pub open spec fn le_of<T: PartialOrd>(a: T, b: T) -> bool {
    lt_of(a, b) || eq_of(a, b)
}

/// The type's comparison operators follow `partial_cmp_spec`, and that
/// relation is a total order: reflexive as `Equal`, total, with `Less` and
/// `Greater` mirror images, transitive, and compatible with `Equal`.
pub open spec fn total_ordered<T: PartialOrd>() -> bool {
    &&& T::obeys_partial_cmp_spec()
    &&& forall|x: T|
        #![trigger x.partial_cmp_spec(&x)]
        x.partial_cmp_spec(&x) == Some(Ordering::Equal)
    &&& forall|x: T, y: T|
        #![trigger x.partial_cmp_spec(&y)]
        (lt_of(x, y) || eq_of(x, y) || gt_of(x, y))
    &&& forall|x: T, y: T|
        #![trigger x.partial_cmp_spec(&y)]
        (x.partial_cmp_spec(&y) == Some(Ordering::Less) <==> y.partial_cmp_spec(&x) == Some(
            Ordering::Greater,
        ))
    &&& forall|x: T, y: T|
        #![trigger x.partial_cmp_spec(&y)]
        (x.partial_cmp_spec(&y) == Some(Ordering::Equal) <==> y.partial_cmp_spec(&x) == Some(
            Ordering::Equal,
        ))
    &&& forall|x: T, y: T, z: T|
        #![trigger x.partial_cmp_spec(&y), y.partial_cmp_spec(&z)]
        (lt_of(x, y) && lt_of(y, z) ==> lt_of(x, z))
    &&& forall|x: T, y: T, z: T|
        #![trigger x.partial_cmp_spec(&y), y.partial_cmp_spec(&z)]
        (eq_of(x, y) && lt_of(y, z) ==> lt_of(x, z))
    &&& forall|x: T, y: T, z: T|
        #![trigger x.partial_cmp_spec(&y), y.partial_cmp_spec(&z)]
        (lt_of(x, y) && eq_of(y, z) ==> lt_of(x, z))
    &&& forall|x: T, y: T, z: T|
        #![trigger x.partial_cmp_spec(&y), y.partial_cmp_spec(&z)]
        (eq_of(x, y) && eq_of(y, z) ==> eq_of(x, z))
}

/// `a` strictly before `b` in the requested direction.
pub open spec fn ord_lt<T: PartialOrd>(a: T, b: T, ascending: bool) -> bool {
    if ascending {
        lt_of(a, b)
    } else {
        gt_of(a, b)
    }
}

/// `a` before `b` in the requested direction, or tied.
pub open spec fn ord_le<T: PartialOrd>(a: T, b: T, ascending: bool) -> bool {
    ord_lt(a, b, ascending) || eq_of(a, b)
}

/// The sequence is ordered in the requested direction.
pub open spec fn sorted<T: PartialOrd>(s: Seq<T>, ascending: bool) -> bool {
    forall|i: int, j: int|
        0 <= i < j < s.len() ==> #[trigger] ord_le(s[i], s[j], ascending)
}

/// Cloning on this type hands back the value itself: `clone` can return
/// nothing but its argument.
pub open spec fn clone_exact<T: Clone>() -> bool {
    forall|x: T, y: T| #[trigger] call_ensures(T::clone, (&x,), y) ==> y == x
}

/// Sorts ascending by quicksort: partitions around the value found at the
/// middle position, then recurses on both sides. Permutes the elements,
/// and orders them whenever the type's comparison is a total order and its
/// `clone` is exact.
pub fn quick_sort<T: PartialOrd + Clone>(seq: &mut Vec<T>)
    requires
        old(seq)@.len() <= usize::MAX / 2,
    ensures
        final(seq)@.len() == old(seq)@.len(),
        final(seq)@.to_multiset() == old(seq)@.to_multiset(),
        total_ordered::<T>() && clone_exact::<T>() ==> sorted(final(seq)@, true),
{
    if seq.len() < 2 {
        return;
    }
    let len = seq.len();
    crate::alg::sort::recursion(seq, 0, len, true);
    proof {
        assert(seq@.subrange(0, seq@.len() as int) =~= seq@);
        assert(old(seq)@.subrange(0, old(seq)@.len() as int) =~= old(seq)@);
    }
}

/// Under a total order, "not strictly before" flips to "after, or tied".
pub proof fn lemma_ord_flip<T: PartialOrd>(a: T, b: T, ascending: bool)
    requires
        total_ordered::<T>(),
        !ord_lt(a, b, ascending),
    ensures
        ord_le(b, a, ascending),
{
    assert(lt_of(a, b) || eq_of(a, b) || gt_of(a, b));
    if eq_of(a, b) {
        assert(eq_of(b, a));
    } else if lt_of(a, b) {
        assert(gt_of(b, a));
    } else {
        assert(lt_of(b, a));
    }
}

/// Under a total order, the two directions mirror each other: at-or-after
/// one way is at-or-before the other way.
pub proof fn lemma_ord_mirror<T: PartialOrd>(a: T, b: T, ascending: bool)
    requires
        total_ordered::<T>(),
        ord_le(a, b, !ascending),
    ensures
        ord_le(b, a, ascending),
{
    if eq_of(a, b) {
        assert(eq_of(b, a));
    } else if ascending {
        assert(gt_of(a, b));
        assert(lt_of(b, a));
    } else {
        assert(lt_of(a, b));
        assert(gt_of(b, a));
    }
}

/// Under a total order, the directed order is transitive.
pub proof fn lemma_ord_le_trans<T: PartialOrd>(a: T, b: T, c: T, ascending: bool)
    requires
        total_ordered::<T>(),
        ord_le(a, b, ascending),
        ord_le(b, c, ascending),
    ensures
        ord_le(a, c, ascending),
{
    if ascending {
        assert(lt_of(a, b) || eq_of(a, b));
        assert(lt_of(b, c) || eq_of(b, c));
    } else {
        if gt_of(a, b) {
            assert(lt_of(b, a));
        }
        if gt_of(b, c) {
            assert(lt_of(c, b));
        }
        if eq_of(a, b) {
            assert(eq_of(b, a));
        }
        if eq_of(b, c) {
            assert(eq_of(c, b));
        }
        assert(lt_of(c, a) || eq_of(c, a));
        if lt_of(c, a) {
            assert(gt_of(a, c));
        }
        if eq_of(c, a) {
            assert(eq_of(a, c));
        }
    }
}

} // verus!
