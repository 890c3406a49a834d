//! The ordering vocabulary shared by the sorting algorithms, the binary heap
//! and binary search: a `less than or equal` relation derived from a type's
//! `Ord` comparison, sortedness of a sequence, and the assumptions under which
//! that comparison really is a total order.

use vstd::prelude::*;

verus! {

use core::cmp::Ordering;
use vstd::std_specs::cmp::{OrdSpec, PartialOrdSpec, PartialEqSpec};
use vstd::laws_cmp::obeys_cmp;

/// `x` is less than or equal to `y` under the type's `Ord` comparison.
pub open spec fn ord_le<A: Ord>(x: A, y: A) -> bool {
    x.cmp_spec(&y) != Ordering::Greater
}

/// `x` and `y` compare as equal under the type's `Ord` comparison.
pub open spec fn ord_eq<A: Ord>(x: A, y: A) -> bool {
    x.cmp_spec(&y) == Ordering::Equal
}

/// The sequence is sorted in non-decreasing order.
pub open spec fn sorted<A: Ord>(s: Seq<A>) -> bool {
    forall|i: int, j: int| 0 <= i < j < s.len() ==> #[trigger] ord_le(s[i], s[j])
}

/// The index range `[lo, hi)` of the sequence is sorted in non-decreasing
/// order.
pub open spec fn sorted_range<A: Ord>(s: Seq<A>, lo: int, hi: int) -> bool {
    forall|i: int, j: int| lo <= i < j < hi && 0 <= i && j < s.len() ==> #[trigger] ord_le(
        s[i],
        s[j],
    )
}

/// Every adjacent pair of the sequence is in non-decreasing order.
pub open spec fn sorted_adjacent<A: Ord>(s: Seq<A>) -> bool {
    forall|j: int| 0 <= j < s.len() - 1 ==> ord_le(#[trigger] s[j], s[j + 1])
}

/// The type's comparison operators behave as a genuine total order: they agree
/// with `cmp_spec` (vstd's `obeys_cmp`), and `ord_le` is transitive.
/// Holds for the primitive integer types.
pub open spec fn total_ordered<A: Ord>() -> bool {
    &&& obeys_cmp::<A>()
    &&& forall|x: A, y: A, z: A| #[trigger] ord_le(x, y) && #[trigger] ord_le(y, z) ==> ord_le(x, z)
}

/// Consequences of `total_ordered` that proofs about comparisons rely on:
/// the comparison methods follow `cmp_spec`, comparing in both directions is
/// consistent, equality agrees with `Ordering::Equal`, and `ord_le` is total.
pub proof fn lemma_ord_facts<A: Ord>()
    requires
        total_ordered::<A>(),
    ensures
        A::obeys_eq_spec(),
        A::obeys_partial_cmp_spec(),
        A::obeys_cmp_spec(),
        forall|x: A, y: A| #[trigger] x.partial_cmp_spec(&y) == Some(x.cmp_spec(&y)),
        forall|x: A, y: A|
            (#[trigger] x.cmp_spec(&y) == Ordering::Less) <==> y.cmp_spec(&x) == Ordering::Greater,
        forall|x: A, y: A| (#[trigger] x.cmp_spec(&y) == Ordering::Equal) <==> x.eq_spec(&y),
        forall|x: A, y: A| #[trigger] x.eq_spec(&y) <==> y.eq_spec(&x),
        forall|x: A, y: A, z: A|
            #[trigger] x.eq_spec(&y) && #[trigger] y.eq_spec(&z) ==> x.eq_spec(&z),
        forall|x: A, y: A| #[trigger] ord_le(x, y) || #[trigger] ord_le(y, x),
        forall|x: A| #[trigger] x.cmp_spec(&x) == Ordering::Equal,
{
    reveal(vstd::laws_cmp::obeys_cmp_partial_ord);
    reveal(vstd::laws_cmp::obeys_cmp_ord);
    reveal(vstd::laws_cmp::obeys_partial_cmp_spec_properties);
    reveal(vstd::laws_eq::obeys_eq_spec_properties);
    assert forall|x: A, y: A| #[trigger] ord_le(x, y) || #[trigger] ord_le(y, x) by {
        if x.cmp_spec(&y) == Ordering::Greater {
            assert(x.partial_cmp_spec(&y) == Some(Ordering::Greater));
            assert(y.partial_cmp_spec(&x) == Some(Ordering::Less));
        }
    }
    assert forall|x: A| #[trigger] x.cmp_spec(&x) == Ordering::Equal by {
        if x.cmp_spec(&x) == Ordering::Less {
            assert(x.partial_cmp_spec(&x) == Some(Ordering::Less));
            assert(x.partial_cmp_spec(&x) == Some(Ordering::Greater));
        }
        if x.cmp_spec(&x) == Ordering::Greater {
            assert(x.partial_cmp_spec(&x) == Some(Ordering::Greater));
            assert(x.partial_cmp_spec(&x) == Some(Ordering::Less));
        }
    }
}

/// In a sequence where every adjacent pair is ordered, any earlier element is
/// less than or equal to any later one.
pub proof fn lemma_sorted_adjacent_implies_sorted<A: Ord>(s: Seq<A>)
    requires
        total_ordered::<A>(),
        sorted_adjacent(s),
    ensures
        sorted(s),
{
    assert forall|i: int, j: int| 0 <= i < j < s.len() implies #[trigger] ord_le(s[i], s[j]) by {
        lemma_ord_le_chain(s, i, j);
    }
}

/// Chains adjacent comparisons from index `i` up to index `j` by
/// transitivity.
proof fn lemma_ord_le_chain<A: Ord>(s: Seq<A>, i: int, j: int)
    requires
        total_ordered::<A>(),
        sorted_adjacent(s),
        0 <= i < j < s.len(),
    ensures
        ord_le(s[i], s[j]),
    decreases j - i,
{
    if i + 1 == j {
        assert(ord_le(s[i], s[i + 1]));
    } else {
        lemma_ord_le_chain(s, i, j - 1);
        assert(ord_le(s[j - 1], s[j - 1 + 1]));
        assert(ord_le(s[i], s[j]));
    }
}

/// The value occurs in the sequence.
pub open spec fn value_in<A>(x: A, s: Seq<A>) -> bool {
    exists|j: int| 0 <= j < s.len() && x == #[trigger] s[j]
}

/// Some element of the sequence compares as equal to the value.
pub open spec fn eq_represented_in<A: Ord>(x: A, s: Seq<A>) -> bool {
    exists|j: int| 0 <= j < s.len() && ord_eq(x, #[trigger] s[j])
}

/// Two sequences with the same multiset hold the same values: each element of
/// the first occurs somewhere in the second.
pub proof fn lemma_multiset_same_elements<A>(s1: Seq<A>, s2: Seq<A>, i: int)
    requires
        s1.to_multiset() == s2.to_multiset(),
        0 <= i < s1.len(),
    ensures
        exists|j: int| 0 <= j < s2.len() && s2[j] == s1[i],
{
    broadcast use vstd::seq_lib::group_to_multiset_ensures;

    assert(s1.contains(s1[i]));
    assert(s2.to_multiset().count(s1[i]) > 0);
    assert(s2.contains(s1[i]));
    let j = choose|j: int| 0 <= j < s2.len() && s2[j] == s1[i];
    assert(0 <= j < s2.len() && s2[j] == s1[i]);
}

} // verus!
