//! Shared helpers for element swaps inside a `Vec`, used by the containers
//! and the in-place sorting algorithms.

use vstd::prelude::*;

verus! {

use vstd::seq_lib::lemma_update_is_remove_insert;
use vstd::seq_lib::to_multiset_update;

/// Relies on `<[T]>::swap`: exchanges the elements at indices `a` and `b`.
#[verifier::external_body]
pub(crate) fn vec_swap<A>(v: &mut Vec<A>, a: usize, b: usize)
    requires
        a < old(v).len(),
        b < old(v).len(),
    ensures
        final(v)@ == old(v)@.update(a as int, old(v)@[b as int]).update(
            b as int,
            old(v)@[a as int],
        ),
{
    v.swap(a, b);
}

/// Swapping two elements of a sequence leaves its multiset of elements
/// unchanged.
pub proof fn lemma_swap_preserves_multiset<A>(s: Seq<A>, a: int, b: int)
    requires
        0 <= a < s.len(),
        0 <= b < s.len(),
    ensures
        s.update(a, s[b]).update(b, s[a]).to_multiset() == s.to_multiset(),
{
    broadcast use vstd::seq_lib::group_to_multiset_ensures;
    broadcast use to_multiset_update;
    broadcast use lemma_update_is_remove_insert;

    if a == b {
        assert(s.update(a, s[b]).update(b, s[a]) =~= s);
    } else {
        let s1 = s.update(a, s[b]);
        let s2 = s1.update(b, s[a]);
        assert(s.to_multiset().contains(s[a]));
        assert(s1.to_multiset().contains(s1[b]));
        assert(s2.to_multiset() =~= s.to_multiset());
    }
}

/// An update at an index inside `[lo, hi)` commutes with taking that
/// subrange.
pub proof fn lemma_update_within_subrange<A>(s: Seq<A>, lo: int, hi: int, a: int, v: A)
    requires
        0 <= lo <= a < hi <= s.len(),
    ensures
        s.update(a, v).subrange(lo, hi) == s.subrange(lo, hi).update(a - lo, v),
{
    assert(s.update(a, v).subrange(lo, hi) =~= s.subrange(lo, hi).update(a - lo, v));
}

/// Swapping two elements inside `[lo, hi)` leaves the multiset of that
/// subrange unchanged.
pub proof fn lemma_swap_in_range_preserves_multiset<A>(s: Seq<A>, lo: int, hi: int, a: int, b: int)
    requires
        0 <= lo <= a < hi <= s.len(),
        lo <= b < hi,
    ensures
        s.update(a, s[b]).update(b, s[a]).subrange(lo, hi).to_multiset() == s.subrange(
            lo,
            hi,
        ).to_multiset(),
{
    let sub = s.subrange(lo, hi);
    lemma_update_within_subrange(s, lo, hi, a, s[b]);
    lemma_update_within_subrange(s.update(a, s[b]), lo, hi, b, s[a]);
    assert(s.update(a, s[b]).update(b, s[a]).subrange(lo, hi) == sub.update(a - lo, s[b]).update(
        b - lo,
        s[a],
    ));
    assert(sub.update(a - lo, sub[b - lo]).update(b - lo, sub[a - lo]) == sub.update(
        a - lo,
        s[b],
    ).update(b - lo, s[a]));
    lemma_swap_preserves_multiset(sub, a - lo, b - lo);
}

/// The multiset of a subrange splits at any midpoint into the multisets of
/// the two halves.
pub proof fn lemma_subrange_split_multiset<A>(s: Seq<A>, lo: int, mid: int, hi: int)
    requires
        0 <= lo <= mid <= hi <= s.len(),
    ensures
        s.subrange(lo, hi).to_multiset() == s.subrange(lo, mid).to_multiset().add(
            s.subrange(mid, hi).to_multiset(),
        ),
{
    assert(s.subrange(lo, hi) =~= s.subrange(lo, mid) + s.subrange(mid, hi));
    vstd::seq_lib::lemma_multiset_commutative(s.subrange(lo, mid), s.subrange(mid, hi));
}

} // verus!
