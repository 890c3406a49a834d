//! Classic sorting algorithms and hand-built container types: a fixed-capacity
//! heap array, a growable array list built on top of it, a doubly linked list,
//! a binary max-heap, a bloom filter, and a murmur3 hash, together with a few
//! slice utilities (binary search, duplicate removal).

pub mod algorithms;
pub mod data_structures;
pub mod order;
mod vec_util;

use vstd::prelude::*;

verus! {

use crate::order::{eq_represented_in, lemma_ord_facts, ord_eq, ord_le, sorted, total_ordered, value_in};
use vstd::laws_eq::obeys_eq;
use vstd::slice::slice_subrange;
use vstd::std_specs::cmp::{OrdSpec, PartialEqSpec};

/// The subsequence that keeps, from left to right, only the first of any
/// group of equal elements: an element survives exactly when no earlier
/// element compares equal to it.
pub open spec fn dedup_first<A: PartialEq>(s: Seq<A>) -> Seq<A>
    decreases s.len(),
{
    if s.len() == 0 {
        Seq::empty()
    } else {
        let rest = dedup_first(s.drop_last());
        if exists|j: int| 0 <= j < s.len() - 1 && (#[trigger] s[j]).eq_spec(&s.last()) {
            rest
        } else {
            rest.push(s.last())
        }
    }
}

/// A value has an equal element in a sequence exactly when it has one in
/// the sequence's first-occurrence subsequence.
proof fn lemma_dedup_first_matches<A: PartialEq>(s: Seq<A>, x: A)
    requires
        obeys_eq::<A>(),
    ensures
        (exists|j: int| 0 <= j < s.len() && (#[trigger] s[j]).eq_spec(&x)) <==> (exists|j: int|
            0 <= j < dedup_first(s).len() && (#[trigger] dedup_first(s)[j]).eq_spec(&x)),
    decreases s.len(),
{
    reveal(vstd::laws_eq::obeys_eq_spec_properties);
    if s.len() == 0 {
    } else {
        let front = s.drop_last();
        let last = s.last();
        let d = dedup_first(s);
        lemma_dedup_first_matches(front, x);
        if exists|j: int| 0 <= j < s.len() - 1 && (#[trigger] s[j]).eq_spec(&last) {
            assert(d == dedup_first(front));
            if exists|j: int| 0 <= j < s.len() && (#[trigger] s[j]).eq_spec(&x) {
                let j = choose|j: int| 0 <= j < s.len() && (#[trigger] s[j]).eq_spec(&x);
                if j == s.len() - 1 {
                    let w = choose|w: int| 0 <= w < s.len() - 1 && (#[trigger] s[w]).eq_spec(&last);
                    assert(s[w].eq_spec(&last));
                    assert(last.eq_spec(&x));
                    assert(s[w].eq_spec(&x));
                    assert(front[w].eq_spec(&x));
                } else {
                    assert(front[j].eq_spec(&x));
                }
            }
            if exists|j: int| 0 <= j < d.len() && (#[trigger] d[j]).eq_spec(&x) {
                let j = choose|j: int| 0 <= j < d.len() && (#[trigger] d[j]).eq_spec(&x);
                assert(dedup_first(front)[j].eq_spec(&x));
                let w = choose|w: int|
                    0 <= w < front.len() && (#[trigger] front[w]).eq_spec(&x);
                assert(s[w].eq_spec(&x));
            }
        } else {
            assert(d == dedup_first(front).push(last));
            if exists|j: int| 0 <= j < s.len() && (#[trigger] s[j]).eq_spec(&x) {
                let j = choose|j: int| 0 <= j < s.len() && (#[trigger] s[j]).eq_spec(&x);
                if j == s.len() - 1 {
                    assert(d[d.len() - 1] == last);
                    assert((d[d.len() - 1]).eq_spec(&x));
                } else {
                    assert(front[j].eq_spec(&x));
                    let w = choose|w: int|
                        0 <= w < dedup_first(front).len() && (#[trigger] dedup_first(front)[w])
                            .eq_spec(&x);
                    assert(d[w] == dedup_first(front)[w]);
                    assert((d[w]).eq_spec(&x));
                }
            }
            if exists|j: int| 0 <= j < d.len() && (#[trigger] d[j]).eq_spec(&x) {
                let j = choose|j: int| 0 <= j < d.len() && (#[trigger] d[j]).eq_spec(&x);
                if j == d.len() - 1 {
                    assert(last.eq_spec(&x));
                    assert((s[s.len() - 1]).eq_spec(&x));
                } else {
                    assert(dedup_first(front)[j].eq_spec(&x));
                    let w = choose|w: int|
                        0 <= w < front.len() && (#[trigger] front[w]).eq_spec(&x);
                    assert((s[w]).eq_spec(&x));
                }
            }
        }
    }
}

/// Whether one of the first `upto` elements compares equal to the element
/// at `at`.
fn has_earlier_match<A: PartialEq>(data: &Vec<A>, upto: usize, at: usize) -> (r: bool)
    requires
        obeys_eq::<A>(),
        upto <= at < data@.len(),
    ensures
        r <==> exists|j: int| 0 <= j < upto && (#[trigger] data@[j]).eq_spec(&data@[at as int]),
{
    let mut runner: usize = 0;
    while runner < upto
        invariant
            obeys_eq::<A>(),
            upto <= at < data@.len(),
            runner <= upto,
            forall|j: int| 0 <= j < runner ==> !(#[trigger] data@[j]).eq_spec(&data@[at as int]),
        decreases upto - runner,
    {
        let matches_here = data[runner].eq(&data[at]);
        if matches_here {
            return true;
        }
        runner = runner + 1;
    }
    false
}

/// Removes duplicate entries from Vec with a complexity of O(n(n+1)/2).
///
/// It is based on the dual pointer technique where `current` iterates as
/// usual, but `runner` iterates until it hits the `current`, and then
/// `current` proceeds. Exactly the first occurrence of every value
/// survives, in order.
pub fn remove_duplicates_with_dual_pointers<A: PartialEq>(data: &mut Vec<A>)
    requires
        obeys_eq::<A>(),
    ensures
        final(data)@ == dedup_first(old(data)@),
{
    let mut current_index: usize = 0;
    let ghost mut n: int = 0;
    while current_index < data.len()
        invariant
            obeys_eq::<A>(),
            0 <= n <= old(data)@.len(),
            data@ == dedup_first(old(data)@.take(n)) + old(data)@.skip(n),
            current_index == dedup_first(old(data)@.take(n)).len(),
        decreases old(data)@.len() - n,
    {
        let ghost orig = old(data)@;
        let ghost prefix = dedup_first(orig.take(n));
        proof {
            reveal(vstd::laws_eq::obeys_eq_spec_properties);
            assert(data@.len() == prefix.len() + (orig.len() - n));
            assert(n < orig.len());
            assert(data@[current_index as int] == orig[n]);
            assert(orig.take(n + 1).drop_last() =~= orig.take(n));
            assert(orig.take(n + 1).last() == orig[n]);
        }
        let found = has_earlier_match(data, current_index, current_index);
        proof {
            // The deduplicated prefix has an equal element exactly when the
            // consumed part of the original input has one.
            lemma_dedup_first_matches(orig.take(n), orig[n]);
            assert forall|j: int|
                0 <= j < prefix.len() implies #[trigger] data@[j] == prefix[j] by {}
            if found {
                let j = choose|j: int|
                    0 <= j < current_index && (#[trigger] data@[j]).eq_spec(
                        &data@[current_index as int],
                    );
                assert(prefix[j].eq_spec(&orig[n]));
                let w = choose|w: int|
                    0 <= w < orig.take(n).len() && (#[trigger] orig.take(n)[w]).eq_spec(&orig[n]);
                assert(0 <= w < n && orig.take(n + 1)[w].eq_spec(&orig.take(n + 1).last()));
                assert(dedup_first(orig.take(n + 1)) == prefix);
            } else {
                assert forall|w: int|
                    0 <= w < orig.take(n + 1).len() - 1 implies !(#[trigger] orig.take(n + 1)[w])
                        .eq_spec(&orig.take(n + 1).last()) by {
                    if orig.take(n)[w].eq_spec(&orig[n]) {
                        let j = choose|j: int|
                            0 <= j < prefix.len() && (#[trigger] prefix[j]).eq_spec(&orig[n]);
                        assert(data@[j].eq_spec(&data@[current_index as int]));
                    }
                }
                assert(dedup_first(orig.take(n + 1)) == prefix.push(orig[n]));
            }
        }
        if found {
            data.remove(current_index);
            proof {
                assert(data@ =~= dedup_first(orig.take(n + 1)) + orig.skip(n + 1));
            }
        } else {
            current_index = current_index + 1;
            proof {
                assert(data@ =~= dedup_first(orig.take(n + 1)) + orig.skip(n + 1));
            }
        }
        proof {
            n = n + 1;
        }
    }
    proof {
        assert(n == old(data)@.len());
        assert(old(data)@.take(n) =~= old(data)@);
        assert(old(data)@.skip(n) =~= Seq::<A>::empty());
        assert(data@ =~= dedup_first(old(data)@));
    }
}

/// Removes duplicate entries from Vec with a complexity of O(n log n + n).
///
/// This technique sorts the vector before removing the duplicates and thus
/// is not stable. Afterwards the vector is sorted, holds no two elements
/// that compare as equal, holds only values it held before, and keeps a
/// representative of every value it held before.
pub fn remove_duplicates_by_sorting<A: PartialEq + Ord>(data: &mut Vec<A>)
    requires
        total_ordered::<A>(),
    ensures
        sorted(final(data)@),
        forall|i: int, j: int|
            0 <= i < j < final(data)@.len() ==> !(#[trigger] ord_eq(
                final(data)@[i],
                final(data)@[j],
            )),
        forall|i: int|
            0 <= i < final(data)@.len() ==> value_in(#[trigger] final(data)@[i], old(data)@),
        forall|i: int|
            0 <= i < old(data)@.len() ==> eq_represented_in(#[trigger] old(data)@[i], final(data)@),
{
    crate::algorithms::quick_sort::quick_sort(data);
    let ghost presorted = data@;
    dedup_sorted(data);
    proof {
        broadcast use vstd::seq_lib::group_to_multiset_ensures;

        lemma_ord_facts::<A>();
        assert forall|i: int| 0 <= i < data@.len() implies value_in(
            #[trigger] data@[i],
            old(data)@,
        ) by {
            assert(data@.contains(data@[i]));
            assert(data@.to_multiset().count(data@[i]) > 0);
            assert(presorted.to_multiset().count(data@[i]) > 0);
            assert(old(data)@.to_multiset().count(data@[i]) > 0);
            assert(old(data)@.contains(data@[i]));
            let j = choose|j: int| 0 <= j < old(data)@.len() && old(data)@[j] == data@[i];
            assert(data@[i] == old(data)@[j]);
        }
        assert forall|i: int| 0 <= i < old(data)@.len() implies eq_represented_in(
            #[trigger] old(data)@[i],
            data@,
        ) by {
            crate::order::lemma_multiset_same_elements(old(data)@, presorted, i);
            let k = choose|k: int| 0 <= k < presorted.len() && presorted[k] == old(data)@[i];
            assert(eq_represented_in(presorted[k], data@));
            let j = choose|j: int| 0 <= j < data@.len() && ord_eq(presorted[k], #[trigger] data@[j]);
            assert(ord_eq(old(data)@[i], data@[j]));
        }
    }
}

/// Removes the later of any two adjacent equal elements of an already
/// sorted vector, leaving it sorted, free of duplicates, and holding an
/// equal representative of every value it held.
#[verifier::rlimit(30)]
fn dedup_sorted<A: PartialEq + Ord>(data: &mut Vec<A>)
    requires
        total_ordered::<A>(),
        sorted(old(data)@),
    ensures
        sorted(final(data)@),
        forall|i: int, j: int|
            0 <= i < j < final(data)@.len() ==> !(#[trigger] ord_eq(
                final(data)@[i],
                final(data)@[j],
            )),
        final(data)@.to_multiset().subset_of(old(data)@.to_multiset()),
        forall|i: int|
            0 <= i < old(data)@.len() ==> eq_represented_in(#[trigger] old(data)@[i], final(data)@),
{
    proof {
        lemma_ord_facts::<A>();
        assert(data.len() == data@.len());
        assert forall|i: int| 0 <= i < old(data)@.len() implies eq_represented_in(
            #[trigger] old(data)@[i],
            data@,
        ) by {
            assert(old(data)@[i].cmp_spec(&old(data)@[i]) == core::cmp::Ordering::Equal);
            assert(ord_eq(old(data)@[i], data@[i]));
        }
    }
    let mut current_index: usize = 0;

    while current_index + 1 < data.len()
        invariant
            total_ordered::<A>(),
            data@.len() > 0 ==> current_index < data@.len(),
            data@.len() == 0 ==> current_index == 0,
            data@.len() <= usize::MAX,
            sorted(data@),
            forall|i: int, j: int|
                0 <= i < j <= current_index && j < data@.len() ==> !(#[trigger] ord_eq(
                    data@[i],
                    data@[j],
                )),
            data@.to_multiset().subset_of(old(data)@.to_multiset()),
            forall|i: int|
                0 <= i < old(data)@.len() ==> eq_represented_in(#[trigger] old(data)@[i], data@),
        decreases data@.len() - current_index,
    {
        proof {
            lemma_ord_facts::<A>();
        }
        let is_dup = data[current_index].eq(&data[current_index + 1]);
        if is_dup {
            let ghost pre = data@;
            let removed = current_index + 1;
            data.remove(removed);
            proof {
                broadcast use vstd::seq_lib::group_to_multiset_ensures;

                assert(data.len() == data@.len());
                assert(ord_eq(pre[current_index as int], pre[removed as int]));
                assert forall|i: int, j: int| 0 <= i < j < data@.len() implies #[trigger] ord_le(
                    data@[i],
                    data@[j],
                ) by {
                    let i0 = if i < removed {
                        i
                    } else {
                        i + 1
                    };
                    let j0 = if j < removed {
                        j
                    } else {
                        j + 1
                    };
                    assert(data@[i] == pre[i0]);
                    assert(data@[j] == pre[j0]);
                    assert(ord_le(pre[i0], pre[j0]));
                }
                assert(data@.to_multiset() =~= pre.to_multiset().remove(pre[removed as int]));
                assert forall|v: A| #[trigger]
                    data@.to_multiset().count(v) <= old(data)@.to_multiset().count(v) by {
                    assert(pre.to_multiset().count(v) <= old(data)@.to_multiset().count(v));
                }
                assert forall|i: int| 0 <= i < old(data)@.len() implies eq_represented_in(
                    #[trigger] old(data)@[i],
                    data@,
                ) by {
                    let j0 = choose|j: int|
                        0 <= j < pre.len() && ord_eq(old(data)@[i], #[trigger] pre[j]);
                    if j0 == removed {
                        assert(old(data)@[i].eq_spec(&pre[removed as int]));
                        assert(pre[removed as int].eq_spec(&pre[current_index as int]));
                        assert(old(data)@[i].eq_spec(&pre[current_index as int]));
                        assert(data@[current_index as int] == pre[current_index as int]);
                        assert(ord_eq(old(data)@[i], data@[current_index as int]));
                    } else if j0 < removed {
                        assert(data@[j0] == pre[j0]);
                        assert(ord_eq(old(data)@[i], data@[j0]));
                    } else {
                        assert(data@[j0 - 1] == pre[j0]);
                        assert(ord_eq(old(data)@[i], data@[j0 - 1]));
                    }
                }
            }
        } else {
            proof {
                let c = current_index as int;
                assert(!ord_eq(data@[c], data@[c + 1]));
                assert forall|i: int, j: int|
                    0 <= i < j <= current_index + 1 && j < data@.len() implies !(#[trigger] ord_eq(
                    data@[i],
                    data@[j],
                )) by {
                    if j == c + 1 && i < c + 1 && ord_eq(data@[i], data@[j]) {
                        if i < c {
                            assert(ord_le(data@[i], data@[c]));
                        }
                        assert(ord_le(data@[c], data@[c + 1]));
                        assert(ord_le(data@[c + 1], data@[i]));
                        assert(ord_le(data@[c + 1], data@[c]));
                        assert(ord_eq(data@[c], data@[c + 1]));
                    }
                }
            }
            current_index = current_index + 1;
        }
    }
}

/// Finds the position of the key within the given slice.
///
/// This is a O(log n) on average and at worst, O(1) at best.
/// Note: the given slice must be ordered and must hold the key.
pub fn binary_search<A: Ord>(data: &[A], key: A) -> (r: usize)
    requires
        total_ordered::<A>(),
        sorted(data@),
        exists|i: int| 0 <= i < data@.len() && ord_eq(#[trigger] data@[i], key),
    ensures
        r < data@.len(),
        ord_eq(data@[r as int], key),
{
    proof {
        assert(data.len() == data@.len());
    }
    search_from(data, key, 0)
}

/// The recursive worker behind [`binary_search`]: searches the slice and
/// reports the hit relative to `offset`, the slice's position in the
/// original data.
fn search_from<A: Ord>(data: &[A], key: A, offset: usize) -> (r: usize)
    requires
        total_ordered::<A>(),
        sorted(data@),
        exists|i: int| 0 <= i < data@.len() && ord_eq(#[trigger] data@[i], key),
        offset + data@.len() <= usize::MAX,
    ensures
        offset <= r < offset + data@.len(),
        ord_eq(data@[r - offset], key),
    decreases data@.len(),
{
    proof {
        lemma_ord_facts::<A>();
    }
    let middle = data.len() / 2;
    let is_greater = data[middle].gt(&key);
    if is_greater {
        proof {
            let w = choose|i: int| 0 <= i < data@.len() && ord_eq(#[trigger] data@[i], key);
            if w >= middle {
                assert(ord_le(data@[middle as int], data@[w]));
                assert(ord_le(data@[w], key));
                assert(ord_le(data@[middle as int], key));
            }
            assert(ord_eq(data@.subrange(0, middle as int)[w], key));
        }
        search_from(slice_subrange(data, 0, middle), key, offset)
    } else {
        let is_less = data[middle].lt(&key);
        if is_less {
            proof {
                let w = choose|i: int| 0 <= i < data@.len() && ord_eq(#[trigger] data@[i], key);
                if w < middle {
                    assert(ord_le(data@[w], data@[middle as int]));
                    assert(ord_le(key, data@[w]));
                    assert(ord_le(key, data@[middle as int]));
                    assert(key.cmp_spec(&data@[middle as int]) != core::cmp::Ordering::Greater);
                }
                if w == middle {
                    assert(ord_eq(data@[middle as int], key));
                }
                assert(w > middle);
                assert(middle >= 1);
                assert(ord_eq(
                    data@.subrange(middle as int, data@.len() as int)[w - middle],
                    key,
                ));
            }
            let r = search_from(
                slice_subrange(data, middle, data.len()),
                key,
                offset + middle,
            );
            proof {
                assert(data@.subrange(middle as int, data@.len() as int)[r - offset - middle]
                    == data@[r - offset]);
            }
            r
        } else {
            proof {
                assert(ord_eq(data@[middle as int], key));
            }
            middle + offset
        }
    }
}

} // verus!
