//! Quick sort.

use vstd::prelude::*;

verus! {

use core::cmp::Ordering;
use vstd::std_specs::cmp::OrdSpec;
use crate::order::{lemma_multiset_same_elements, lemma_ord_facts, ord_le, sorted, sorted_range,
    total_ordered};
use crate::vec_util::{lemma_subrange_split_multiset, lemma_swap_in_range_preserves_multiset,
    vec_swap};

/// Efficient sorting against large sets.
///
/// This divide-and-conquer sorting algorithm performs `O(n log n)` in average
/// and best case scenarios, but `O(n^2)` in the worst case.
///
/// Quicksort is often faster in practice than other `O(n log n)` algorithms
/// due to sequential and localized memory references that work well with
/// modern CPU caches.
pub fn quick_sort<A: Ord>(data: &mut Vec<A>)
    requires
        total_ordered::<A>(),
    ensures
        sorted(final(data)@),
        final(data)@.to_multiset() == old(data)@.to_multiset(),
        final(data)@.len() == old(data)@.len(),
{
    let len = data.len();
    qsort(data, 0, len);
    proof {
        assert(data@.subrange(0, len as int) =~= data@);
        assert(old(data)@.subrange(0, len as int) =~= old(data)@);
    }
}

/// Sorts the index range `[lo, hi)` of the vector in place, leaving every
/// element outside that range untouched.
fn qsort<A: Ord>(data: &mut Vec<A>, lo: usize, hi: usize)
    requires
        total_ordered::<A>(),
        lo <= hi <= old(data)@.len(),
    ensures
        final(data)@.len() == old(data)@.len(),
        forall|j: int|
            0 <= j < old(data)@.len() && !(lo <= j < hi) ==> final(data)@[j] == old(data)@[j],
        final(data)@.subrange(lo as int, hi as int).to_multiset() == old(data)@.subrange(
            lo as int,
            hi as int,
        ).to_multiset(),
        sorted_range(final(data)@, lo as int, hi as int),
    decreases hi - lo,
{
    if hi - lo < 2 {
        return ;
    }
    let ghost orig = data@;
    let pivot = find_pivot(data, lo, hi);
    let p = partition(data, lo, hi, pivot);
    let ghost mid = data@;
    qsort(data, lo, p);
    let ghost mid2 = data@;
    qsort(data, p + 1, hi);
    let ghost fin = data@;
    proof {
        lemma_ord_facts::<A>();
        // The two recursive calls never touched the other half nor the pivot.
        assert(fin.subrange(lo as int, p as int) =~= mid2.subrange(lo as int, p as int));
        assert(mid2.subrange(p + 1, hi as int) =~= mid.subrange(p + 1, hi as int));
        assert(fin[p as int] == mid[p as int]);
        assert(fin.subrange(lo as int, p as int).to_multiset() == mid.subrange(
            lo as int,
            p as int,
        ).to_multiset());
        assert(fin.subrange(p + 1, hi as int).to_multiset() == mid.subrange(
            p + 1,
            hi as int,
        ).to_multiset());
        // Every element left of the pivot is still bounded by it.
        assert forall|j: int| lo <= j < p implies ord_le(fin[j], fin[p as int]) by {
            lemma_multiset_same_elements(
                fin.subrange(lo as int, p as int),
                mid.subrange(lo as int, p as int),
                j - lo,
            );
            let k = choose|k: int|
                0 <= k < mid.subrange(lo as int, p as int).len() && #[trigger] mid.subrange(
                    lo as int,
                    p as int,
                )[k] == fin.subrange(lo as int, p as int)[j - lo];
            assert(mid[lo + k] == fin[j]);
            assert(ord_le(mid[lo + k], mid[p as int]));
        }
        // And every element right of the pivot still dominates it.
        assert forall|j: int| p < j < hi implies ord_le(fin[p as int], fin[j]) by {
            lemma_multiset_same_elements(
                fin.subrange(p + 1, hi as int),
                mid.subrange(p + 1, hi as int),
                j - (p + 1),
            );
            let k = choose|k: int|
                0 <= k < mid.subrange(p + 1, hi as int).len() && #[trigger] mid.subrange(
                    p + 1,
                    hi as int,
                )[k] == fin.subrange(p + 1, hi as int)[j - (p + 1)];
            assert(mid[p + 1 + k] == fin[j]);
            assert(ord_le(mid[p as int], mid[p + 1 + k]));
        }
        // Sortedness of the whole range, by cases around the pivot.
        assert forall|i: int, j: int|
            lo <= i < j < hi && 0 <= i && j < fin.len() implies #[trigger] ord_le(
            fin[i],
            fin[j],
        ) by {
            if j < p {
                assert(ord_le(fin[i], fin[j]));
            } else if i < p && j == p {
                assert(ord_le(fin[i], fin[p as int]));
            } else if i < p && j > p {
                assert(ord_le(fin[i], fin[p as int]));
                assert(ord_le(fin[p as int], fin[j]));
            } else if i == p {
                assert(ord_le(fin[p as int], fin[j]));
            } else {
                assert(ord_le(fin[i], fin[j]));
            }
        }
        // The multiset of the range survives partitioning and both calls.
        lemma_subrange_split_multiset(fin, lo as int, p as int, hi as int);
        lemma_subrange_split_multiset(fin, p as int, p + 1, hi as int);
        lemma_subrange_split_multiset(mid, lo as int, p as int, hi as int);
        lemma_subrange_split_multiset(mid, p as int, p + 1, hi as int);
        assert(fin.subrange(p as int, p + 1) =~= mid.subrange(p as int, p + 1));
        assert(fin.subrange(lo as int, hi as int).to_multiset() =~= mid.subrange(
            lo as int,
            hi as int,
        ).to_multiset());
    }
}

/// Partitioning makes the left values of the pivot be less than or equal to
/// it, and the right values greater than or equal to it; returns the pivot's
/// final position.
fn partition<A: Ord>(data: &mut Vec<A>, lo: usize, hi: usize, pivot: usize) -> (p: usize)
    requires
        total_ordered::<A>(),
        lo <= pivot < hi <= old(data)@.len(),
        hi - lo >= 2,
    ensures
        final(data)@.len() == old(data)@.len(),
        forall|j: int|
            0 <= j < old(data)@.len() && !(lo <= j < hi) ==> final(data)@[j] == old(data)@[j],
        final(data)@.subrange(lo as int, hi as int).to_multiset() == old(data)@.subrange(
            lo as int,
            hi as int,
        ).to_multiset(),
        lo <= p < hi,
        forall|j: int| lo <= j < p ==> ord_le(final(data)@[j], final(data)@[p as int]),
        forall|j: int| p < j < hi ==> ord_le(final(data)@[p as int], final(data)@[j]),
{
    let right_index = hi - 1;
    proof {
        lemma_swap_in_range_preserves_multiset(
            data@,
            lo as int,
            hi as int,
            pivot as int,
            right_index as int,
        );
    }
    vec_swap(data, pivot, right_index);
    let ghost base = data@;
    let mut next_position = lo;
    let mut index = lo;
    while index < right_index
        invariant
            total_ordered::<A>(),
            lo <= next_position <= index <= right_index,
            right_index == hi - 1,
            hi <= data@.len(),
            data@.len() == base.len(),
            forall|j: int| 0 <= j < base.len() && !(lo <= j < right_index) ==> data@[j] == base[j],
            data@.subrange(lo as int, hi as int).to_multiset() == base.subrange(
                lo as int,
                hi as int,
            ).to_multiset(),
            forall|j: int|
                lo <= j < next_position ==> ord_le(
                    #[trigger] data@[j],
                    data@[right_index as int],
                ),
            forall|j: int|
                next_position <= j < index ==> ord_le(
                    data@[right_index as int],
                    #[trigger] data@[j],
                ),
        decreases right_index - index,
    {
        proof {
            lemma_ord_facts::<A>();
        }
        let le_pivot = data[index].le(&data[right_index]);
        if le_pivot {
            let ghost before = data@;
            proof {
                lemma_swap_in_range_preserves_multiset(
                    data@,
                    lo as int,
                    hi as int,
                    index as int,
                    next_position as int,
                );
            }
            vec_swap(data, index, next_position);
            proof {
                assert(data@.subrange(lo as int, hi as int).to_multiset() == before.subrange(
                    lo as int,
                    hi as int,
                ).to_multiset());
                assert(data@[right_index as int] == before[right_index as int]);
                assert forall|j: int| lo <= j < next_position + 1 implies ord_le(
                    #[trigger] data@[j],
                    data@[right_index as int],
                ) by {
                    if j < next_position {
                        assert(data@[j] == before[j]);
                    } else {
                        assert(data@[j] == before[index as int]);
                    }
                }
                assert forall|j: int| next_position + 1 <= j < index + 1 implies ord_le(
                    data@[right_index as int],
                    #[trigger] data@[j],
                ) by {
                    if j == index {
                        assert(data@[j] == before[next_position as int]);
                    } else {
                        assert(data@[j] == before[j]);
                    }
                }
            }
            next_position = next_position + 1;
        } else {
            proof {
                assert(data@[index as int].cmp_spec(&data@[right_index as int])
                    == Ordering::Greater);
                assert(data@[right_index as int].cmp_spec(&data@[index as int]) == Ordering::Less);
                assert(ord_le(data@[right_index as int], data@[index as int]));
            }
        }
        index = index + 1;
    }
    let ghost before_last = data@;
    proof {
        lemma_swap_in_range_preserves_multiset(
            data@,
            lo as int,
            hi as int,
            next_position as int,
            right_index as int,
        );
    }
    vec_swap(data, next_position, right_index);
    proof {
        lemma_ord_facts::<A>();
        assert forall|j: int|
            0 <= j < old(data)@.len() && !(lo <= j < hi) implies data@[j] == old(data)@[j] by {
            assert(before_last[j] == base[j]);
            assert(base[j] == old(data)@[j]);
        }
        assert(data@[next_position as int] == before_last[right_index as int]);
        assert forall|j: int| lo <= j < next_position implies ord_le(
            data@[j],
            data@[next_position as int],
        ) by {
            assert(data@[j] == before_last[j]);
        }
        assert forall|j: int| next_position < j < hi implies ord_le(
            data@[next_position as int],
            data@[j],
        ) by {
            if j == right_index {
                assert(data@[j] == before_last[next_position as int]);
                assert(ord_le(
                    before_last[right_index as int],
                    before_last[next_position as int],
                ));
            } else {
                assert(data@[j] == before_last[j]);
                assert(ord_le(before_last[right_index as int], before_last[j]));
            }
        }
    }
    next_position
}

/// Finds the median of left, middle and right.
fn find_pivot<A: Ord>(data: &Vec<A>, lo: usize, hi: usize) -> (pivot: usize)
    requires
        total_ordered::<A>(),
        lo < hi <= data@.len(),
        hi - lo >= 2,
    ensures
        lo <= pivot < hi,
{
    let left = lo;
    let right = hi - 1;
    let middle = left + (right - left) / 2;
    if data[left].le(&data[middle]) && data[middle].le(&data[right]) {
        middle
    } else if data[left].ge(&data[middle]) && data[left].le(&data[right]) {
        left
    } else {
        right
    }
}

} // verus!
