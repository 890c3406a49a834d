//! Merge sort.

use vstd::prelude::*;

verus! {

use vstd::pervasive::cloned;
use vstd::seq_lib::lemma_multiset_commutative;
use vstd::slice::slice_subrange;
use crate::order::{lemma_ord_facts, ord_le, sorted, total_ordered};

/// The type's `clone` returns a value equal to the original, as it does for
/// the primitive types.
pub open spec fn clones_equal<A: Clone>() -> bool {
    forall|a: A, b: A| #[trigger] cloned::<A>(a, b) ==> b == a
}

/// Efficient sorting against large sets. Requires `O(n)` aux. space.
///
/// This divide-and-conquer sorting algorithm, while inefficient with memory
/// use, performs `O(n log n)` in average, worst and best case scenarios even
/// against large sets of data.
pub fn merge_sort<A: Ord + Clone>(data: &[A]) -> (r: Vec<A>)
    requires
        total_ordered::<A>(),
        clones_equal::<A>(),
    ensures
        sorted(r@),
        r@.to_multiset() == data@.to_multiset(),
        r@.len() == data@.len(),
{
    let r = divide(data);
    proof {
        broadcast use vstd::seq_lib::group_to_multiset_ensures;

        assert(r@.to_multiset().len() == r@.len());
        assert(data@.to_multiset().len() == data@.len());
    }
    r
}

/// Splits the slice in half, sorts both halves, and merges them.
fn divide<A: Ord + Clone>(data: &[A]) -> (r: Vec<A>)
    requires
        total_ordered::<A>(),
        clones_equal::<A>(),
    ensures
        sorted(r@),
        r@.to_multiset() == data@.to_multiset(),
    decreases data@.len(),
{
    let length = data.len();
    if length == 0 {
        let r: Vec<A> = Vec::new();
        proof {
            assert(r@ =~= data@);
        }
        r
    } else if length == 1 {
        let mut r: Vec<A> = Vec::new();
        let c = data[0].clone();
        proof {
            assert(cloned::<A>(data@[0], c));
            assert(c == data@[0]);
        }
        r.push(c);
        proof {
            assert(r@ =~= data@);
        }
        r
    } else {
        let middle = length / 2;
        let left = divide(slice_subrange(data, 0, middle));
        let right = divide(slice_subrange(data, middle, length));
        let r = conquer(left, right);
        proof {
            assert(data@.subrange(0, middle as int) + data@.subrange(middle as int, length as int)
                =~= data@);
            lemma_multiset_commutative(
                data@.subrange(0, middle as int),
                data@.subrange(middle as int, length as int),
            );
        }
        r
    }
}

/// Merges two sorted vectors into one sorted vector.
fn conquer<A: Ord + Clone>(left: Vec<A>, right: Vec<A>) -> (r: Vec<A>)
    requires
        total_ordered::<A>(),
        clones_equal::<A>(),
        sorted(left@),
        sorted(right@),
    ensures
        sorted(r@),
        r@.to_multiset() == left@.to_multiset().add(right@.to_multiset()),
{
    broadcast use vstd::seq_lib::group_to_multiset_ensures;

    let mut left_index: usize = 0;
    let mut right_index: usize = 0;

    let left_size = left.len();
    let right_size = right.len();

    let mut result: Vec<A> = Vec::new();

    while left_index < left_size && right_index < right_size
        invariant
            total_ordered::<A>(),
            clones_equal::<A>(),
            sorted(left@),
            sorted(right@),
            left_index <= left_size == left@.len(),
            right_index <= right_size == right@.len(),
            sorted(result@),
            result@.to_multiset() == left@.subrange(0, left_index as int).to_multiset().add(
                right@.subrange(0, right_index as int).to_multiset(),
            ),
            forall|k: int|
                0 <= k < result@.len() && left_index < left_size ==> ord_le(
                    #[trigger] result@[k],
                    left@[left_index as int],
                ),
            forall|k: int|
                0 <= k < result@.len() && right_index < right_size ==> ord_le(
                    #[trigger] result@[k],
                    right@[right_index as int],
                ),
        decreases left_size + right_size - left_index - right_index,
    {
        proof {
            lemma_ord_facts::<A>();
        }
        let take_left = left[left_index].lt(&right[right_index]);
        let ghost pre = result@;
        if take_left {
            let c = left[left_index].clone();
            proof {
                assert(cloned::<A>(left@[left_index as int], c));
                assert(c == left@[left_index as int]);
            }
            result.push(c);
            proof {
                assert(result@.last() == left@[left_index as int]);
                assert(left@.subrange(0, left_index as int).push(left@[left_index as int]) =~= left@
                    .subrange(0, left_index + 1));
                pre.to_multiset_ensures();
                left@.subrange(0, left_index as int).to_multiset_ensures();
                assert(result@ == pre.push(c));
                assert(result@.to_multiset() =~= pre.to_multiset().insert(c));
                assert(left@.subrange(0, left_index + 1).to_multiset() =~= left@.subrange(
                    0,
                    left_index as int,
                ).to_multiset().insert(c));
                assert(result@.to_multiset() =~= left@.subrange(
                    0,
                    left_index + 1,
                ).to_multiset().add(right@.subrange(0, right_index as int).to_multiset()));
                assert forall|i: int, j: int| 0 <= i < j < result@.len() implies #[trigger] ord_le(
                    result@[i],
                    result@[j],
                ) by {
                    if j < result@.len() - 1 {
                        assert(ord_le(pre[i], pre[j]));
                    } else {
                        assert(ord_le(pre[i], left@[left_index as int]));
                    }
                }
                assert(ord_le(left@[left_index as int], right@[right_index as int]));
                assert forall|k: int|
                    0 <= k < result@.len() && left_index + 1 < left_size implies ord_le(
                    #[trigger] result@[k],
                    left@[left_index + 1],
                ) by {
                    assert(ord_le(left@[left_index as int], left@[left_index + 1]));
                    if k < result@.len() - 1 {
                        assert(ord_le(pre[k], left@[left_index as int]));
                    }
                }
                assert forall|k: int|
                    0 <= k < result@.len() && right_index < right_size implies ord_le(
                    #[trigger] result@[k],
                    right@[right_index as int],
                ) by {
                    if k < result@.len() - 1 {
                        assert(ord_le(pre[k], right@[right_index as int]));
                    }
                }
            }
            left_index = left_index + 1;
        } else {
            let c = right[right_index].clone();
            proof {
                assert(cloned::<A>(right@[right_index as int], c));
                assert(c == right@[right_index as int]);
            }
            result.push(c);
            proof {
                assert(ord_le(right@[right_index as int], left@[left_index as int]));
                assert(result@.last() == right@[right_index as int]);
                assert(right@.subrange(0, right_index as int).push(right@[right_index as int])
                    =~= right@.subrange(0, right_index + 1));
                pre.to_multiset_ensures();
                right@.subrange(0, right_index as int).to_multiset_ensures();
                assert(result@ == pre.push(c));
                assert(result@.to_multiset() =~= pre.to_multiset().insert(c));
                assert(right@.subrange(0, right_index + 1).to_multiset() =~= right@.subrange(
                    0,
                    right_index as int,
                ).to_multiset().insert(c));
                assert(result@.to_multiset() =~= left@.subrange(
                    0,
                    left_index as int,
                ).to_multiset().add(right@.subrange(0, right_index + 1).to_multiset()));
                assert forall|i: int, j: int| 0 <= i < j < result@.len() implies #[trigger] ord_le(
                    result@[i],
                    result@[j],
                ) by {
                    if j < result@.len() - 1 {
                        assert(ord_le(pre[i], pre[j]));
                    } else {
                        assert(ord_le(pre[i], right@[right_index as int]));
                    }
                }
                assert forall|k: int|
                    0 <= k < result@.len() && right_index + 1 < right_size implies ord_le(
                    #[trigger] result@[k],
                    right@[right_index + 1],
                ) by {
                    assert(ord_le(right@[right_index as int], right@[right_index + 1]));
                    if k < result@.len() - 1 {
                        assert(ord_le(pre[k], right@[right_index as int]));
                    }
                }
                assert forall|k: int|
                    0 <= k < result@.len() && left_index < left_size implies ord_le(
                    #[trigger] result@[k],
                    left@[left_index as int],
                ) by {
                    if k < result@.len() - 1 {
                        assert(ord_le(pre[k], left@[left_index as int]));
                    }
                }
            }
            right_index = right_index + 1;
        }
    }
    proof {
        lemma_ord_facts::<A>();
    }
    let ghost merged = result@;
    result.extend_from_slice(slice_subrange(left.as_slice(), left_index, left_size));
    proof {
        assert forall|i: int| 0 <= i < result@.len() implies result@[i] == (merged
            + left@.subrange(left_index as int, left_size as int))[i] by {
            if i >= merged.len() {
                assert(cloned::<A>(
                    left@.subrange(left_index as int, left_size as int)[i - merged.len()],
                    result@[i],
                ));
            }
        }
        assert(result@ =~= merged + left@.subrange(left_index as int, left_size as int));
    }
    let ghost with_left = result@;
    result.extend_from_slice(slice_subrange(right.as_slice(), right_index, right_size));
    proof {
        assert forall|i: int| 0 <= i < result@.len() implies result@[i] == (with_left
            + right@.subrange(right_index as int, right_size as int))[i] by {
            if i >= with_left.len() {
                assert(cloned::<A>(
                    right@.subrange(right_index as int, right_size as int)[i - with_left.len()],
                    result@[i],
                ));
            }
        }
        assert(result@ =~= with_left + right@.subrange(right_index as int, right_size as int));
        lemma_ord_facts::<A>();
        // Only one of the two tails was non-empty, so the result is sorted.
        assert forall|i: int, j: int| 0 <= i < j < result@.len() implies #[trigger] ord_le(
            result@[i],
            result@[j],
        ) by {
            if j < merged.len() {
                assert(ord_le(merged[i], merged[j]));
            } else if i >= merged.len() {
                if left_index < left_size {
                    assert(ord_le(
                        left@[left_index + (i - merged.len())],
                        left@[left_index + (j - merged.len())],
                    ));
                } else {
                    assert(ord_le(
                        right@[right_index + (i - merged.len())],
                        right@[right_index + (j - merged.len())],
                    ));
                }
            } else {
                if left_index < left_size {
                    assert(ord_le(merged[i], left@[left_index as int]));
                    assert(ord_le(left@[left_index as int], left@[left_index + (j - merged.len())]));
                } else {
                    assert(ord_le(merged[i], right@[right_index as int]));
                    assert(ord_le(
                        right@[right_index as int],
                        right@[right_index + (j - merged.len())],
                    ));
                }
            }
        }
        // Multiset bookkeeping for the consumed prefixes plus the tails.
        lemma_multiset_commutative(merged, left@.subrange(left_index as int, left_size as int));
        lemma_multiset_commutative(
            with_left,
            right@.subrange(right_index as int, right_size as int),
        );
        assert(left@.subrange(0, left_index as int) + left@.subrange(
            left_index as int,
            left_size as int,
        ) =~= left@);
        lemma_multiset_commutative(
            left@.subrange(0, left_index as int),
            left@.subrange(left_index as int, left_size as int),
        );
        assert(right@.subrange(0, right_index as int) + right@.subrange(
            right_index as int,
            right_size as int,
        ) =~= right@);
        lemma_multiset_commutative(
            right@.subrange(0, right_index as int),
            right@.subrange(right_index as int, right_size as int),
        );
        assert(result@.to_multiset() =~= left@.to_multiset().add(right@.to_multiset()));
    }
    result
}

} // verus!
