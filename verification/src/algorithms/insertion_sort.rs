//! Insertion sort.

use vstd::prelude::*;

verus! {

use crate::order::{lemma_ord_facts, lemma_sorted_adjacent_implies_sorted, ord_le, sorted,
    sorted_adjacent, total_ordered};
use crate::vec_util::{lemma_swap_preserves_multiset, vec_swap};

/// Efficient sorting against small or already sorted sets.
///
/// Insertion sort is inefficient against large sets. It requires no
/// additional memory.
///
/// It is efficient against already substantially sorted sets (`O(nk)` when
/// each element is no more than `k` places away from its sorted position).
///
/// Insertion sort can also sort sets as it receives them.
pub fn insertion_sort<A: Ord>(data: &mut Vec<A>)
    requires
        total_ordered::<A>(),
    ensures
        sorted(final(data)@),
        final(data)@.to_multiset() == old(data)@.to_multiset(),
        final(data)@.len() == old(data)@.len(),
{
    let size = data.len();
    if size < 2 {
        proof {
            lemma_sorted_adjacent_implies_sorted(data@);
        }
        return ;
    }
    let mut i: usize = 1;
    while i < size
        invariant
            total_ordered::<A>(),
            1 <= i <= size,
            size == data@.len(),
            sorted_adjacent(data@.take(i as int)),
            data@.to_multiset() == old(data)@.to_multiset(),
        decreases size - i,
    {
        proof {
            lemma_ord_facts::<A>();
            assert forall|j: int| 0 <= j <= i - 1 && j != i - 1 implies ord_le(
                #[trigger] data@[j],
                data@[j + 1],
            ) by {
                assert(data@.take(i as int)[j] == data@[j]);
                assert(data@.take(i as int)[j + 1] == data@[j + 1]);
            }
        }
        let mut x = i;
        while x > 0 && data[x - 1].gt(&data[x])
            invariant
                total_ordered::<A>(),
                0 <= x <= i < size,
                size == data@.len(),
                data@.to_multiset() == old(data)@.to_multiset(),
                forall|j: int|
                    0 <= j <= i - 1 && j != x - 1 ==> ord_le(#[trigger] data@[j], data@[j + 1]),
                x < i && x >= 1 ==> ord_le(data@[x - 1], data@[x + 1]),
            decreases x,
        {
            proof {
                lemma_ord_facts::<A>();
                lemma_swap_preserves_multiset(data@, x as int, x - 1);
            }
            let ghost pre = data@;
            vec_swap(data, x, x - 1);
            proof {
                assert forall|j: int| 0 <= j <= i - 1 && j != x - 2 implies ord_le(
                    #[trigger] data@[j],
                    data@[j + 1],
                ) by {
                    if j == x - 1 {
                        assert(data@[x - 1] == pre[x as int]);
                        assert(data@[x as int] == pre[x - 1]);
                    } else if j == x {
                        assert(data@[x as int] == pre[x - 1]);
                        assert(data@[x + 1] == pre[x + 1]);
                        assert(ord_le(pre[x - 1], pre[x + 1]));
                    } else {
                        assert(data@[j] == pre[j]);
                        assert(data@[j + 1] == pre[j + 1]);
                        assert(ord_le(pre[j], pre[j + 1]));
                    }
                }
                if x >= 2 && x - 1 < i {
                    assert(data@[x - 2] == pre[x - 2]);
                    assert(data@[x as int] == pre[x - 1]);
                    assert(ord_le(pre[x - 2], pre[x - 1]));
                }
            }
            x = x - 1;
        }
        proof {
            lemma_ord_facts::<A>();
            assert forall|j: int| 0 <= j < i implies ord_le(
                #[trigger] data@.take(i + 1)[j],
                data@.take(i + 1)[j + 1],
            ) by {
                assert(data@.take(i + 1)[j] == data@[j]);
                assert(data@.take(i + 1)[j + 1] == data@[j + 1]);
            }
            assert(sorted_adjacent(data@.take(i + 1)));
        }
        i = i + 1;
    }
    proof {
        assert(data@.take(size as int) =~= data@);
        lemma_sorted_adjacent_implies_sorted(data@);
    }
}

} // verus!
