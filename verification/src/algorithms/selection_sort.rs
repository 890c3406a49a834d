//! Selection sort.

use vstd::prelude::*;

verus! {

use core::cmp::Ordering;
use vstd::std_specs::cmp::{OrdSpec, PartialOrdSpec, PartialEqSpec};
use crate::order::{lemma_ord_facts, ord_le, sorted, total_ordered};
use crate::vec_util::{lemma_swap_preserves_multiset, vec_swap};

/// Efficient sorting against small sets.
///
/// Selection sort is inefficient against large sets. It requires no
/// additional memory.
///
/// The write performance of `O(n)` is better than that of e.g. insertion
/// sort's `O(n^2)`.
pub fn selection_sort<A: Ord>(data: &mut Vec<A>)
    requires
        total_ordered::<A>(),
    ensures
        sorted(final(data)@),
        final(data)@.to_multiset() == old(data)@.to_multiset(),
        final(data)@.len() == old(data)@.len(),
{
    let size = data.len();
    let mut i: usize = 0;
    while i < size
        invariant
            total_ordered::<A>(),
            i <= size,
            size == data@.len(),
            data@.to_multiset() == old(data)@.to_multiset(),
            forall|j: int, k: int| 0 <= j < k < i ==> #[trigger] ord_le(data@[j], data@[k]),
            forall|j: int, k: int| 0 <= j < i <= k < size ==> #[trigger] ord_le(data@[j], data@[k]),
        decreases size - i,
    {
        proof {
            lemma_ord_facts::<A>();
        }
        let mut x = i + 1;
        let mut current_min = i;
        while x < size
            invariant
                total_ordered::<A>(),
                i < x <= size,
                i <= current_min < x,
                size == data@.len(),
                forall|k: int| i <= k < x ==> ord_le(data@[current_min as int], #[trigger] data@[k]),
            decreases size - x,
        {
            proof {
                lemma_ord_facts::<A>();
            }
            let ghost old_min = current_min as int;
            let is_less = data[x].lt(&data[current_min]);
            if is_less {
                current_min = x;
            }
            proof {
                if is_less {
                    assert(data@[x as int].partial_cmp_spec(&data@[old_min]) == Some(
                        Ordering::Less,
                    ));
                    assert(ord_le(data@[x as int], data@[old_min]));
                    assert forall|k: int| i <= k < x + 1 implies ord_le(
                        data@[current_min as int],
                        #[trigger] data@[k],
                    ) by {
                        if k < x {
                            assert(ord_le(data@[old_min], data@[k]));
                        } else {
                            assert(ord_le(data@[x as int], data@[x as int]));
                        }
                    }
                } else {
                    if data@[x as int].cmp_spec(&data@[old_min]) == Ordering::Equal {
                        assert(data@[x as int].eq_spec(&data@[old_min]));
                        assert(data@[old_min].eq_spec(&data@[x as int]));
                        assert(data@[old_min].cmp_spec(&data@[x as int]) == Ordering::Equal);
                    } else {
                        assert(data@[x as int].cmp_spec(&data@[old_min]) == Ordering::Greater);
                        assert(data@[old_min].cmp_spec(&data@[x as int]) == Ordering::Less);
                    }
                    assert(ord_le(data@[old_min], data@[x as int]));
                }
            }
            x = x + 1;
        }
        let ghost pre = data@;
        proof {
            lemma_swap_preserves_multiset(data@, i as int, current_min as int);
        }
        vec_swap(data, i, current_min);
        proof {
            assert forall|j: int, k: int| 0 <= j < k < i + 1 implies #[trigger] ord_le(
                data@[j],
                data@[k],
            ) by {
                if k < i {
                    assert(data@[j] == pre[j]);
                    assert(data@[k] == pre[k]);
                } else {
                    assert(data@[j] == pre[j]);
                    assert(data@[k] == pre[current_min as int]);
                }
            }
            assert forall|j: int, k: int| 0 <= j < i + 1 <= k < size implies #[trigger] ord_le(
                data@[j],
                data@[k],
            ) by {
                if j < i {
                    assert(data@[j] == pre[j]);
                } else {
                    assert(data@[j] == pre[current_min as int]);
                }
                if k == current_min {
                    assert(data@[k] == pre[i as int]);
                } else {
                    assert(data@[k] == pre[k]);
                }
            }
        }
        i = i + 1;
    }
}

} // verus!
