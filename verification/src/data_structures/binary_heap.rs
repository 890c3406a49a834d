//! A binary max-heap.

use vstd::prelude::*;

verus! {

use crate::order::{lemma_ord_facts, ord_le, total_ordered};
use crate::vec_util::{lemma_swap_preserves_multiset, vec_swap};

/// Index of a node's parent.
pub fn parent(i: usize) -> (r: usize)
    requires
        i >= 1,
    ensures
        r == (i - 1) / 2,
{
    (i - 1) / 2
}

/// Index of a node's first child.
pub fn first_child(i: usize) -> (r: usize)
    requires
        2 * i + 1 <= usize::MAX,
    ensures
        r == 2 * i + 1,
{
    2 * i + 1
}

/// Index of a node's second child.
pub fn second_child(i: usize) -> (r: usize)
    requires
        2 * i + 2 <= usize::MAX,
    ensures
        r == 2 * i + 2,
{
    2 * i + 2
}

/// The shape the heap has while an element bubbles up from `hole`: every
/// node except `hole` is bounded by its parent, and `hole`'s children are
/// additionally bounded by `hole`'s parent.
spec fn heap_except_up<A: Ord>(s: Seq<A>, hole: int) -> bool {
    &&& forall|i: int| 1 <= i < s.len() && i != hole ==> ord_le(#[trigger] s[i], s[(i - 1) / 2])
    &&& hole >= 1 ==> forall|i: int|
        1 <= i < s.len() && (i - 1) / 2 == hole ==> ord_le(#[trigger] s[i], s[(hole - 1) / 2])
}

/// The shape the heap has while an element sinks down from `hole`: every
/// node except `hole`'s children is bounded by its parent, and `hole`'s
/// children are at least bounded by `hole`'s parent.
spec fn heap_except_down<A: Ord>(s: Seq<A>, hole: int) -> bool {
    &&& forall|i: int|
        1 <= i < s.len() && (i - 1) / 2 != hole ==> ord_le(#[trigger] s[i], s[(i - 1) / 2])
    &&& hole >= 1 ==> forall|i: int|
        1 <= i < s.len() && (i - 1) / 2 == hole ==> ord_le(#[trigger] s[i], s[(hole - 1) / 2])
}

/// An implementation of a binary heap.
///
/// This is a max-heap implementation.
pub struct BinaryHeap<A: Ord> {
    data: Vec<A>,
}

impl<A: Ord> View for BinaryHeap<A> {
    type V = Seq<A>;

    closed spec fn view(&self) -> Seq<A> {
        self.data@
    }
}

impl<A: Ord> BinaryHeap<A> {
    /// Every node is bounded by its parent: the root is the maximum.
    pub open spec fn wf(&self) -> bool {
        forall|i: int| 1 <= i < self@.len() ==> ord_le(#[trigger] self@[i], self@[(i - 1) / 2])
    }

    pub fn new() -> (r: BinaryHeap<A>)
        ensures
            r.wf(),
            r@ == Seq::<A>::empty(),
    {
        let r = BinaryHeap { data: Vec::new() };
        proof {
            assert(r@ =~= Seq::<A>::empty());
        }
        r
    }

    /// Returns the length of this heap.
    pub fn length(&self) -> (r: usize)
        ensures
            r == self@.len(),
    {
        self.data.len()
    }

    /// Pushes a new element into the heap.
    pub fn push(&mut self, element: A)
        requires
            total_ordered::<A>(),
            old(self).wf(),
        ensures
            final(self).wf(),
            final(self)@.to_multiset() == old(self)@.to_multiset().insert(element),
            final(self)@.len() == old(self)@.len() + 1,
    {
        broadcast use vstd::seq_lib::group_to_multiset_ensures;

        let length = self.data.len();
        let ghost pre = self.data@;
        self.data.push(element);
        proof {
            assert(self.data@.to_multiset() =~= pre.to_multiset().insert(element));
            assert forall|i: int|
                1 <= i < self.data@.len() && i != length as int implies ord_le(
                #[trigger] self.data@[i],
                self.data@[(i - 1) / 2],
            ) by {
                assert(self.data@[i] == pre[i]);
                assert(self.data@[(i - 1) / 2] == pre[(i - 1) / 2]);
                assert(ord_le(old(self)@[i], old(self)@[(i - 1) / 2]));
            }
            assert(heap_except_up(self.data@, length as int));
        }
        self.sift_up(length);
    }

    /// Pops out the most important element: the maximum of the heap.
    pub fn pop(&mut self) -> (r: Option<A>)
        requires
            total_ordered::<A>(),
            old(self).wf(),
        ensures
            final(self).wf(),
            old(self)@.len() == 0 ==> r is None && *final(self) == *old(self),
            old(self)@.len() > 0 ==> match r {
                Some(value) => {
                    &&& final(self)@.to_multiset() == old(self)@.to_multiset().remove(value)
                    &&& final(self)@.len() == old(self)@.len() - 1
                    &&& forall|i: int| 0 <= i < old(self)@.len() ==> ord_le(old(self)@[i], value)
                },
                None => false,
            },
    {
        broadcast use vstd::seq_lib::group_to_multiset_ensures;

        let length = self.data.len();
        if length == 0 {
            return None;
        }
        proof {
            lemma_ord_facts::<A>();
            assert forall|i: int| 0 <= i < self.data@.len() implies ord_le(
                self.data@[i],
                self.data@[0],
            ) by {
                Self::lemma_root_is_max(self.data@, i);
            }
        }
        if length == 1 {
            let ghost pre = self.data@;
            let value = self.data.pop();
            proof {
                assert(value == Some(pre[0]));
                assert(self.data@ =~= Seq::<A>::empty());
                assert(pre =~= self.data@.push(pre[0]));
                assert(pre.to_multiset() =~= self.data@.to_multiset().insert(pre[0]));
                assert(self.data@.to_multiset() =~= pre.to_multiset().remove(pre[0]));
            }
            return value;
        }
        let last = length - 1;
        let ghost pre = self.data@;
        proof {
            lemma_swap_preserves_multiset(self.data@, 0, last as int);
        }
        vec_swap(&mut self.data, 0, last);
        let ghost swapped = self.data@;
        let value = self.data.pop();
        proof {
            assert(value == Some(pre[0]));
            assert(swapped =~= self.data@.push(pre[0]));
            assert(swapped.to_multiset() == pre.to_multiset());
            assert(swapped.to_multiset() =~= self.data@.to_multiset().insert(pre[0]));
            assert(self.data@.to_multiset() =~= pre.to_multiset().remove(pre[0]));
            assert forall|i: int|
                1 <= i < self.data@.len() && (i - 1) / 2 != 0 implies ord_le(
                #[trigger] self.data@[i],
                self.data@[(i - 1) / 2],
            ) by {
                assert(self.data@[i] == pre[i]);
                assert(self.data@[(i - 1) / 2] == pre[(i - 1) / 2]);
                assert(ord_le(old(self)@[i], old(self)@[(i - 1) / 2]));
            }
            assert(heap_except_down(self.data@, 0));
        }
        self.sift_down(0);
        value
    }

    /// Restores the heap bound along the path from `current` to the root
    /// after a push placed a new element at `current`.
    fn sift_up(&mut self, current: usize)
        requires
            total_ordered::<A>(),
            current < old(self)@.len(),
            heap_except_up(old(self)@, current as int),
        ensures
            final(self).wf(),
            final(self)@.to_multiset() == old(self)@.to_multiset(),
            final(self)@.len() == old(self)@.len(),
        decreases current,
    {
        proof {
            lemma_ord_facts::<A>();
        }
        if current == 0 {
            return ;
        }
        let parent_index = (current - 1) / 2;
        let go_up = self.data[parent_index].lt(&self.data[current]);
        if !go_up {
            proof {
                assert(ord_le(self.data@[current as int], self.data@[parent_index as int]));
            }
            return ;
        }
        let ghost pre = self.data@;
        proof {
            lemma_swap_preserves_multiset(self.data@, parent_index as int, current as int);
        }
        vec_swap(&mut self.data, parent_index, current);
        proof {
            let s = self.data@;
            let c = current as int;
            let p = parent_index as int;
            assert(ord_le(pre[p], pre[c]));
            assert forall|i: int| 1 <= i < s.len() && i != p implies ord_le(
                #[trigger] s[i],
                s[(i - 1) / 2],
            ) by {
                if i == c {
                    assert(s[c] == pre[p]);
                    assert(s[(c - 1) / 2] == pre[c]);
                } else if (i - 1) / 2 == c {
                    assert(s[i] == pre[i]);
                    assert(s[c] == pre[p]);
                    assert(ord_le(pre[i], pre[(c - 1) / 2]));
                } else if (i - 1) / 2 == p {
                    assert(s[i] == pre[i]);
                    assert(s[p] == pre[c]);
                    assert(ord_le(pre[i], pre[p]));
                    assert(ord_le(pre[p], pre[c]));
                } else {
                    assert(s[i] == pre[i]);
                    assert(s[(i - 1) / 2] == pre[(i - 1) / 2]);
                }
            }
            if p >= 1 {
                assert forall|i: int| 1 <= i < s.len() && (i - 1) / 2 == p implies ord_le(
                    #[trigger] s[i],
                    s[(p - 1) / 2],
                ) by {
                    assert(s[(p - 1) / 2] == pre[(p - 1) / 2]);
                    if i == c {
                        assert(s[c] == pre[p]);
                        assert(ord_le(pre[p], pre[(p - 1) / 2]));
                    } else {
                        assert(s[i] == pre[i]);
                        assert(ord_le(pre[i], pre[p]));
                        assert(ord_le(pre[p], pre[(p - 1) / 2]));
                    }
                }
            }
            assert(heap_except_up(s, p));
        }
        self.sift_up(parent_index);
    }

    /// Restores the heap bound below `current` after a pop moved the last
    /// element to `current`.
    fn sift_down(&mut self, current: usize)
        requires
            total_ordered::<A>(),
            current < old(self)@.len(),
            heap_except_down(old(self)@, current as int),
        ensures
            final(self).wf(),
            final(self)@.to_multiset() == old(self)@.to_multiset(),
            final(self)@.len() == old(self)@.len(),
        decreases old(self)@.len() - current,
    {
        proof {
            lemma_ord_facts::<A>();
        }
        let length = self.data.len();
        if current >= length / 2 {
            proof {
                assert forall|i: int| 1 <= i < self.data@.len() implies ord_le(
                    #[trigger] self.data@[i],
                    self.data@[(i - 1) / 2],
                ) by {
                    assert((i - 1) / 2 != current as int);
                }
            }
            return ;
        }
        let first_index = 2 * current + 1;
        let second_index = first_index + 1;
        let largest = if second_index < length && self.data[first_index].lt(
            &self.data[second_index],
        ) {
            second_index
        } else {
            first_index
        };
        proof {
            if largest == first_index && second_index < length as int {
                assert(ord_le(self.data@[second_index as int], self.data@[first_index as int]));
            }
        }
        let go_down = self.data[current].lt(&self.data[largest]);
        if !go_down {
            proof {
                assert(ord_le(self.data@[largest as int], self.data@[current as int]));
                assert forall|i: int| 1 <= i < self.data@.len() implies ord_le(
                    #[trigger] self.data@[i],
                    self.data@[(i - 1) / 2],
                ) by {
                    if (i - 1) / 2 == current as int {
                        assert(i == first_index as int || i == second_index as int);
                        assert(ord_le(self.data@[i], self.data@[largest as int]));
                        assert(ord_le(self.data@[largest as int], self.data@[current as int]));
                    }
                }
            }
            return ;
        }
        let ghost pre = self.data@;
        proof {
            lemma_swap_preserves_multiset(self.data@, current as int, largest as int);
        }
        vec_swap(&mut self.data, current, largest);
        proof {
            let s = self.data@;
            let c = current as int;
            let l = largest as int;
            assert(ord_le(pre[c], pre[l]));
            assert forall|i: int| 1 <= i < s.len() && (i - 1) / 2 != l implies ord_le(
                #[trigger] s[i],
                s[(i - 1) / 2],
            ) by {
                if i == l {
                    assert(s[l] == pre[c]);
                    assert(s[c] == pre[l]);
                } else if i == c {
                    assert(s[c] == pre[l]);
                    assert(s[(c - 1) / 2] == pre[(c - 1) / 2]);
                    assert(ord_le(pre[l], pre[(c - 1) / 2]));
                } else if (i - 1) / 2 == c {
                    assert(s[i] == pre[i]);
                    assert(s[c] == pre[l]);
                    assert(ord_le(pre[i], pre[l]));
                } else {
                    assert(s[i] == pre[i]);
                    assert(s[(i - 1) / 2] == pre[(i - 1) / 2]);
                }
            }
            assert forall|i: int| 1 <= i < s.len() && (i - 1) / 2 == l implies ord_le(
                #[trigger] s[i],
                s[(l - 1) / 2],
            ) by {
                assert(s[i] == pre[i]);
                assert(s[(l - 1) / 2] == s[c] && s[c] == pre[l]);
                assert(ord_le(pre[i], pre[l]));
            }
            assert(heap_except_down(s, l));
        }
        self.sift_down(largest);
    }

    /// In a well-formed heap every element is bounded by the root.
    proof fn lemma_root_is_max(s: Seq<A>, i: int)
        requires
            total_ordered::<A>(),
            forall|j: int| 1 <= j < s.len() ==> ord_le(#[trigger] s[j], s[(j - 1) / 2]),
            0 <= i < s.len(),
        ensures
            ord_le(s[i], s[0]),
        decreases i,
    {
        lemma_ord_facts::<A>();
        if i == 0 {
            assert(ord_le(s[0], s[0]));
        } else {
            assert(ord_le(s[i], s[(i - 1) / 2]));
            Self::lemma_root_is_max(s, (i - 1) / 2);
        }
    }
}

} // verus!
