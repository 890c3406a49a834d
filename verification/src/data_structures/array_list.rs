//! A growable, mutable array type built on top of [`HeapArray`].

use vstd::prelude::*;

verus! {

use crate::data_structures::heap_array::HeapArray;
use vstd::slice::slice_subrange;

/// The starting capacity that [`ArrayList::new`] allocates.
pub const DEFAULT_CAPACITY: usize = 10;

/// An index fell outside the valid logical range for the operation.
#[derive(Clone, Copy, Debug, PartialEq, Eq, Structural)]
pub struct BoundsViolation;

/// An implementation of a growable and mutable array type, which is allocated
/// on the heap. The logical contents are the first `length` slots of the
/// backing [`HeapArray`]; the remaining slots are allocated but logically
/// absent. Whenever an insertion would make the length equal the capacity,
/// the capacity is doubled (a fresh backing array is allocated and the
/// contents are copied over). The list's capacity is the number of slots
/// allocated in the backing array, whatever capacity that array itself
/// reports.
pub struct ArrayList<A> {
    length: usize,
    elements: HeapArray<A>,
}

impl<A> View for ArrayList<A> {
    type V = Seq<A>;

    closed spec fn view(&self) -> Seq<A> {
        self.elements@.take(self.length as int)
    }
}

impl<A> ArrayList<A> {
    /// The logical length never exceeds the allocated capacity.
    pub closed spec fn wf(&self) -> bool {
        self.length <= self.elements@.len()
    }

    /// The allocated capacity of the backing array.
    pub closed spec fn spec_capacity(&self) -> nat {
        self.elements@.len()
    }

    /// The capacity an insertion grows to when the list is full: double the
    /// current capacity, or one slot when nothing is allocated yet.
    pub open spec fn grown_capacity(&self) -> nat {
        if self.spec_capacity() == 0 {
            1
        } else {
            2 * self.spec_capacity()
        }
    }

    /// Capacity after an operation that first makes room for one more
    /// element: unchanged unless the list was full, in which case it doubles.
    pub open spec fn capacity_after_growth(&self) -> nat {
        if self@.len() == self.spec_capacity() {
            self.grown_capacity()
        } else {
            self.spec_capacity()
        }
    }

    /// Growing is only needed when the list is full; doubling the capacity
    /// must then not overflow `usize`.
    pub open spec fn growth_fits(&self) -> bool {
        self@.len() == self.spec_capacity() ==> 2 * self.spec_capacity() <= usize::MAX
    }

    /// Returns the capacity of this list.
    pub fn capacity(&self) -> (r: usize)
        ensures
            r == self.spec_capacity(),
    {
        self.elements.slot_count()
    }

    /// Returns the number of elements in the list.
    pub fn length(&self) -> (r: usize)
        requires
            self.wf(),
        ensures
            r == self@.len(),
    {
        self.length
    }

    /// Reads the element at the given index.
    pub fn get(&self, index: usize) -> (r: &A)
        requires
            self.wf(),
            index < self@.len(),
        ensures
            *r == self@[index as int],
    {
        self.elements.get(index)
    }

    /// Overwrites the element at the given index.
    pub fn set(&mut self, index: usize, value: A)
        requires
            old(self).wf(),
            index < old(self)@.len(),
        ensures
            final(self).wf(),
            final(self)@ == old(self)@.update(index as int, value),
            final(self).spec_capacity() == old(self).spec_capacity(),
    {
        self.elements.set(index, value);
        proof {
            assert(self@ =~= old(self)@.update(index as int, value));
        }
    }

    /// Borrows the live elements as a contiguous slice; the unused tail
    /// capacity is never exposed.
    pub fn as_slice(&self) -> (r: &[A])
        requires
            self.wf(),
        ensures
            r@ == self@,
    {
        slice_subrange(self.elements.as_slice(), 0, self.length)
    }
}

impl<A: Default + Copy> ArrayList<A> {
    /// Creates a new array list with a default capacity of 10.
    pub fn new() -> (r: ArrayList<A>)
        ensures
            r.wf(),
            r@ == Seq::<A>::empty(),
            r.spec_capacity() == DEFAULT_CAPACITY,
    {
        let r = ArrayList { length: 0, elements: HeapArray::with_capacity(DEFAULT_CAPACITY) };
        proof {
            assert(r@ =~= Seq::<A>::empty());
        }
        r
    }

    /// Creates a new array list with the given capacity.
    pub fn with_capacity(capacity: usize) -> (r: ArrayList<A>)
        ensures
            r.wf(),
            r@ == Seq::<A>::empty(),
            r.spec_capacity() == capacity,
    {
        let r = ArrayList { length: 0, elements: HeapArray::with_capacity(capacity) };
        proof {
            assert(r@ =~= Seq::<A>::empty());
        }
        r
    }

    /// Replaces the backing array by one of twice the capacity when the list
    /// is full, so that one more element always fits afterwards.
    fn ensure_enough_capacity(&mut self)
        requires
            old(self).wf(),
            old(self).growth_fits(),
        ensures
            final(self).wf(),
            final(self)@ == old(self)@,
            final(self).length == old(self).length,
            final(self)@.len() < final(self).spec_capacity(),
            final(self).spec_capacity() == old(self).capacity_after_growth(),
    {
        let capacity = self.elements.slot_count();
        if self.length == capacity {
            let new_capacity = if capacity == 0 {
                1
            } else {
                capacity * 2
            };
            self.elements = self.elements.copy(new_capacity);
        }
        proof {
            assert(self@ =~= old(self)@);
        }
    }

    /// Adds an element to the end of the list.
    ///
    /// More capacity will be allocated if necessary.
    pub fn push(&mut self, element: A)
        requires
            old(self).wf(),
            old(self).growth_fits(),
        ensures
            final(self).wf(),
            final(self)@ == old(self)@.push(element),
            final(self).spec_capacity() == old(self).capacity_after_growth(),
    {
        self.ensure_enough_capacity();
        self.elements.set(self.length, element);
        proof {
            self.elements.lemma_slot_count_fits();
        }
        self.length = self.length + 1;
        proof {
            assert(self@ =~= old(self)@.push(element));
        }
    }

    /// Inserts an element at the given index, shifting every element at or
    /// after it one slot to the right.
    ///
    /// Fails without mutating anything when the index is larger than the
    /// length. More capacity will be allocated if necessary.
    pub fn insert(&mut self, index: usize, element: A) -> (r: Result<(), BoundsViolation>)
        requires
            old(self).wf(),
            index <= old(self)@.len() ==> old(self).growth_fits(),
        ensures
            final(self).wf(),
            index > old(self)@.len() ==> r == Err::<(), BoundsViolation>(BoundsViolation)
                && *final(self) == *old(self),
            index <= old(self)@.len() ==> r == Ok::<(), BoundsViolation>(()) && final(self)@
                == old(self)@.insert(index as int, element) && final(self).spec_capacity()
                == old(self).capacity_after_growth(),
    {
        if index > self.length {
            return Err(BoundsViolation);
        }
        self.ensure_enough_capacity();
        let ghost pre = self@;
        let mut i: usize = self.length;
        while i > index
            invariant
                index <= i <= self.length,
                self.wf(),
                self.length == old(self).length,
                self.length < self.elements@.len(),
                self.spec_capacity() == old(self).capacity_after_growth(),
                forall|j: int| 0 <= j < i ==> self.elements@[j] == pre[j],
                forall|j: int| i < j <= self.length ==> self.elements@[j] == pre[j - 1],
            decreases i,
        {
            self.elements.swap(i, i - 1);
            i = i - 1;
        }
        self.elements.set(index, element);
        proof {
            self.elements.lemma_slot_count_fits();
        }
        self.length = self.length + 1;
        proof {
            assert(self@ =~= pre.insert(index as int, element));
        }
        Ok(())
    }

    /// Removes the element at the given index, shifting every later element
    /// one slot to the left.
    ///
    /// Fails without mutating anything when the index is not smaller than the
    /// length.
    pub fn remove_at(&mut self, index: usize) -> (r: Result<(), BoundsViolation>)
        requires
            old(self).wf(),
        ensures
            final(self).wf(),
            index >= old(self)@.len() ==> r == Err::<(), BoundsViolation>(BoundsViolation)
                && *final(self) == *old(self),
            index < old(self)@.len() ==> r == Ok::<(), BoundsViolation>(()) && final(self)@
                == old(self)@.remove(index as int) && final(self).spec_capacity() == old(
                self,
            ).spec_capacity(),
    {
        if index >= self.length {
            return Err(BoundsViolation);
        }
        let ghost pre = self@;
        let mut i: usize = index;
        while i < self.length - 1
            invariant
                index <= i < self.length,
                self.wf(),
                self.length == old(self).length,
                self.spec_capacity() == old(self).spec_capacity(),
                forall|j: int| 0 <= j < index ==> self.elements@[j] == pre[j],
                forall|j: int| index <= j < i ==> self.elements@[j] == pre[j + 1],
                forall|j: int| i < j < self.length ==> self.elements@[j] == pre[j],
            decreases self.length - i,
        {
            self.elements.swap(i, i + 1);
            i = i + 1;
        }
        self.length = self.length - 1;
        proof {
            assert(self@ =~= pre.remove(index as int));
        }
        Ok(())
    }
}

/// After a push the logical sequence is one longer, every value already
/// present keeps its index and value, and the pushed element sits at the
/// end — as [`ArrayList::push`] ensures of its view.
pub proof fn lemma_push_preserves_prefix<A>(s: Seq<A>, element: A)
    ensures
        s.push(element).len() == s.len() + 1,
        forall|i: int| 0 <= i < s.len() ==> s.push(element)[i] == s[i],
        s.push(element)[s.len() as int] == element,
{
}

/// Inserting an element at an index and then removing it at the same index
/// leaves the logical sequence unchanged, and so does removing an element and
/// then inserting the removed value back at the same index.
pub proof fn lemma_insert_remove_round_trip<A>(s: Seq<A>, index: int, element: A)
    requires
        0 <= index <= s.len(),
    ensures
        s.insert(index, element).remove(index) == s,
        index < s.len() ==> s.remove(index).insert(index, s[index]) == s,
{
    assert(s.insert(index, element).remove(index) =~= s);
    if index < s.len() {
        assert(s.remove(index).insert(index, s[index]) =~= s);
    }
}

} // verus!
