//! A fixed-capacity mutable array allocated on the heap.

use vstd::prelude::*;

verus! {

use crate::vec_util::vec_swap;
use vstd::layout::size_of;

/// A value that `A::default()` could have returned.
pub open spec fn is_default<A: Default>(a: A) -> bool {
    call_ensures(A::default, (), a)
}

/// An implementation of a fixed-size mutable array, which is allocated on the
/// heap. Every slot always holds a live value; freshly allocated slots hold
/// the element type's default value. The capacity never changes after
/// allocation: resizing means building a new array with [`HeapArray::copy`].
/// A zero-size element type needs no storage, so such an array reports an
/// unbounded capacity.
pub struct HeapArray<A> {
    elements: Vec<A>,
}

impl<A> View for HeapArray<A> {
    type V = Seq<A>;

    closed spec fn view(&self) -> Seq<A> {
        self.elements@
    }
}

impl<A: Default> HeapArray<A> {
    /// Creates a new HeapArray by allocating the given amount of capacity,
    /// with every slot set to the element type's default value. Zero-size
    /// element types yield an unbounded reported capacity.
    ///
    /// There is no way to increase or decrease capacity afterwards.
    pub fn with_capacity(capacity: usize) -> (r: HeapArray<A>)
        ensures
            r@.len() == capacity,
            forall|i: int| 0 <= i < capacity ==> is_default(#[trigger] r@[i]),
            r.spec_capacity() == if size_of::<A>() == 0 {
                usize::MAX as int
            } else {
                capacity as int
            },
    {
        let mut elements: Vec<A> = Vec::new();
        while elements.len() < capacity
            invariant
                elements@.len() <= capacity,
                forall|i: int| 0 <= i < elements@.len() ==> is_default(#[trigger] elements@[i]),
            decreases capacity - elements@.len(),
        {
            elements.push(A::default());
        }
        HeapArray { elements }
    }
}

impl<A> HeapArray<A> {
    /// The capacity this array reports: unbounded for zero-size element
    /// types, which need no storage, and otherwise the number of allocated
    /// slots.
    pub open spec fn spec_capacity(&self) -> int {
        if size_of::<A>() == 0 {
            usize::MAX as int
        } else {
            self@.len() as int
        }
    }

    /// Returns the capacity for this array. Zero-size element types yield
    /// unbounded capacity.
    pub fn capacity(&self) -> (r: usize)
        ensures
            r == self.spec_capacity(),
    {
        if core::mem::size_of::<A>() == 0 {
            usize::MAX
        } else {
            self.elements.len()
        }
    }

    /// The number of slots actually allocated, which the view counts; it
    /// equals the reported capacity except for zero-size element types.
    pub fn slot_count(&self) -> (r: usize)
        ensures
            r == self@.len(),
    {
        self.elements.len()
    }

    /// Reads the value at the given index.
    pub fn get(&self, index: usize) -> (r: &A)
        requires
            index < self@.len(),
        ensures
            *r == self@[index as int],
    {
        &self.elements[index]
    }

    /// Overwrites the value at the given index.
    pub fn set(&mut self, index: usize, value: A)
        requires
            index < old(self)@.len(),
        ensures
            final(self)@ == old(self)@.update(index as int, value),
    {
        self.elements[index] = value;
    }

    /// Swaps the elements at given indices.
    pub fn swap(&mut self, a: usize, b: usize)
        requires
            a < old(self)@.len(),
            b < old(self)@.len(),
        ensures
            final(self)@ == old(self)@.update(a as int, old(self)@[b as int]).update(
                b as int,
                old(self)@[a as int],
            ),
    {
        vec_swap(&mut self.elements, a, b);
    }

    /// The allocation is a real `Vec`, so its slot count fits in `usize`.
    pub proof fn lemma_slot_count_fits(&self)
        ensures
            self@.len() <= usize::MAX,
    {
        assert(self.elements.len() == self.elements@.len());
    }

    /// Borrows the whole allocation as a slice.
    pub fn as_slice(&self) -> (r: &[A])
        ensures
            r@ == self@,
    {
        self.elements.as_slice()
    }
}

impl<A: Default + Copy> HeapArray<A> {
    /// Creates a new array with the given capacity and copies the contents to
    /// it. The first `min(self.capacity(), capacity)` slots are copied from
    /// this array; any remaining new slots keep their default value.
    pub fn copy(&self, capacity: usize) -> (r: HeapArray<A>)
        ensures
            r@.len() == capacity,
            forall|i: int| 0 <= i < self@.len() && i < capacity ==> r@[i] == self@[i],
            forall|i: int| self@.len() <= i < capacity ==> is_default(#[trigger] r@[i]),
    {
        let mut new_array = HeapArray::<A>::with_capacity(capacity);
        let count = if self.elements.len() < capacity {
            self.elements.len()
        } else {
            capacity
        };
        let mut i: usize = 0;
        while i < count
            invariant
                count <= self@.len(),
                count <= new_array@.len(),
                capacity == new_array@.len(),
                i <= count,
                forall|j: int| 0 <= j < i ==> new_array@[j] == self@[j],
                forall|j: int| self@.len() <= j < capacity ==> is_default(#[trigger] new_array@[j]),
                forall|j: int| count <= j < capacity ==> is_default(#[trigger] new_array@[j]),
            decreases count - i,
        {
            new_array.set(i, *self.get(i));
            i += 1;
        }
        new_array
    }
}

} // verus!
