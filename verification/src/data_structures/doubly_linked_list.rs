//! A doubly linked list.

use vstd::prelude::*;

verus! {

/// One node of the list: its value, and the indices of its neighbours in the
/// backing arena. `prev` is a non-owning back-reference used only for
/// traversal; `next` identifies the node this one owns.
struct Node<A> {
    prev: Option<usize>,
    next: Option<usize>,
    value: A,
}

/// A doubly linked list with O(1) append and O(1) access to both ends.
///
/// The nodes live in an arena, and the links between them are indices into
/// it, so every node is owned exactly once (by the arena) while the chain
/// structure — each node pointing at its successor and back at its
/// predecessor — is kept as data and maintained as an invariant.
pub struct DoublyLinkedList<A> {
    nodes: Vec<Node<A>>,
    first: Option<usize>,
    last: Option<usize>,
    length: usize,
}

impl<A> View for DoublyLinkedList<A> {
    type V = Seq<A>;

    closed spec fn view(&self) -> Seq<A> {
        Seq::new(self.nodes@.len(), |i: int| self.nodes@[i].value)
    }
}

impl<A> DoublyLinkedList<A> {
    /// The chain invariant: `first` is none exactly when the list is empty,
    /// and following `next` from `first` visits every node in order, ending
    /// at `last`, while `prev` links point the other way.
    pub closed spec fn wf(&self) -> bool {
        &&& self.nodes@.len() == self.length
        &&& (self.length == 0 ==> self.first is None && self.last is None)
        &&& (self.length > 0 ==> self.first == Some(0usize) && self.last == Some(
            (self.length - 1) as usize,
        ))
        &&& forall|i: int|
            0 <= i < self.length ==> (#[trigger] self.nodes@[i].prev) == (if i == 0 {
                None
            } else {
                Some((i - 1) as usize)
            })
        &&& forall|i: int|
            0 <= i < self.length ==> (#[trigger] self.nodes@[i].next) == (if i + 1
                == self.length {
                None
            } else {
                Some((i + 1) as usize)
            })
    }

    pub fn new() -> (r: DoublyLinkedList<A>)
        ensures
            r.wf(),
            r@ == Seq::<A>::empty(),
    {
        let r = DoublyLinkedList { nodes: Vec::new(), first: None, last: None, length: 0 };
        proof {
            assert(r@ =~= Seq::<A>::empty());
        }
        r
    }

    /// Releases every node, resetting the list to empty.
    pub fn clear(&mut self)
        requires
            old(self).wf(),
        ensures
            final(self).wf(),
            final(self)@ == Seq::<A>::empty(),
    {
        self.nodes.clear();
        self.first = None;
        self.last = None;
        self.length = 0;
        proof {
            assert(self@ =~= Seq::<A>::empty());
        }
    }

    /// Appends a value at the end of the list. The new node becomes both
    /// first and last when the list was empty; otherwise it is linked behind
    /// the current last node. O(1), no traversal.
    pub fn append(&mut self, value: A)
        requires
            old(self).wf(),
        ensures
            final(self).wf(),
            final(self)@ == old(self)@.push(value),
    {
        let new_index = self.nodes.len();
        let previous_last = self.last;
        let node = Node { prev: previous_last, next: None, value };
        self.nodes.push(node);
        proof {
            assert(self.nodes.len() == self.nodes@.len());
        }
        match previous_last {
            Some(last_index) => {
                let node_ref = &mut self.nodes[last_index];
                node_ref.next = Some(new_index);
            },
            None => {
                self.first = Some(new_index);
            },
        }
        self.last = Some(new_index);
        self.length = self.length + 1;
        proof {
            assert(self@ =~= old(self)@.push(value));
        }
    }

    /// Retrieves the first value, or none if the list is empty.
    pub fn first(&self) -> (r: Option<&A>)
        requires
            self.wf(),
        ensures
            match r {
                Some(value) => self@.len() > 0 && *value == self@[0],
                None => self@.len() == 0,
            },
    {
        match self.first {
            Some(index) => Some(&self.nodes[index].value),
            None => None,
        }
    }

    /// Retrieves the last value, or none if the list is empty.
    pub fn last(&self) -> (r: Option<&A>)
        requires
            self.wf(),
        ensures
            match r {
                Some(value) => self@.len() > 0 && *value == self@[self@.len() - 1],
                None => self@.len() == 0,
            },
    {
        match self.last {
            Some(index) => Some(&self.nodes[index].value),
            None => None,
        }
    }

    /// Returns the number of values in the list.
    pub fn len(&self) -> (r: usize)
        requires
            self.wf(),
        ensures
            r == self@.len(),
    {
        self.length
    }

    /// Returns whether the list holds no values.
    pub fn is_empty(&self) -> (r: bool)
        requires
            self.wf(),
        ensures
            r == (self@.len() == 0),
    {
        self.length == 0
    }
}

/// Appending to an empty list makes the first and the last value one and
/// the same: the ends that [`DoublyLinkedList::first`] and
/// [`DoublyLinkedList::last`] report after [`DoublyLinkedList::append`].
pub proof fn lemma_append_to_empty<A>(s: Seq<A>, value: A)
    requires
        s.len() == 0,
    ensures
        s.push(value).first() == value,
        s.push(value).last() == value,
{
}

} // verus!
