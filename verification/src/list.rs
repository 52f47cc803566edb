//! The list, its nodes and its operations.

use crate::model::{front, popped, pushed};
use vstd::prelude::*;

verus! {

/// A basic linked list.
///
/// Its view is the sequence of its elements, front first.
pub struct List {
    head: Link,
}

/// A slot that owns either nothing or exactly one node.
enum Link {
    Empty,
    More(Box<Node>),
}

/// One element and the link to the rest of the chain.
struct Node {
    elem: i32,
    next: Link,
}

impl Link {
    /// The elements reachable from this link, nearest first.
    spec fn elems(self) -> Seq<i32>
        decreases self,
    {
        match self {
            Link::Empty => Seq::empty(),
            Link::More(node) => seq![node.elem] + node.next.elems(),
        }
    }
}

/// Moves the content out of a slot and leaves the slot empty.
fn detach(link: &mut Link) -> (taken: Link)
    ensures
        taken == *old(link),
        *final(link) == Link::Empty,
    opens_invariants none
    no_unwind
{
    let mut taken = Link::Empty;
    std::mem::swap(link, &mut taken);
    taken
}

impl View for List {
    type V = Seq<i32>;

    /// The elements of the list, front first.
    closed spec fn view(&self) -> Seq<i32> {
        self.head.elems()
    }
}

impl List {
    /// Returns a new, empty list.
    pub fn new() -> (list: Self)
        ensures
            list@ == Seq::<i32>::empty(),
    {
        List { head: Link::Empty }
    }

    /// Adds an element to the beginning of the list.
    pub fn push(&mut self, elem: i32)
        ensures
            final(self)@ == pushed(old(self)@, elem),
    {
        let new_node = Link::More(Box::new(Node { elem: elem, next: detach(&mut self.head) }));
        self.head = new_node;
    }

    /// Removes the element at the front of the list and returns it. Where the
    /// list is empty, returns `None` and leaves it empty.
    pub fn pop(&mut self) -> (elem: Option<i32>)
        ensures
            elem == front(old(self)@),
            final(self)@ == popped(old(self)@),
    {
        match detach(&mut self.head) {
            Link::Empty => None,
            Link::More(node) => {
                self.head = node.next;
                Some(node.elem)
            },
        }
    }
}

impl Drop for List {
    /// Releases the nodes one at a time: each node is cut off from its
    /// successor before it is released, so that releasing it releases nothing
    /// else and the depth of the call stack does not grow with the list.
    fn drop(&mut self)
        ensures
            final(self)@ == Seq::<i32>::empty(),
        opens_invariants none
        no_unwind
    {
        let mut curr_node = detach(&mut self.head);
        loop
            invariant
                self.head == Link::Empty,
            decreases curr_node.elems().len(),
        {
            match curr_node {
                Link::Empty => {
                    break;
                },
                Link::More(mut node) => {
                    curr_node = detach(&mut node.next);
                },
            }
        }
    }
}

} // verus!
