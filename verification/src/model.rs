//! What the operations of the list do to its contents.
//!
//! The contents of a list are a sequence with the front of the list at
//! index 0.

use vstd::prelude::*;

verus! {

/// The contents once `elem` has been pushed onto a list that held `s`.
pub open spec fn pushed(s: Seq<i32>, elem: i32) -> Seq<i32> {
    seq![elem] + s
}

/// What a pop returns from a list that holds `s`: the element at the front,
/// or `None` where there is none.
pub open spec fn front(s: Seq<i32>) -> Option<i32> {
    if s.len() > 0 {
        Some(s[0])
    } else {
        None
    }
}

/// The contents that a pop leaves of a list that held `s`: all but the front,
/// or nothing where the list was empty already.
pub open spec fn popped(s: Seq<i32>) -> Seq<i32> {
    if s.len() > 0 {
        s.drop_first()
    } else {
        Seq::empty()
    }
}

} // verus!
