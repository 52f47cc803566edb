//! A singly-linked stack of `i32` values with verified push, pop and teardown.
//!
//! The list owns its nodes as one forward chain. Its contents are described
//! by a sequence, front first, and every operation states its effect on that
//! sequence:
//!
//! * [`model`] says what a push and a pop do to a sequence;
//! * [`list`] holds the list itself, whose operations are proved against the
//!   model;
//! * [`history`] describes whole series of calls and proves what holds of
//!   all of them, such as the last-in-first-out order.

pub mod history;
pub mod list;
pub mod model;

pub use list::List;
