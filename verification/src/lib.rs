//! A singly-linked LIFO stack with three iteration modes (owning, shared,
//! mutable) and an explicit iterative teardown that never recurses into the
//! chain of nodes.

pub mod stack;

pub use stack::IntoIter;
pub use stack::Iter;
pub use stack::IterMut;
pub use stack::List;
