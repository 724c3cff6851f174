//! A doubly-linked list with verified contracts.
//!
//! [`List`] owns its elements and takes pushes and pops at both ends in
//! constant time. Its nodes live in an arena and name their neighbours by
//! index, so that no node is owned twice. Every list is viewed as the
//! sequence of its elements from front to back, and every contract is stated
//! over that sequence.
//!
//! - [`list`]: the list and its operations.
//! - [`iter`]: the owning, the shared and the exclusive iterator.
//! - [`cursor`]: a cursor that walks round the list and its ghost position.
//! - [`compare`]: equality and lexicographic order.
//! - [`hash`] and [`render`]: hashing and the debug text.
//! - [`model`]: the operations on plain sequences, and what follows from
//!   the contracts for every run of them.
//! - [`chain`]: the arena of linked nodes underneath.

pub mod chain;
pub mod compare;
pub mod cursor;
pub mod hash;
pub mod iter;
pub mod list;
pub mod model;
pub mod render;

pub use chain::Link;
pub use chain::Node;
pub use cursor::CursorMut;
pub use iter::IntoIter;
pub use iter::Iter;
pub use iter::IterMut;
pub use list::List;
