//! An ordered map kept as a vector of key-value entries, sorted by key,
//! with lookup, insertion and removal by binary search.
//!
//! `model` states what each operation does over the sequence of entries,
//! `laws` proves how the operations relate, and `collection` holds the
//! executable operations with contracts over that model.

pub mod collection;
pub mod entry;
pub mod laws;
pub mod model;
pub mod order;

pub use collection::{SortedCollection, SortedVecMap};
pub use entry::{get_key, SortedEntry};
