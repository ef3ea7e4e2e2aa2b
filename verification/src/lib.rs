//! Generational-index arena: an allocator that issues reusable, versioned
//! handles, and per-kind value stores that are validated lazily against it.

pub mod allocator;
pub mod arena;
mod capacity;
pub mod components;
pub mod index;
pub mod indexed_array;
pub mod iter;
pub mod iter_mut;
pub mod store;
pub mod text;

pub use allocator::Allocator;
pub use arena::{ArenaState, Op};
pub use components::{CChildren, Component};
pub use index::Index;
pub use indexed_array::IndexedArray;
pub use iter::Iter;
pub use iter_mut::IterMut;
pub use store::{Entry, StoreState};
