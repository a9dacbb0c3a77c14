//! Storage: the node store and its similarity index.

pub mod laws;
pub mod maps;
pub mod memory;
pub mod select;
pub mod vector_index;

pub use memory::MemoryStorage;
pub use vector_index::VectorIndex;
