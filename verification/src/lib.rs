//! A fixed-capacity bump (arena) allocator over a byte region.
//!
//! The arena owns a byte buffer and a monotonically advancing cursor.
//! Allocation hands out non-overlapping sub-ranges of the region as
//! offset/length handles; bytes are read and written through the arena
//! itself, so granted ranges can never alias each other.

pub mod buffer;
pub mod laws;
pub mod model;

pub use buffer::Buffer;
pub use buffer::Chunk;
pub use buffer::ChunkMut;
pub use model::fits;
pub use model::step;
