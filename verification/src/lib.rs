//! A growable, contiguous sequence container with explicit capacity
//! bookkeeping, backed by a byte-level allocator model.

pub mod allocator;
pub mod capacity;
pub mod growable;

pub use allocator::ByteAllocator;
pub use growable::JVec;
pub use growable::JVecError;
