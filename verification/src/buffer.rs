//! Contiguous memory regions of plain-data values.

pub mod allocator;
pub mod bitmap;
pub mod bytes;
pub mod capacity;
pub mod immutable;
pub mod mutable;
pub mod util;

pub use immutable::Buffer;
pub use mutable::MutableBuffer;
