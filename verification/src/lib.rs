//! Collections of a fixed capacity, which never reallocate.

pub mod error;
pub mod iter;
pub mod laws;
pub mod model;
pub mod ring_buffer;

pub use error::{EmptyCollectionError, FullCollectionError};
pub use iter::Iter;
pub use ring_buffer::RingBuffer;
