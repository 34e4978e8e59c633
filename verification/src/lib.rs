//! Asynchronous streams of elements, driven by a generator future.

pub mod poll;
pub mod functions;
pub mod tokens;
pub mod yielder;
pub mod async_stream;
pub mod sync_wrapper;
pub mod scrub;
pub mod expand;

pub use functions::{stream, try_stream, Stream};
