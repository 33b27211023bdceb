//! Pipelines of contiguous data: circular buffers, slice streams and the
//! cursors that read and write them, with their arithmetic and their
//! read-what-was-written guarantee proved.

pub mod arith;
pub mod buffer;
pub mod circular_buffer;
pub mod error;
pub mod io;
pub mod lazy;
pub mod slice;
pub mod splittable;
pub mod stream;
pub mod transform;
pub mod unsafe_circular_buffer;
pub mod view;
pub mod vm;
