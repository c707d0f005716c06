//! Fixed-size building blocks for code that runs without a heap.
//!
//! The centre of the crate is [`ring_buffer::RingBuffer`], a circular queue
//! laid over storage that the caller lends to it. Every operation has a
//! contract over the buffer's content, a `Seq` of its elements from oldest
//! to newest; [`model`] says what each operation does to such a sequence,
//! and [`indexing`] holds the arithmetic of the two cursors.
//!
//! Beside it stand an array of eight elements ([`array::RArray`]), a
//! half-open range of indices ([`range::FluxRange`]) and the bit fields of
//! 8-bit and 32-bit registers ([`registers`]), which compute their masks and
//! values with `tock_registers`.

pub mod array;
pub mod indexing;
pub mod model;
pub mod range;
pub mod registers;
pub mod ring_buffer;
mod tock;
