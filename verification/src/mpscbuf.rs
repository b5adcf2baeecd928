//! A ring buffer with many producers and one consumer.
//!
//! A record is a header of eight bytes followed by its data, padded to a
//! multiple of eight. A producer reserves room for a record under a lock, fills
//! it in, and then commits or discards it; the consumer takes the committed
//! records in the order in which they were reserved, passes over the discarded
//! ones, and waits at one that is still being filled.

pub mod common;
pub mod consumer;
pub mod error;
pub mod producer;
pub mod ringbuf;
pub mod sync;
