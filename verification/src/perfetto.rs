//! Traces in the form that the trace viewer reads: a stream of packets.

pub mod packet;
pub mod writer;
