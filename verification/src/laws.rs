//! What the parts of the library promise, stated of what goes in and what comes out.

pub mod addresses;
pub mod agent;
pub mod archive;
pub mod block_io;
pub mod counters;
pub mod cpu_time;
pub mod devices;
pub mod history;
pub mod network;
pub mod records;
pub mod requests;
pub mod ring;
pub mod scheduler;
pub mod stacks;
pub mod texts;
pub mod trace;
pub mod tracing;
