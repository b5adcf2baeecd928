//! The trackers: what is asked of the kernel, and what is made of its answers.

pub mod address;
pub mod blockdev;
pub mod blocktrack;
pub mod cpuutil;
pub mod error;
pub mod nettrack;
pub mod perfcounter;
pub mod profiler;
pub mod schedtrace;
pub mod wire;
