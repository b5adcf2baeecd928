//! Tracing toolkit.

pub mod agent;
pub mod archived;
pub mod bpf;
pub mod config;
pub mod converter;
pub mod laws;
pub mod mpscbuf;
pub mod perfetto;
pub mod power;
pub mod protocol;
mod random;
pub mod sink;
pub mod symbolizer;
pub mod table;
pub mod text;
pub mod tracing;
