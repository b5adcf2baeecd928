//! The configuration of a collection.

use crate::agent::process_id::RANDOM_PROCESS_ID_OPTION;
use crate::protocol::{Value, ValueView};
use vstd::prelude::*;

verus! {

/// What holds for the whole collection.
#[derive(Debug, Clone, Copy, PartialEq, Eq, Structural)]
pub struct GlobalConfig {
    pub buffer_size: usize,
}

impl Default for GlobalConfig {
    fn default() -> (r: Self)
        ensures
            r.buffer_size == 0,
    {
        GlobalConfig { buffer_size: 0 }
    }
}

impl GlobalConfig {
    /// What holds unless it is configured: a buffer of eight mebibytes.
    pub fn preset() -> (r: Self)
        ensures
            r.buffer_size == 0x80_0000,
    {
        GlobalConfig { buffer_size: 0x80_0000 }
    }
}

/// A process to be traced through its agent.
#[derive(Debug)]
pub struct UserConfig {
    pub socket: String,
    pub log_filter: String,
    pub random_process_id: Option<bool>,
}

/// The options for a process whose id is to be random, or not, or is not mentioned.
pub open spec fn options_for(random_process_id: Option<bool>) -> Seq<(Seq<char>, ValueView)> {
    match random_process_id {
        Some(random) => seq![(RANDOM_PROCESS_ID_OPTION@, ValueView::Bool(random))],
        None => seq![],
    }
}

impl UserConfig {
    /// The process whose agent listens at `socket`, traced from the level DEBUG on.
    pub fn preset(socket: String) -> (r: Self)
        ensures
            r.socket@ == socket@,
            r.log_filter@ == "DEBUG"@,
            r.random_process_id is None,
    {
        UserConfig { socket, log_filter: "DEBUG".to_owned(), random_process_id: None }
    }

    /// The options that its agent is started with.
    pub fn options(&self) -> (r: Vec<(String, Value)>)
        ensures
            r@.map_values(|p: (String, Value)| (p.0@, p.1@)) == options_for(
                self.random_process_id,
            ),
    {
        let mut r: Vec<(String, Value)> = Vec::new();
        if let Some(random) = self.random_process_id {
            r.push((RANDOM_PROCESS_ID_OPTION.to_owned(), Value::Bool(random)));
        }
        assert(r@.map_values(|p: (String, Value)| (p.0@, p.1@)) =~= options_for(
            self.random_process_id,
        ));
        r
    }
}

/// What to collect.
#[derive(Debug)]
pub struct Config {
    pub global: GlobalConfig,
    pub user: Vec<UserConfig>,
}

/// How often a client tells its agent that it is alive.
pub const KEEPALIVE_NS: u64 = 1_000_000_000;

/// Whether a sign of life is due.
pub fn keepalive_due(elapsed_ns: u64) -> (r: bool)
    ensures
        r == (elapsed_ns >= KEEPALIVE_NS),
{
    elapsed_ns >= KEEPALIVE_NS
}

} // verus!
