//! The process id under which a traced process reports.

use crate::protocol::{label_get, Args, ArgsView, Value, ValueView};
use vstd::prelude::*;

verus! {

/// The option by which a client asks for a made-up process id.
pub const RANDOM_PROCESS_ID_OPTION: &'static str = "random_process_id";

/// What a start does to the reported process id.
#[derive(Debug, Clone, Copy, PartialEq, Eq, Structural)]
pub enum ProcessIdChange {
    /// Report a random id.
    Random,
    /// Report the real id.
    Reset,
    /// Leave it as it is.
    Keep,
}

/// What the arguments of a start ask for: a random id if the option is true, the
/// real one if it is false or not given, and no change if it is no boolean.
pub open spec fn requested_change(args: ArgsView) -> ProcessIdChange {
    match label_get(args.options, RANDOM_PROCESS_ID_OPTION@) {
        Some(ValueView::Bool(true)) => ProcessIdChange::Random,
        Some(ValueView::Bool(false)) => ProcessIdChange::Reset,
        None => ProcessIdChange::Reset,
        Some(_) => ProcessIdChange::Keep,
    }
}

pub fn process_id_change(args: &Args) -> (r: ProcessIdChange)
    ensures
        r == requested_change(args@),
{
    match args.option(RANDOM_PROCESS_ID_OPTION) {
        Some(Value::Bool(use_random)) => if *use_random {
            ProcessIdChange::Random
        } else {
            ProcessIdChange::Reset
        },
        None => ProcessIdChange::Reset,
        Some(_) => ProcessIdChange::Keep,
    }
}

/// The magnitude of `n`; the smallest number, which has none, stands for itself.
pub open spec fn magnitude(n: i32) -> i32 {
    if n == i32::MIN {
        n
    } else if n < 0 {
        (-n) as i32
    } else {
        n
    }
}

/// `rand::random`, for an `i32`: any value may come back.
#[verifier::external_body]
fn random_i32() -> (r: i32) {
    rand::random::<i32>()
}

/// The process id that is reported, and the real one.
#[derive(Debug, Clone, Copy)]
pub struct ProcessId {
    pub reported: i32,
    pub own: i32,
}

impl ProcessId {
    /// Reports the real id.
    pub fn new(own: i32) -> (r: Self)
        ensures
            r.reported == own,
            r.own == own,
    {
        ProcessId { reported: own, own }
    }

    pub fn get_process_id(&self) -> (r: i32)
        ensures
            r == self.reported,
    {
        self.reported
    }

    pub fn set_process_id(&mut self, id: i32)
        ensures
            final(self).reported == id,
            final(self).own == old(self).own,
    {
        self.reported = id;
    }

    pub fn reset_process_id(&mut self)
        ensures
            final(self).reported == old(self).own,
            final(self).own == old(self).own,
    {
        self.reported = self.own;
    }

    /// Makes a change, with `random` as the number that was drawn for it.
    pub fn apply(&mut self, change: ProcessIdChange, random: i32)
        ensures
            final(self).own == old(self).own,
            final(self).reported == (match change {
                ProcessIdChange::Random => magnitude(random),
                ProcessIdChange::Reset => old(self).own,
                ProcessIdChange::Keep => old(self).reported,
            }),
    {
        match change {
            ProcessIdChange::Random => {
                let id: i32 = if random < 0 && random != i32::MIN {
                    -random
                } else {
                    random
                };
                self.set_process_id(id);
            },
            ProcessIdChange::Reset => self.reset_process_id(),
            ProcessIdChange::Keep => {},
        }
    }

    /// Makes a change, drawing a number where it needs one. Which id is reported
    /// after a random change is left to chance.
    pub fn change(&mut self, change: ProcessIdChange)
        ensures
            final(self).own == old(self).own,
            change == ProcessIdChange::Random ==> final(self).reported >= 0 || final(self).reported
                == i32::MIN,
            change == ProcessIdChange::Reset ==> final(self).reported == old(self).own,
            change == ProcessIdChange::Keep ==> final(self).reported == old(self).reported,
    {
        let random: i32 = match change {
            ProcessIdChange::Random => random_i32(),
            _ => 0,
        };
        self.apply(change, random);
    }
}

} // verus!
