//! How long a producer tries for the lock.

use vstd::prelude::*;

verus! {

/// How many failed looks at the lock a producer makes before it gives up.
pub const SPIN_LIMIT: usize = 100_000;

/// What to do next to get the lock.
#[derive(Clone, Copy, Debug, PartialEq, Eq, Structural)]
pub enum SpinStep {
    /// Try to swap the lock from free to held.
    Exchange,
    /// Read the lock.
    Load,
    /// The lock is held by this producer.
    Acquired,
    /// The limit was reached.
    TimedOut,
}

/// An attempt to get the lock: what was tried last, and how often it failed.
#[derive(Clone, Copy, Debug)]
pub struct SpinAttempt {
    pub iterations: usize,
    pub step: SpinStep,
}

impl SpinAttempt {
    /// The limit is reached exactly when the attempt has timed out.
    pub open spec fn wf(&self) -> bool {
        &&& self.iterations <= SPIN_LIMIT
        &&& self.step == SpinStep::TimedOut <==> self.iterations == SPIN_LIMIT
    }

    pub fn new() -> (r: Self)
        ensures
            r.wf(),
            r.iterations == 0,
            r.step == SpinStep::Exchange,
    {
        SpinAttempt { iterations: 0, step: SpinStep::Exchange }
    }

    /// Takes the outcome of the step: whether the exchange succeeded, or whether
    /// the lock was seen free. A failed exchange leads to reading the lock, a
    /// lock seen free to another exchange, and every failure counts.
    pub fn advance(&mut self, success: bool)
        requires
            old(self).wf(),
            old(self).step == SpinStep::Exchange || old(self).step == SpinStep::Load,
        ensures
            final(self).wf(),
            success ==> final(self).iterations == old(self).iterations && final(self).step == (
            if old(self).step == SpinStep::Exchange {
                SpinStep::Acquired
            } else {
                SpinStep::Exchange
            }),
            !success ==> final(self).iterations == old(self).iterations + 1 && final(self).step
                == (if old(self).iterations + 1 >= SPIN_LIMIT {
                SpinStep::TimedOut
            } else {
                SpinStep::Load
            }),
    {
        if success {
            if self.step == SpinStep::Exchange {
                self.step = SpinStep::Acquired;
            } else {
                self.step = SpinStep::Exchange;
            }
        } else {
            self.iterations = self.iterations + 1;
            if self.iterations >= SPIN_LIMIT {
                self.step = SpinStep::TimedOut;
            } else {
                self.step = SpinStep::Load;
            }
        }
    }
}

} // verus!
