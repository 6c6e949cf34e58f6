//! The reaction to the timeout budget running out.

use vstd::prelude::*;

verus! {

/// The caller-supplied reaction to a timeout: a one-method hook that the
/// engine invokes at most once per run and otherwise knows nothing about.
pub trait TimeoutHandler {
    /// How many times the reaction has fired.
    /// Implementations meant for reasoning override this; the default is
    /// for implementations that only run, which nothing is proved about.
    open spec fn fired(&self) -> u64 {
        0
    }

    /// React to the timeout budget running out.
    fn on_timeout(&mut self)
        requires
            old(self).fired() < u64::MAX,
        ensures
            final(self).fired() == old(self).fired() + 1,
    ;
}

/// A handler that only counts how often the timeout fired.
pub struct CountingHandler {
    pub count: u64,
}

impl CountingHandler {
    /// A handler that has not fired yet.
    pub fn new() -> (handler: CountingHandler)
        ensures
            handler.fired() == 0,
    {
        CountingHandler { count: 0 }
    }
}

impl TimeoutHandler for CountingHandler {
    open spec fn fired(&self) -> u64 {
        self.count
    }

    fn on_timeout(&mut self) {
        self.count = self.count + 1;
    }
}

} // verus!
