//! The capability to pause execution.

use vstd::prelude::*;

verus! {

/// Something that can pause the calling thread.
///
/// `sleeps()` is the record of the calls made so far, each entry the number
/// of seconds requested, and `sleep` appends to it.  A real implementation
/// blocks the thread for about that long; a recording one only logs, so the
/// engine can be exercised without elapsed time.
pub trait Sleeper {
    /// The durations handed to every `sleep` call so far, in order.
    /// Implementations meant for reasoning override this; the default is
    /// for implementations that only run, which nothing is proved about.
    open spec fn sleeps(&self) -> Seq<u64> {
        Seq::empty()
    }

    /// Pause for about `seconds` seconds; a zero duration returns at once.
    fn sleep(&mut self, seconds: u64)
        ensures
            final(self).sleeps() == old(self).sleeps().push(seconds),
    ;
}

/// A sleeper that does not sleep: it only records what it was asked to do.
pub struct RecordingSleeper {
    pub slept: Vec<u64>,
}

impl RecordingSleeper {
    /// A recording sleeper with an empty history.
    pub fn new() -> (sleeper: RecordingSleeper)
        ensures
            sleeper.sleeps() == Seq::<u64>::empty(),
    {
        RecordingSleeper { slept: Vec::new() }
    }
}

impl Sleeper for RecordingSleeper {
    open spec fn sleeps(&self) -> Seq<u64> {
        self.slept@
    }

    fn sleep(&mut self, seconds: u64) {
        self.slept.push(seconds);
    }
}

} // verus!
