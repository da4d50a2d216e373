//! A counter that only moves forward.

use vstd::prelude::*;

verus! {

/// A signed tally that starts at zero and grows by one per call.
pub struct Counter {
    value: i32,
}

impl Counter {
    /// The tally as a mathematical integer.
    pub closed spec fn value(&self) -> int {
        self.value as int
    }

    /// A counter at zero.
    pub fn new() -> (counter: Counter)
        ensures
            counter.value() == 0,
    {
        Counter { value: 0 }
    }

    /// The tally.
    pub fn current(&self) -> (now: i32)
        ensures
            now == self.value(),
    {
        self.value
    }

    /// Moves the tally forward by one and returns the new tally.
    pub fn increment(&mut self) -> (now: i32)
        requires
            old(self).value() < i32::MAX,
        ensures
            final(self).value() == old(self).value() + 1,
            now == final(self).value(),
    {
        self.value = self.value + 1;
        self.value
    }
}

} // verus!
