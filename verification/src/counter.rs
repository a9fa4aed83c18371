//! A trivial process-local counter.

use vstd::prelude::*;

verus! {

/// A counter over the full `u64` range; incrementing past the maximum
/// wraps to zero.
pub struct Counter {
    count: u64,
}

impl View for Counter {
    type V = u64;

    closed spec fn view(&self) -> u64 {
        self.count
    }
}

impl Counter {
    /// A counter starting at zero.
    pub fn new() -> (r: Counter)
        ensures
            r@ == 0,
    {
        Counter { count: 0 }
    }

    /// Add one, wrapping at the top of the range, and return the new value.
    pub fn increment(&mut self) -> (r: u64)
        ensures
            final(self)@ == (old(self)@ + 1) % (u64::MAX + 1),
            r == final(self)@,
    {
        let val = self.count.wrapping_add(1);
        self.count = val;
        val
    }

    /// The current value.
    pub fn get_count(&self) -> (r: u64)
        ensures
            r == self@,
    {
        self.count
    }

    /// Overwrite the value and return it.
    pub fn set_count(&mut self, value: u64) -> (r: u64)
        ensures
            final(self)@ == value,
            r == value,
    {
        self.count = value;
        value
    }
}

} // verus!
