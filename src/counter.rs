//! A monotonic counter.
use vstd::prelude::*;

verus! {

/// `a + b`, or `u64::MAX` where the sum does not fit.
pub open spec fn saturating_sum(a: u64, b: u64) -> u64 {
    if a + b > u64::MAX {
        u64::MAX
    } else {
        (a + b) as u64
    }
}

/// A monotonically increasing count of events, saturating at `u64::MAX`.
#[derive(Copy, Clone, Debug, Eq, PartialEq, Structural)]
pub struct Counter(pub u64);

impl Counter {
    /// A counter at zero.
    pub fn new() -> (r: Counter)
        ensures
            r.0 == 0,
    {
        Counter(0)
    }

    /// The current count.
    pub fn value(&self) -> (r: u64)
        ensures
            r == self.0,
    {
        self.0
    }

    /// Adds one, staying at `u64::MAX` on overflow.
    pub fn incr(&mut self)
        ensures
            final(self).0 == saturating_sum(old(self).0, 1),
    {
        self.0 = self.0.saturating_add(1);
    }

    /// Adds `n`, staying at `u64::MAX` on overflow.
    pub fn add(&mut self, n: u64)
        ensures
            final(self).0 == saturating_sum(old(self).0, n),
    {
        self.0 = self.0.saturating_add(n);
    }
}

} // verus!
