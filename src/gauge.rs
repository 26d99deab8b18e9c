//! An instantaneous value.
use vstd::prelude::*;

verus! {

/// An instantaneous metric value, which saturates at `0` and at `u64::MAX`.
#[derive(Copy, Clone, Debug, Eq, PartialEq, Structural)]
pub struct Gauge(pub u64);

impl Gauge {
    /// A gauge at zero.
    pub fn new() -> (r: Gauge)
        ensures
            r.0 == 0,
    {
        Gauge(0)
    }

    /// A gauge holding `n`.
    pub fn from_value(n: u64) -> (r: Gauge)
        ensures
            r.0 == n,
    {
        Gauge(n)
    }

    /// The current value.
    pub fn value(&self) -> (r: u64)
        ensures
            r == self.0,
    {
        self.0
    }

    /// Sets the value to `n`.
    pub fn set(&mut self, n: u64)
        ensures
            final(self).0 == n,
    {
        self.0 = n;
    }

    /// Increments the gauge by one; at `u64::MAX` it stays there.
    pub fn incr(&mut self)
        ensures
            old(self).0 < u64::MAX ==> final(self).0 == old(self).0 + 1,
            old(self).0 == u64::MAX ==> final(self).0 == u64::MAX,
    {
        if self.0 < u64::MAX {
            self.0 = self.0 + 1;
        }
    }

    /// Decrements the gauge by one; at zero it stays there.
    pub fn decr(&mut self)
        ensures
            old(self).0 > 0 ==> final(self).0 == old(self).0 - 1,
            old(self).0 == 0 ==> final(self).0 == 0,
    {
        if self.0 > 0 {
            self.0 = self.0 - 1;
        }
    }
}

impl From<u64> for Gauge {
    fn from(n: u64) -> (r: Gauge) {
        Gauge(n)
    }
}

impl vstd::std_specs::convert::FromSpecImpl<u64> for Gauge {
    open spec fn obeys_from_spec() -> bool {
        true
    }

    open spec fn from_spec(n: u64) -> Gauge {
        Gauge(n)
    }
}

} // verus!
