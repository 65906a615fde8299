//! A free-running clock: high for half a period (rounded down), low for the
//! rest. Driving the signal and waiting out each half are the caller's part.

use vstd::prelude::*;

use crate::sim::time::SimDuration;

verus! {

pub struct Clock<H> {
    sig: H,
    period: SimDuration,
}

impl<H> Clock<H> {
    pub closed spec fn signal(&self) -> H {
        self.sig
    }

    pub closed spec fn period(&self) -> SimDuration {
        self.period
    }

    /// A clock on `sig` with this period, of at least two precision steps.
    pub fn new(sig: H, period: SimDuration) -> (c: Clock<H>)
        requires
            period.steps >= 2,
        ensures
            c.signal() == sig,
            c.period() == period,
    {
        Clock { sig, period }
    }

    /// The high and low halves of a period, in steps: the high half is the
    /// smaller when the period is odd, and both are at least one step.
    pub fn halves(&self) -> (h: (u64, u64))
        requires
            self.period().steps >= 2,
        ensures
            h.0 == self.period().steps / 2,
            h.0 + h.1 == self.period().steps,
            h.0 >= 1,
            h.1 >= h.0,
    {
        let high = self.period.steps / 2;
        let low = self.period.steps - high;
        (high, low)
    }

    pub fn sig(&self) -> (s: &H)
        ensures
            *s == self.signal(),
    {
        &self.sig
    }
}

} // verus!
