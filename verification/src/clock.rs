//! Injected clock capability.

use vstd::prelude::*;

verus! {

/// The single time source of the store. Time is an instant in milliseconds
/// since an arbitrary epoch; the store never reads a wall clock itself, so
/// expiry and TTL computations are deterministic under any implementation.
pub trait Clock {
    /// The instant this clock stands at, in milliseconds.
    spec fn now_ms(&self) -> u64;

    /// Reads the current instant.
    fn get_current_time(&self) -> (t: u64)
        ensures
            t == self.now_ms(),
    ;
}

/// A clock that stands where it was set: the deterministic time source for
/// embedding and for tests. Move it forward with [`ManualClock::set`].
pub struct ManualClock {
    pub now: u64,
}

impl Clock for ManualClock {
    open spec fn now_ms(&self) -> u64 {
        self.now
    }

    fn get_current_time(&self) -> (t: u64)
        ensures
            t == self.now_ms(),
    {
        self.now
    }
}

impl ManualClock {
    /// A clock standing at `now` milliseconds.
    pub fn new(now: u64) -> (r: ManualClock)
        ensures
            r.now_ms() == now,
    {
        ManualClock { now }
    }

    /// Moves the clock to `now` milliseconds.
    pub fn set(&mut self, now: u64)
        ensures
            final(self).now_ms() == now,
    {
        self.now = now;
    }
}

} // verus!
