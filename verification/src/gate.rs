//! The concurrency gate: a counting permit pool bounding how many stream
//! fetches may be network-active at once.
//!
//! However many tasks are queued, no more than `capacity` permits are
//! ever out at the same time.  Callers that find no free permit wait and
//! ask again before transferring.

use vstd::prelude::*;

verus! {

/// Default number of simultaneous network transfers.
pub const DEFAULT_GATE_CAPACITY: usize = 3;

/// A counting permit pool.
pub struct Gate {
    capacity: usize,
    active: usize,
}

impl Gate {
    /// The fixed number of permits.
    pub closed spec fn capacity_spec(self) -> usize {
        self.capacity
    }

    /// How many permits are currently held.
    pub closed spec fn active_spec(self) -> usize {
        self.active
    }

    /// The bound that holds at every instant: never more holders than
    /// capacity.
    pub open spec fn wf(self) -> bool {
        self.active_spec() <= self.capacity_spec()
    }

    /// A gate with `capacity` permits, none held.
    pub fn new(capacity: usize) -> (g: Gate)
        ensures
            g.wf(),
            g.capacity_spec() == capacity,
            g.active_spec() == 0,
    {
        Gate { capacity, active: 0 }
    }

    /// A gate with the default capacity.
    pub fn with_default_capacity() -> (g: Gate)
        ensures
            g.wf(),
            g.capacity_spec() == DEFAULT_GATE_CAPACITY,
            g.active_spec() == 0,
    {
        Gate::new(DEFAULT_GATE_CAPACITY)
    }

    /// Hands out a permit exactly when one is free.  A caller that is
    /// refused waits and asks again; it never transfers without a permit.
    pub fn try_acquire(&mut self) -> (granted: bool)
        requires
            old(self).wf(),
        ensures
            final(self).wf(),
            final(self).capacity_spec() == old(self).capacity_spec(),
            granted == (old(self).active_spec() < old(self).capacity_spec()),
            granted ==> final(self).active_spec() == old(self).active_spec() + 1,
            !granted ==> final(self).active_spec() == old(self).active_spec(),
    {
        if self.active < self.capacity {
            self.active = self.active + 1;
            true
        } else {
            false
        }
    }

    /// Returns a permit when the holder's transfer ends — by success,
    /// failure or cancellation.
    pub fn release(&mut self)
        requires
            old(self).wf(),
            0 < old(self).active_spec(),
        ensures
            final(self).wf(),
            final(self).capacity_spec() == old(self).capacity_spec(),
            final(self).active_spec() == old(self).active_spec() - 1,
    {
        self.active = self.active - 1;
    }

    /// How many permits are currently held.
    pub fn active_transfers(&self) -> (n: usize)
        ensures
            n == self.active_spec(),
    {
        self.active
    }

    /// The fixed number of permits.
    pub fn capacity(&self) -> (n: usize)
        ensures
            n == self.capacity_spec(),
    {
        self.capacity
    }
}

} // verus!
