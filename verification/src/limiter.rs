//! The admission limiter.
//!
//! A counting permit pool with a fixed capacity that bounds how many
//! CPU-bound task bodies run at once. A permit is taken before such a body
//! starts and given back when it finishes; I/O-bound bodies never touch the
//! pool. The count of permits out can therefore never pass the capacity.

use vstd::prelude::*;

verus! {

/// How many CPU-bound task bodies may run at once.
pub const ADMISSION_CAPACITY: u64 = 40;

/// The permit pool. `available` is how many permits are free; the pool never
/// holds more than the capacity.
pub struct AdmissionLimiter {
    available: u64,
}

impl AdmissionLimiter {
    pub closed spec fn available(self) -> u64 {
        self.available
    }

    /// Permits out right now: the capacity less the free permits.
    pub open spec fn in_flight(self) -> int {
        ADMISSION_CAPACITY - self.available()
    }

    pub closed spec fn wf(self) -> bool {
        self.available <= ADMISSION_CAPACITY
    }

    /// A full pool: every permit free, nothing in flight.
    pub fn new() -> (r: AdmissionLimiter)
        ensures
            r.wf(),
            r.available() == ADMISSION_CAPACITY,
            r.in_flight() == 0,
    {
        AdmissionLimiter { available: ADMISSION_CAPACITY }
    }

    /// Take a permit if one is free: succeeds exactly when a permit is
    /// available, and then one more body is in flight.
    pub fn try_acquire(&mut self) -> (r: bool)
        requires
            old(self).wf(),
        ensures
            final(self).wf(),
            r == (old(self).available() > 0),
            r ==> final(self).available() == old(self).available() - 1,
            !r ==> *final(self) == *old(self),
    {
        if self.available > 0 {
            self.available = self.available - 1;
            true
        } else {
            false
        }
    }

    /// Give a permit back; only a held permit can come back, so the pool
    /// never overfills.
    pub fn release(&mut self)
        requires
            old(self).wf(),
            old(self).in_flight() > 0,
        ensures
            final(self).wf(),
            final(self).available() == old(self).available() + 1,
    {
        self.available = self.available + 1;
    }
}

/// However the pool has been used, the number of CPU-bound task bodies
/// holding a permit is never negative and never passes the capacity.
pub proof fn lemma_bounded_admission(pool: AdmissionLimiter)
    requires
        pool.wf(),
    ensures
        0 <= pool.in_flight() <= ADMISSION_CAPACITY,
{
}

} // verus!
