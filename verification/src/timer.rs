//! A one-deadline timer, modelled as the instant (in milliseconds) at
//! which it elapses.  Time is an opaque monotone `u64` millisecond count
//! handed in by the caller.

use vstd::prelude::*;

verus! {

/// A resettable timer that elapses once the caller's clock reaches its
/// deadline.
#[derive(Clone, Copy, Debug, PartialEq, Eq, Structural)]
pub struct Timeout {
    pub deadline: u64,
}

impl Timeout {
    /// Creates a timer that elapses at `instant`.
    pub fn new_at(instant: u64) -> (t: Timeout)
        ensures
            t.deadline == instant,
    {
        Timeout { deadline: instant }
    }

    /// Moves the deadline to `instant`.
    pub fn reset(&mut self, instant: u64)
        ensures
            final(self).deadline == instant,
    {
        self.deadline = instant;
    }

    /// True once `now` has reached the deadline.
    pub fn poll_elapsed(&self, now: u64) -> (r: bool)
        ensures
            r == (now >= self.deadline),
    {
        now >= self.deadline
    }
}

} // verus!
