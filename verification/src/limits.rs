//! Rate-limited checks for host interrupts: the host's signal handlers and an
//! optional cancellation flag are consulted once every 1000 statement boundaries.
use vstd::prelude::*;
use crate::exception::{ExcType, RunError, is_error};

verus! {

/// How many statement boundaries pass between two checks.
pub const SIGNAL_CHECK_INTERVAL: u16 = 1000;

/// Counts statement boundaries (wrapping at `u16::MAX`).
pub struct SignalCounter {
    pub count: u16,
}

/// The counter after one more boundary.
pub open spec fn next_count(c: u16) -> u16 {
    if c == u16::MAX { 0 } else { (c + 1) as u16 }
}

impl SignalCounter {
    /// A counter at zero.
    pub fn new() -> (r: SignalCounter)
        ensures
            r.count == 0,
    {
        SignalCounter { count: 0 }
    }

    /// Counts one statement boundary; returns whether the host should be checked now
    /// (whenever the new count is a multiple of [`SIGNAL_CHECK_INTERVAL`]).
    pub fn tick(&mut self) -> (r: bool)
        ensures
            final(self).count == next_count(old(self).count),
            r == (next_count(old(self).count) % SIGNAL_CHECK_INTERVAL == 0),
    {
        self.count = if self.count == u16::MAX { 0 } else { self.count + 1 };
        self.count % SIGNAL_CHECK_INTERVAL == 0
    }
}

/// KeyboardInterrupt `"Monty execution cancelled"` when the cancellation flag is set.
pub fn check_cancellation(cancelled: bool) -> (r: Result<(), RunError>)
    ensures
        cancelled ==> (r matches Err(e) && is_error(e, ExcType::KeyboardInterrupt, "Monty execution cancelled"@)),
        !cancelled ==> r is Ok,
{
    if cancelled {
        return Err(RunError::from_str(ExcType::KeyboardInterrupt, "Monty execution cancelled"));
    }
    Ok(())
}

/// From a count that is a multiple of the interval, the host is next checked exactly
/// [`SIGNAL_CHECK_INTERVAL`] boundaries later (away from the wrap at `u16::MAX`).
pub proof fn law_checks_every_interval(c: u16, k: int)
    requires
        c % 1000 == 0,
        c + 1000 <= u16::MAX,
        1 <= k <= 1000,
    ensures
        ((c + k) % 1000 == 0) == (k == 1000),
{
}

} // verus!
