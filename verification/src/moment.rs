//! Points in time and the waits between them, in whole nanoseconds.
use vstd::prelude::*;

verus! {

pub const NANOS_PER_MILLI: u64 = 1_000_000;

/// A reading of a monotonic clock, in nanoseconds since some fixed start.
#[derive(Clone, Copy, Debug, PartialEq, Eq, Structural)]
pub struct Moment {
    pub nanos: u64,
}

/// Nanoseconds from `earlier` to `later`; 0 when the clock did not advance.
pub open spec fn elapsed(later: Moment, earlier: Moment) -> nat {
    if later.nanos >= earlier.nanos {
        (later.nanos - earlier.nanos) as nat
    } else {
        0
    }
}

/// What is left of `limit` nanoseconds once `used` of them have passed.
pub open spec fn remainder(limit: nat, used: nat) -> nat {
    if limit >= used {
        (limit - used) as nat
    } else {
        0
    }
}

/// A wait of `nanos` as whole milliseconds, rounded down but at least 1, so
/// that a loop that sleeps for it never spins.
pub open spec fn wait_millis(nanos: nat) -> nat {
    if nanos / 1_000_000 >= 1 {
        nanos / 1_000_000
    } else {
        1
    }
}

impl Moment {
    /// Nanoseconds since `earlier`, saturating at 0.
    pub fn since(self, earlier: Moment) -> (nanos: u64)
        ensures
            nanos == elapsed(self, earlier),
    {
        if self.nanos >= earlier.nanos {
            self.nanos - earlier.nanos
        } else {
            0
        }
    }
}

/// Remaining wait, in milliseconds, of an interval of `limit` nanoseconds
/// that began at `start`; at least 1.
pub fn wait_left(limit: u64, now: Moment, start: Moment) -> (millis: i32)
    requires
        limit <= 2_000_000_000_000_000,
    ensures
        millis == wait_millis(remainder(limit as nat, elapsed(now, start))),
{
    let left: u64 = limit.saturating_sub(now.since(start));
    let millis: u64 = left / NANOS_PER_MILLI;
    if millis >= 1 {
        millis as i32
    } else {
        1
    }
}

} // verus!
