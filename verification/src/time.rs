//! Points in time and spans, counted in nanoseconds from one fixed origin.
use vstd::prelude::*;

verus! {

/// A point on the monotonic clock, in nanoseconds.
pub type Nanos = u64;

/// Nanoseconds in a millisecond.
pub const MILLISECOND: u64 = 1_000_000;

/// Nanoseconds in a second.
pub const SECOND: u64 = 1_000_000_000;

/// The time from `earlier` to `later`, zero where `earlier` is the later one.
pub open spec fn elapsed(later: Nanos, earlier: Nanos) -> nat {
    if later >= earlier {
        (later - earlier) as nat
    } else {
        0
    }
}

/// The time from `earlier` to `later`, zero where `earlier` is the later one.
pub fn saturating_elapsed(later: Nanos, earlier: Nanos) -> (r: u64)
    ensures
        r == elapsed(later, earlier),
{
    if later >= earlier {
        later - earlier
    } else {
        0
    }
}

/// `now` moved back by `ms` milliseconds, or `now` where the clock does not reach that far back.
pub open spec fn back_by_ms(now: Nanos, ms: nat) -> Nanos {
    if ms * MILLISECOND <= now {
        (now - ms * MILLISECOND) as u64
    } else {
        now
    }
}

/// `now` moved back by `ms` milliseconds, or `now` where the clock does not reach that far back.
pub fn moved_back_by_ms(now: Nanos, ms: u64) -> (r: Nanos)
    ensures
        r == back_by_ms(now, ms as nat),
{
    if ms <= now / MILLISECOND {
        now - ms * MILLISECOND
    } else {
        now
    }
}

/// The time between two points is their distance, and none where the later one is not later. Going
/// back by some milliseconds and waiting as long leads to the same point; where there are not so
/// many, nothing moves.
pub proof fn law_time_goes_back_and_forth(now: Nanos, earlier: Nanos, ms: nat)
    ensures
        now >= earlier ==> earlier + elapsed(now, earlier) == now,
        now < earlier ==> elapsed(now, earlier) == 0,
        ms * 1_000_000 <= now ==> back_by_ms(now, ms) + ms * 1_000_000 == now,
        ms * 1_000_000 > now ==> back_by_ms(now, ms) == now,
{
}

} // verus!
