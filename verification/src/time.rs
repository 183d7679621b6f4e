//! Instants and spans of time, in nanoseconds.

use vstd::prelude::*;

verus! {

/// A number of nanoseconds: a span of time, or an instant as the span since
/// the clock it was read from began.
pub type Nanos = u128;

/// Nanoseconds in a millisecond.
pub const MILLISECOND: u128 = 1_000_000;

/// Nanoseconds in a second.
pub const SECOND: u128 = 1_000_000_000;

/// How long after `then` it is at `now`: nothing at all for a `then` that has
/// not come yet.
pub open spec fn elapsed(now: Nanos, then: Nanos) -> int {
    if now >= then {
        now - then
    } else {
        0
    }
}

/// How long after `then` it is at `now`.
pub fn since(now: Nanos, then: Nanos) -> (span: Nanos)
    ensures
        span == elapsed(now, then),
{
    now.saturating_sub(then)
}

/// From one instant to a later one there is exactly the time that takes the one
/// to the other, and to an earlier one there is none.
pub proof fn time_adds_up(now: Nanos, then: Nanos)
    ensures
        then <= now ==> then + elapsed(now, then) == now,
        then > now ==> elapsed(now, then) == 0,
        MILLISECOND == 1_000_000,
        SECOND == 1_000 * MILLISECOND,
{
}

} // verus!
