//! Lengths of time, and the clock.
use std::time::Instant;
use vstd::prelude::*;

verus! {

/// A length of time in nanoseconds.
#[derive(Clone, Copy, Debug, PartialEq, Eq, Structural)]
pub struct Duration {
    pub nanos: u128,
}

impl Duration {
    /// A whole number of seconds.
    pub fn from_secs(secs: u64) -> (d: Duration)
        ensures
            d.nanos == secs * 1_000_000_000,
    {
        Duration { nanos: secs as u128 * 1_000_000_000 }
    }
}

/// A reading of the monotonic clock of `std`. It is opaque.
#[verifier::external_type_specification]
#[verifier::external_body]
pub struct ExInstant(std::time::Instant);

/// `Instant::now`: the present time. Nothing is known of it beforehand.
#[verifier::external_body]
pub(crate) fn now() -> Instant {
    Instant::now()
}

/// `t` is what a reading of the clock gave. It is not known of an instant of
/// which nothing else is known.
pub closed spec fn clock_read(t: Instant) -> bool {
    call_ensures(now, (), t)
}

/// Readings of the clock are what `now` returned, and nothing else.
pub(crate) broadcast proof fn law_clock_read_is_now(t: Instant)
    ensures
        clock_read(t) <==> #[trigger] call_ensures(now, (), t),
{
}

/// The nanoseconds from one reading of the clock to a later one.
pub uninterp spec fn nanos_since(now: Instant, earlier: Instant) -> u128;

/// `Instant::duration_since` and `Duration::as_nanos`: the time from `earlier`
/// to `now`, in nanoseconds, which the two readings determine. It is zero where
/// `earlier` is the later one, which is not stated, for want of an order of
/// readings.
#[verifier::external_body]
pub(crate) fn duration_since(now: Instant, earlier: Instant) -> (nanos: u128)
    ensures
        nanos == nanos_since(now, earlier),
{
    now.duration_since(earlier).as_nanos()
}

} // verus!
