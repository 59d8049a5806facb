//! A monotonic clock, read as nanoseconds since a starting point, and lengths of
//! time.
use std::time::Instant;
use vstd::prelude::*;

verus! {

/// Every reading of the clock is below this many nanoseconds.
pub const READING_LIMIT: u128 = 18446744073709551616000000000;

/// `std::time::Instant`: a point in time. Nothing of what is inside is used.
#[verifier::external_type_specification]
#[verifier::external_body]
pub struct ExInstant(Instant);

/// `Instant::now`: a starting point to measure from. Nothing is claimed of it.
#[verifier::external_body]
pub(crate) fn start() -> Instant {
    Instant::now()
}

/// `Instant::elapsed`, in nanoseconds. A `Duration` is a `u64` of seconds and
/// less than one second of nanoseconds; nothing else is claimed of the reading.
#[verifier::external_body]
pub(crate) fn nanos_since(start: &Instant) -> (r: u128)
    ensures
        r < READING_LIMIT,
{
    start.elapsed().as_nanos()
}

/// A length of time, in nanoseconds.
#[derive(Debug, Clone, Copy, PartialEq, Eq, PartialOrd, Ord, Structural)]
pub struct Span {
    pub nanos: u128,
}

impl Span {
    /// A length of whole seconds.
    pub fn from_secs(secs: u64) -> (r: Span)
        ensures
            r.nanos == secs * 1_000_000_000,
    {
        Span { nanos: secs as u128 * 1_000_000_000 }
    }

    /// A length of whole milliseconds.
    pub fn from_millis(millis: u64) -> (r: Span)
        ensures
            r.nanos == millis * 1_000_000,
    {
        Span { nanos: millis as u128 * 1_000_000 }
    }

    /// The whole seconds of this length.
    pub fn as_secs(&self) -> (r: u128)
        ensures
            r == self.nanos / 1_000_000_000,
    {
        self.nanos / 1_000_000_000
    }
}

} // verus!
