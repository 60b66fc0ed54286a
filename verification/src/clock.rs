//! A monotonic clock measured in ticks (nanoseconds since the clock started).
//!
//! Readings depend on the passage of time, so nothing is promised about the
//! value of a reading; the verified stores take the reading as an argument
//! and are specified for every possible value of it.

use vstd::prelude::*;

verus! {

#[verifier::external_type_specification]
#[verifier::external_body]
pub struct ExInstant(std::time::Instant);

/// Calls `std::time::Instant::now`. Nothing is stated of the result: it is
/// the current time.
#[verifier::external_body]
fn instant_now() -> std::time::Instant {
    std::time::Instant::now()
}

/// Calls `std::time::Instant::elapsed`. Nothing is stated of the result: it
/// depends on the current time.
#[verifier::external_body]
fn instant_elapsed(origin: &std::time::Instant) -> std::time::Duration {
    origin.elapsed()
}

/// The total number of nanoseconds a `Duration` holds
/// (`Duration::as_nanos`).
pub uninterp spec fn nanos_of(d: std::time::Duration) -> nat;

/// Calls `std::time::Duration::as_nanos`.
#[verifier::external_body]
fn duration_as_nanos(d: &std::time::Duration) -> (r: u128)
    ensures
        r == nanos_of(*d),
{
    d.as_nanos()
}

/// The length of a duration in clock ticks: its nanoseconds, saturating at
/// `u64::MAX` (about 584 years).
pub open spec fn ticks_of(d: std::time::Duration) -> u64 {
    if nanos_of(d) > u64::MAX {
        u64::MAX
    } else {
        nanos_of(d) as u64
    }
}

/// The length of `d` in clock ticks.
pub(crate) fn duration_nanos(d: &std::time::Duration) -> (r: u64)
    ensures
        r == ticks_of(*d),
{
    let n = duration_as_nanos(d);
    if n > 0xffff_ffff_ffff_ffffu128 {
        u64::MAX
    } else {
        n as u64
    }
}

/// A monotonic clock.
pub struct Clock {
    origin: std::time::Instant,
}

impl Clock {
    /// A clock started now.
    pub fn new() -> Self {
        Clock { origin: instant_now() }
    }

    /// Ticks elapsed since the clock started.
    pub fn now(&self) -> u64 {
        let d = instant_elapsed(&self.origin);
        duration_nanos(&d)
    }
}

} // verus!
