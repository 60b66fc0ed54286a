//! Per-call deadline resolution.
//!
//! Every outbound call is bounded as a whole. A caller may ask for a deadline
//! in seconds; the request is clamped to a sane window so that an attacker
//! cannot park work in the service for an arbitrarily long time.

use vstd::prelude::*;

verus! {

/// Default per-call deadline in seconds.
pub const DEFAULT_CALL_TIMEOUT_SECS: u64 = 8;

/// Hard ceiling on a caller-supplied deadline in seconds.
pub const MAX_CALL_TIMEOUT_SECS: u64 = 60;

/// The effective deadline, in seconds, for a caller-supplied request.
pub open spec fn resolved_secs(caller: Option<u64>) -> u64 {
    match caller {
        None => DEFAULT_CALL_TIMEOUT_SECS,
        Some(s) => if s < 1 {
            1
        } else if s > MAX_CALL_TIMEOUT_SECS {
            MAX_CALL_TIMEOUT_SECS
        } else {
            s
        },
    }
}

/// Resolve a caller-supplied timeout (seconds) into the effective deadline in
/// seconds: `None` gives the default, `Some(s)` is clamped to `[1, 60]`.
pub fn resolve_timeout_secs(caller: Option<u64>) -> (secs: u64)
    ensures
        secs == resolved_secs(caller),
        1 <= secs <= MAX_CALL_TIMEOUT_SECS,
{
    match caller {
        None => DEFAULT_CALL_TIMEOUT_SECS,
        Some(s) => if s < 1 {
            1
        } else if s > MAX_CALL_TIMEOUT_SECS {
            MAX_CALL_TIMEOUT_SECS
        } else {
            s
        },
    }
}

/// The `Duration` that `std::time::Duration::from_secs` builds from a count of
/// seconds.
pub uninterp spec fn duration_of_secs(secs: u64) -> std::time::Duration;

/// Calls `std::time::Duration::from_secs`; the result is named
/// `duration_of_secs(secs)`, a value fixed by its argument alone, and holds
/// `secs` whole seconds.
#[verifier::external_body]
pub(crate) fn duration_from_secs(secs: u64) -> (d: std::time::Duration)
    ensures
        d == duration_of_secs(secs),
        crate::clock::nanos_of(d) == secs * 1_000_000_000,
{
    std::time::Duration::from_secs(secs)
}

/// Resolve a caller-supplied timeout (seconds) into the effective deadline:
/// `None` gives [`DEFAULT_CALL_TIMEOUT_SECS`], `Some(s)` is `s` clamped to
/// `[1, MAX_CALL_TIMEOUT_SECS]`.
pub fn resolve_timeout(caller: Option<u64>) -> (d: std::time::Duration)
    ensures
        d == duration_of_secs(resolved_secs(caller)),
{
    duration_from_secs(resolve_timeout_secs(caller))
}

/// The outcome of a deadline-bounded call: either the call completed (carrying
/// its own result, which may itself be an error), or the deadline fired.
#[derive(Debug)]
pub enum CallOutcome<T> {
    /// The call completed within the deadline.
    Completed(T),
    /// The deadline elapsed first; `secs` is the effective deadline.
    DeadlineExceeded { secs: u64 },
}

} // verus!
