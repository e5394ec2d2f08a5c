//! The monotonic clock that stamps queued messages.

use vstd::prelude::*;

use std::time::{Duration, Instant};

verus! {

/// `std::time::Instant`, a reading of the monotonic clock.
#[verifier::external_type_specification]
#[verifier::external_body]
pub struct ExInstant(std::time::Instant);

/// Calls `std::time::Instant::now`: the current reading of the monotonic clock. Nothing is
/// promised of it.
#[verifier::external_body]
pub(crate) fn instant_now() -> Instant {
    Instant::now()
}

/// Calls `std::time::Instant::elapsed` on `since`: the time that has passed since that reading.
/// It depends on the time of the call, so nothing is promised of it.
#[verifier::external_body]
fn elapsed_since(since: &Instant) -> Duration {
    since.elapsed()
}

/// Calls `std::time::Duration::as_nanos`: the whole nanoseconds of `d`. Nothing here models a
/// `Duration`, so nothing is promised of it.
#[verifier::external_body]
fn whole_nanos(d: &Duration) -> u128 {
    d.as_nanos()
}

/// A count of nanoseconds as a `u64`, saturated at `u64::MAX` (more than 584 years).
pub(crate) fn saturating_nanos(ms: u128) -> (r: u64)
    ensures
        r == if ms > u64::MAX as u128 { u64::MAX as int } else { ms as int },
{
    if ms > u64::MAX as u128 {
        u64::MAX
    } else {
        ms as u64
    }
}

/// `t` is what reading the clock since `since` may give: the whole nanoseconds of the time that
/// has passed since `since`, as `Instant::elapsed` and `Duration::as_nanos` give them, saturated at
/// `u64::MAX`.
pub closed spec fn elapsed_reading(since: Instant, t: u64) -> bool {
    exists|d: Duration, n: u128|
        #![trigger call_ensures(elapsed_since, (&since,), d), call_ensures(whole_nanos, (&d,), n)]
        call_ensures(elapsed_since, (&since,), d) && call_ensures(whole_nanos, (&d,), n) && t == (if n
            > u64::MAX as u128 {
            u64::MAX
        } else {
            n as u64
        })
}

/// The whole nanoseconds that have passed since the reading `since`, saturated at `u64::MAX`.
/// How much time has passed depends on when it is called, so any value may come back.
pub(crate) fn elapsed_nanos(since: &Instant) -> (r: u64)
    ensures
        elapsed_reading(*since, r),
{
    let d = elapsed_since(since);
    let n = whole_nanos(&d);
    saturating_nanos(n)
}

} // verus!
