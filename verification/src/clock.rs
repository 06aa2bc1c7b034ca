//! The monotonic clock and the durations it measures.
//!
//! The standard library's `Instant` and `Duration` are opaque to the verifier.
//! This module names the length of a duration and states, for each operation
//! of the standard library that the crate calls, what its documentation says of
//! the result.  Those statements are taken on trust; everything else in the
//! crate is proved from them.

use std::time::{Duration, Instant};
use vstd::prelude::*;

verus! {

/// A reading of the monotonic clock, `std::time::Instant`.  Nothing is known
/// of what a reading holds.
#[verifier::external_type_specification]
#[verifier::external_body]
pub struct ExInstant(std::time::Instant);

/// The length of a duration in nanoseconds.
pub uninterp spec fn duration_nanos(d: Duration) -> nat;

/// The longest span a `Duration` can hold, in nanoseconds: `u64::MAX` seconds
/// and 999,999,999 nanoseconds.
pub open spec fn max_nanos() -> nat {
    18_446_744_073_709_551_615_999_999_999
}

/// The sum of two spans, held at the longest span a `Duration` can hold.
pub open spec fn saturating_nanos(a: nat, b: nat) -> nat {
    if a + b <= max_nanos() {
        a + b
    } else {
        max_nanos()
    }
}

/// Reads the clock with `Instant::now`.  Nothing is claimed of the reading.
#[verifier::external_body]
pub(crate) fn now() -> (instant: Instant) {
    Instant::now()
}

/// Measures the time since `start` with `Instant::elapsed`.  Nothing is
/// claimed of the span that comes back: it depends on the clock.
#[verifier::external_body]
pub(crate) fn elapsed_since(start: &Instant) -> (span: Duration) {
    start.elapsed()
}

/// The constant `Duration::ZERO`, a span of no time at all.
#[verifier::external_body]
pub(crate) fn zero() -> (span: Duration)
    ensures
        duration_nanos(span) == 0,
{
    Duration::ZERO
}

/// `Duration::saturating_add`: the sum of the two spans, or `Duration::MAX`
/// where the sum is longer than a `Duration` can hold.
#[verifier::external_body]
pub(crate) fn saturating_sum(a: Duration, b: Duration) -> (sum: Duration)
    ensures
        duration_nanos(sum) == saturating_nanos(duration_nanos(a), duration_nanos(b)),
{
    a.saturating_add(b)
}

/// `Duration::as_secs`: the number of whole seconds in the span.
#[verifier::external_body]
pub(crate) fn whole_seconds(span: Duration) -> (seconds: u64)
    ensures
        seconds == duration_nanos(span) / 1_000_000_000,
{
    span.as_secs()
}

/// `Duration::as_millis`: the number of whole milliseconds in the span.
#[verifier::external_body]
pub(crate) fn whole_millis(span: Duration) -> (millis: u128)
    ensures
        millis == duration_nanos(span) / 1_000_000,
{
    span.as_millis()
}

} // verus!
