//! The monotonic clock that the cache reads its time from.

use std::time::Duration;
use std::time::Instant;
use vstd::prelude::*;

verus! {

/// `std::time::Instant`, a reading of the monotonic clock. Nothing is known of what it holds.
#[verifier::external_type_specification]
#[verifier::external_body]
pub struct ExInstant(Instant);

/// The whole number of nanoseconds that a `Duration` spans.
pub uninterp spec fn duration_nanos(span: Duration) -> u128;

/// `Instant::now` reads the monotonic clock. Nothing is claimed of the instant it returns.
pub assume_specification[ Instant::now ]() -> (now: Instant)
;

/// `Instant::saturating_duration_since` measures the time from `earlier` to `later`, or zero
/// where `earlier` is the later of the two. Nothing is claimed of the span it returns.
pub assume_specification[ Instant::saturating_duration_since ](
    later: &Instant,
    earlier: Instant,
) -> (elapsed: Duration)
;

/// `Duration::as_nanos` returns the total number of nanoseconds in the span. The claim is
/// only that this number is a function of the span.
pub assume_specification[ Duration::as_nanos ](span: &Duration) -> (nanos: u128)
    ensures
        nanos == duration_nanos(*span),
;

/// The nanoseconds that have passed on the monotonic clock since `origin`: the length of
/// the span from `origin` to the present reading. Which span that is, the clock decides.
pub fn elapsed_nanos(origin: &Instant) -> (nanos: u128)
    ensures
        exists|elapsed: Duration| nanos == #[trigger] duration_nanos(elapsed),
{
    let now = Instant::now();
    let elapsed = now.saturating_duration_since(*origin);
    elapsed.as_nanos()
}

} // verus!
