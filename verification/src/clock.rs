use std::time::{Duration, Instant};
use vstd::prelude::*;

verus! {

/// `std::time::Instant`, a point in monotonic time. Opaque: only carried
/// through the library and handed to the wrappers below.
#[verifier::external_type_specification]
#[verifier::external_body]
pub struct ExInstant(Instant);

/// The span of `millis` milliseconds, as `Duration::from_millis` builds it;
/// it depends on `millis` alone.
pub uninterp spec fn duration_of_millis(millis: u64) -> Duration;

/// `t + d` when it can be represented, as `Instant::checked_add` gives it;
/// it depends on `t` and `d` alone.
pub uninterp spec fn instant_checked_add(t: Instant, d: Duration) -> Option<Instant>;

/// Whether instant `a` is later than instant `b`, as `Instant`'s `>` tells.
pub uninterp spec fn instant_is_later(a: Instant, b: Instant) -> bool;

/// Calls `Instant::now()`. The current time; nothing is stated of it.
#[verifier::external_body]
pub(crate) fn now() -> Instant {
    Instant::now()
}

/// Calls `Duration::from_millis(ms)`, named by `duration_of_millis`. It
/// never panics.
#[verifier::external_body]
pub(crate) fn millis(ms: u64) -> (r: Duration)
    ensures
        r == duration_of_millis(ms),
{
    Duration::from_millis(ms)
}

/// Calls `Instant::checked_add(t, d)`: `t + d`, or `None` when it cannot be
/// represented; named by `instant_checked_add`.
#[verifier::external_body]
pub(crate) fn checked_add(t: Instant, d: Duration) -> (r: Option<Instant>)
    ensures
        r == instant_checked_add(t, d),
{
    t.checked_add(d)
}

/// Calls `Instant > Instant`: whether `a` is later than `b`, named by
/// `instant_is_later`.
#[verifier::external_body]
pub(crate) fn is_later(a: &Instant, b: &Instant) -> (r: bool)
    ensures
        r == instant_is_later(*a, *b),
{
    *a > *b
}

} // verus!
