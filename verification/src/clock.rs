//! The monotonic clock: one epoch per profiler, microsecond-granularity
//! elapsed values derived from `std::time::Instant`.

use vstd::prelude::*;

use crate::speedscope::Value;

verus! {

#[verifier::external_type_specification]
#[verifier::external_body]
pub struct ExInstant(std::time::Instant);

/// Relies on std::time::Instant::now: an opaque monotonic time point.
pub assume_specification[ std::time::Instant::now ]() -> (r: std::time::Instant);

/// Relies on std::time::Instant::elapsed: the time since this instant.
pub assume_specification[ std::time::Instant::elapsed ](
    i: &std::time::Instant,
) -> (r: core::time::Duration);

/// Relies on core::time::Duration::as_micros: the whole number of
/// microseconds the duration holds.
pub assume_specification[ core::time::Duration::as_micros ](d: &core::time::Duration) -> (r: u128);

/// Microseconds elapsed since `epoch`, saturating at `u64::MAX`. The value
/// depends on the clock, so nothing relates two calls; callers that need
/// monotonicity clamp against the last value they recorded.
pub(crate) fn elapsed(epoch: &std::time::Instant) -> Value {
    let d = epoch.elapsed();
    let micros = d.as_micros();
    if micros > u64::MAX as u128 {
        Value::new(u64::MAX)
    } else {
        Value::new(micros as u64)
    }
}

} // verus!
