//! Wall-clock reading for playback sessions.
//!
//! A [`Clock`] is one session's time source: an epoch fixed at
//! construction, read as 100-nanosecond ticks.  Each session carries its
//! own clock, injected at scheduler start, so the timing core stays
//! testable with hand-picked readings.

use vstd::prelude::*;

verus! {

#[verifier::external_type_specification]
#[verifier::external_body]
pub struct ExInstant(std::time::Instant);

/// Relies on `std::time::Instant::now`: an opaque reading of the
/// monotonic clock.
pub assume_specification[ std::time::Instant::now ]() -> std::time::Instant;

/// Relies on `std::time::Instant::elapsed`: the time between that
/// instant and the present, as an opaque duration.
pub assume_specification[ std::time::Instant::elapsed ](
    this: &std::time::Instant,
) -> core::time::Duration;

/// Relies on `core::time::Duration::as_nanos`: the whole duration
/// counted in nanoseconds.
pub assume_specification[ core::time::Duration::as_nanos ](this: &core::time::Duration) -> u128;

/// One playback session's time source: a fixed epoch.
pub struct Clock {
    start: std::time::Instant,
}

impl Clock {
    /// A clock whose epoch is the present instant.
    pub fn new() -> Clock {
        Clock { start: std::time::Instant::now() }
    }
}

/// Time since the clock's epoch in 100-nanosecond units, clamped to the
/// signed 64-bit range; never negative.
pub fn get_time_100ns(clock: &Clock) -> (r: i64)
    ensures
        r >= 0,
{
    let nanos = clock.start.elapsed().as_nanos();
    let t = nanos / 100;
    if t > (i64::MAX as u128) {
        i64::MAX
    } else {
        t as i64
    }
}

} // verus!
