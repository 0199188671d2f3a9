use vstd::prelude::*;
use std::time::Duration;
use std::time::Instant;

verus! {

/// `std::time::Instant`: a reading of the monotonic clock. Nothing is known of what it holds.
#[verifier::external_type_specification]
#[verifier::external_body]
pub struct ExInstant(Instant);

/// `Instant::now`: the reading of the monotonic clock at the moment of the call. Nothing is
/// claimed of the value.
#[verifier::external_body]
fn clock_now() -> (now: Instant) {
    Instant::now()
}

/// `Instant::elapsed`: the time that has passed since `start` was read. Nothing is claimed of
/// the value.
#[verifier::external_body]
fn clock_elapsed(start: &Instant) -> (span: Duration) {
    start.elapsed()
}

/// `Duration::as_nanos`: the span in whole nanoseconds. Nothing is claimed of the value.
#[verifier::external_body]
fn span_nanos(span: &Duration) -> (nanos: u128) {
    span.as_nanos()
}

/// A stopwatch on the monotonic clock.
pub struct Timer {
    current_time: Instant,
}

impl Timer {
    /// A stopwatch started now.
    pub fn new() -> Self {
        Timer { current_time: clock_now() }
    }

    /// Starts the stopwatch again.
    pub fn reset(&mut self) {
        self.current_time = clock_now();
    }

    /// Nanoseconds since the stopwatch was started.
    pub fn get_nanoseconds(&self) -> u128 {
        let span = clock_elapsed(&self.current_time);
        span_nanos(&span)
    }

    /// Nanoseconds since the stopwatch was started; the stopwatch starts again.
    pub fn get_nanoseconds_reset(&mut self) -> u128 {
        let span = clock_elapsed(&self.current_time);
        let duration = span_nanos(&span);
        self.reset();
        duration
    }
}

} // verus!
