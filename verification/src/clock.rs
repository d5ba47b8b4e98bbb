//! Wall-clock measurement. How much time the clock returns is not
//! specified: a measured time is a plain pair of numbers, of which only the
//! range of the nanoseconds is known.

use vstd::prelude::*;
use std::time::{Duration, Instant};

verus! {

#[verifier::external_type_specification]
#[verifier::external_body]
pub struct ExInstant(std::time::Instant);

/// A span of time, as whole seconds and the nanoseconds beyond them.
#[derive(Clone, Copy, Debug)]
pub struct Elapsed {
    pub secs: u64,
    pub nanos: u32,
}

/// Calls `std::time::Instant::now`. Nothing is claimed of the instant that
/// comes back.
#[verifier::external_body]
fn instant_now() -> (now: Instant) {
    Instant::now()
}

/// Calls `std::time::Instant::elapsed`. Nothing is claimed of the duration
/// that comes back.
#[verifier::external_body]
fn instant_elapsed(start: &Instant) -> (span: Duration) {
    start.elapsed()
}

/// Calls `std::time::Duration::as_secs`. Nothing is claimed of the number
/// that comes back.
#[verifier::external_body]
fn duration_secs(span: &Duration) -> (secs: u64) {
    span.as_secs()
}

/// Calls `std::time::Duration::subsec_nanos`, which returns the part of the
/// duration beyond its whole seconds, in nanoseconds: as the standard
/// library documents it, a number below one billion.
#[verifier::external_body]
fn duration_subsec_nanos(span: &Duration) -> (nanos: u32)
    ensures
        nanos < 1_000_000_000,
{
    span.subsec_nanos()
}

/// A running measurement of elapsed time.
pub struct Stopwatch {
    started: Instant,
}

impl Stopwatch {
    /// Starts measuring now.
    pub fn start() -> (watch: Stopwatch) {
        Stopwatch { started: instant_now() }
    }

    /// The time since the measurement was started: whole seconds, and less
    /// than a second in nanoseconds. How long it was is up to the clock.
    pub fn elapsed(&self) -> (span: Elapsed)
        ensures
            span.nanos < 1_000_000_000,
    {
        let span = instant_elapsed(&self.started);
        Elapsed { secs: duration_secs(&span), nanos: duration_subsec_nanos(&span) }
    }
}

} // verus!
