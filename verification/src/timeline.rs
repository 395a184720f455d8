//! The host timeline: nanoseconds since an origin on the monotonic clock.
use vstd::prelude::*;

verus! {

#[verifier::external_type_specification]
#[verifier::external_body]
pub struct ExInstant(std::time::Instant);

/// `std::time::Instant::now`: a reading of the monotonic clock. Nothing is
/// claimed of the value.
#[verifier::external_body]
fn instant_now() -> std::time::Instant {
    std::time::Instant::now()
}

/// `std::time::Instant::elapsed`, in whole nanoseconds (truncated to 64
/// bits). It depends on the time of the call, so nothing is claimed of it.
#[verifier::external_body]
fn nanos_since(origin: &std::time::Instant) -> u64 {
    origin.elapsed().as_nanos() as u64
}

/// Origin of the host timeline shared by capture, clocks and the recorder.
pub struct Timeline {
    origin: std::time::Instant,
}

impl Timeline {
    /// A timeline whose origin is the current moment.
    pub fn start() -> Timeline {
        Timeline { origin: instant_now() }
    }

    /// Nanoseconds since the origin, read from the monotonic clock.
    pub fn now(&self) -> u64 {
        nanos_since(&self.origin)
    }
}

} // verus!
