//! Mapping of native acquisition timestamps onto the host timeline
//! (nanoseconds since the timeline's origin).
use vstd::prelude::*;

verus! {

/// Why a clock reading or a device timestamp was refused.
#[derive(Debug, Clone, Copy, PartialEq, Eq, Structural)]
pub enum ClockError {
    /// The host clock reading is unusable.
    InvalidHostClock,
    /// The device returned a negative timestamp.
    InvalidTimestamp,
    /// The device timestamp is too far from the reference to convert.
    TimestampOverflow,
    /// The converted time lies outside the host timeline.
    OutsideHostClock,
    /// The device supplied no acquisition timestamp.
    NoTimestamp,
    /// The converted time lies in the future: the device clock is not the
    /// monotonic clock.
    NotMonotonic,
}

impl ClockError {
    /// Message for the user.
    pub fn message(&self) -> (r: &'static str)
        ensures
            r@ == match self {
                ClockError::InvalidHostClock => "Invalid host clock"@,
                ClockError::InvalidTimestamp => "The device returned an invalid capture timestamp"@,
                ClockError::TimestampOverflow => "Capture timestamp overflow"@,
                ClockError::OutsideHostClock => "Capture timestamp is outside the host clock"@,
                ClockError::NoTimestamp => "Device supplied no acquisition timestamp"@,
                ClockError::NotMonotonic => "Device clock is not CLOCK_MONOTONIC"@,
            },
    {
        match self {
            ClockError::InvalidHostClock => "Invalid host clock",
            ClockError::InvalidTimestamp => "The device returned an invalid capture timestamp",
            ClockError::TimestampOverflow => "Capture timestamp overflow",
            ClockError::OutsideHostClock => "Capture timestamp is outside the host clock",
            ClockError::NoTimestamp => "Device supplied no acquisition timestamp",
            ClockError::NotMonotonic => "Device clock is not CLOCK_MONOTONIC",
        }
    }
}

/// `|a - b|` as a `u64` (it always fits).
pub(crate) fn distance(a: i64, b: i64) -> (r: u64)
    ensures
        r == if a >= b {
            a - b
        } else {
            b - a
        },
{
    if a >= b {
        (a as i128 - b as i128) as u64
    } else {
        (b as i128 - a as i128) as u64
    }
}

/// Moves `host` by `delta` nanoseconds, forward or back; `None` where the
/// result leaves the host timeline.
pub(crate) fn shift(host: u64, delta: u64, forward: bool) -> (r: Option<u64>)
    ensures
        forward ==> r == (if host + delta <= u64::MAX {
            Some((host + delta) as u64)
        } else {
            None::<u64>
        }),
        !forward ==> r == (if host >= delta {
            Some((host - delta) as u64)
        } else {
            None::<u64>
        }),
{
    if forward {
        host.checked_add(delta)
    } else {
        host.checked_sub(delta)
    }
}

/// Host time of a reading `offset` nanoseconds from a reference at `host`.
pub open spec fn shifted(host: u64, offset: int) -> Option<u64> {
    if 0 <= host + offset <= u64::MAX {
        Some((host + offset) as u64)
    } else {
        None
    }
}

} // verus!
