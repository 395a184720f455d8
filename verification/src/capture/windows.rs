//! Windows timestamp mapping: QPC time in 100 ns units.
use super::clock::{distance, shift, shifted, ClockError};
use vstd::prelude::*;

verus! {

/// Windows: WGC, MediaFrameReference and WASAPI report QPC time in 100 ns
/// units. The clock pairs one QPC reading with the host time at which it was
/// taken.
#[derive(Debug, Clone, Copy)]
pub struct HostClock {
    host: u64,
    units: i64,
}

/// QPC `ticks` at `frequency` ticks per second, in 100 ns units (truncated
/// to 64 bits, as the native code does).
pub open spec fn qpc_units(ticks: i64, frequency: i64) -> i64 {
    (ticks * 10_000_000 / (frequency as int)) as i64
}

/// Host time of a QPC timestamp, or the error the conversion reports.
pub open spec fn qpc_host_time(host: u64, reference: i64, units: i64) -> Result<u64, ClockError> {
    if units < 0 {
        Err(ClockError::InvalidTimestamp)
    } else if (if units >= reference {
        units - reference
    } else {
        reference - units
    }) * 100 > u64::MAX {
        Err(ClockError::TimestampOverflow)
    } else {
        match shifted(host, (units - reference) * 100) {
            Some(t) => Ok(t),
            None => Err(ClockError::OutsideHostClock),
        }
    }
}

impl HostClock {
    /// The host time of the reference reading.
    pub closed spec fn spec_host(&self) -> u64 {
        self.host
    }

    /// The reference reading in 100 ns units.
    pub closed spec fn spec_units(&self) -> i64 {
        self.units
    }

    /// Pairs a QPC reading (`ticks` at `frequency` per second) with the host
    /// time `host` at which it was taken.
    pub fn from_reading(host: u64, ticks: i64, frequency: i64) -> (r: Result<Self, ClockError>)
        ensures
            frequency > 0 && ticks >= 0 ==> (r matches Ok(c) && c.spec_host() == host
                && c.spec_units() == qpc_units(ticks, frequency)),
            !(frequency > 0 && ticks >= 0) ==> r == Err::<Self, ClockError>(
                ClockError::InvalidHostClock,
            ),
    {
        if !(frequency > 0 && ticks >= 0) {
            return Err(ClockError::InvalidHostClock);
        }
        let scaled: i128 = ticks as i128 * 10_000_000 / frequency as i128;
        Ok(HostClock { host, units: scaled as i64 })
    }

    /// Host time of the reference reading.
    pub fn host(&self) -> (r: u64)
        ensures
            r == self.spec_host(),
    {
        self.host
    }

    /// The reference reading in 100 ns units.
    pub fn units(&self) -> (r: i64)
        ensures
            r == self.spec_units(),
    {
        self.units
    }

    /// Acquisition time of a native timestamp given in 100 ns QPC units.
    pub fn instant(&self, units: i64) -> (r: Result<u64, ClockError>)
        ensures
            r == qpc_host_time(self.spec_host(), self.spec_units(), units),
    {
        if units < 0 {
            return Err(ClockError::InvalidTimestamp);
        }
        let delta = match distance(units, self.units).checked_mul(100) {
            Some(d) => d,
            None => return Err(ClockError::TimestampOverflow),
        };
        match shift(self.host, delta, units >= self.units) {
            Some(t) => Ok(t),
            None => Err(ClockError::OutsideHostClock),
        }
    }
}

/// The QPC mapping is a shift by the reference: readings `k` units apart map
/// to host times exactly `100 k` nanoseconds apart, so acquisition time is
/// kept however late a frame is delivered.
pub proof fn lemma_qpc_mapping_preserves_spacing(host: u64, reference: i64, a: i64, b: i64)
    requires
        qpc_host_time(host, reference, a) is Ok,
        qpc_host_time(host, reference, b) is Ok,
    ensures
        qpc_host_time(host, reference, b)->Ok_0 - qpc_host_time(host, reference, a)->Ok_0 == (b
            - a) * 100,
        qpc_host_time(host, reference, reference) == (if reference >= 0 {
            Ok::<u64, ClockError>(host)
        } else {
            Err::<u64, ClockError>(ClockError::InvalidTimestamp)
        }),
{
}

} // verus!
