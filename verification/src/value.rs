//! The value triple read out of a sampled counter.

use vstd::prelude::*;
use vstd::bytes::spec_u64_from_le_bytes;
use vstd::bytes::u64_from_le_bytes;
use vstd::slice::slice_subrange;

use crate::errors::Error;

verus! {

/// Individual values held by a sampled event.
#[derive(Debug, Clone)]
pub struct PerfEventValue {
    /// Counter measurement.
    pub value: u64,
    /// Total time spent enabled.
    pub time_enabled: u64,
    /// Total time spent running.
    ///
    /// In the case of event multiplexing the `time_enabled` and `time_running`
    /// values can be used to scale an estimated value for the count.
    pub time_running: u64,
    /// Globally unique ID for the event.
    pub id: u64,
}

/// The multiplexing-corrected estimate for a count of `value` observed while
/// the counter ran for `time_running` out of `time_enabled`.
///
/// When the counter was never enabled the raw value is reported unchanged;
/// otherwise the estimate is `value * time_running / time_enabled`, saturated
/// at the counter's 64-bit range.
pub open spec fn spec_scaled_value(value: u64, time_enabled: u64, time_running: u64) -> u64 {
    if time_enabled == 0 {
        value
    } else {
        let q = (value * time_running) / (time_enabled as int);
        if q > 0xffffffffffffffff {
            0xffffffffffffffff as u64
        } else {
            q as u64
        }
    }
}

impl PerfEventValue {
    /// Parse a `PerfEventValue` from the kernel's read format: four 64-bit
    /// words in native (little-endian) order, holding the counter value, the
    /// enabled time, the running time and the event id.
    pub fn from_bytes(bytes: &[u8]) -> (r: Result<Self, Error>)
        ensures
            bytes@.len() >= 32 ==> (r matches Ok(v) && v == (PerfEventValue {
                value: spec_u64_from_le_bytes(bytes@.subrange(0, 8)),
                time_enabled: spec_u64_from_le_bytes(bytes@.subrange(8, 16)),
                time_running: spec_u64_from_le_bytes(bytes@.subrange(16, 24)),
                id: spec_u64_from_le_bytes(bytes@.subrange(24, 32)),
            })),
            bytes@.len() < 32 ==> (r matches Err(e) && e is TruncatedRecord),
    {
        if bytes.len() < 32 {
            return Err(Error::TruncatedRecord);
        }
        let value = u64_from_le_bytes(slice_subrange(bytes, 0, 8));
        let time_enabled = u64_from_le_bytes(slice_subrange(bytes, 8, 16));
        let time_running = u64_from_le_bytes(slice_subrange(bytes, 16, 24));
        let id = u64_from_le_bytes(slice_subrange(bytes, 24, 32));
        Ok(PerfEventValue { value, time_enabled, time_running, id })
    }

    /// Get the raw measurement value.
    pub fn raw_value(&self) -> (r: u64)
        ensures
            r == self.value,
    {
        self.value
    }

    /// Get the scaled measurement value.
    ///
    /// Scaling corrects for the kernel multiplexing the counter across a
    /// time-shared hardware slot: the raw count is extrapolated by the ratio
    /// of running time to enabled time.
    pub fn scaled_value(&self) -> (r: u64)
        ensures
            r == spec_scaled_value(self.value, self.time_enabled, self.time_running),
            self.time_enabled == self.time_running ==> r == self.value,
            self.time_running <= self.time_enabled ==> r <= self.value,
    {
        if self.time_enabled == 0 {
            self.value
        } else {
            proof {
                assert((self.value as int) * (self.time_running as int)
                    <= 0xffffffffffffffff * 0xffffffffffffffff) by (nonlinear_arith)
                    requires
                        0 <= self.value <= 0xffffffffffffffff,
                        0 <= self.time_running <= 0xffffffffffffffff;
            }
            let wide: u128 = (self.value as u128) * (self.time_running as u128)
                / (self.time_enabled as u128);
            proof {
                let v = self.value as int;
                let e = self.time_enabled as int;
                let t = self.time_running as int;
                if t <= e {
                    assert(v * t <= v * e) by (nonlinear_arith)
                        requires 0 <= v && 0 <= t && t <= e;
                    assert((v * t) / e <= (v * e) / e) by (nonlinear_arith)
                        requires 0 < e && v * t <= v * e;
                    assert((v * e) / e == v) by (nonlinear_arith)
                        requires 0 < e;
                    assert(wide % 0x10000000000000000 == wide);
                }
                if e == t {
                    assert((v * t) / e == v) by (nonlinear_arith)
                        requires 0 < e && e == t;
                }
            }
            if wide > 0xffffffffffffffff {
                u64::MAX
            } else {
                wide as u64
            }
        }
    }
}

/// The equality check only compares raw values and not the scaled values.
impl PartialEq for PerfEventValue {
    fn eq(&self, other: &Self) -> (r: bool) {
        self.value == other.value
    }
}

impl vstd::std_specs::cmp::PartialEqSpecImpl for PerfEventValue {
    open spec fn obeys_eq_spec() -> bool {
        true
    }

    open spec fn eq_spec(&self, other: &Self) -> bool {
        self.value == other.value
    }
}

} // verus!
