use vstd::prelude::*;

verus! {

/// The default id type for referencing objects across the Paddlers services.
pub type PadlId = i64;

/// Microseconds in one millisecond.
pub const MICROS_PER_MILLI: i64 = 1000;

/// Microseconds in one second.
pub const MICROS_PER_SECOND: i64 = 1_000_000;

/// A point in time (or a span of time), with microsecond precision.
#[derive(Debug, Clone, Copy, PartialEq, Eq, Structural, PartialOrd, Ord, Hash)]
pub struct Timestamp(pub i64);

/// Division that rounds towards zero, as Rust's integer `/` does.
pub open spec fn div_toward_zero(a: int, d: int) -> int {
    if a >= 0 {
        a / d
    } else {
        -((-a) / d)
    }
}

/// Whether `v` fits in an `i64`.
pub open spec fn fits_i64(v: int) -> bool {
    i64::MIN <= v <= i64::MAX
}

impl Timestamp {
    /// The timestamp `us` microseconds after the epoch.
    pub fn from_us(us: i64) -> (r: Timestamp)
        ensures
            r.0 == us,
    {
        Timestamp(us)
    }

    /// The timestamp `ms` milliseconds after the epoch.
    pub fn from_millis(ms: i64) -> (r: Timestamp)
        requires
            fits_i64(ms * MICROS_PER_MILLI),
        ensures
            r.0 == ms * MICROS_PER_MILLI,
    {
        Timestamp(ms * MICROS_PER_MILLI)
    }

    /// The timestamp `s` seconds after the epoch.
    pub fn from_seconds(s: i64) -> (r: Timestamp)
        requires
            fits_i64(s * MICROS_PER_SECOND),
        ensures
            r.0 == s * MICROS_PER_SECOND,
    {
        Timestamp(s * MICROS_PER_SECOND)
    }

    /// Microseconds since the epoch.
    pub fn micros(&self) -> (r: i64)
        ensures
            r == self.0,
    {
        self.0
    }

    /// Whole milliseconds since the epoch, rounded towards zero.
    pub fn millis(&self) -> (r: i64)
        ensures
            r == div_toward_zero(self.0 as int, MICROS_PER_MILLI as int),
    {
        self.0 / MICROS_PER_MILLI
    }

    /// Whole seconds since the epoch, rounded towards zero.
    pub fn seconds(&self) -> (r: i64)
        ensures
            r == div_toward_zero(self.0 as int, MICROS_PER_SECOND as int),
    {
        self.0 / MICROS_PER_SECOND
    }
}

impl Default for Timestamp {
    fn default() -> (r: Timestamp)
        ensures
            r.0 == 0,
    {
        Timestamp(0)
    }
}

impl core::ops::Add for Timestamp {
    type Output = Timestamp;

    fn add(self, other: Timestamp) -> (r: Timestamp) {
        Timestamp(self.0 + other.0)
    }
}

impl vstd::std_specs::ops::AddSpecImpl for Timestamp {
    open spec fn obeys_add_spec() -> bool {
        true
    }

    open spec fn add_req(self, other: Timestamp) -> bool {
        fits_i64(self.0 + other.0)
    }

    open spec fn add_spec(self, other: Timestamp) -> Timestamp {
        Timestamp((self.0 + other.0) as i64)
    }
}

impl core::ops::Sub for Timestamp {
    type Output = Timestamp;

    fn sub(self, other: Timestamp) -> (r: Timestamp) {
        Timestamp(self.0 - other.0)
    }
}

impl vstd::std_specs::ops::SubSpecImpl for Timestamp {
    open spec fn obeys_sub_spec() -> bool {
        true
    }

    open spec fn sub_req(self, other: Timestamp) -> bool {
        fits_i64(self.0 - other.0)
    }

    open spec fn sub_spec(self, other: Timestamp) -> Timestamp {
        Timestamp((self.0 - other.0) as i64)
    }
}

/// Relies on chrono's `Utc::now` and `DateTime::timestamp_micros`: the current
/// wall-clock time in microseconds since the epoch. Nothing is promised of the
/// value, which depends on the moment of the call.
#[verifier::external_body]
pub(crate) fn utc_now() -> (r: Timestamp) {
    Timestamp(chrono::Utc::now().timestamp_micros())
}

} // verus!
