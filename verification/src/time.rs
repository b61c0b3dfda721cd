use vstd::prelude::*;

verus! {

/// A span of time, kept as whole seconds plus the nanoseconds below one second,
/// with the arithmetic of `std::time::Duration` for the operations used here.
#[derive(Debug, Clone, Copy, PartialEq, Eq, Structural)]
pub struct Duration {
    pub secs: u64,
    pub nanos: u32,
}

impl Duration {
    /// Nanoseconds stay below one second.
    pub open spec fn wf(self) -> bool {
        self.nanos < 1_000_000_000
    }

    /// The span in whole milliseconds (rounded down).
    pub open spec fn millis(self) -> int {
        self.secs * 1000 + self.nanos / 1_000_000
    }

    /// The span of `millis` milliseconds.
    pub open spec fn from_millis_spec(millis: u64) -> Duration {
        Duration { secs: millis / 1000, nanos: ((millis % 1000) * 1_000_000) as u32 }
    }

    /// The span of `secs` seconds.
    pub open spec fn from_secs_spec(secs: u64) -> Duration {
        Duration { secs, nanos: 0 }
    }

    pub fn from_secs(secs: u64) -> (d: Duration)
        ensures
            d == Duration::from_secs_spec(secs),
            d.wf(),
            d.secs == secs,
            d.nanos == 0,
            d.millis() == secs * 1000,
    {
        Duration { secs, nanos: 0 }
    }

    pub fn from_millis(millis: u64) -> (d: Duration)
        ensures
            d == Duration::from_millis_spec(millis),
            d.wf(),
            d.millis() == millis,
    {
        Duration { secs: millis / 1000, nanos: ((millis % 1000) as u32) * 1_000_000 }
    }

    pub fn as_secs(&self) -> (s: u64)
        ensures
            s == self.secs,
    {
        self.secs
    }

    pub fn as_millis(&self) -> (m: u128)
        ensures
            m == self.millis(),
    {
        (self.secs as u128) * 1000 + (self.nanos / 1_000_000) as u128
    }
}

} // verus!

verus! {

/// An instant in UTC as seconds since the Unix epoch plus the nanoseconds
/// within that second.
#[derive(Debug, Clone, Copy, PartialEq, Eq, Structural)]
pub struct UtcTime {
    pub secs: i64,
    pub nanos: u32,
}

/// Nanoseconds since the epoch of `secs` seconds and `nanos` nanoseconds, when
/// that number fits an `i64`.
pub open spec fn epoch_nanos(secs: i64, nanos: u32) -> Option<i64> {
    let n = secs * 1_000_000_000 + nanos;
    if i64::MIN <= n && n <= i64::MAX {
        Some(n as i64)
    } else {
        None
    }
}

/// Whether chrono accepts `nanos` within second `secs`: below one second, or
/// below two seconds in a leap second (the last second of a minute).
pub open spec fn chrono_subsec_ok(secs: i64, nanos: u32) -> bool {
    nanos < 1_000_000_000 || (nanos < 2_000_000_000 && secs % 60 == 59)
}

/// Nanoseconds since the epoch of the instant chrono builds from `secs` and
/// `nanos`: none when chrono refuses the nanoseconds or the count does not fit
/// an `i64`.
pub open spec fn chrono_nanos(secs: i64, nanos: u32) -> Option<i64> {
    if chrono_subsec_ok(secs, nanos) {
        epoch_nanos(secs, nanos)
    } else {
        None
    }
}

/// `chrono::DateTime::<Utc>::from_timestamp(secs, nanos)` followed by
/// `timestamp_nanos_opt`: `None` when chrono refuses the nanoseconds (at or
/// above one second outside a leap second), else the instant in nanoseconds
/// since the epoch when that fits an `i64`. Every instant whose nanosecond
/// count fits an `i64` lies far inside chrono's range of dates.
#[verifier::external_body]
fn utc_timestamp_nanos(secs: i64, nanos: u32) -> (r: Option<i64>)
    ensures
        r == chrono_nanos(secs, nanos),
{
    chrono::DateTime::from_timestamp(secs, nanos).and_then(|t| t.timestamp_nanos_opt())
}

impl UtcTime {
    /// Nanoseconds since the epoch, when chrono accepts the instant and the
    /// count fits an `i64`.
    pub fn timestamp_nanos_opt(&self) -> (r: Option<i64>)
        ensures
            r == chrono_nanos(self.secs, self.nanos),
    {
        utc_timestamp_nanos(self.secs, self.nanos)
    }
}

} // verus!
