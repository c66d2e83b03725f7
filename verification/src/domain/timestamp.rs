//! Points in time, as seconds and nanoseconds since the Unix epoch (UTC).

use vstd::prelude::*;

verus! {

/// Largest magnitude of seconds a timestamp may hold (keeps millisecond
/// arithmetic within `i64`).
pub const MAX_ABS_SECS: i64 = 9_000_000_000_000;

/// A UTC instant: whole seconds since the Unix epoch and the nanoseconds within that second.
/// Instants order as the fields do, seconds first: earlier before later.
#[derive(Debug, PartialEq, Eq, Structural, PartialOrd, Ord, Clone, Copy, Hash)]
pub struct Timestamp {
    pub secs: i64,
    pub nanos: u32,
}

impl Timestamp {
    /// Milliseconds since the epoch, rounded down (as `DateTime::timestamp_millis`).
    pub open spec fn spec_millis(self) -> int {
        self.secs * 1000 + self.nanos / 1_000_000
    }

    pub open spec fn wf(self) -> bool {
        &&& -MAX_ABS_SECS <= self.secs <= MAX_ABS_SECS
        &&& self.nanos < 1_000_000_000
    }

    /// An instant from seconds and nanoseconds; `None` when out of range.
    pub fn from_unix(secs: i64, nanos: u32) -> (r: Option<Timestamp>)
        ensures
            r is Some <==> (-MAX_ABS_SECS <= secs <= MAX_ABS_SECS && nanos < 1_000_000_000),
            r matches Some(t) ==> t.secs == secs && t.nanos == nanos && t.wf(),
    {
        if -MAX_ABS_SECS <= secs && secs <= MAX_ABS_SECS && nanos < 1_000_000_000 {
            Some(Timestamp { secs, nanos })
        } else {
            None
        }
    }

    /// The instant `ms` milliseconds after the epoch (before it, if negative).
    pub fn from_millis(ms: i64) -> (r: Option<Timestamp>)
        ensures
            r matches Some(t) ==> t.wf() && t.spec_millis() == ms && t.nanos % 1_000_000 == 0,
            r is Some <==> -MAX_ABS_SECS * 1000 <= ms <= MAX_ABS_SECS * 1000 + 999,
    {
        if ms < -MAX_ABS_SECS * 1000 || ms > MAX_ABS_SECS * 1000 + 999 {
            return None;
        }
        let secs = if ms >= 0 { ms / 1000 } else { -((-ms + 999) / 1000) };
        let rem = ms - secs * 1000;
        assert(0 <= rem < 1000);
        let nanos = (rem as u32) * 1_000_000;
        Some(Timestamp { secs, nanos })
    }

    /// Whole seconds since the epoch.
    pub fn unix_seconds(&self) -> (r: i64)
        ensures
            r == self.secs,
    {
        self.secs
    }

    /// Nanoseconds within the second.
    pub fn subsec_nanos(&self) -> (r: u32)
        ensures
            r == self.nanos,
    {
        self.nanos
    }

    /// Milliseconds since the epoch, rounded down.
    pub fn timestamp_millis(&self) -> (r: i64)
        requires
            self.wf(),
        ensures
            r == self.spec_millis(),
    {
        self.secs * 1000 + (self.nanos / 1_000_000) as i64
    }

    /// Whether `self` is at or before `other`.
    pub fn is_at_or_before(&self, other: &Timestamp) -> (r: bool)
        ensures
            r == ts_le(*self, *other),
    {
        self.secs < other.secs || (self.secs == other.secs && self.nanos <= other.nanos)
    }
}

/// Chronological order of instants: by seconds, then by nanoseconds.
pub open spec fn ts_le(a: Timestamp, b: Timestamp) -> bool {
    a.secs < b.secs || (a.secs == b.secs && a.nanos <= b.nanos)
}

} // verus!
