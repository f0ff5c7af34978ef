//! Points in time, as the clock reports them.

use vstd::prelude::*;

verus! {

/// A point in time: whole seconds since the Unix epoch and the nanoseconds
/// into that second.
#[derive(Clone, Copy, Debug, PartialEq, Eq, Structural)]
pub struct Timestamp {
    pub secs: i64,
    pub nanos: u32,
}

impl Timestamp {
    /// `self` is no earlier than `other`.
    pub open spec fn at_or_after(self, other: Timestamp) -> bool {
        self.secs > other.secs || (self.secs == other.secs && self.nanos >= other.nanos)
    }

    pub fn new(secs: i64, nanos: u32) -> (t: Timestamp)
        ensures
            t.secs == secs,
            t.nanos == nanos,
    {
        Timestamp { secs, nanos }
    }

    /// The current time. Nothing is promised of it: the wall clock may step
    /// backwards between two readings.
    pub fn now() -> Timestamp {
        utc_now()
    }

    pub fn is_at_or_after(&self, other: &Timestamp) -> (r: bool)
        ensures
            r == self.at_or_after(*other),
    {
        self.secs > other.secs || (self.secs == other.secs && self.nanos >= other.nanos)
    }
}

/// Reads the clock with `std::time::SystemTime::now`, turns the reading
/// into a `chrono::DateTime<chrono::Utc>` with chrono's `From<SystemTime>`,
/// and takes it apart with `DateTime::timestamp` and
/// `DateTime::timestamp_subsec_nanos`. The conversion handles a clock that
/// stands before 1970: the seconds are then negative. The result depends
/// on when it is called, so the contract states nothing of it.
#[verifier::external_body]
fn utc_now() -> Timestamp {
    let t = chrono::DateTime::<chrono::Utc>::from(std::time::SystemTime::now());
    Timestamp { secs: t.timestamp(), nanos: t.timestamp_subsec_nanos() }
}

} // verus!
