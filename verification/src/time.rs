//! Wall-clock reads, forced monotone.
//!
//! The completion timer derives elapsed times from wall-clock reads.  A raw
//! clock may step backwards; the [`Clock`] never does: each read returns at
//! least the previous one (and at least zero), so elapsed times computed
//! between two reads are never negative.

use vstd::prelude::*;

verus! {

/// Relies on `std::time::SystemTime::now` for the raw clock reading and on
/// `chrono::DateTime::from_timestamp_millis` / `timestamp_millis` for the
/// conversion: the wall clock as milliseconds since the Unix epoch.  The
/// reading is total: a clock before the epoch, or outside the range chrono
/// represents, answers 0 rather than aborting.  Nothing is assumed of the
/// value.
#[verifier::external_body]
fn system_now_ms() -> i64 {
    let since_epoch = match std::time::SystemTime::now().duration_since(std::time::UNIX_EPOCH) {
        Ok(d) => d,
        Err(_) => return 0,
    };
    let millis = i64::try_from(since_epoch.as_millis()).unwrap_or(i64::MAX);
    chrono::DateTime::<chrono::Utc>::from_timestamp_millis(millis).map_or(0, |t| t.timestamp_millis())
}

/// A wall clock whose reads never decrease within one process.
pub struct Clock {
    last: i64,
}

impl Clock {
    /// The largest time read so far (zero initially).
    pub closed spec fn last_ms(&self) -> i64 {
        self.last
    }

    pub fn new() -> (r: Clock)
        ensures
            r.last_ms() == 0,
    {
        Clock { last: 0 }
    }

    /// Takes a possibly-old stored time into account, so later reads never
    /// fall behind it; a time already passed changes nothing.
    pub fn observe_floor(&mut self, t: i64)
        ensures
            final(self).last_ms() == (if t > old(self).last_ms() {
                t
            } else {
                old(self).last_ms()
            }),
    {
        if t > self.last {
            self.last = t;
        }
    }

    /// Records a time the caller is about to store, so later reads never
    /// fall behind it.
    pub fn observe(&mut self, t: i64)
        requires
            t >= old(self).last_ms(),
        ensures
            final(self).last_ms() == t,
    {
        self.last = t;
    }

    /// Reads the clock: at least as large as every earlier read, and
    /// never negative.
    pub fn now_ms(&mut self) -> (t: i64)
        requires
            old(self).last_ms() >= 0,
        ensures
            t == final(self).last_ms(),
            t >= old(self).last_ms(),
            t >= 0,
    {
        let raw = system_now_ms();
        if raw > self.last {
            self.last = raw;
        }
        self.last
    }
}

} // verus!
