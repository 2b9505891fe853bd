//! Points in time and lengths of time.
use std::time::SystemTime;
use vstd::prelude::*;

verus! {

/// The clock reading of the operating system.
#[verifier::external_type_specification]
#[verifier::external_body]
pub struct ExSystemTime(SystemTime);

/// A length of time. A point in time is given as the time since the Unix epoch.
#[derive(Clone, Copy, Debug, PartialEq, Eq, Structural, Hash)]
pub struct Duration {
    pub secs: u64,
    pub nanos: u32,
}

impl Duration {
    /// The part below a second is less than a second.
    pub open spec fn wf(self) -> bool {
        self.nanos < 1_000_000_000
    }

    /// The whole seconds.
    pub fn as_secs(&self) -> (r: u64)
        ensures
            r == self.secs,
    {
        self.secs
    }

    pub fn from_secs(secs: u64) -> (r: Duration)
        ensures
            r == (Duration { secs, nanos: 0 }),
    {
        Duration { secs, nanos: 0 }
    }
}

/// Calls `SystemTime::now`. Nothing can be said of what the clock shows.
#[verifier::external_body]
fn system_time_now() -> (r: SystemTime) {
    SystemTime::now()
}

/// Calls `SystemTime::duration_since` with the Unix epoch and hands out the seconds and the
/// nanoseconds below a second. There is no result where the clock is set to before the epoch.
#[verifier::external_body]
fn since_epoch(time: SystemTime) -> (r: Option<(u64, u32)>)
    ensures
        r matches Some(parts) ==> parts.1 < 1_000_000_000,
{
    time.duration_since(SystemTime::UNIX_EPOCH).ok().map(|d| (d.as_secs(), d.subsec_nanos()))
}

/// The point in time that the seconds since the Unix epoch and the nanoseconds below a second give.
/// A clock that is set to before the epoch reads as zero.
pub fn timestamp_of(reading: Option<(u64, u32)>) -> (r: Duration)
    ensures
        r == match reading {
            Some((secs, nanos)) => Duration { secs, nanos },
            None => Duration { secs: 0, nanos: 0 },
        },
{
    match reading {
        Some((secs, nanos)) => Duration { secs, nanos },
        None => Duration { secs: 0, nanos: 0 },
    }
}

/// Get the current time as a [Duration]. Which time that is rests on the clock: see [timestamp_of]
/// for what is made of its reading.
pub fn get_timestamp() -> (r: Duration)
    ensures
        r.wf(),
{
    timestamp_of(since_epoch(system_time_now()))
}

} // verus!
