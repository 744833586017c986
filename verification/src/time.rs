use vstd::prelude::*;
use std::time::{Duration, SystemTime, UNIX_EPOCH};

verus! {

#[verifier::external_type_specification]
#[verifier::external_body]
pub struct ExSystemTime(SystemTime);

/// A point in time, in milliseconds since the Unix epoch.
#[derive(Debug, Clone, Copy)]
pub struct QalamTime(pub(crate) u64);

/// Why the system clock could not be read as a `QalamTime`.
#[derive(Debug, Clone, Copy, PartialEq, Eq)]
pub enum ClockError {
    /// The clock reads a time before the Unix epoch.
    BeforeUnixEpoch,
    /// The number of milliseconds since the epoch does not fit in a `u64`.
    MillisOverflow,
}

/// `SystemTime::now` from std: the current reading of the system clock.
/// It depends on the time of the call, so nothing is promised of it.
#[verifier::external_body]
fn system_clock_now() -> SystemTime {
    SystemTime::now()
}

/// `SystemTime::duration_since` from std, against `UNIX_EPOCH`: `None` when the
/// reading lies before the epoch. Which of the two comes back depends on the
/// clock, so nothing more is promised.
#[verifier::external_body]
fn since_unix_epoch(t: &SystemTime) -> Option<Duration> {
    t.duration_since(UNIX_EPOCH).ok()
}

/// The duration `Duration::from_millis` gives for a number of milliseconds.
pub uninterp spec fn duration_of_millis(millis: u64) -> Duration;

/// The whole milliseconds `Duration::as_millis` gives for a duration.
pub uninterp spec fn duration_millis(d: Duration) -> u128;

/// `Duration::as_millis` from std: the whole milliseconds of a duration,
/// named `duration_millis`.
#[verifier::external_body]
fn duration_as_millis(d: &Duration) -> (millis: u128)
    ensures
        millis == duration_millis(*d),
{
    d.as_millis()
}

/// `Duration::from_millis` from std: the duration of the given milliseconds, named
/// `duration_of_millis`; as std documents, its whole milliseconds are that number.
#[verifier::external_body]
fn duration_from_millis(millis: u64) -> (d: Duration)
    ensures
        d == duration_of_millis(millis),
        duration_millis(d) == millis as u128,
{
    Duration::from_millis(millis)
}

impl QalamTime {
    /// The milliseconds since the epoch that this time stands for.
    pub closed spec fn millis(self) -> u64 {
        self.0
    }

    /// The time `millis` milliseconds after the Unix epoch.
    pub fn from_millis(millis: u64) -> (t: QalamTime)
        ensures
            t.millis() == millis,
    {
        QalamTime(millis)
    }

    /// The time a clock reading of `millis` milliseconds since the epoch stands for:
    /// an error exactly when the reading does not fit in a `u64`.
    pub fn from_epoch_millis(millis: u128) -> (res: Result<QalamTime, ClockError>)
        ensures
            millis <= u64::MAX ==> (res matches Ok(t) && t.millis() == millis),
            millis > u64::MAX ==> res == Err::<QalamTime, ClockError>(ClockError::MillisOverflow),
    {
        if millis <= u64::MAX as u128 {
            Ok(QalamTime(millis as u64))
        } else {
            Err(ClockError::MillisOverflow)
        }
    }

    /// The time a clock reading stands for: `None` is a clock before the epoch,
    /// `Some(m)` a clock `m` milliseconds after it.
    pub fn from_clock_reading(reading: Option<u128>) -> (res: Result<QalamTime, ClockError>)
        ensures
            match reading {
                None => res == Err::<QalamTime, ClockError>(ClockError::BeforeUnixEpoch),
                Some(m) => if m <= u64::MAX {
                    res matches Ok(t) && t.millis() == m
                } else {
                    res == Err::<QalamTime, ClockError>(ClockError::MillisOverflow)
                },
            },
    {
        match reading {
            Some(millis) => QalamTime::from_epoch_millis(millis),
            None => Err(ClockError::BeforeUnixEpoch),
        }
    }

    /// The current time, read from the system clock. It fails when the clock
    /// reads a time before the epoch or too far after it.
    ///
    /// The clock's reading is not a function of anything the caller holds, so it
    /// has no name here: what is stated is that a time that comes back is the
    /// whole milliseconds (`Duration::as_millis`) of the duration since the epoch
    /// that the clock gave, and an overflow is such a duration past `u64::MAX`.
    pub fn now() -> (res: Result<QalamTime, ClockError>)
        ensures
            res matches Ok(t) ==> exists|d: Duration| #[trigger] duration_millis(d) == t.millis() as u128,
            res matches Err(e) ==> (e == ClockError::BeforeUnixEpoch || (e == ClockError::MillisOverflow
                && exists|d: Duration| #[trigger] duration_millis(d) > u64::MAX)),
    {
        let reading = system_clock_now();
        match since_unix_epoch(&reading) {
            Some(d) => {
                let millis = duration_as_millis(&d);
                let res = QalamTime::from_clock_reading(Some(millis));
                proof {
                    if let Ok(t) = res {
                        assert(duration_millis(d) == t.millis() as u128);
                    } else {
                        assert(duration_millis(d) > u64::MAX);
                    }
                }
                res
            },
            None => QalamTime::from_clock_reading(None),
        }
    }

    /// This time as a duration since the epoch: `Duration::from_millis` of its
    /// milliseconds, whose whole milliseconds are those of this time.
    pub fn to_duration(self) -> (d: Duration)
        ensures
            d == duration_of_millis(self.millis()),
            duration_millis(d) == self.millis() as u128,
    {
        duration_from_millis(self.0)
    }

    /// This time as whole seconds since the epoch and the nanoseconds past them.
    pub fn unix_parts(self) -> (parts: (u64, u32))
        ensures
            parts.0 == self.millis() / 1000,
            parts.1 == (self.millis() % 1000) * 1_000_000,
    {
        let seconds = self.0 / 1000;
        let subsec_nanos = (self.0 % 1000) as u32 * 1_000_000;
        (seconds, subsec_nanos)
    }

    /// The milliseconds since the epoch.
    pub fn as_millis(self) -> (millis: u64)
        ensures
            millis == self.millis(),
    {
        self.0
    }
}

} // verus!
