//! Points in time, in whole seconds, and how the scheduler's timestamps
//! are read.

use chrono::NaiveDateTime;
use vstd::prelude::*;

verus! {

#[verifier::external_type_specification]
#[verifier::external_body]
pub struct ExParseError(chrono::ParseError);

/// The largest distance from the Unix epoch that a [`Timestamp`] can have,
/// in seconds: half of what an `i64` holds, so that the difference of two
/// timestamps is always an `i64`.
pub const MAX_SECONDS: i64 = 4_611_686_018_427_387_903;

/// Whether `seconds` is a distance from the epoch that a [`Timestamp`]
/// can have.
pub open spec fn in_range(seconds: int) -> bool {
    -MAX_SECONDS <= seconds <= MAX_SECONDS
}

/// A point in time: whole seconds since 1970-01-01 00:00:00 UTC, leap
/// seconds not counted.
#[derive(Clone, Copy, Debug)]
pub struct Timestamp {
    seconds: i64,
}

impl View for Timestamp {
    type V = int;

    closed spec fn view(&self) -> int {
        self.seconds as int
    }
}

impl Timestamp {
    #[verifier::type_invariant]
    spec fn checked(self) -> bool {
        in_range(self.seconds as int)
    }

    /// The point in time `seconds` after the epoch (before it, if
    /// negative), unless that is out of range.
    pub fn from_seconds(seconds: i64) -> (r: Option<Timestamp>)
        ensures
            r is Some <==> in_range(seconds as int),
            r matches Some(t) ==> t@ == seconds,
    {
        if -MAX_SECONDS <= seconds && seconds <= MAX_SECONDS {
            Some(Timestamp { seconds })
        } else {
            None
        }
    }

    /// The seconds since the epoch.
    pub fn seconds(&self) -> (r: i64)
        ensures
            r == self@,
            in_range(self@),
    {
        proof {
            use_type_invariant(self);
        }
        self.seconds
    }

    /// The seconds from `self` to `later`; negative if `later` is the
    /// earlier of the two.
    pub fn seconds_until(&self, later: &Timestamp) -> (r: i64)
        ensures
            r == later@ - self@,
    {
        proof {
            use_type_invariant(self);
            use_type_invariant(later);
        }
        later.seconds - self.seconds
    }
}

/// The format in which the scheduler writes a job's start and end.
pub const SLURM_FORMAT: &'static str = "%Y-%m-%dT%H:%M:%S";

/// The date and time that `text` denotes when it is read by the format
/// `format`, taken as UTC and counted in whole seconds since the Unix
/// epoch; nothing where `text` does not fit the format or denotes no date
/// and time.
pub uninterp spec fn parsed_datetime(text: Seq<char>, format: Seq<char>) -> Option<i64>;

/// `NaiveDateTime::parse_from_str` of the `chrono` crate, with its
/// result read as UTC (`and_utc`) and handed out as seconds since the
/// epoch (`timestamp`). The outcome depends on the two texts alone;
/// [`parsed_datetime`] is its name.
#[verifier::external_body]
fn parse_datetime(text: &str, format: &str) -> (r: Result<i64, chrono::ParseError>)
    ensures
        match r {
            Ok(seconds) => parsed_datetime(text@, format@) == Some(seconds),
            Err(_) => parsed_datetime(text@, format@) is None,
        },
{
    match NaiveDateTime::parse_from_str(text, format) {
        Ok(t) => Ok(t.and_utc().timestamp()),
        Err(e) => Err(e),
    }
}

/// Why a timestamp could not be read.
#[derive(Debug)]
pub enum TimestampError {
    /// The text is no date and time in the scheduler's format.
    Unparsable { text: String, reason: chrono::ParseError },
    /// The text denotes a point in time too far from the epoch.
    OutOfRange { seconds: i64 },
}

/// The point in time that one of the scheduler's timestamps denotes, in
/// seconds since the epoch.
pub open spec fn slurm_timestamp(text: Seq<char>) -> Option<int> {
    match parsed_datetime(text, SLURM_FORMAT@) {
        Some(seconds) => if in_range(seconds as int) {
            Some(seconds as int)
        } else {
            None
        },
        None => None,
    }
}

/// Reads one of the scheduler's timestamps, such as
/// `2022-01-01T00:00:00`, as a point in time in UTC.
pub fn parse_slurm_timestamp(timestamp: &str) -> (r: Result<Timestamp, TimestampError>)
    ensures
        match r {
            Ok(t) => slurm_timestamp(timestamp@) == Some(t@),
            Err(TimestampError::Unparsable { text, .. }) => parsed_datetime(
                timestamp@,
                SLURM_FORMAT@,
            ) is None && text@ == timestamp@,
            Err(TimestampError::OutOfRange { seconds }) => parsed_datetime(
                timestamp@,
                SLURM_FORMAT@,
            ) == Some(seconds) && !in_range(seconds as int),
        },
{
    match parse_datetime(timestamp, SLURM_FORMAT) {
        Err(reason) => Err(TimestampError::Unparsable { text: timestamp.to_owned(), reason }),
        Ok(seconds) => match Timestamp::from_seconds(seconds) {
            Some(t) => Ok(t),
            None => Err(TimestampError::OutOfRange { seconds }),
        },
    }
}

} // verus!
