//! Calendar timestamps for the raw times that keys carry.

use vstd::prelude::*;
use chrono::{Datelike, Timelike};
use crate::error::DecodeError;

verus! {

/// A date and time of day in the proleptic Gregorian calendar, UTC.
#[derive(Clone, Copy, Debug, PartialEq, Eq, Structural)]
pub struct Civil {
    pub year: i32,
    pub month: u32,
    pub day: u32,
    pub hour: u32,
    pub minute: u32,
    pub second: u32,
}

/// A moment: seconds since 1970-01-01 00:00:00 UTC, with the calendar
/// fields that those seconds fall on.
#[derive(Clone, Copy, Debug, PartialEq, Eq, Structural)]
pub struct Timestamp {
    pub secs: i64,
    pub civil: Civil,
}

/// The calendar fields that chrono assigns to a count of seconds since the
/// epoch, or `None` where chrono cannot represent the moment.
pub uninterp spec fn civil_of_epoch(secs: i64) -> Option<Civil>;

/// chrono's `DateTime::from_timestamp` with no nanoseconds, read back by
/// its calendar accessors. Nothing is claimed of the fields but that they
/// are what chrono computes from `secs`.
#[verifier::external_body]
fn civil_from_epoch(secs: i64) -> (r: Option<Civil>)
    ensures
        r == civil_of_epoch(secs),
{
    match chrono::DateTime::from_timestamp(secs, 0) {
        Some(t) => Some(
            Civil {
                year: t.year(),
                month: t.month(),
                day: t.day(),
                hour: t.hour(),
                minute: t.minute(),
                second: t.second(),
            },
        ),
        None => None,
    }
}

/// The timestamp for `secs`, given the calendar fields found for it.
pub open spec fn timestamp_outcome(secs: i64, civil: Option<Civil>) -> Result<
    Timestamp,
    DecodeError,
> {
    match civil {
        Some(c) => Ok(Timestamp { secs, civil: c }),
        None => Err(DecodeError::InvalidTimestamp),
    }
}

/// The timestamp for a raw 64-bit time, given the calendar fields found
/// for it: a raw time beyond the signed range has none.
pub open spec fn raw_outcome(raw: u64) -> Result<Timestamp, DecodeError> {
    if raw > i64::MAX as u64 {
        Err(DecodeError::InvalidTimestamp)
    } else {
        timestamp_outcome(raw as i64, civil_of_epoch(raw as i64))
    }
}

/// Pairs a count of seconds with its calendar fields; without fields the
/// moment cannot be represented.
pub fn timestamp_from_civil(secs: i64, civil: Option<Civil>) -> (r: Result<Timestamp, DecodeError>)
    ensures
        r == timestamp_outcome(secs, civil),
{
    match civil {
        Some(c) => Ok(Timestamp { secs, civil: c }),
        None => Err(DecodeError::InvalidTimestamp),
    }
}

/// Converts seconds since the epoch to a calendar timestamp, or reports
/// `InvalidTimestamp` where the moment is out of the calendar's range.
pub fn epoch_to_timestamp(sec: i64) -> (r: Result<Timestamp, DecodeError>)
    ensures
        r == timestamp_outcome(sec, civil_of_epoch(sec)),
{
    timestamp_from_civil(sec, civil_from_epoch(sec))
}

/// Converts a raw 64-bit time to a calendar timestamp.
pub fn timestamp_from_raw(raw: u64) -> (r: Result<Timestamp, DecodeError>)
    ensures
        r == raw_outcome(raw),
{
    if raw > 9223372036854775807u64 {
        Err(DecodeError::InvalidTimestamp)
    } else {
        epoch_to_timestamp(raw as i64)
    }
}

} // verus!
