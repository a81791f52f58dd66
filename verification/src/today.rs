//! The date of a run, read off a clock that counts seconds.

use crate::date::Date;
use chrono::Datelike;
use vstd::prelude::*;

verus! {

/// The calendar date in UTC at `secs` seconds after the start of 1970, as
/// year, month and day; `None` for a time that `chrono` has no date for.
pub uninterp spec fn utc_date(secs: i64) -> Option<(i32, u32, u32)>;

/// Asks `chrono` for the UTC date of a UNIX timestamp:
/// `DateTime::from_timestamp` with no nanoseconds, then the date of its
/// `naive_utc` and the `year`, `month` and `day` of that date.
///
/// The contract names the answer [`utc_date`], which says that one
/// timestamp always has one date, and takes from the documentation of
/// `chrono` that a month is a number from 1 to 12 and a day a number from 1
/// to 31. Nothing else is claimed of the date.
#[verifier::external_body]
fn utc_date_of(secs: i64) -> (date: Option<(i32, u32, u32)>)
    ensures
        date == utc_date(secs),
        date matches Some((_, month, day)) ==> 1 <= month <= 12 && 1 <= day <= 31,
{
    match chrono::DateTime::from_timestamp(secs, 0) {
        Some(moment) => {
            let date = moment.naive_utc().date();
            Some((date.year(), date.month(), date.day()))
        },
        None => None,
    }
}

/// The date of the year `year`, which may lie before the year 0: such a
/// year has no date here.
pub open spec fn date_of_civil(year: i32, month: u32, day: u32) -> Option<Date> {
    if year < 0 {
        None
    } else {
        Some(Date { year: year as u32, month, day })
    }
}

/// The date of a run that starts `secs` seconds after the start of 1970.
pub open spec fn date_at(secs: u64) -> Option<Date> {
    if secs > i64::MAX {
        None
    } else {
        match utc_date(secs as i64) {
            Some((year, month, day)) => date_of_civil(year, month, day),
            None => None,
        }
    }
}

impl Date {
    /// Makes a date of a year that may be negative, and of a month and a
    /// day. A year before the year 0 has no date.
    pub fn from_civil(year: i32, month: u32, day: u32) -> (date: Option<Date>)
        ensures
            date == date_of_civil(year, month, day),
    {
        if year < 0 {
            None
        } else {
            Some(Date { year: year as u32, month, day })
        }
    }

    /// The date in UTC at `secs` seconds after the start of 1970, where the
    /// calendar reaches that far. The month and the day of such a date are
    /// numbers of the calendar.
    pub fn from_unix_seconds(secs: u64) -> (date: Option<Date>)
        ensures
            date == date_at(secs),
            date matches Some(date) ==> 1 <= date.month <= 12 && 1 <= date.day <= 31,
    {
        if secs > i64::MAX as u64 {
            return None;
        }
        match utc_date_of(secs as i64) {
            Some((year, month, day)) => Date::from_civil(year, month, day),
            None => None,
        }
    }
}

} // verus!
