//! Calendar dates as plain values; chrono decides which are valid and what
//! day of the week they fall on.

use chrono::Datelike;
use vstd::prelude::*;

verus! {

/// A calendar date: year, month (1 to 12) and day of the month.
#[derive(Clone, Copy, Debug, PartialEq, Eq, Structural)]
pub struct Date {
    pub year: i32,
    pub month: u32,
    pub day: u32,
}

/// Whether the year, month and day name a date of the proleptic Gregorian calendar
/// that chrono can represent.
pub uninterp spec fn valid_ymd(year: int, month: int, day: int) -> bool;

/// The day of the week of a valid date, counted from Monday as zero.
pub uninterp spec fn weekday_of(year: int, month: int, day: int) -> int;

impl Date {
    pub open spec fn valid(self) -> bool {
        valid_ymd(self.year as int, self.month as int, self.day as int)
    }
}

/// Relies on chrono::NaiveDate::from_ymd_opt, which returns `None` for a day that does
/// not exist, for an invalid month or day (zero, a month above 12, a day above 31), and
/// for a year out of its range.
#[verifier::external_body]
fn ymd_exists(year: i32, month: u32, day: u32) -> (r: bool)
    ensures
        r == valid_ymd(year as int, month as int, day as int),
        r ==> 1 <= month <= 12 && 1 <= day <= 31,
{
    chrono::NaiveDate::from_ymd_opt(year, month, day).is_some()
}

/// Relies on chrono's Datelike::weekday and Weekday::num_days_from_monday, which
/// gives a number from 0 (Monday) to 6 (Sunday).
#[verifier::external_body]
fn weekday_number(year: i32, month: u32, day: u32) -> (r: u32)
    requires
        valid_ymd(year as int, month as int, day as int),
    ensures
        r == weekday_of(year as int, month as int, day as int),
        r < 7,
{
    chrono::NaiveDate::from_ymd_opt(year, month, day).unwrap().weekday().num_days_from_monday()
}

impl Date {
    pub fn new(year: i32, month: u32, day: u32) -> (r: Date)
        ensures
            r == (Date { year, month, day }),
    {
        Date { year, month, day }
    }

    /// Whether this date exists in the calendar.
    pub fn is_valid(&self) -> (r: bool)
        ensures
            r == self.valid(),
            r ==> 1 <= self.month <= 12 && 1 <= self.day <= 31,
    {
        ymd_exists(self.year, self.month, self.day)
    }

    /// The day of the week, 0 for Monday up to 6 for Sunday.
    pub fn weekday(&self) -> (r: u32)
        requires
            self.valid(),
        ensures
            r == weekday_of(self.year as int, self.month as int, self.day as int),
            r < 7,
    {
        weekday_number(self.year, self.month, self.day)
    }
}

} // verus!
