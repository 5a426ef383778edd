//! Calendar dates, held as plain year, month and day numbers.

use chrono::Datelike;
use vstd::prelude::*;

verus! {

/// A day of the proleptic Gregorian calendar.
#[derive(Clone, Copy, Debug, PartialEq, Eq, Structural)]
pub struct CalendarDate {
    pub year: i32,
    pub month: u32,
    pub day: u32,
}

/// An instant, as microseconds since 1970-01-01T00:00:00Z, the precision
/// of the database's timestamps. Nothing here reads one; it is carried
/// from a stored row to what is returned.
#[derive(Clone, Copy, Debug, PartialEq, Eq, Structural)]
pub struct Timestamp {
    pub micros: i64,
}

/// Leap years of the proleptic Gregorian calendar.
pub open spec fn is_leap_year(y: int) -> bool {
    y % 4 == 0 && (y % 100 != 0 || y % 400 == 0)
}

/// Number of days in month `m` (1 to 12) of year `y`.
pub open spec fn days_in_month(y: int, m: int) -> int {
    if m == 2 {
        if is_leap_year(y) { 29 } else { 28 }
    } else if m == 4 || m == 6 || m == 9 || m == 11 {
        30
    } else {
        31
    }
}

/// The dates that chrono can represent: a real day of a month, in a year
/// between -262143 and 262142.
pub open spec fn is_valid_ymd(y: int, m: int, d: int) -> bool {
    &&& -262143 <= y <= 262142
    &&& 1 <= m <= 12
    &&& 1 <= d <= days_in_month(y, m)
}

impl CalendarDate {
    pub open spec fn is_valid(self) -> bool {
        is_valid_ymd(self.year as int, self.month as int, self.day as int)
    }

    /// Calendar order: by year, then month, then day.
    pub open spec fn spec_le(self, other: CalendarDate) -> bool {
        ||| self.year < other.year
        ||| self.year == other.year && self.month < other.month
        ||| self.year == other.year && self.month == other.month && self.day <= other.day
    }

    /// The date with the given year, month and day, where such a day exists.
    pub fn new(year: i32, month: u32, day: u32) -> (r: Option<CalendarDate>)
        ensures
            r is Some <==> is_valid_ymd(year as int, month as int, day as int),
            r matches Some(dt) ==> dt == (CalendarDate { year, month, day }),
    {
        naive_date_from_ymd(year, month, day)
    }

    /// Whether `self` falls on or before `other`.
    pub fn le(&self, other: &CalendarDate) -> (r: bool)
        ensures
            r == self.spec_le(*other),
    {
        if self.year != other.year {
            self.year < other.year
        } else if self.month != other.month {
            self.month < other.month
        } else {
            self.day <= other.day
        }
    }
}

/// The first day of 1970, which is what an absent date falls back to.
pub open spec fn epoch_date() -> CalendarDate {
    CalendarDate { year: 1970, month: 1, day: 1 }
}

/// `chrono::NaiveDate::from_ymd_opt`: the date with the given year, month
/// and day, or `None` where the month or the day does not exist or the year
/// lies outside chrono's range (-262143 to 262142). The date it builds is
/// read back through `Datelike`, which returns the same three numbers.
#[verifier::external_body]
fn naive_date_from_ymd(year: i32, month: u32, day: u32) -> (r: Option<CalendarDate>)
    ensures
        r is Some <==> is_valid_ymd(year as int, month as int, day as int),
        r matches Some(dt) ==> dt.year == year && dt.month == month && dt.day == day,
{
    match chrono::NaiveDate::from_ymd_opt(year, month, day) {
        Some(nd) => Some(CalendarDate { year: nd.year(), month: nd.month(), day: nd.day() }),
        None => None,
    }
}

/// `chrono::NaiveDate::default()`, which chrono defines as 1970-01-01.
#[verifier::external_body]
pub(crate) fn naive_date_default() -> (r: CalendarDate)
    ensures
        r == epoch_date(),
{
    let nd = chrono::NaiveDate::default();
    CalendarDate { year: nd.year(), month: nd.month(), day: nd.day() }
}

} // verus!

