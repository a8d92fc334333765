//! Calendar dates.

use vstd::prelude::*;
use chrono::Datelike;

verus! {

/// A day of the proleptic Gregorian calendar.
#[derive(Clone, Copy, Debug, PartialEq, Eq, Structural)]
pub struct Date {
    pub year: i32,
    pub month: u32,
    pub day: u32,
}

/// Whether `year` is a leap year.
pub open spec fn is_leap_year(year: int) -> bool {
    year % 4 == 0 && (year % 100 != 0 || year % 400 == 0)
}

/// The number of days of a month, 0 for a month outside 1 to 12.
pub open spec fn days_in_month(year: int, month: int) -> int {
    if month == 2 {
        if is_leap_year(year) {
            29
        } else {
            28
        }
    } else if month == 4 || month == 6 || month == 9 || month == 11 {
        30
    } else if 1 <= month <= 12 {
        31
    } else {
        0
    }
}

impl Date {
    /// The date exists in the calendar.
    pub open spec fn wf(self) -> bool {
        1 <= self.day <= days_in_month(self.year as int, self.month as int)
    }

    /// `self` is an earlier day than `other`.
    pub open spec fn before(self, other: Date) -> bool {
        self.year < other.year || (self.year == other.year && (self.month < other.month || (
        self.month == other.month && self.day < other.day)))
    }

    /// The date of the given year, month and day, if it exists.
    pub fn new(year: i32, month: u32, day: u32) -> (r: Option<Date>)
        ensures
            r == (if (Date { year, month, day }).wf() {
                Some(Date { year, month, day })
            } else {
                None
            }),
    {
        let leap: bool = year % 4 == 0 && (year % 100 != 0 || year % 400 == 0);
        let days: u32 = if month == 2 {
            if leap {
                29
            } else {
                28
            }
        } else if month == 4 || month == 6 || month == 9 || month == 11 {
            30
        } else if 1 <= month && month <= 12 {
            31
        } else {
            0
        };
        if 1 <= day && day <= days {
            Some(Date { year, month, day })
        } else {
            None
        }
    }

    /// Whether `self` is an earlier day than `other`.
    pub fn is_before(&self, other: &Date) -> (b: bool)
        ensures
            b == self.before(*other),
    {
        self.year < other.year || (self.year == other.year && (self.month < other.month || (
        self.month == other.month && self.day < other.day)))
    }

    /// Whether `self` lies in the closed range from `start` to `end`.
    pub fn is_within(&self, start: &Date, end: &Date) -> (b: bool)
        ensures
            b == (!self.before(*start) && !end.before(*self)),
    {
        !self.is_before(start) && !end.is_before(self)
    }
}

/// The year, month and day that `chrono` reads from a text written as
/// year, month and day with hyphens between them; `None` for a text that it
/// does not accept.
pub uninterp spec fn iso_date(text: Seq<char>) -> Option<(i32, u32, u32)>;

/// Calls `chrono::NaiveDate::parse_from_str` with the format `%Y-%m-%d`, and
/// `year`, `month` and `day` on what it gives. The contract names the
/// result, and claims of it what `chrono` documents of every `NaiveDate`:
/// that the calendar day exists.
#[verifier::external_body]
fn parse_iso_date(text: &str) -> (r: Option<Date>)
    ensures
        r == (match iso_date(text@) {
            Some((year, month, day)) => Some(Date { year, month, day }),
            None => None,
        }),
        r is Some ==> r->0.wf(),
{
    match chrono::NaiveDate::parse_from_str(text, "%Y-%m-%d") {
        Ok(d) => Some(Date { year: d.year(), month: d.month(), day: d.day() }),
        Err(_) => None,
    }
}

/// Why a date range was not accepted.
#[derive(Clone, Copy, Debug, PartialEq, Eq, Structural)]
pub enum DateRangeError {
    /// The start is no date.
    InvalidStart,
    /// The end is no date.
    InvalidEnd,
}

/// A date range from what its two texts were read as: the first text that
/// is no date is the error.
pub fn date_range_from(start: Option<Date>, end: Option<Date>) -> (r: Result<
    (Date, Date),
    DateRangeError,
>)
    ensures
        r == (match (start, end) {
            (Some(s), Some(e)) => Ok::<(Date, Date), DateRangeError>((s, e)),
            (None, _) => Err::<(Date, Date), DateRangeError>(DateRangeError::InvalidStart),
            (Some(_), None) => Err::<(Date, Date), DateRangeError>(DateRangeError::InvalidEnd),
        }),
{
    match start {
        None => Err(DateRangeError::InvalidStart),
        Some(s) => match end {
            None => Err(DateRangeError::InvalidEnd),
            Some(e) => Ok((s, e)),
        },
    }
}

/// Reads a date written as year, month and day with hyphens between them.
pub fn parse_date(text: &str) -> (r: Option<Date>)
    ensures
        r == (match iso_date(text@) {
            Some((year, month, day)) => Some(Date { year, month, day }),
            None => None,
        }),
        r is Some ==> r->0.wf(),
{
    parse_iso_date(text)
}

/// Reads the two dates of a range, the start first.
pub fn parse_date_range(start: &str, end: &str) -> (r: Result<(Date, Date), DateRangeError>)
    ensures
        match r {
            Ok((first, last)) => first.wf() && last.wf(),
            Err(_) => true,
        },
        r == (match (iso_date(start@), iso_date(end@)) {
            (Some((y1, m1, d1)), Some((y2, m2, d2))) => Ok::<(Date, Date), DateRangeError>(
                (Date { year: y1, month: m1, day: d1 }, Date { year: y2, month: m2, day: d2 }),
            ),
            (None, _) => Err::<(Date, Date), DateRangeError>(DateRangeError::InvalidStart),
            (Some(_), None) => Err::<(Date, Date), DateRangeError>(DateRangeError::InvalidEnd),
        }),
{
    let first: Option<Date> = parse_iso_date(start);
    let second: Option<Date> = parse_iso_date(end);
    date_range_from(first, second)
}

} // verus!
