//! Calendar values, held as plain fields.
//!
//! The surrounding application converts between these and the calendar
//! types of chrono; the aggregation itself only carries them through.
//! Each type has a well-formedness predicate that constructors
//! establish.  The one outside call made here is reading the clock.

use vstd::prelude::*;

verus! {

/// A billing month: a year and a month number.
#[derive(Debug, Clone, Copy, PartialEq, Eq, Structural)]
pub struct Month {
    pub year: i32,
    pub month: u8,
}

impl Month {
    /// The month number is taken from the calendar: 1 through 12.
    pub open spec fn wf(self) -> bool {
        1 <= self.month <= 12
    }
}

/// A calendar date.
#[derive(Debug, Clone, Copy, PartialEq, Eq, Structural)]
pub struct Date {
    pub year: i32,
    pub month: u8,
    pub day: u8,
}

impl Date {
    /// Month and day numbers are taken from the calendar; no finer
    /// month-length rule is enforced here.
    pub open spec fn wf(self) -> bool {
        1 <= self.month <= 12 && 1 <= self.day <= 31
    }

    /// The month this date falls in.
    pub fn month_of(&self) -> (res: Month)
        ensures
            res.year == self.year,
            res.month == self.month,
            self.wf() ==> res.wf(),
    {
        Month { year: self.year, month: self.month }
    }
}

/// A calendar date with a time of day, to the second.
#[derive(Debug, Clone, Copy, PartialEq, Eq, Structural)]
pub struct DateTime {
    pub date: Date,
    pub hour: u8,
    pub minute: u8,
    pub second: u8,
}

impl DateTime {
    pub open spec fn wf(self) -> bool {
        self.date.wf() && self.hour < 24 && self.minute < 60 && self.second < 60
    }
}

/// Relies on chrono::Local::now and NaiveDate's Datelike accessors: the
/// current local calendar date.  chrono documents month() as 1 through
/// 12 and day() as 1 through 31; nothing else can be promised of the
/// clock.
#[verifier::external_body]
fn today_ymd() -> (r: (i32, u8, u8))
    ensures
        1 <= r.1 <= 12,
        1 <= r.2 <= 31,
{
    let now = chrono::Local::now().date_naive();
    let year = chrono::Datelike::year(&now);
    let month = chrono::Datelike::month(&now) as u8;
    let day = chrono::Datelike::day(&now) as u8;
    (year, month, day)
}

impl Month {
    /// The month the clock currently reads.
    pub fn current() -> (r: Month)
        ensures
            r.wf(),
    {
        let t = today_ymd();
        Month { year: t.0, month: t.1 }
    }
}

impl Default for Month {
    /// An unstated month defaults to the current one.
    fn default() -> (r: Month)
        ensures
            r.wf(),
    {
        Month::current()
    }
}

impl Date {
    /// The date the clock currently reads.
    pub fn now() -> (r: Date)
        ensures
            r.wf(),
    {
        let t = today_ymd();
        Date { year: t.0, month: t.1, day: t.2 }
    }
}

impl Default for Date {
    /// An unstated date defaults to today.
    fn default() -> (r: Date)
        ensures
            r.wf(),
    {
        Date::now()
    }
}

impl DateTime {
    /// The given date at a time of day counted in minutes since
    /// midnight, at zero seconds.
    pub fn from_date_minutes(date: Date, minutes: u32) -> (r: DateTime)
        requires
            minutes < 1440,
        ensures
            r.date == date,
            r.hour == minutes / 60,
            r.minute == minutes % 60,
            r.second == 0,
            date.wf() ==> r.wf(),
    {
        DateTime { date, hour: (minutes / 60) as u8, minute: (minutes % 60) as u8, second: 0 }
    }
}

} // verus!
