//! The typed values behind the command line, and the decisions the
//! commands make once the surrounding parser has produced them.
//!
//! Reading and tokenising the arguments — clap, the pattern matching —
//! stays outside; this module holds what the tokens mean: the time
//! range arithmetic, the precedence among amend-property
//! interpretations, and the record that `log` stores.

use vstd::prelude::*;

use crate::date::{Date, DateTime, Month};
use crate::model::{LoggedTime, Ticket};
use vstd::arithmetic::div_mod::lemma_mod_multiples_vanish;

verus! {

/// Which document to generate.
#[derive(Debug, Clone, Copy, PartialEq, Eq, Structural)]
pub enum DocType {
    Invoice,
    Timesheet,
}

/// Which entries to list.
#[derive(Debug, Clone, Copy, PartialEq, Eq, Structural)]
pub enum EntryType {
    Time,
    Activity,
    Invoice,
}

/// Arguments of the list command.
#[derive(Debug, Clone, Copy, PartialEq, Eq, Structural)]
pub struct ListArgs {
    pub entry_type: EntryType,
}

/// Identifies the invoices a document is generated for: an exact
/// invoice number, or an exact billing month.
#[derive(Debug, Clone, Copy, PartialEq, Eq, Structural)]
pub enum DocIdentifier {
    Num(i32),
    Month(Month),
}

impl Default for DocIdentifier {
    /// An unstated identifier defaults to the current month.
    fn default() -> (r: DocIdentifier)
        ensures
            match r {
                DocIdentifier::Month(m) => m.wf(),
                DocIdentifier::Num(_) => false,
            },
    {
        DocIdentifier::Month(Month::current())
    }
}

/// A time of day within one logged range, in minutes since midnight.
pub open spec fn minute_wrap(m: int) -> int {
    m % 1440
}

/// A logged range of a day: start and end, in minutes since midnight.
#[derive(Debug, Clone, Copy, PartialEq, Eq, Structural)]
pub struct TimeRange {
    pub start: u32,
    pub end: u32,
}

impl TimeRange {
    /// Both ends lie within a day.
    pub open spec fn wf(self) -> bool {
        self.start < 1440 && self.end < 1440
    }

    /// Builds the range from the matched parts of a range token: an
    /// anchor time `hours:mins`, a direction, and a span in tenths of
    /// an hour.  With `minus` the range ends at the anchor, otherwise
    /// it starts there; the other bound wraps around midnight, as
    /// chrono's time arithmetic does.  An anchor outside the clock is
    /// rejected.
    pub fn try_from_match(hours: u32, mins: u32, minus: bool, dur_tenths: u32) -> (r: Result<
        TimeRange,
        String,
    >)
        requires
            dur_tenths <= 999,
        ensures
            r is Ok <==> hours <= 23 && mins <= 59,
            match r {
                Ok(t) => {
                    let anchor = hours * 60 + mins;
                    let span = 6 * dur_tenths;
                    &&& t.wf()
                    &&& (minus ==> t.end == anchor && t.start == minute_wrap(anchor - span))
                    &&& (!minus ==> t.start == anchor && t.end == minute_wrap(anchor + span))
                },
                Err(e) => e@ == "Invalid time provided"@,
            },
    {
        if hours > 23 || mins > 59 {
            return Err("Invalid time provided".to_owned());
        }
        let anchor: u32 = hours * 60 + mins;
        let span: u32 = 6 * dur_tenths;
        if minus {
            let start = (anchor + 7200 - span) % 1440;
            proof {
                lemma_mod_multiples_vanish(5, anchor - span, 1440);
            }
            Ok(TimeRange { start, end: anchor })
        } else {
            let end = (anchor + span) % 1440;
            proof {
                lemma_mod_multiples_vanish(0, anchor + span, 1440);
            }
            Ok(TimeRange { start: anchor, end })
        }
    }
}

/// A property of a logged time that `amend` can change.
#[derive(Debug)]
pub enum TimeProperty {
    Date(Date),
    Time(TimeRange),
    Activity(i32),
    Ticket(Ticket),
    Desc(String),
}

impl Clone for TimeProperty {
    fn clone(&self) -> (res: Self)
        ensures
            res == *self,
    {
        match self {
            TimeProperty::Date(d) => TimeProperty::Date(*d),
            TimeProperty::Time(t) => TimeProperty::Time(*t),
            TimeProperty::Activity(n) => TimeProperty::Activity(*n),
            TimeProperty::Ticket(t) => TimeProperty::Ticket(t.clone()),
            TimeProperty::Desc(s) => TimeProperty::Desc(s.clone()),
        }
    }
}

/// The interpretations a free-form amend token can take.
#[derive(Debug, Clone, Copy, PartialEq, Eq, Structural)]
pub enum PropertyKind {
    Activity,
    Ticket,
    Date,
    Time,
    Desc,
}

/// Decides how a free-form amend token is interpreted, given which
/// patterns it matched.  The precedence is fixed — activity number,
/// then ticket, then date, then time range — and a token matching none
/// of them is a description only if it contains a space; a single word
/// is rejected rather than silently taken as a description.
pub fn choose_property(
    activity: bool,
    ticket: bool,
    date: bool,
    time: bool,
    has_space: bool,
) -> (r: Option<PropertyKind>)
    ensures
        r == if activity {
            Some(PropertyKind::Activity)
        } else if ticket {
            Some(PropertyKind::Ticket)
        } else if date {
            Some(PropertyKind::Date)
        } else if time {
            Some(PropertyKind::Time)
        } else if has_space {
            Some(PropertyKind::Desc)
        } else {
            None::<PropertyKind>
        },
{
    if activity {
        Some(PropertyKind::Activity)
    } else if ticket {
        Some(PropertyKind::Ticket)
    } else if date {
        Some(PropertyKind::Date)
    } else if time {
        Some(PropertyKind::Time)
    } else if has_space {
        Some(PropertyKind::Desc)
    } else {
        None
    }
}

impl LoggedTime {
    /// What `log` stores for a time range on a date: the range's two
    /// ends on that date, the description, and the activity billed.
    pub fn new(date: Date, range: TimeRange, description: String, act_num: i32) -> (r: LoggedTime)
        requires
            range.wf(),
        ensures
            r.time_start == (DateTime {
                date,
                hour: (range.start / 60) as u8,
                minute: (range.start % 60) as u8,
                second: 0,
            }),
            r.time_end == (DateTime {
                date,
                hour: (range.end / 60) as u8,
                minute: (range.end % 60) as u8,
                second: 0,
            }),
            r.time_desc == description,
            r.act_num == act_num,
    {
        LoggedTime {
            time_start: DateTime::from_date_minutes(date, range.start),
            time_end: DateTime::from_date_minutes(date, range.end),
            time_desc: description,
            act_num,
        }
    }
}

} // verus!
