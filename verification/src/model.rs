//! The record types of the invoicing domain.
//!
//! All of them are immutable value snapshots: read models assembled from
//! flat loads, never written back.  Quantities that the surrounding
//! storage keeps as floating-point numbers (durations, unit prices) are
//! held here as fixed-point integers: a duration is a count of
//! hundredths of an hour, a unit price a count of cents.  The
//! aggregation only ever adds durations, so the choice of scale is the
//! caller's; it must merely be the same across all records of a batch.

use vstd::prelude::*;

use crate::date::{Date, DateTime, Month};

verus! {

/// A project, identified by its key.
#[derive(Debug, PartialEq, Eq)]
pub struct Project {
    pub proj_key: String,
    pub proj_name: String,
}

/// A ticket, identified by its project key together with its number.
/// Tickets are referenced by time entries, never created here.
#[derive(Debug, PartialEq, Eq)]
pub struct Ticket {
    pub proj_key: String,
    pub tick_num: i32,
}

impl Clone for Ticket {
    fn clone(&self) -> (res: Self)
        ensures
            res == *self,
    {
        Ticket { proj_key: self.proj_key.clone(), tick_num: self.tick_num }
    }
}

/// An association record: the ticket identified by `(proj_key, tick_num)`
/// was worked on during the time entry `time_id`.
#[derive(Debug, PartialEq, Eq)]
pub struct TicketTime {
    pub proj_key: String,
    pub tick_num: i32,
    pub time_id: i32,
}

impl TicketTime {
    /// Pairs a ticket with the time entry it was logged against.
    pub fn new(ticket: Ticket, time_id: i32) -> (res: TicketTime)
        ensures
            res.proj_key == ticket.proj_key,
            res.tick_num == ticket.tick_num,
            res.time_id == time_id,
    {
        TicketTime { proj_key: ticket.proj_key, tick_num: ticket.tick_num, time_id }
    }

    /// The ticket this association refers to.  The ticket table holds no
    /// fields beyond the key, so no further lookup is needed.
    pub fn ticket(&self) -> (res: Ticket)
        ensures
            res == self.spec_ticket(),
    {
        Ticket { proj_key: self.proj_key.clone(), tick_num: self.tick_num }
    }

    /// The ticket identified by this association's key fields.
    pub open spec fn spec_ticket(self) -> Ticket {
        Ticket { proj_key: self.proj_key, tick_num: self.tick_num }
    }
}

/// A logged time entry.  `time_dur` is the billed duration in hundredths
/// of an hour; it is absent while the entry has not been costed yet, and
/// rollups treat absence as zero.  `act_num` links the entry to the
/// activity it bills against, if any.
#[derive(Debug, PartialEq, Eq)]
pub struct Time {
    pub time_id: i32,
    pub time_start: DateTime,
    pub time_end: DateTime,
    pub time_desc: String,
    pub time_dur: Option<u64>,
    pub act_num: Option<i32>,
}

impl Clone for Time {
    fn clone(&self) -> (res: Self)
        ensures
            res == *self,
    {
        Time {
            time_id: self.time_id,
            time_start: self.time_start,
            time_end: self.time_end,
            time_desc: self.time_desc.clone(),
            time_dur: self.time_dur,
            act_num: self.act_num,
        }
    }
}

/// An invoice recipient.
#[derive(Debug, PartialEq, Eq)]
pub struct Recipient {
    pub recip_id: String,
    pub recip_name: String,
    pub recip_addr: String,
}

impl Clone for Recipient {
    fn clone(&self) -> (res: Self)
        ensures
            res == *self,
    {
        Recipient {
            recip_id: self.recip_id.clone(),
            recip_name: self.recip_name.clone(),
            recip_addr: self.recip_addr.clone(),
        }
    }
}

/// An invoice, identified by its number, billing one month to one
/// recipient.  `inv_created` is absent until the invoice document has
/// been rendered once.
#[derive(Debug, PartialEq, Eq)]
pub struct Invoice {
    pub inv_num: i32,
    pub inv_month: Month,
    pub inv_created: Option<Date>,
    pub recip_id: String,
}

impl Clone for Invoice {
    fn clone(&self) -> (res: Self)
        ensures
            res == *self,
    {
        Invoice {
            inv_num: self.inv_num,
            inv_month: self.inv_month,
            inv_created: self.inv_created,
            recip_id: self.recip_id.clone(),
        }
    }
}

/// A billable activity of an invoice.  `act_uprice` is the unit price in
/// cents.
#[derive(Debug, PartialEq, Eq)]
pub struct InvoiceActivity {
    pub act_num: i32,
    pub inv_num: i32,
    pub act_desc: String,
    pub act_uprice: u64,
}

impl Clone for InvoiceActivity {
    fn clone(&self) -> (res: Self)
        ensures
            res == *self,
    {
        InvoiceActivity {
            act_num: self.act_num,
            inv_num: self.inv_num,
            act_desc: self.act_desc.clone(),
            act_uprice: self.act_uprice,
        }
    }
}

/// A time entry to be stored: what `log` inserts.  The entry's id is
/// assigned by the store, so it carries none.
#[derive(Debug, PartialEq, Eq)]
pub struct LoggedTime {
    pub time_start: DateTime,
    pub time_end: DateTime,
    pub time_desc: String,
    pub act_num: i32,
}

} // verus!
