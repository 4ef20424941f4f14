//! The two failure kinds of the aggregation.
//!
//! A store failure is wrapped with the entity and load phase it came
//! from and surfaced unchanged — never retried, never answered with a
//! partial result.  An identification failure is raised only by callers
//! applying the uniqueness contract: a lookup that was required to
//! resolve to exactly one record did not.

use vstd::prelude::*;

verus! {

/// Which load a store failure happened in.
#[derive(Debug, Clone, Copy, PartialEq, Eq, Structural)]
pub enum LoadPhase {
    /// The initial filtered load of the parent batch.
    Flat,
    /// A batched load of the children belonging to a parent batch.
    BelongingTo,
}

/// Which entity a store failure was loading.
#[derive(Debug, Clone, Copy, PartialEq, Eq, Structural)]
pub enum EntityKind {
    Invoice,
    Recipient,
    Activity,
    Time,
    TicketTime,
}

/// A failure of an aggregation request.
#[derive(Debug, PartialEq, Eq)]
pub enum AggregateError {
    /// The underlying load failed; the whole aggregation is aborted.
    Store { entity: EntityKind, phase: LoadPhase, message: String },
    /// A uniqueness-constrained lookup matched `matched` records where
    /// exactly one was required.
    Identification { matched: usize },
}

} // verus!
