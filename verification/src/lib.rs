//! Invoice generation: a hierarchical relational aggregation engine.
//!
//! Flat record batches (time entries, ticket associations, activities,
//! invoices, recipients) are loaded independently by the surrounding
//! application and assembled here into nested, order-preserving view
//! models with derived rollups (total durations, deduplicated ticket
//! sets), ready for rendering or export.

pub mod aggregate;
pub mod cli;
pub mod date;
pub mod error;
pub mod group;
pub mod model;
pub mod order;
