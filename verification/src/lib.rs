//! A verified release-aggregation pipeline.
//!
//! The library walks a cursor-paginated listing of followed creators,
//! collects the outcomes of per-creator catalog queries fanned out across
//! release-type categories, merges them while accounting for every failure,
//! and produces a deduplicated, recency-filtered, deterministically ordered
//! report.  All data-flow and failure-handling logic lives here, verified;
//! the network transport and credential acquisition are collaborators that
//! hand this library plain values.

pub mod aggregate;
pub mod date;
pub mod fanout;
pub mod format;
pub mod model;
pub mod paginate;
pub mod report;

pub use date::Date;
