//! The pipeline's data model: creators, releases, pages, categories, and
//! the failure records that keep partial failures observable.

use vstd::prelude::*;
use crate::date::Date;

verus! {

/// A release-type classification used to partition catalog queries.
///
/// The set of categories a run queries is configuration: a run may ask for
/// any subset, in any order.
#[derive(Clone, Copy, PartialEq, Eq, Structural, Debug)]
pub enum Category {
    Album,
    Single,
    Compilation,
    AppearsOn,
}

/// A followed creator of the catalog service: an opaque service-unique
/// identifier and a display name.
#[derive(Clone, Debug)]
pub struct Creator {
    pub id: String,
    pub name: String,
}

/// One page of a cursor-paginated listing: the items of this page plus the
/// opaque continuation cursor, absent on the final page.
#[derive(Clone, Debug)]
pub struct Page<T> {
    pub items: Vec<T>,
    pub next_cursor: Option<String>,
}

/// A catalog release as fetched: identifier, title, release date as raw
/// text of year, year-month, or year-month-day precision (absent when the
/// service reports none), the ordered contributing creator names, and the
/// known (link provider, canonical URL) pairs.
#[derive(Clone, Debug)]
pub struct Release {
    pub id: String,
    pub title: String,
    pub release_date: Option<String>,
    pub artists: Vec<String>,
    pub links: Vec<(String, String)>,
}

/// The opaque failure of one page fetch: a network, HTTP, or
/// deserialization error, or a structurally invalid page.
#[derive(Clone, Debug)]
pub struct TransportError {
    pub message: String,
}

/// One per-creator query failure, tied to the creator and category whose
/// pagination chain failed.  Failures are aggregated, never dropped.
#[derive(Clone, Debug)]
pub struct FailureRecord {
    pub creator_id: String,
    pub category: Category,
    pub message: String,
}

} // verus!
