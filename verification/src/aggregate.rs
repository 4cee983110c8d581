//! Multi-category aggregation.
//!
//! The fan-out runs once per requested release-type category; this module
//! merges everything those runs produced into one catalog, keeping every
//! returned instance (cross-category duplicates included — deduplication
//! belongs to the reporter), and carries every per-creator failure into
//! one observable summary.  An empty catalog is a valid result, not an
//! error; only a run configured with no categories at all is refused.

use vstd::prelude::*;
use crate::fanout::{
    collect_fanout, count_fetched, fanout_failures, fanout_releases, PerCreatorFetchResult,
};
use crate::model::{Category, FailureRecord, Release};

verus! {

/// The terminal per-creator outcomes of one category's fan-out.
pub struct CategoryFetch {
    pub category: Category,
    pub results: Vec<PerCreatorFetchResult>,
}

/// The flattened multi-category union of every successfully fetched
/// release of the run, duplicates preserved.
pub struct AggregatedCatalog {
    pub releases: Vec<Release>,
}

/// Every per-creator query failure of the run, across all categories.
pub struct FailureSummary {
    pub failures: Vec<FailureRecord>,
}

impl FailureSummary {
    /// How many per-creator queries failed.
    pub fn count(&self) -> (n: usize)
        ensures
            n == self.failures@.len(),
    {
        self.failures.len()
    }
}

/// The releases of all category runs, concatenated in category order.
pub open spec fn aggregate_releases(fs: Seq<CategoryFetch>) -> Seq<Release>
    decreases fs.len(),
{
    if fs.len() == 0 {
        Seq::empty()
    } else {
        aggregate_releases(fs.drop_last()) + fanout_releases(fs.last().results@)
    }
}

/// The failure records of all category runs, concatenated in category
/// order.
pub open spec fn aggregate_failures(fs: Seq<CategoryFetch>) -> Seq<FailureRecord>
    decreases fs.len(),
{
    if fs.len() == 0 {
        Seq::empty()
    } else {
        aggregate_failures(fs.drop_last()) + fanout_failures(
            fs.last().results@,
            fs.last().category,
        )
    }
}

/// How many per-creator queries of the whole run succeeded.
pub open spec fn aggregate_fetched(fs: Seq<CategoryFetch>) -> int
    decreases fs.len(),
{
    if fs.len() == 0 {
        0
    } else {
        aggregate_fetched(fs.drop_last()) + count_fetched(fs.last().results@)
    }
}

/// How many per-creator queries the whole run issued.
pub open spec fn aggregate_queried(fs: Seq<CategoryFetch>) -> int
    decreases fs.len(),
{
    if fs.len() == 0 {
        0
    } else {
        aggregate_queried(fs.drop_last()) + fs.last().results@.len()
    }
}

/// Across the whole run, the successes and the failure summary partition
/// the per-creator queries: nothing is dropped and nothing counted twice.
pub proof fn lemma_aggregate_partition(fs: Seq<CategoryFetch>)
    ensures
        aggregate_fetched(fs) + aggregate_failures(fs).len() == aggregate_queried(fs),
        0 <= aggregate_fetched(fs) <= aggregate_queried(fs),
    decreases fs.len(),
{
    if fs.len() > 0 {
        lemma_aggregate_partition(fs.drop_last());
        crate::fanout::lemma_fanout_partition(fs.last().results@, fs.last().category);
    }
}

/// Merges the per-category fan-out outcomes of one run: unions every
/// successful release list (duplicates preserved) and collects every
/// per-creator failure.  A run in which every query failed still yields a
/// catalog — an empty one — together with the full failure summary.
pub fn aggregate(fetches: Vec<CategoryFetch>) -> (r: (AggregatedCatalog, FailureSummary))
    ensures
        r.0.releases@ == aggregate_releases(fetches@),
        r.1.failures@ == aggregate_failures(fetches@),
        r.1.failures@.len() + aggregate_fetched(fetches@) == aggregate_queried(fetches@),
{
    proof {
        lemma_aggregate_partition(fetches@);
    }
    let ghost all = fetches@;
    let mut fetches = fetches;
    let mut releases: Vec<Release> = Vec::new();
    let mut failures: Vec<FailureRecord> = Vec::new();
    while fetches.len() > 0
        invariant
            fetches@.len() <= all.len(),
            fetches@ == all.skip(all.len() - fetches@.len()),
            releases@ == aggregate_releases(all.take(all.len() - fetches@.len())),
            failures@ == aggregate_failures(all.take(all.len() - fetches@.len())),
        decreases fetches@.len(),
    {
        let ghost k = all.len() - fetches@.len();
        let one = fetches.remove(0);
        proof {
            assert(one == all[k]);
            assert(fetches@ =~= all.skip(k + 1));
            assert(all.take(k + 1).drop_last() =~= all.take(k));
            assert(all.take(k + 1).last() == all[k]);
        }
        let mut part = collect_fanout(one.results, one.category);
        releases.append(&mut part.releases);
        failures.append(&mut part.failures);
    }
    proof {
        assert(all.take(all.len() as int) =~= all);
    }
    (AggregatedCatalog { releases }, FailureSummary { failures })
}

/// A run configured with no categories at all is a configuration error,
/// the one run-level failure that is fatal rather than aggregated.
pub enum RunConfigError {
    NoCategories,
}

/// Accepts the run's category list exactly when it requests at least one
/// category.
pub fn check_run_config(categories: &Vec<Category>) -> (r: Result<(), RunConfigError>)
    ensures
        r is Ok <==> categories@.len() > 0,
{
    if categories.len() == 0 {
        Err(RunConfigError::NoCategories)
    } else {
        Ok(())
    }
}

} // verus!
