//! Fan-in of the per-creator catalog queries.
//!
//! One paginated query is issued per creator for a given category; the
//! queries run independently, and one creator's failure never aborts the
//! others.  This module takes the terminal outcomes of all those chains —
//! each a fully paginated release list or an opaque transport failure —
//! and splits them into the merged successes and one failure record per
//! failing creator.

use vstd::prelude::*;
use crate::model::{Category, FailureRecord, Release, TransportError};

verus! {

/// The terminal outcome of one creator's pagination chain.
pub enum FetchOutcome {
    Fetched(Vec<Release>),
    Failed(TransportError),
}

/// The outcome of one creator's query, tied to the creator it was for.
pub struct PerCreatorFetchResult {
    pub creator_id: String,
    pub outcome: FetchOutcome,
}

/// What one category's fan-out produced: every successfully fetched
/// release, and one record per failed creator query.
pub struct FanOutResult {
    pub releases: Vec<Release>,
    pub failures: Vec<FailureRecord>,
}

/// The releases of the successful outcomes, concatenated in result order.
pub open spec fn fanout_releases(rs: Seq<PerCreatorFetchResult>) -> Seq<Release>
    decreases rs.len(),
{
    if rs.len() == 0 {
        Seq::empty()
    } else {
        fanout_releases(rs.drop_last()) + (match rs.last().outcome {
            FetchOutcome::Fetched(v) => v@,
            FetchOutcome::Failed(_) => Seq::empty(),
        })
    }
}

/// One failure record per failed outcome, in result order, each tied to
/// the failing creator and the queried category.
pub open spec fn fanout_failures(rs: Seq<PerCreatorFetchResult>, category: Category) -> Seq<
    FailureRecord,
>
    decreases rs.len(),
{
    if rs.len() == 0 {
        Seq::empty()
    } else {
        fanout_failures(rs.drop_last(), category) + (match rs.last().outcome {
            FetchOutcome::Fetched(_) => Seq::empty(),
            FetchOutcome::Failed(e) => seq![
                FailureRecord {
                    creator_id: rs.last().creator_id,
                    category: category,
                    message: e.message,
                },
            ],
        })
    }
}

/// How many outcomes succeeded.
pub open spec fn count_fetched(rs: Seq<PerCreatorFetchResult>) -> int
    decreases rs.len(),
{
    if rs.len() == 0 {
        0
    } else {
        count_fetched(rs.drop_last()) + if rs.last().outcome is Fetched {
            1int
        } else {
            0int
        }
    }
}

/// Every outcome is accounted for exactly once: the successes and the
/// failure records partition the per-creator results.
pub proof fn lemma_fanout_partition(rs: Seq<PerCreatorFetchResult>, category: Category)
    ensures
        count_fetched(rs) + fanout_failures(rs, category).len() == rs.len(),
        0 <= count_fetched(rs) <= rs.len(),
    decreases rs.len(),
{
    if rs.len() > 0 {
        lemma_fanout_partition(rs.drop_last(), category);
    }
}

/// The failure records are exactly the failed outcomes, in order, each
/// mapped to its creator and the queried category: one record per failing
/// creator, none for a succeeding one.
pub proof fn lemma_fanout_failures_exact(rs: Seq<PerCreatorFetchResult>, category: Category)
    ensures
        fanout_failures(rs, category) == rs.filter(
            |r: PerCreatorFetchResult| r.outcome is Failed,
        ).map_values(
            |r: PerCreatorFetchResult|
                (FailureRecord {
                    creator_id: r.creator_id,
                    category: category,
                    message: r.outcome->Failed_0.message,
                }),
        ),
    decreases rs.len(),
{
    reveal(Seq::filter);
    let f = |r: PerCreatorFetchResult| r.outcome is Failed;
    let g = |r: PerCreatorFetchResult|
        (FailureRecord {
            creator_id: r.creator_id,
            category: category,
            message: r.outcome->Failed_0.message,
        });
    if rs.len() == 0 {
        assert(rs.filter(f).map_values(g) =~= Seq::<FailureRecord>::empty());
    } else {
        lemma_fanout_failures_exact(rs.drop_last(), category);
        let t = rs.drop_last().filter(f);
        if f(rs.last()) {
            assert(rs.filter(f) == t.push(rs.last()));
            assert(t.push(rs.last()).map_values(g) =~= t.map_values(g).push(g(rs.last())));
            assert(fanout_failures(rs, category) =~= t.map_values(g).push(g(rs.last())));
        } else {
            assert(rs.filter(f) == t);
        }
    }
}

/// The merged releases are exactly the successful outcomes' release lists,
/// in order, concatenated: every non-failing creator's items are present,
/// and nothing of a failing creator is.
pub proof fn lemma_fanout_releases_exact(rs: Seq<PerCreatorFetchResult>)
    ensures
        fanout_releases(rs) == rs.filter(
            |r: PerCreatorFetchResult| r.outcome is Fetched,
        ).map_values(|r: PerCreatorFetchResult| r.outcome->Fetched_0@).flatten_alt(),
    decreases rs.len(),
{
    reveal(Seq::filter);
    let f = |r: PerCreatorFetchResult| r.outcome is Fetched;
    let g = |r: PerCreatorFetchResult| r.outcome->Fetched_0@;
    if rs.len() == 0 {
        assert(rs.filter(f).map_values(g).flatten_alt() =~= Seq::<Release>::empty());
    } else {
        lemma_fanout_releases_exact(rs.drop_last());
        let t = rs.drop_last().filter(f);
        if f(rs.last()) {
            assert(rs.filter(f) == t.push(rs.last()));
            assert(t.push(rs.last()).map_values(g) =~= t.map_values(g).push(g(rs.last())));
            let u = t.map_values(g).push(g(rs.last()));
            assert(u.drop_last() =~= t.map_values(g));
            assert(u.flatten_alt() == t.map_values(g).flatten_alt() + g(rs.last()));
        } else {
            assert(rs.filter(f) == t);
        }
    }
}

/// Splits the terminal per-creator outcomes of one category's fan-out into
/// the merged successful releases and one failure record per failing
/// creator.  Successes plus failures account for every creator queried.
pub fn collect_fanout(results: Vec<PerCreatorFetchResult>, category: Category) -> (r: FanOutResult)
    ensures
        r.releases@ == fanout_releases(results@),
        r.failures@ == fanout_failures(results@, category),
        r.failures@.len() + count_fetched(results@) == results@.len(),
{
    proof {
        lemma_fanout_partition(results@, category);
    }
    let ghost all = results@;
    let mut results = results;
    let mut releases: Vec<Release> = Vec::new();
    let mut failures: Vec<FailureRecord> = Vec::new();
    while results.len() > 0
        invariant
            results@.len() <= all.len(),
            results@ == all.skip(all.len() - results@.len()),
            releases@ == fanout_releases(all.take(all.len() - results@.len())),
            failures@ == fanout_failures(all.take(all.len() - results@.len()), category),
        decreases results@.len(),
    {
        let ghost k = all.len() - results@.len();
        let one = results.remove(0);
        proof {
            assert(one == all[k]);
            assert(results@ =~= all.skip(k + 1));
            assert(all.take(k + 1).drop_last() =~= all.take(k));
            assert(all.take(k + 1).last() == all[k]);
        }
        let PerCreatorFetchResult { creator_id, outcome } = one;
        match outcome {
            FetchOutcome::Fetched(mut v) => {
                releases.append(&mut v);
            },
            FetchOutcome::Failed(e) => {
                failures.push(
                    FailureRecord { creator_id: creator_id, category: category, message: e.message },
                );
            },
        }
    }
    proof {
        assert(all.take(all.len() as int) =~= all);
    }
    FanOutResult { releases, failures }
}

} // verus!
