//! Deduplication, recency filtering, and report formatting.
//!
//! The merged multi-category catalog may hold the same release several
//! times — fetched under two categories, or through two collaborating
//! creators.  The reporter keeps exactly one instance per release
//! identifier (the first seen, in the catalog's deterministic merge
//! order), admits a release exactly when its normalized date is on or
//! after the cutoff (dates that cannot be normalized are excluded and
//! counted, never silently dropped), formats each survivor as one report
//! line, and emits the lines ordered by release date, ties keeping their
//! merge order.

use vstd::prelude::*;
use vstd::multiset::Multiset;
use crate::aggregate::{
    aggregate, aggregate_failures, aggregate_releases, AggregatedCatalog, CategoryFetch,
    FailureSummary,
};
use crate::date::{lemma_normalize_date_valid, normalize_date, parse_release_date, Date, DatePolicy};
use crate::format::{format_line, spec_line};
use crate::model::Release;

verus! {

/// One line of the final report, with the identifier and normalized date
/// of the release it stands for.
pub struct ReportEntry {
    pub id: String,
    pub date: Date,
    pub line: String,
}

/// The mathematical shadow of a report entry.
pub ghost struct EntryModel {
    pub id: Seq<char>,
    pub date: Date,
    pub line: Seq<char>,
}

impl View for ReportEntry {
    type V = EntryModel;

    open spec fn view(&self) -> EntryModel {
        EntryModel { id: self.id@, date: self.date, line: self.line@ }
    }
}

/// The models of a sequence of report entries.
pub open spec fn entries_view(s: Seq<ReportEntry>) -> Seq<EntryModel> {
    s.map_values(|e: ReportEntry| e@)
}

/// Some release in `s` carries the identifier `id`.
pub open spec fn has_id(s: Seq<Release>, id: Seq<char>) -> bool {
    exists|i: int| 0 <= i < s.len() && (#[trigger] s[i]).id@ == id
}

/// First-seen deduplication by release identifier: a release is kept
/// exactly when no earlier release carries the same identifier, so the
/// earliest instance's metadata wins.
pub open spec fn dedup_releases(s: Seq<Release>) -> Seq<Release>
    decreases s.len(),
{
    if s.len() == 0 {
        Seq::empty()
    } else if has_id(s.drop_last(), s.last().id@) {
        dedup_releases(s.drop_last())
    } else {
        dedup_releases(s.drop_last()).push(s.last())
    }
}

/// No two releases of `s` share an identifier.
pub open spec fn unique_ids(s: Seq<Release>) -> bool {
    forall|i: int, j: int|
        0 <= i < j < s.len() ==> (#[trigger] s[i]).id@ != (#[trigger] s[j]).id@
}

proof fn lemma_has_id_step(s: Seq<Release>, id: Seq<char>)
    requires
        s.len() > 0,
    ensures
        has_id(s, id) <==> (has_id(s.drop_last(), id) || s.last().id@ == id),
{
    if has_id(s, id) {
        let i = choose|i: int| 0 <= i < s.len() && (#[trigger] s[i]).id@ == id;
        if i < s.len() - 1 {
            assert(s.drop_last()[i].id@ == id);
        }
    }
    if has_id(s.drop_last(), id) {
        let i = choose|i: int|
            0 <= i < s.drop_last().len() && (#[trigger] s.drop_last()[i]).id@ == id;
        assert(s[i].id@ == id);
    }
    if s.last().id@ == id {
        assert(s[s.len() - 1].id@ == id);
    }
}

proof fn lemma_has_id_push(s: Seq<Release>, r: Release, id: Seq<char>)
    ensures
        has_id(s.push(r), id) <==> (has_id(s, id) || r.id@ == id),
{
    assert(s.push(r).drop_last() =~= s);
    lemma_has_id_step(s.push(r), id);
}

/// Deduplication neither invents nor loses identifiers: an identifier
/// occurs among the kept releases exactly when it occurs in the input.
pub proof fn lemma_dedup_same_ids(s: Seq<Release>, id: Seq<char>)
    ensures
        has_id(dedup_releases(s), id) <==> has_id(s, id),
    decreases s.len(),
{
    if s.len() > 0 {
        lemma_dedup_same_ids(s.drop_last(), id);
        lemma_has_id_step(s, id);
        if !has_id(s.drop_last(), s.last().id@) {
            lemma_has_id_push(dedup_releases(s.drop_last()), s.last(), id);
        } else {
            if s.last().id@ == id {
                assert(has_id(s.drop_last(), id));
            }
        }
    }
}

/// After first-seen deduplication, no two kept releases share an
/// identifier.
pub proof fn lemma_dedup_unique(s: Seq<Release>)
    ensures
        unique_ids(dedup_releases(s)),
    decreases s.len(),
{
    if s.len() > 0 {
        lemma_dedup_unique(s.drop_last());
        if !has_id(s.drop_last(), s.last().id@) {
            lemma_dedup_same_ids(s.drop_last(), s.last().id@);
            let d = dedup_releases(s.drop_last());
            let p = d.push(s.last());
            assert forall|i: int, j: int| 0 <= i < j < p.len() implies p[i].id@ != p[j].id@ by {
                if j == d.len() {
                    assert(p[j] == s.last());
                    assert(p[i] == d[i]);
                    if d[i].id@ == s.last().id@ {
                        assert(has_id(d, s.last().id@));
                    }
                } else {
                    assert(p[i] == d[i]);
                    assert(p[j] == d[j]);
                }
            }
        }
    }
}

/// Whether some already-kept release carries the identifier `id`.
fn contains_id(v: &Vec<Release>, id: &String) -> (b: bool)
    ensures
        b == has_id(v@, id@),
{
    let mut j: usize = 0;
    while j < v.len()
        invariant
            j <= v@.len(),
            forall|i: int| 0 <= i < j ==> (#[trigger] v@[i]).id@ != id@,
        decreases v@.len() - j,
    {
        if v[j].id == *id {
            return true;
        }
        j += 1;
    }
    false
}

/// Keeps the first-seen instance of every release identifier, in merge
/// order; afterwards no identifier occurs twice.
pub fn dedup_catalog(catalog: Vec<Release>) -> (r: Vec<Release>)
    ensures
        r@ == dedup_releases(catalog@),
        unique_ids(r@),
{
    proof {
        lemma_dedup_unique(catalog@);
    }
    let ghost all = catalog@;
    let mut catalog = catalog;
    let mut kept: Vec<Release> = Vec::new();
    while catalog.len() > 0
        invariant
            catalog@.len() <= all.len(),
            catalog@ == all.skip(all.len() - catalog@.len()),
            kept@ == dedup_releases(all.take(all.len() - catalog@.len())),
        decreases catalog@.len(),
    {
        let ghost k = all.len() - catalog@.len();
        let rel = catalog.remove(0);
        proof {
            assert(rel == all[k]);
            assert(catalog@ =~= all.skip(k + 1));
            assert(all.take(k + 1).drop_last() =~= all.take(k));
            assert(all.take(k + 1).last() == all[k]);
            lemma_dedup_same_ids(all.take(k), rel.id@);
        }
        let seen = contains_id(&kept, &rel.id);
        if !seen {
            kept.push(rel);
        }
    }
    proof {
        assert(all.take(all.len() as int) =~= all);
    }
    kept
}

/// The normalized date of a release under `policy`, if it has one.
pub open spec fn release_date_model(r: Release, policy: DatePolicy) -> Option<Date> {
    match r.release_date {
        Some(t) => normalize_date(t@, policy),
        None => None,
    }
}

/// The entry models for the (already deduplicated) releases `s`: one per
/// release whose date normalizes to a calendar day on or after `cutoff`,
/// in the releases' order.
pub open spec fn report_models(
    s: Seq<Release>,
    cutoff: Date,
    policy: DatePolicy,
    priority: Seq<String>,
) -> Seq<EntryModel>
    decreases s.len(),
{
    if s.len() == 0 {
        Seq::empty()
    } else {
        let m = report_models(s.drop_last(), cutoff, policy, priority);
        match release_date_model(s.last(), policy) {
            Some(d) => if cutoff.spec_le(d) {
                m.push(
                    EntryModel {
                        id: s.last().id@,
                        date: d,
                        line: spec_line(s.last(), priority),
                    },
                )
            } else {
                m
            },
            None => m,
        }
    }
}

/// How many of the releases `s` are excluded because their date cannot be
/// normalized to a calendar day under `policy`.
pub open spec fn count_date_excluded(s: Seq<Release>, policy: DatePolicy) -> int
    decreases s.len(),
{
    if s.len() == 0 {
        0
    } else {
        count_date_excluded(s.drop_last(), policy) + if release_date_model(s.last(), policy)
            is None {
            1int
        } else {
            0int
        }
    }
}

/// Builds the (unsorted) report entries for the deduplicated releases, and
/// counts every release whose date could not be normalized.
fn build_entries(releases: Vec<Release>, cutoff: &Date, policy: DatePolicy, priority: &Vec<String>)
    -> (r: (Vec<ReportEntry>, usize))
    ensures
        entries_view(r.0@) == report_models(releases@, *cutoff, policy, priority@),
        r.1 == count_date_excluded(releases@, policy),
{
    let ghost all = releases@;
    let total = releases.len();
    let mut releases = releases;
    let mut entries: Vec<ReportEntry> = Vec::new();
    let mut excluded: usize = 0;
    proof {
        assert(all.take(0) =~= Seq::<Release>::empty());
        assert(entries_view(entries@) =~= Seq::<EntryModel>::empty());
    }
    while releases.len() > 0
        invariant
            all.len() == total,
            releases@.len() <= all.len(),
            releases@ == all.skip(all.len() - releases@.len()),
            entries_view(entries@) == report_models(
                all.take(all.len() - releases@.len()),
                *cutoff,
                policy,
                priority@,
            ),
            excluded == count_date_excluded(all.take(all.len() - releases@.len()), policy),
            excluded <= all.len() - releases@.len(),
        decreases releases@.len(),
    {
        let ghost k = all.len() - releases@.len();
        let rel = releases.remove(0);
        proof {
            assert(rel == all[k]);
            assert(releases@ =~= all.skip(k + 1));
            assert(all.take(k + 1).drop_last() =~= all.take(k));
            assert(all.take(k + 1).last() == all[k]);
        }
        let parsed = match &rel.release_date {
            Some(t) => parse_release_date(t.as_str(), policy),
            None => None,
        };
        match parsed {
            Some(d) => {
                if cutoff.le(&d) {
                    let line = format_line(&rel, priority);
                    let entry = ReportEntry { id: rel.id, date: d, line };
                    entries.push(entry);
                    proof {
                        assert(entries_view(entries@) =~= report_models(
                            all.take(k + 1),
                            *cutoff,
                            policy,
                            priority@,
                        ));
                    }
                }
            },
            None => {
                excluded += 1;
            },
        }
    }
    proof {
        assert(all.take(all.len() as int) =~= all);
    }
    (entries, excluded)
}

/// Calendar placement of one entry among already-ordered entries: the
/// entry goes after every entry dated on or before it, so equal dates
/// keep their existing order.
pub open spec fn insert_by_date(m: EntryModel, s: Seq<EntryModel>) -> Seq<EntryModel>
    decreases s.len(),
{
    if s.len() == 0 {
        seq![m]
    } else if s[0].date.spec_le(m.date) {
        seq![s[0]] + insert_by_date(m, s.drop_first())
    } else {
        seq![m] + s
    }
}

/// Insertion ordering of the entries by release date, ascending, stable.
pub open spec fn sort_by_date(s: Seq<EntryModel>) -> Seq<EntryModel>
    decreases s.len(),
{
    if s.len() == 0 {
        Seq::empty()
    } else {
        insert_by_date(s.last(), sort_by_date(s.drop_last()))
    }
}

/// The entries are in ascending calendar order.
pub open spec fn sorted_by_date(s: Seq<EntryModel>) -> bool {
    forall|i: int, j: int| 0 <= i < j < s.len() ==> (#[trigger] s[i]).date.spec_le(
        (#[trigger] s[j]).date,
    )
}

proof fn lemma_singleton(m: EntryModel)
    ensures
        seq![m].to_multiset() == Multiset::<EntryModel>::empty().insert(m),
        seq![m].contains(m),
        forall|x: EntryModel| #[trigger] seq![m].contains(x) ==> x == m,
        seq![m].len() == 1,
{
    assert(seq![m][0] == m);
    Seq::<EntryModel>::empty().to_multiset_ensures();
    assert(Seq::<EntryModel>::empty().to_multiset() =~= Multiset::<EntryModel>::empty());
    assert(seq![m] =~= Seq::<EntryModel>::empty().push(m));
    assert(Seq::<EntryModel>::empty().push(m).to_multiset() =~= Seq::<
        EntryModel,
    >::empty().to_multiset().insert(m));
    assert(seq![m].to_multiset() =~= Multiset::<EntryModel>::empty().insert(m));
}

proof fn lemma_insert_by_date(m: EntryModel, s: Seq<EntryModel>)
    requires
        sorted_by_date(s),
    ensures
        sorted_by_date(insert_by_date(m, s)),
        insert_by_date(m, s).len() == s.len() + 1,
        forall|x: EntryModel|
            insert_by_date(m, s).contains(x) <==> (s.contains(x) || x == m),
        insert_by_date(m, s).to_multiset() == s.to_multiset().insert(m),
    decreases s.len(),
{
    s.to_multiset_ensures();
    insert_by_date(m, s).to_multiset_ensures();
    lemma_singleton(m);
    if s.len() == 0 {
        assert(s =~= Seq::<EntryModel>::empty());
        assert(s.to_multiset() =~= Multiset::<EntryModel>::empty());
        assert(insert_by_date(m, s) == seq![m]);
        assert(seq![m].to_multiset() =~= s.to_multiset().insert(m));
    } else if s[0].date.spec_le(m.date) {
        let t = s.drop_first();
        assert(sorted_by_date(t));
        lemma_insert_by_date(m, t);
        let u = insert_by_date(m, t);
        let r = seq![s[0]] + u;
        assert(r == insert_by_date(m, s));
        t.to_multiset_ensures();
        u.to_multiset_ensures();
        assert(s =~= seq![s[0]] + t);
        lemma_singleton(s[0]);
        lemma_multiset_concat(seq![s[0]], t);
        lemma_multiset_concat(seq![s[0]], u);
        assert(r.to_multiset() =~= s.to_multiset().insert(m));
        // membership
        assert forall|x: EntryModel| r.contains(x) <==> (s.contains(x) || x == m) by {
            lemma_contains_concat(seq![s[0]], u, x);
            lemma_contains_concat(seq![s[0]], t, x);
            assert(seq![s[0]].contains(x) <==> x == s[0]);
        }
        // sortedness: s[0] precedes everything in u
        assert forall|i: int, j: int| 0 <= i < j < r.len() implies r[i].date.spec_le(
            r[j].date,
        ) by {
            if i == 0 {
                let x = u[j - 1];
                assert(u.contains(x));
                if x == m {
                    assert(s[0].date.spec_le(m.date));
                } else {
                    assert(t.contains(x));
                    let w = choose|w: int| 0 <= w < t.len() && t[w] == x;
                    assert(s[w + 1] == x);
                    assert(s[0].date.spec_le(s[w + 1].date));
                }
            } else {
                assert(r[i] == u[i - 1]);
                assert(r[j] == u[j - 1]);
            }
        }
    } else {
        let r = seq![m] + s;
        assert(r == insert_by_date(m, s));
        lemma_multiset_concat(seq![m], s);
        assert(r.to_multiset() =~= s.to_multiset().insert(m));
        assert forall|x: EntryModel| r.contains(x) <==> (s.contains(x) || x == m) by {
            lemma_contains_concat(seq![m], s, x);
            assert(seq![m].contains(x) <==> x == m);
        }
        assert forall|i: int, j: int| 0 <= i < j < r.len() implies r[i].date.spec_le(
            r[j].date,
        ) by {
            if i == 0 {
                let x = s[j - 1];
                if !m.date.spec_le(x.date) {
                    if j - 1 > 0 {
                        assert(s[0].date.spec_le(s[j - 1].date));
                    }
                }
            } else {
                assert(r[i] == s[i - 1]);
                assert(r[j] == s[j - 1]);
            }
        }
    }
}

proof fn lemma_contains_concat(a: Seq<EntryModel>, b: Seq<EntryModel>, x: EntryModel)
    ensures
        (a + b).contains(x) <==> (a.contains(x) || b.contains(x)),
{
    if (a + b).contains(x) {
        let i = choose|i: int| 0 <= i < (a + b).len() && (a + b)[i] == x;
        if i < a.len() {
            assert(a[i] == x);
        } else {
            assert(b[i - a.len()] == x);
        }
    }
    if a.contains(x) {
        let i = choose|i: int| 0 <= i < a.len() && a[i] == x;
        assert((a + b)[i] == x);
    }
    if b.contains(x) {
        let i = choose|i: int| 0 <= i < b.len() && b[i] == x;
        assert((a + b)[a.len() + i] == x);
    }
}

proof fn lemma_multiset_concat(a: Seq<EntryModel>, b: Seq<EntryModel>)
    ensures
        (a + b).to_multiset() == a.to_multiset().add(b.to_multiset()),
{
    vstd::seq_lib::lemma_multiset_commutative(a, b);
}

/// The ordering stage is a permutation: it neither drops nor invents
/// entries, and it leaves the entries in ascending calendar order.
pub proof fn lemma_sort_by_date(s: Seq<EntryModel>)
    ensures
        sorted_by_date(sort_by_date(s)),
        sort_by_date(s).to_multiset() == s.to_multiset(),
        sort_by_date(s).len() == s.len(),
        forall|x: EntryModel| sort_by_date(s).contains(x) <==> s.contains(x),
    decreases s.len(),
{
    s.to_multiset_ensures();
    sort_by_date(s).to_multiset_ensures();
    if s.len() == 0 {
        assert(sort_by_date(s).to_multiset() =~= s.to_multiset());
    } else {
        let t = s.drop_last();
        lemma_sort_by_date(t);
        lemma_insert_by_date(s.last(), sort_by_date(t));
        t.to_multiset_ensures();
        assert(s =~= t.push(s.last()));
        t.to_multiset_ensures();
        assert(s.to_multiset() == t.push(s.last()).to_multiset());
        assert(t.push(s.last()).to_multiset() == t.to_multiset().insert(s.last()));
        assert forall|x: EntryModel| sort_by_date(s).contains(x) <==> s.contains(x) by {
            lemma_contains_concat(t, seq![s.last()], x);
            assert(s =~= t + seq![s.last()]);
            assert(seq![s.last()].contains(x) <==> x == s.last());
        }
    }
}

/// Whether the entry at position `i` is dated on or before `e`.
fn entry_le(v: &Vec<ReportEntry>, i: usize, e: &ReportEntry) -> (b: bool)
    requires
        i < v@.len(),
    ensures
        b == v@[i as int]@.date.spec_le(e@.date),
{
    v[i].date.le(&e.date)
}

/// Inserts one entry into an already-ordered vector, after every entry
/// dated on or before it.
fn insert_entry(sorted: &mut Vec<ReportEntry>, e: ReportEntry)
    ensures
        entries_view(final(sorted)@) == insert_by_date(e@, entries_view(old(sorted)@)),
{
    let ghost all = entries_view(old(sorted)@);
    let mut i: usize = 0;
    proof {
        assert(all.skip(0) =~= all);
        assert(all.take(0) =~= Seq::<EntryModel>::empty());
    }
    while i < sorted.len() && entry_le(sorted, i, &e)
        invariant
            i <= sorted@.len(),
            sorted@ == old(sorted)@,
            all == entries_view(sorted@),
            insert_by_date(e@, all) == all.take(i as int) + insert_by_date(
                e@,
                all.skip(i as int),
            ),
        decreases sorted@.len() - i,
    {
        proof {
            assert(all.skip(i as int)[0] == all[i as int]);
            assert(all.skip(i as int).drop_first() =~= all.skip(i + 1));
            assert(all.take(i as int) + seq![all[i as int]] =~= all.take(i + 1));
            assert(all.take(i as int) + (seq![all[i as int]] + insert_by_date(
                e@,
                all.skip(i + 1),
            )) =~= (all.take(i as int) + seq![all[i as int]]) + insert_by_date(
                e@,
                all.skip(i + 1),
            ));
        }
        i += 1;
    }
    proof {
        if i < sorted@.len() {
            assert(all.skip(i as int)[0] == all[i as int]);
            assert(insert_by_date(e@, all.skip(i as int)) =~= seq![e@] + all.skip(i as int));
        } else {
            assert(all.skip(i as int) =~= Seq::<EntryModel>::empty());
            assert(insert_by_date(e@, all.skip(i as int)) =~= seq![e@]);
        }
    }
    sorted.insert(i, e);
    proof {
        assert(entries_view(sorted@) =~= all.take(i as int) + (seq![e@] + all.skip(i as int)));
        assert(all.take(i as int) + (seq![e@] + all.skip(i as int)) =~= all.take(i as int)
            + insert_by_date(e@, all.skip(i as int)));
    }
}

/// Orders the report entries by release date ascending, entries of equal
/// date keeping their existing order.
pub fn sort_entries(entries: Vec<ReportEntry>) -> (r: Vec<ReportEntry>)
    ensures
        entries_view(r@) == sort_by_date(entries_view(entries@)),
{
    let ghost all = entries_view(entries@);
    let mut entries = entries;
    let mut out: Vec<ReportEntry> = Vec::new();
    proof {
        assert(all.skip(0) =~= all);
        assert(all.take(0) =~= Seq::<EntryModel>::empty());
        assert(entries_view(out@) =~= Seq::<EntryModel>::empty());
    }
    while entries.len() > 0
        invariant
            entries@.len() <= all.len(),
            entries_view(entries@) == all.skip(all.len() - entries@.len()),
            entries_view(out@) == sort_by_date(all.take(all.len() - entries@.len())),
        decreases entries@.len(),
    {
        let ghost k = all.len() - entries@.len();
        let ghost pre = entries@;
        let e = entries.remove(0);
        proof {
            assert(e == pre[0]);
            assert(e@ == entries_view(pre)[0]);
            assert(all.skip(k as int)[0] == all[k]);
            assert(entries@ =~= pre.drop_first());
            assert(entries_view(entries@) =~= entries_view(pre).skip(1));
            assert(entries_view(pre).skip(1) =~= all.skip(k + 1));
            assert(all.take(k + 1).drop_last() =~= all.take(k));
            assert(all.take(k + 1).last() == all[k]);
        }
        insert_entry(&mut out, e);
    }
    proof {
        assert(all.take(all.len() as int) =~= all);
        assert(all.skip(0) =~= all);
    }
    out
}

/// Some entry model in `s` carries the identifier `id`.
pub open spec fn has_model_id(s: Seq<EntryModel>, id: Seq<char>) -> bool {
    exists|i: int| 0 <= i < s.len() && (#[trigger] s[i]).id == id
}

/// No two entry models of `s` share an identifier.
pub open spec fn unique_model_ids(s: Seq<EntryModel>) -> bool {
    forall|i: int, j: int| 0 <= i < j < s.len() ==> (#[trigger] s[i]).id != (#[trigger] s[j]).id
}

proof fn lemma_has_model_id_push(s: Seq<EntryModel>, e: EntryModel, id: Seq<char>)
    ensures
        has_model_id(s.push(e), id) <==> (has_model_id(s, id) || e.id == id),
{
    if has_model_id(s.push(e), id) {
        let i = choose|i: int| 0 <= i < s.push(e).len() && (#[trigger] s.push(e)[i]).id == id;
        if i < s.len() {
            assert(s[i].id == id);
        }
    }
    if has_model_id(s, id) {
        let i = choose|i: int| 0 <= i < s.len() && (#[trigger] s[i]).id == id;
        assert(s.push(e)[i].id == id);
    }
    if e.id == id {
        assert(s.push(e)[s.len() as int].id == id);
    }
}

/// Every identifier of a report entry is the identifier of some release
/// that was filtered.
proof fn lemma_models_ids_from_releases(
    s: Seq<Release>,
    cutoff: Date,
    policy: DatePolicy,
    priority: Seq<String>,
    id: Seq<char>,
)
    ensures
        has_model_id(report_models(s, cutoff, policy, priority), id) ==> has_id(s, id),
    decreases s.len(),
{
    if s.len() > 0 {
        lemma_models_ids_from_releases(s.drop_last(), cutoff, policy, priority, id);
        lemma_has_id_step(s, id);
        let m = report_models(s.drop_last(), cutoff, policy, priority);
        match release_date_model(s.last(), policy) {
            Some(d) => {
                if cutoff.spec_le(d) {
                    let e = EntryModel {
                        id: s.last().id@,
                        date: d,
                        line: spec_line(s.last(), priority),
                    };
                    lemma_has_model_id_push(m, e, id);
                }
            },
            None => {},
        }
    }
}

/// Filtering a catalog of pairwise-distinct identifiers yields entries of
/// pairwise-distinct identifiers.
proof fn lemma_models_unique(s: Seq<Release>, cutoff: Date, policy: DatePolicy, priority: Seq<
    String,
>)
    requires
        unique_ids(s),
    ensures
        unique_model_ids(report_models(s, cutoff, policy, priority)),
    decreases s.len(),
{
    if s.len() > 0 {
        assert(unique_ids(s.drop_last())) by {
            assert forall|i: int, j: int|
                0 <= i < j < s.drop_last().len() implies (#[trigger] s.drop_last()[i]).id@ != (
            #[trigger] s.drop_last()[j]).id@ by {
                assert(s[i] == s.drop_last()[i]);
                assert(s[j] == s.drop_last()[j]);
            }
        }
        lemma_models_unique(s.drop_last(), cutoff, policy, priority);
        let m = report_models(s.drop_last(), cutoff, policy, priority);
        match release_date_model(s.last(), policy) {
            Some(d) => {
                if cutoff.spec_le(d) {
                    let e = EntryModel {
                        id: s.last().id@,
                        date: d,
                        line: spec_line(s.last(), priority),
                    };
                    if has_model_id(m, e.id) {
                        lemma_models_ids_from_releases(
                            s.drop_last(),
                            cutoff,
                            policy,
                            priority,
                            e.id,
                        );
                        let i = choose|i: int|
                            0 <= i < s.drop_last().len() && (#[trigger] s.drop_last()[i]).id@
                                == e.id;
                        assert(s[i].id@ == s[s.len() - 1].id@);
                        assert(false);
                    }
                    let p = m.push(e);
                    assert forall|i: int, j: int| 0 <= i < j < p.len() implies (
                    #[trigger] p[i]).id != (#[trigger] p[j]).id by {
                        if j == m.len() {
                            assert(p[i] == m[i]);
                            if m[i].id == e.id {
                                assert(has_model_id(m, e.id));
                            }
                        } else {
                            assert(p[i] == m[i]);
                            assert(p[j] == m[j]);
                        }
                    }
                }
            },
            None => {},
        }
    }
}

/// Ordering the entries neither invents nor loses identifiers, and keeps
/// pairwise-distinct identifiers pairwise distinct.
proof fn lemma_sort_unique(s: Seq<EntryModel>)
    requires
        unique_model_ids(s),
    ensures
        unique_model_ids(sort_by_date(s)),
    decreases s.len(),
{
    lemma_sort_by_date(s);
    let t = sort_by_date(s);
    assert forall|i: int, j: int| 0 <= i < j < t.len() implies (#[trigger] t[i]).id != (
    #[trigger] t[j]).id by {
        assert(t.contains(t[i]));
        assert(t.contains(t[j]));
        assert(s.contains(t[i]));
        assert(s.contains(t[j]));
        let a = choose|a: int| 0 <= a < s.len() && #[trigger] s[a] == t[i];
        let b = choose|b: int| 0 <= b < s.len() && #[trigger] s[b] == t[j];
        assert(0 <= a < s.len() && s[a] == t[i]);
        assert(0 <= b < s.len() && s[b] == t[j]);
        if a != b {
            if a < b {
                assert(s[a].id != s[b].id);
            } else {
                assert(s[b].id != s[a].id);
            }
        } else {
            // the element would sit at two positions of `t`, giving it a
            // multiset count of at least two, while pairwise-distinct
            // identifiers in `s` allow a count of at most one
            let x = t[i];
            let u = t.remove(j);
            t.to_multiset_ensures();
            u.to_multiset_ensures();
            s.to_multiset_ensures();
            assert(u.to_multiset() =~= t.to_multiset().remove(x));
            assert(u[i] == x);
            assert(u.contains(x));
            assert(u.to_multiset().count(x) > 0);
            assert(t.to_multiset().count(x) >= 2);
            lemma_unique_count(s, x);
        }
    }
}

proof fn lemma_unique_count(s: Seq<EntryModel>, x: EntryModel)
    requires
        unique_model_ids(s),
    ensures
        s.to_multiset().count(x) <= 1,
    decreases s.len(),
{
    s.to_multiset_ensures();
    if s.len() == 0 {
        assert(!s.contains(x));
    } else {
        let t = s.drop_last();
        assert(unique_model_ids(t)) by {
            assert forall|i: int, j: int| 0 <= i < j < t.len() implies (#[trigger] t[i]).id != (
            #[trigger] t[j]).id by {
                assert(s[i] == t[i]);
                assert(s[j] == t[j]);
            }
        }
        lemma_unique_count(t, x);
        t.to_multiset_ensures();
        assert(s =~= t.push(s.last()));
        assert(s.to_multiset() == t.to_multiset().insert(s.last()));
        if s.last() == x {
            if t.contains(x) {
                let i = choose|i: int| 0 <= i < t.len() && t[i] == x;
                assert(s[i].id == s[s.len() - 1].id);
                assert(false);
            }
            assert(t.to_multiset().count(x) == 0);
        }
    }
}

/// Every reported entry carries a real calendar day: date normalization
/// only ever produces valid dates, and the filter keeps nothing else.
pub proof fn lemma_report_dates_valid(
    s: Seq<Release>,
    cutoff: Date,
    policy: DatePolicy,
    priority: Seq<String>,
)
    ensures
        forall|i: int|
            0 <= i < report_models(s, cutoff, policy, priority).len() ==> (
            #[trigger] report_models(s, cutoff, policy, priority)[i]).date.valid(),
    decreases s.len(),
{
    if s.len() > 0 {
        lemma_report_dates_valid(s.drop_last(), cutoff, policy, priority);
        let m = report_models(s.drop_last(), cutoff, policy, priority);
        match release_date_model(s.last(), policy) {
            Some(d) => {
                if cutoff.spec_le(d) {
                    match s.last().release_date {
                        Some(t) => {
                            lemma_normalize_date_valid(t@, policy);
                        },
                        None => {},
                    }
                    let e = EntryModel {
                        id: s.last().id@,
                        date: d,
                        line: spec_line(s.last(), priority),
                    };
                    assert forall|i: int| 0 <= i < m.push(e).len() implies (
                    #[trigger] m.push(e)[i]).date.valid() by {
                        if i < m.len() {
                            assert(m.push(e)[i] == m[i]);
                        } else {
                            assert(m.push(e)[i] == e);
                        }
                    }
                }
            },
            None => {},
        }
    }
}

/// The final report of one run: the formatted entries in emission order,
/// and how many releases were excluded because their release date could
/// not be normalized under the active policy.
pub struct Report {
    pub entries: Vec<ReportEntry>,
    pub date_excluded: usize,
}

/// The whole reporter: deduplicates the merged catalog by release
/// identifier (first seen wins), keeps exactly the releases whose
/// normalized date is on or after `cutoff`, formats one line per survivor,
/// and emits the lines ordered by release date ascending, ties keeping
/// merge order.  No identifier is ever reported twice, and a release whose
/// date cannot be normalized is counted, never silently dropped.
pub fn filter_and_report(
    catalog: AggregatedCatalog,
    cutoff: Date,
    policy: DatePolicy,
    priority: &Vec<String>,
) -> (r: Report)
    ensures
        entries_view(r.entries@) == sort_by_date(
            report_models(dedup_releases(catalog.releases@), cutoff, policy, priority@),
        ),
        r.date_excluded == count_date_excluded(dedup_releases(catalog.releases@), policy),
        unique_model_ids(entries_view(r.entries@)),
        sorted_by_date(entries_view(r.entries@)),
        forall|i: int|
            0 <= i < entries_view(r.entries@).len() ==> (
            #[trigger] entries_view(r.entries@)[i]).date.valid(),
{
    proof {
        lemma_dedup_unique(catalog.releases@);
        lemma_models_unique(dedup_releases(catalog.releases@), cutoff, policy, priority@);
        let ms = report_models(dedup_releases(catalog.releases@), cutoff, policy, priority@);
        lemma_sort_unique(ms);
        lemma_sort_by_date(ms);
        lemma_report_dates_valid(dedup_releases(catalog.releases@), cutoff, policy, priority@);
        let sorted = sort_by_date(ms);
        assert forall|i: int| 0 <= i < sorted.len() implies (
        #[trigger] sorted[i]).date.valid() by {
            assert(sorted.contains(sorted[i]));
            assert(ms.contains(sorted[i]));
            let j = choose|j: int| 0 <= j < ms.len() && #[trigger] ms[j] == sorted[i];
            assert(ms[j].date.valid());
        }
    }
    let deduped = dedup_catalog(catalog.releases);
    let (entries, date_excluded) = build_entries(deduped, &cutoff, policy, priority);
    let entries = sort_entries(entries);
    Report { entries, date_excluded }
}

/// The recency boundary is inclusive on the cutoff side: a release dated
/// exactly on the cutoff is reported, and one dated any earlier day — the
/// day before included — is not.
pub proof fn lemma_recency_boundary(
    r: Release,
    d: Date,
    cutoff: Date,
    policy: DatePolicy,
    priority: Seq<String>,
)
    requires
        release_date_model(r, policy) == Some(d),
    ensures
        report_models(seq![r], cutoff, policy, priority).len() == (if cutoff.spec_le(d) {
            1int
        } else {
            0int
        }),
        d == cutoff ==> report_models(seq![r], cutoff, policy, priority).len() == 1,
{
    reveal_with_fuel(report_models, 3);
    assert(seq![r].drop_last() =~= Seq::<Release>::empty());
    assert(seq![r].last() == r);
    assert(report_models(Seq::<Release>::empty(), cutoff, policy, priority)
        =~= Seq::<EntryModel>::empty());
}

/// For a catalog of pairwise-distinct identifiers, a release is reported
/// exactly when its date normalizes to a calendar day on or after the
/// cutoff.
pub proof fn lemma_report_membership(
    s: Seq<Release>,
    cutoff: Date,
    policy: DatePolicy,
    priority: Seq<String>,
    i: int,
)
    requires
        unique_ids(s),
        0 <= i < s.len(),
    ensures
        has_model_id(report_models(s, cutoff, policy, priority), s[i].id@) <==> (release_date_model(
            s[i],
            policy,
        ) matches Some(d) && cutoff.spec_le(d)),
    decreases s.len(),
{
    let m = report_models(s.drop_last(), cutoff, policy, priority);
    if s.len() > 0 {
        assert(unique_ids(s.drop_last())) by {
            assert forall|a: int, b: int|
                0 <= a < b < s.drop_last().len() implies (#[trigger] s.drop_last()[a]).id@ != (
            #[trigger] s.drop_last()[b]).id@ by {
                assert(s[a] == s.drop_last()[a]);
                assert(s[b] == s.drop_last()[b]);
            }
        }
        if i == s.len() - 1 {
            assert(s[i] == s.last());
            if has_model_id(m, s.last().id@) {
                lemma_models_ids_from_releases(s.drop_last(), cutoff, policy, priority, s.last().id@);
                let a = choose|a: int|
                    0 <= a < s.drop_last().len() && (#[trigger] s.drop_last()[a]).id@
                        == s.last().id@;
                assert(s[a].id@ == s[s.len() - 1].id@);
                assert(false);
            }
            match release_date_model(s.last(), policy) {
                Some(d) => {
                    if cutoff.spec_le(d) {
                        let e = EntryModel {
                            id: s.last().id@,
                            date: d,
                            line: spec_line(s.last(), priority),
                        };
                        lemma_has_model_id_push(m, e, s[i].id@);
                    }
                },
                None => {},
            }
        } else {
            lemma_report_membership(s.drop_last(), cutoff, policy, priority, i);
            assert(s.drop_last()[i] == s[i]);
            match release_date_model(s.last(), policy) {
                Some(d) => {
                    if cutoff.spec_le(d) {
                        let e = EntryModel {
                            id: s.last().id@,
                            date: d,
                            line: spec_line(s.last(), priority),
                        };
                        lemma_has_model_id_push(m, e, s[i].id@);
                        if e.id == s[i].id@ {
                            assert(s[i].id@ == s[s.len() - 1].id@);
                            assert(false);
                        }
                    }
                },
                None => {},
            }
        }
    }
}

/// One complete run over already-fetched per-category outcomes: aggregate
/// everything, then deduplicate, filter by recency, format, and order.
/// The failure summary accounts for every failed per-creator query of the
/// run.
pub fn run_report(
    fetches: Vec<CategoryFetch>,
    cutoff: Date,
    policy: DatePolicy,
    priority: &Vec<String>,
) -> (r: (Report, FailureSummary))
    ensures
        entries_view(r.0.entries@) == sort_by_date(
            report_models(
                dedup_releases(aggregate_releases(fetches@)),
                cutoff,
                policy,
                priority@,
            ),
        ),
        r.0.date_excluded == count_date_excluded(
            dedup_releases(aggregate_releases(fetches@)),
            policy,
        ),
        r.1.failures@ == aggregate_failures(fetches@),
        unique_model_ids(entries_view(r.0.entries@)),
        sorted_by_date(entries_view(r.0.entries@)),
{
    let (catalog, summary) = aggregate(fetches);
    let report = filter_and_report(catalog, cutoff, policy, priority);
    (report, summary)
}

/// Rerunning the pipeline over identical fetched responses reproduces the
/// report exactly: every stage — aggregation, deduplication, recency
/// filter, formatting, ordering — is a function of the fetched values
/// alone, with no hidden state between runs.
pub proof fn lemma_rerun_identical(
    f1: Seq<CategoryFetch>,
    f2: Seq<CategoryFetch>,
    cutoff: Date,
    policy: DatePolicy,
    priority: Seq<String>,
)
    requires
        f1 == f2,
    ensures
        sort_by_date(
            report_models(dedup_releases(aggregate_releases(f1)), cutoff, policy, priority),
        ) == sort_by_date(
            report_models(dedup_releases(aggregate_releases(f2)), cutoff, policy, priority),
        ),
        aggregate_failures(f1) == aggregate_failures(f2),
{
}

} // verus!
