use release_aggregator::aggregate::{AggregatedCatalog, CategoryFetch};
use release_aggregator::date::{Date, DatePolicy};
use release_aggregator::fanout::{FetchOutcome, PerCreatorFetchResult};
use release_aggregator::format::{format_line, join_names_exec, select_link_exec};
use release_aggregator::model::{Category, Release, TransportError};
use release_aggregator::report::{dedup_catalog, filter_and_report, run_report, sort_entries};

fn d(year: u32, month: u32, day: u32) -> Date {
    Date { year, month, day }
}

fn release(id: &str, title: &str, date: Option<&str>) -> Release {
    Release {
        id: id.to_string(),
        title: title.to_string(),
        release_date: date.map(|s| s.to_string()),
        artists: vec!["A".to_string()],
        links: vec![],
    }
}

fn catalog(releases: Vec<Release>) -> AggregatedCatalog {
    AggregatedCatalog { releases }
}

#[test]
fn dedup_keeps_first_seen_metadata() {
    let kept = dedup_catalog(vec![
        release("r1", "First title", Some("2024-01-10")),
        release("r2", "Other", Some("2024-01-11")),
        release("r1", "Second title", Some("2024-01-12")),
    ]);
    assert_eq!(kept.len(), 2);
    assert_eq!(kept[0].id, "r1");
    assert_eq!(kept[0].title, "First title");
    assert_eq!(kept[1].id, "r2");
}

#[test]
fn duplicate_identifier_reported_exactly_once() {
    let report = filter_and_report(
        catalog(vec![
            release("dup", "Same", Some("2024-03-01")),
            release("dup", "Same", Some("2024-03-01")),
        ]),
        d(2024, 1, 1),
        DatePolicy::PeriodStart,
        &vec![],
    );
    assert_eq!(report.entries.len(), 1);
    assert_eq!(report.entries[0].id, "dup");
}

#[test]
fn recency_boundary_is_inclusive_on_cutoff() {
    let cutoff = d(2024, 1, 10);
    let report = filter_and_report(
        catalog(vec![
            release("on", "On the cutoff", Some("2024-01-10")),
            release("before", "Day before", Some("2024-01-09")),
            release("after", "Day after", Some("2024-01-11")),
        ]),
        cutoff,
        DatePolicy::PeriodStart,
        &vec![],
    );
    let ids: Vec<&str> = report.entries.iter().map(|e| e.id.as_str()).collect();
    assert!(ids.contains(&"on"));
    assert!(!ids.contains(&"before"));
    assert!(ids.contains(&"after"));
}

#[test]
fn unparseable_dates_are_excluded_and_counted() {
    let report = filter_and_report(
        catalog(vec![
            release("ok", "Fine", Some("2024-05-01")),
            release("none", "No date", None),
            release("bad", "Garbled", Some("05/01/2024")),
            release("partial", "Month only", Some("2024-05")),
        ]),
        d(2024, 1, 1),
        DatePolicy::DayPrecisionOnly,
        &vec![],
    );
    // under the strict policy the partial date is unparseable too
    assert_eq!(report.date_excluded, 3);
    assert_eq!(report.entries.len(), 1);
    assert_eq!(report.entries[0].id, "ok");
}

#[test]
fn report_is_ordered_by_date_ties_keep_merge_order() {
    let report = filter_and_report(
        catalog(vec![
            release("late", "Late", Some("2024-06-01")),
            release("tie1", "Tie one", Some("2024-02-01")),
            release("early", "Early", Some("2024-01-05")),
            release("tie2", "Tie two", Some("2024-02-01")),
        ]),
        d(2024, 1, 1),
        DatePolicy::PeriodStart,
        &vec![],
    );
    let ids: Vec<&str> = report.entries.iter().map(|e| e.id.as_str()).collect();
    assert_eq!(ids, vec!["early", "tie1", "tie2", "late"]);
}

#[test]
fn formats_title_joined_names_and_link() {
    let rel = Release {
        id: "r".to_string(),
        title: "Great Album".to_string(),
        release_date: Some("2024-01-10".to_string()),
        artists: vec!["Anna".to_string(), "Bob".to_string(), "Cid".to_string()],
        links: vec![("web".to_string(), "https://example.com/r".to_string())],
    };
    let line = format_line(&rel, &vec![]);
    assert_eq!(line, " - Great Album by Anna, Bob, Cid https://example.com/r");
}

#[test]
fn join_names_empty_and_single() {
    assert_eq!(join_names_exec(&vec![]), "");
    assert_eq!(join_names_exec(&vec!["Solo".to_string()]), "Solo");
}

#[test]
fn link_selection_follows_priority_then_first() {
    let links = vec![
        ("mirror".to_string(), "https://mirror/x".to_string()),
        ("web".to_string(), "https://web/x".to_string()),
    ];
    // priority hit
    let url = select_link_exec(&links, &vec!["web".to_string(), "mirror".to_string()]);
    assert_eq!(url, "https://web/x");
    // no priority entry known: first link wins
    let url = select_link_exec(&links, &vec!["store".to_string()]);
    assert_eq!(url, "https://mirror/x");
    // no links at all
    let url = select_link_exec(&vec![], &vec!["web".to_string()]);
    assert_eq!(url, "");
}

#[test]
fn sort_entries_is_stable_by_date() {
    let entries = vec![
        release_aggregator::report::ReportEntry {
            id: "b".to_string(),
            date: d(2024, 2, 1),
            line: "b".to_string(),
        },
        release_aggregator::report::ReportEntry {
            id: "a".to_string(),
            date: d(2024, 1, 1),
            line: "a".to_string(),
        },
        release_aggregator::report::ReportEntry {
            id: "c".to_string(),
            date: d(2024, 2, 1),
            line: "c".to_string(),
        },
    ];
    let sorted = sort_entries(entries);
    let ids: Vec<&str> = sorted.iter().map(|e| e.id.as_str()).collect();
    assert_eq!(ids, vec!["a", "b", "c"]);
}

#[test]
fn scenario_one_success_one_transport_failure() {
    // creators A and B, category album: A returns one release, B fails
    let fetches = vec![CategoryFetch {
        category: Category::Album,
        results: vec![
            PerCreatorFetchResult {
                creator_id: "A".to_string(),
                outcome: FetchOutcome::Fetched(vec![release(
                    "1",
                    "From A",
                    Some("2024-01-10"),
                )]),
            },
            PerCreatorFetchResult {
                creator_id: "B".to_string(),
                outcome: FetchOutcome::Failed(TransportError {
                    message: "connection reset".to_string(),
                }),
            },
        ],
    }];
    let (report, summary) = run_report(
        fetches,
        d(2024, 1, 1),
        DatePolicy::PeriodStart,
        &vec![],
    );
    assert_eq!(report.entries.len(), 1);
    assert_eq!(report.entries[0].id, "1");
    assert_eq!(summary.count(), 1);
    assert_eq!(summary.failures[0].creator_id, "B");
    assert_eq!(summary.failures[0].category, Category::Album);
}

#[test]
fn scenario_same_release_under_two_categories() {
    // one creator, two categories, both returning the same release id
    let results = |()| {
        vec![PerCreatorFetchResult {
            creator_id: "A".to_string(),
            outcome: FetchOutcome::Fetched(vec![release("same", "Twice", Some("2024-01-10"))]),
        }]
    };
    let fetches = vec![
        CategoryFetch { category: Category::Album, results: results(()) },
        CategoryFetch { category: Category::Single, results: results(()) },
    ];
    let (report, summary) = run_report(
        fetches,
        d(2024, 1, 1),
        DatePolicy::PeriodStart,
        &vec![],
    );
    assert_eq!(report.entries.len(), 1);
    assert_eq!(report.entries[0].id, "same");
    assert_eq!(summary.count(), 0);
}

#[test]
fn rerun_on_identical_responses_reproduces_the_report() {
    let build = |()| {
        vec![
            CategoryFetch {
                category: Category::Album,
                results: vec![PerCreatorFetchResult {
                    creator_id: "A".to_string(),
                    outcome: FetchOutcome::Fetched(vec![
                        release("x", "X", Some("2024-04-01")),
                        release("y", "Y", Some("2024-03-01")),
                    ]),
                }],
            },
            CategoryFetch {
                category: Category::Single,
                results: vec![PerCreatorFetchResult {
                    creator_id: "A".to_string(),
                    outcome: FetchOutcome::Fetched(vec![release("x", "X", Some("2024-04-01"))]),
                }],
            },
        ]
    };
    let (r1, s1) = run_report(build(()), d(2024, 1, 1), DatePolicy::PeriodStart, &vec![]);
    let (r2, s2) = run_report(build(()), d(2024, 1, 1), DatePolicy::PeriodStart, &vec![]);
    let lines1: Vec<&str> = r1.entries.iter().map(|e| e.line.as_str()).collect();
    let lines2: Vec<&str> = r2.entries.iter().map(|e| e.line.as_str()).collect();
    assert_eq!(lines1, lines2);
    assert_eq!(r1.date_excluded, r2.date_excluded);
    assert_eq!(s1.count(), s2.count());
}

#[test]
fn empty_catalog_yields_empty_report() {
    let report = filter_and_report(
        catalog(vec![]),
        d(2024, 1, 1),
        DatePolicy::PeriodStart,
        &vec![],
    );
    assert_eq!(report.entries.len(), 0);
    assert_eq!(report.date_excluded, 0);
}
