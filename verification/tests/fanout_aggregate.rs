use release_aggregator::aggregate::{aggregate, check_run_config, CategoryFetch};
use release_aggregator::fanout::{collect_fanout, FetchOutcome, PerCreatorFetchResult};
use release_aggregator::model::{Category, Release, TransportError};

fn release(id: &str, title: &str, date: Option<&str>) -> Release {
    Release {
        id: id.to_string(),
        title: title.to_string(),
        release_date: date.map(|s| s.to_string()),
        artists: vec!["A".to_string()],
        links: vec![],
    }
}

fn fetched(creator: &str, releases: Vec<Release>) -> PerCreatorFetchResult {
    PerCreatorFetchResult {
        creator_id: creator.to_string(),
        outcome: FetchOutcome::Fetched(releases),
    }
}

fn failed(creator: &str, message: &str) -> PerCreatorFetchResult {
    PerCreatorFetchResult {
        creator_id: creator.to_string(),
        outcome: FetchOutcome::Failed(TransportError { message: message.to_string() }),
    }
}

#[test]
fn fanout_empty_creator_list() {
    let r = collect_fanout(vec![], Category::Album);
    assert_eq!(r.releases.len(), 0);
    assert_eq!(r.failures.len(), 0);
}

#[test]
fn fanout_single_success() {
    let r = collect_fanout(
        vec![fetched("a", vec![release("r1", "One", Some("2024-01-10"))])],
        Category::Album,
    );
    assert_eq!(r.releases.len(), 1);
    assert_eq!(r.releases[0].id, "r1");
    assert_eq!(r.failures.len(), 0);
}

#[test]
fn fanout_successes_and_failures_partition_creators() {
    let results = vec![
        fetched("a", vec![release("r1", "One", None), release("r2", "Two", None)]),
        failed("b", "timeout"),
        fetched("c", vec![release("r3", "Three", None)]),
        failed("d", "http 500"),
    ];
    let n = results.len();
    let r = collect_fanout(results, Category::Single);
    // items of every non-failing creator, in order
    let got: Vec<&str> = r.releases.iter().map(|x| x.id.as_str()).collect();
    assert_eq!(got, vec!["r1", "r2", "r3"]);
    // exactly one failure record per failing creator
    assert_eq!(r.failures.len(), 2);
    assert_eq!(r.failures[0].creator_id, "b");
    assert_eq!(r.failures[0].message, "timeout");
    assert_eq!(r.failures[1].creator_id, "d");
    assert_eq!(r.failures[1].message, "http 500");
    assert!(r.failures.iter().all(|f| f.category == Category::Single));
    // successes + failures account for every creator
    let successes = n - r.failures.len();
    assert_eq!(successes + r.failures.len(), n);
    assert_eq!(successes, 2);
}

#[test]
fn aggregate_preserves_cross_category_duplicates() {
    let fetches = vec![
        CategoryFetch {
            category: Category::Album,
            results: vec![fetched("a", vec![release("dup", "Same", Some("2024-03-01"))])],
        },
        CategoryFetch {
            category: Category::Single,
            results: vec![fetched("a", vec![release("dup", "Same", Some("2024-03-01"))])],
        },
    ];
    let (catalog, summary) = aggregate(fetches);
    // the aggregator keeps every instance; deduplication is the reporter's
    assert_eq!(catalog.releases.len(), 2);
    assert_eq!(summary.count(), 0);
}

#[test]
fn aggregate_reports_failures_across_categories() {
    let fetches = vec![
        CategoryFetch { category: Category::Album, results: vec![failed("a", "net")] },
        CategoryFetch {
            category: Category::Single,
            results: vec![failed("a", "net"), fetched("b", vec![])],
        },
    ];
    let (catalog, summary) = aggregate(fetches);
    assert_eq!(catalog.releases.len(), 0);
    assert_eq!(summary.count(), 2);
    assert_eq!(summary.failures[0].category, Category::Album);
    assert_eq!(summary.failures[1].category, Category::Single);
}

#[test]
fn all_failing_run_yields_empty_catalog_not_error() {
    let fetches = vec![CategoryFetch {
        category: Category::AppearsOn,
        results: vec![failed("a", "x"), failed("b", "y")],
    }];
    let (catalog, summary) = aggregate(fetches);
    assert_eq!(catalog.releases.len(), 0);
    assert_eq!(summary.count(), 2);
}

#[test]
fn run_config_requires_a_category() {
    assert!(check_run_config(&vec![]).is_err());
    assert!(check_run_config(&vec![Category::Album]).is_ok());
    assert!(check_run_config(&vec![Category::Album, Category::Compilation]).is_ok());
}
