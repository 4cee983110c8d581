use release_aggregator::model::Page;
use release_aggregator::paginate::{collect_pages, Paginator};

fn page(items: Vec<u32>, next: Option<&str>) -> Page<u32> {
    Page { items, next_cursor: next.map(|s| s.to_string()) }
}

#[test]
fn single_page_no_cursor() {
    let pages = vec![page(vec![1, 2, 3], None)];
    let items = collect_pages(pages);
    assert_eq!(items, vec![1, 2, 3]);
}

#[test]
fn single_empty_page() {
    let pages = vec![page(vec![], None)];
    let items = collect_pages(pages);
    assert_eq!(items, Vec::<u32>::new());
}

#[test]
fn two_pages_concatenated_in_fetch_order() {
    let pages = vec![page(vec![1, 2], Some("c1")), page(vec![3], None)];
    let items = collect_pages(pages);
    assert_eq!(items, vec![1, 2, 3]);
}

#[test]
fn many_pages_concatenated_in_fetch_order() {
    let pages = vec![
        page(vec![10, 11], Some("a")),
        page(vec![], Some("b")),
        page(vec![12], Some("c")),
        page(vec![13, 14, 15], None),
    ];
    let items = collect_pages(pages);
    assert_eq!(items, vec![10, 11, 12, 13, 14, 15]);
}

#[test]
fn paginator_walk_tracks_cursor_and_finish() {
    let mut pag: Paginator<u32> = Paginator::new();
    assert!(pag.cursor().is_none());
    assert!(!pag.is_finished());

    let more = pag.feed(page(vec![1], Some("next-1")));
    assert!(more);
    assert!(!pag.is_finished());
    assert_eq!(pag.cursor().as_deref(), Some("next-1"));

    let more = pag.feed(page(vec![2, 3], None));
    assert!(!more);
    assert!(pag.is_finished());
    assert!(pag.cursor().is_none());

    assert_eq!(pag.into_items(), vec![1, 2, 3]);
}
