use preiskampf_core::pagination::Pagination;
use preiskampf_core::query_params::StateParams;

#[test]
fn with_total_zero_last_page_zero() {
    let pg = Pagination::from_query_params(&StateParams::from_query(None)).with_total(0);
    assert_eq!(pg.last_page, Some(0));
}

#[test]
fn with_total_one_full_page() {
    let pg = Pagination::from_query_params(&StateParams::from_query(None)).with_total(10);
    assert_eq!(pg.limit, 10);
    assert_eq!(pg.last_page, Some(0));
    assert_eq!(pg.total_items, Some(10));
}

#[test]
fn with_total_one_row_over() {
    let pg = Pagination::from_query_params(&StateParams::from_query(None)).with_total(11);
    assert_eq!(pg.last_page, Some(1));
}

#[test]
fn with_total_respects_limit() {
    let pg = Pagination::from_query_params(&StateParams::from_query(Some("limit=3"))).with_total(7);
    assert_eq!(pg.last_page, Some(2));
    let pg = Pagination::from_query_params(&StateParams::from_query(Some("limit=3"))).with_total(1);
    assert_eq!(pg.last_page, Some(0));
}

#[test]
fn has_previous_page_iff_page_nonzero() {
    let pg = Pagination::from_query_params(&StateParams::from_query(None));
    assert!(!pg.has_previous_page);
    let pg = Pagination::from_query_params(&StateParams::from_query(Some("page=0")));
    assert!(!pg.has_previous_page);
    let pg = Pagination::from_query_params(&StateParams::from_query(Some("page=3")));
    assert!(pg.has_previous_page);
    // Preserved by the builders.
    let pg = Pagination::from_query_params(&StateParams::from_query(Some("page=3")))
        .with_total(50)
        .with_count(11);
    assert!(pg.has_previous_page);
}

#[test]
fn overfetch_sets_has_next_page() {
    let pg = Pagination::from_query_params(&StateParams::from_query(None)).with_count(11);
    assert!(pg.has_next_page);
    let pg = Pagination::from_query_params(&StateParams::from_query(None)).with_count(10);
    assert!(!pg.has_next_page);
}

#[test]
fn from_query_params_copies_filter_state() {
    let sp = StateParams::from_query(Some("q=milk&sort_by=price&sort_order=desc&page=2&limit=20"));
    let pg = Pagination::from_query_params(&sp);
    assert_eq!(pg.q, Some("milk".to_string()));
    assert_eq!(pg.sort_by, Some("price".to_string()));
    assert_eq!(pg.sort_order, Some("desc".to_string()));
    assert_eq!(pg.page, 2);
    assert_eq!(pg.limit, 20);
    assert_eq!(pg.last_page, None);
    assert_eq!(pg.uri, None);
    assert!(!pg.has_next_page);
}

#[test]
fn malformed_page_and_limit_resolve_to_defaults() {
    let sp = StateParams::from_query(Some("page=abc&limit=xyz"));
    let pg = Pagination::from_query_params(&sp);
    assert_eq!(pg.page, 0);
    assert_eq!(pg.limit, 10);
}

#[test]
fn from_query_directly() {
    let pg = Pagination::_from_query(Some("page=4&q=tea"));
    assert_eq!(pg.page, 4);
    assert_eq!(pg.q, Some("tea".to_string()));
    let pg = Pagination::_from_query(None);
    assert_eq!(pg.page, 0);
    assert_eq!(pg.limit, 10);
}

#[test]
fn with_uri_stores_the_target() {
    let pg = Pagination::from_query_params(&StateParams::from_query(None))
        .with_uri("/produkte?page=1".to_string());
    assert_eq!(pg.uri, Some("/produkte?page=1".to_string()));
}
