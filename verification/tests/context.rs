use preiskampf_core::context::Context;
use preiskampf_core::query_params::StateParams;
use preiskampf_core::request_extension::{strip_query_from_uri, HttpExt};

fn make_context(path: &str, query: Option<&str>) -> Context {
    Context::new(
        path.to_string(),
        query.map(|q| q.to_string()),
        false,
        false,
    )
}

#[test]
fn preserve_replaces_page_keeps_rest() {
    let ctx = make_context("/produkte", Some("q=milk&sort_by=price&page=2"));
    assert_eq!(
        ctx.preserve_query_state(&5, false),
        "q=milk&sort_by=price&page=5".to_string()
    );
}

#[test]
fn preserve_appends_page_when_absent() {
    let ctx = make_context("/produkte", Some("q=milk"));
    assert_eq!(ctx.preserve_query_state(&3, false), "q=milk&page=3".to_string());
}

#[test]
fn preserve_empty_query_is_page_alone() {
    let ctx = make_context("/produkte", None);
    assert_eq!(ctx.preserve_query_state(&0, false), "page=0".to_string());
    let ctx = make_context("/produkte", Some(""));
    assert_eq!(ctx.preserve_query_state(&0, false), "page=0".to_string());
}

#[test]
fn preserve_with_pathname_prefixes_path() {
    let ctx = make_context("/produkte", Some("page=1"));
    assert_eq!(
        ctx.preserve_query_state(&2, true),
        "/produkte?page=2".to_string()
    );
    let ctx = make_context("/einkaufsliste", None);
    assert_eq!(
        ctx.preserve_query_state(&7, true),
        "/einkaufsliste?page=7".to_string()
    );
}

#[test]
fn preserve_only_whole_page_prefix_counts() {
    // Neither `xpage=` nor `page2=` is the page parameter.
    let ctx = make_context("/p", Some("xpage=2&page2=9"));
    assert_eq!(
        ctx.preserve_query_state(&4, false),
        "xpage=2&page2=9&page=4".to_string()
    );
}

#[test]
fn preserve_replaces_empty_page_value() {
    let ctx = make_context("/p", Some("page=&q=a"));
    assert_eq!(ctx.preserve_query_state(&5, false), "page=5&q=a".to_string());
}

#[test]
fn preserve_replaces_every_page_occurrence() {
    let ctx = make_context("/p", Some("page=1&q=a&page=2"));
    assert_eq!(
        ctx.preserve_query_state(&9, false),
        "page=9&q=a&page=9".to_string()
    );
}

#[test]
fn preserve_leading_empty_segment() {
    // An empty leading segment joins into nothing, so no separator is kept.
    let ctx = make_context("/p", Some("&q=milk"));
    assert_eq!(
        ctx.preserve_query_state(&1, false),
        "q=milk&page=1".to_string()
    );
}

#[test]
fn preserved_link_parses_back_to_target_page() {
    // The runtime face of the proved law: a built link always leads to the
    // page it names.
    for query in [
        None,
        Some("q=milk&sort_by=price&page=2"),
        Some("q=milk"),
        Some("page=1&page=8"),
        Some("&q=a&&xpage=5"),
    ] {
        let ctx = make_context("/p", query);
        let link = ctx.preserve_query_state(&6, false);
        let reparsed = StateParams::from_query(Some(link.as_str()));
        assert_eq!(reparsed.get_page(), Some(6), "query {:?} gave link {}", query, link);
        // ... and to nothing but that page: the other fields parse as before.
        let before = StateParams::from_query(query);
        assert_eq!(reparsed.get_q(), before.get_q());
        assert_eq!(reparsed.get_limit(), before.get_limit());
        assert_eq!(reparsed.get_sort_by(), before.get_sort_by());
        assert_eq!(reparsed.get_sort_order(), before.get_sort_order());
    }
}

#[test]
fn current_page_defaults_to_zero() {
    let ctx = make_context("/p", None);
    assert_eq!(ctx.get_current_page(), 0);
    let ctx = make_context("/p", Some("page=4"));
    assert_eq!(ctx.get_current_page(), 4);
    let ctx = make_context("/p", Some("page=abc"));
    assert_eq!(ctx.get_current_page(), 0);
}

#[test]
fn create_operation_on_create_keyword() {
    let ctx = make_context("/einkaufsliste/anlegen", None);
    assert!(ctx.is_create_operation());
}

#[test]
fn create_operation_is_case_insensitive() {
    // Exercises the real lowercasing of the trailing segment.
    let ctx = make_context("/einkaufsliste/ANLEGEN", None);
    assert!(ctx.is_create_operation());
    let ctx = make_context("/einkaufsliste/AnLeGeN", None);
    assert!(ctx.is_create_operation());
}

#[test]
fn create_operation_rejects_other_segments() {
    let ctx = make_context("/einkaufsliste/42", None);
    assert!(!ctx.is_create_operation());
    let ctx = make_context("/einkaufsliste/detail", None);
    assert!(!ctx.is_create_operation());
    let ctx = make_context("/anlegen/42", None);
    assert!(!ctx.is_create_operation());
    let ctx = make_context("", None);
    assert!(!ctx.is_create_operation());
}

#[test]
fn context_parses_its_query() {
    let ctx = make_context("/p", Some("page=2&q=tea"));
    assert_eq!(ctx.query_params.get_page(), Some(2));
    assert_eq!(ctx.query_params.get_q(), Some("tea".to_string()));
}

#[test]
fn hx_header_flags() {
    let ctx = Context::new("/p".to_string(), None, true, false);
    assert!(ctx.is_hx_request());
    assert!(!ctx.is_boosted_request());
    let ctx = Context::new("/p".to_string(), None, false, true);
    assert!(!ctx.is_hx_request());
    assert!(ctx.is_boosted_request());
}

#[test]
fn strip_query_cuts_at_first_question_mark() {
    assert_eq!(strip_query_from_uri("/a/b?x=1&y=2"), "/a/b");
    assert_eq!(strip_query_from_uri("/a/b"), "/a/b");
    assert_eq!(strip_query_from_uri("?x=1"), "");
    assert_eq!(strip_query_from_uri("/a?b?c"), "/a");
}
