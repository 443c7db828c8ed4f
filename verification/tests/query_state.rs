use preiskampf_core::query_params::{RedirectSuccessState, SortOrder, StateParams};

#[test]
fn parse_none_yields_defaults() {
    let sp = StateParams::from_query(None);
    assert_eq!(sp.get_page(), Some(0));
    assert_eq!(sp.get_limit(), Some(10));
    assert_eq!(sp.get_q(), None);
    assert_eq!(sp.get_sort_by(), None);
    assert_eq!(sp.get_sort_order(), None);
    assert!(sp.redirect_state().is_none());
}

#[test]
fn parse_empty_equals_parse_none() {
    let a = StateParams::from_query(Some(""));
    let b = StateParams::from_query(None);
    assert_eq!(a.get_page(), b.get_page());
    assert_eq!(a.get_limit(), b.get_limit());
    assert_eq!(a.get_q(), b.get_q());
    assert_eq!(a.get_sort_by(), b.get_sort_by());
    assert_eq!(a.get_sort_order(), b.get_sort_order());
    assert!(a.redirect_state().is_none());
}

#[test]
fn parse_page_well_formed() {
    let sp = StateParams::from_query(Some("page=7"));
    assert_eq!(sp.get_page(), Some(7));
    let sp = StateParams::from_query(Some("page=0"));
    assert_eq!(sp.get_page(), Some(0));
    let sp = StateParams::from_query(Some("page=123456"));
    assert_eq!(sp.get_page(), Some(123456));
}

#[test]
fn parse_page_ill_formed_falls_back() {
    // A malformed value silently keeps the field at its default.
    let sp = StateParams::from_query(Some("page=abc"));
    assert_eq!(sp.get_page(), Some(0));
    let sp = StateParams::from_query(Some("page=-1"));
    assert_eq!(sp.get_page(), Some(0));
    let sp = StateParams::from_query(Some("page="));
    assert_eq!(sp.get_page(), Some(0));
    let sp = StateParams::from_query(Some("page=99999999999999999999999999"));
    assert_eq!(sp.get_page(), Some(0));
    let sp = StateParams::from_query(Some("page=3&page=abc"));
    assert_eq!(sp.get_page(), Some(0));
}

#[test]
fn parse_page_with_plus_sign() {
    // str::parse::<usize> accepts a leading '+'.
    let sp = StateParams::from_query(Some("page=+7"));
    assert_eq!(sp.get_page(), Some(7));
}

#[test]
fn duplicate_key_last_occurrence_wins() {
    let sp = StateParams::from_query(Some("page=1&page=2"));
    assert_eq!(sp.get_page(), Some(2));
}

#[test]
fn parse_limit() {
    let sp = StateParams::from_query(Some("limit=5"));
    assert_eq!(sp.get_limit(), Some(5));
    let sp = StateParams::from_query(Some("limit=abc"));
    assert_eq!(sp.get_limit(), Some(10));
}

#[test]
fn parse_text_fields() {
    let sp = StateParams::from_query(Some("q=milk&sort_by=price&sort_order=asc"));
    assert_eq!(sp.get_q(), Some("milk".to_string()));
    assert_eq!(sp.get_sort_by(), Some("price".to_string()));
    assert_eq!(sp.get_sort_order(), Some("asc".to_string()));
}

#[test]
fn value_may_contain_equals_sign() {
    // Only the first '=' delimits: base64-ish values survive whole.
    let sp = StateParams::from_query(Some("q=a=b=="));
    assert_eq!(sp.get_q(), Some("a=b==".to_string()));
}

#[test]
fn key_without_value_is_skipped() {
    let sp = StateParams::from_query(Some("page"));
    assert_eq!(sp.get_page(), Some(0));
    let sp = StateParams::from_query(Some("q=x&page"));
    assert_eq!(sp.get_page(), Some(0));
    assert_eq!(sp.get_q(), Some("x".to_string()));
}

#[test]
fn unknown_keys_are_ignored() {
    let sp = StateParams::from_query(Some("foo=1&bar=2"));
    assert_eq!(sp.get_page(), Some(0));
    assert_eq!(sp.get_limit(), Some(10));
    assert_eq!(sp.get_q(), None);
}

#[test]
fn empty_segments_are_skipped() {
    let sp = StateParams::from_query(Some("q=milk&&page=2"));
    assert_eq!(sp.get_q(), Some("milk".to_string()));
    assert_eq!(sp.get_page(), Some(2));
}

#[test]
fn sort_order_from_str_all_spellings() {
    assert_eq!(SortOrder::from_str("ASC"), SortOrder::Asc);
    assert_eq!(SortOrder::from_str("asc"), SortOrder::Asc);
    assert_eq!(SortOrder::from_str("DESC"), SortOrder::Desc);
    assert_eq!(SortOrder::from_str("desc"), SortOrder::Desc);
    assert_eq!(SortOrder::from_str("sideways"), SortOrder::Desc);
    assert_eq!(SortOrder::from_str(""), SortOrder::Desc);
}

#[test]
fn sort_order_to_string() {
    assert_eq!(SortOrder::Asc.to_string(), "ASC".to_string());
    assert_eq!(SortOrder::Desc.to_string(), "DESC".to_string());
}

#[test]
fn redirect_state_from_str() {
    assert_eq!(
        RedirectSuccessState::from_str("success"),
        RedirectSuccessState::Success
    );
    assert_eq!(
        RedirectSuccessState::from_str("error"),
        RedirectSuccessState::Error
    );
    assert_eq!(
        RedirectSuccessState::from_str("SUCCESS"),
        RedirectSuccessState::Error
    );
}

#[test]
fn redirect_state_of_request() {
    let sp = StateParams::from_query(Some("is=success"));
    assert_eq!(sp.redirect_state(), Some(RedirectSuccessState::Success));
    let sp = StateParams::from_query(Some("is=anything"));
    assert_eq!(sp.redirect_state(), Some(RedirectSuccessState::Error));
    let sp = StateParams::from_query(Some("q=milk"));
    assert_eq!(sp.redirect_state(), None);
}
