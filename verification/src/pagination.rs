//! Pagination facts derived from a parsed query state and a row count:
//! the current page, the page size, the last page, and whether pages exist
//! before or after the current one.

use vstd::prelude::*;

use crate::query_params::{parse_query, StateParams, StateParamsView};
use crate::strutil::{opt_str_ref_view, opt_str_view};

verus! {

/// Ways of addressing a page; only offset pagination is in use.
pub enum _PaginationType {
    ByOffset,
    ByCursor,
}

/// The page a parsed state lands on: the `page` parameter, or 0 when the
/// state carries none.
pub open spec fn resolved_page(v: StateParamsView) -> usize {
    match v.page {
        Some(p) => p,
        None => 0usize,
    }
}

/// The page size a parsed state asks for: the `limit` parameter, or 10
/// when the state carries none.
pub open spec fn resolved_limit(v: StateParamsView) -> usize {
    match v.limit {
        Some(l) => l,
        None => 10usize,
    }
}

/// Index of the last zero-based page when `total` rows exist in pages of
/// `limit` rows: 0 for an empty result, else `floor((total - 1) / limit)`.
pub open spec fn last_page_of(total: u64, limit: usize) -> int
    recommends
        total == 0 || limit > 0,
{
    if total == 0 {
        0
    } else {
        (total - 1) as int / limit as int
    }
}

/// What a list view needs to render its page controls.
#[derive(Debug)]
pub struct Pagination {
    pub q: Option<String>,
    pub page: usize,
    pub limit: usize,
    pub sort_by: Option<String>,
    pub sort_order: Option<String>,
    pub total_items: Option<u64>,
    pub last_page: Option<usize>,
    pub uri: Option<String>,
    pub has_previous_page: bool,
    pub has_next_page: bool,
}

impl Pagination {
    /// Copies the filter state out of the parsed parameters and fixes the
    /// page facts: a previous page exists exactly when the page is not 0,
    /// and nothing is known yet about a next or last page.
    pub fn from_query_params(query_params: &StateParams) -> (r: Self)
        ensures
            opt_str_view(r.q) == query_params@.q,
            r.page == resolved_page(query_params@),
            r.limit == resolved_limit(query_params@),
            opt_str_view(r.sort_by) == query_params@.sort_by,
            opt_str_view(r.sort_order) == query_params@.sort_order,
            r.total_items is None,
            r.last_page is None,
            r.uri is None,
            r.has_previous_page == (r.page != 0),
            r.has_next_page == false,
    {
        let page = match query_params.get_page() {
            Some(p) => p,
            None => 0,
        };
        let limit = match query_params.get_limit() {
            Some(l) => l,
            None => 10,
        };
        Pagination {
            q: query_params.get_q(),
            page,
            limit,
            sort_by: query_params.get_sort_by(),
            sort_order: query_params.get_sort_order(),
            total_items: None,
            last_page: None,
            uri: None,
            has_previous_page: page != 0,
            has_next_page: false,
        }
    }

    /// Pagination straight from a raw query string.
    pub fn _from_query(query: Option<&str>) -> (r: Self)
        ensures
            opt_str_view(r.q) == parse_query(opt_str_ref_view(query)).q,
            r.page == resolved_page(parse_query(opt_str_ref_view(query))),
            r.limit == resolved_limit(parse_query(opt_str_ref_view(query))),
            opt_str_view(r.sort_by) == parse_query(opt_str_ref_view(query)).sort_by,
            opt_str_view(r.sort_order) == parse_query(opt_str_ref_view(query)).sort_order,
            r.total_items is None,
            r.last_page is None,
            r.uri is None,
            r.has_previous_page == (r.page != 0),
            r.has_next_page == false,
    {
        Pagination::from_query_params(&StateParams::from_query(query))
    }

    /// Derives the last page from an exact row count, all other facts kept.
    /// A page size of 0 with a nonzero total would divide by zero — the
    /// caller guards against it, as the parse does not.
    pub fn with_total(self, total: u64) -> (r: Self)
        requires
            total == 0 || self.limit > 0,
            total <= usize::MAX as u64,
        ensures
            r.total_items == Some(total),
            r.last_page == Some((last_page_of(total, self.limit) as usize)),
            r.q == self.q,
            r.page == self.page,
            r.limit == self.limit,
            r.sort_by == self.sort_by,
            r.sort_order == self.sort_order,
            r.uri == self.uri,
            r.has_previous_page == self.has_previous_page,
            r.has_next_page == self.has_next_page,
    {
        let t = total as usize;
        let last: usize = if t == 0 {
            0
        } else {
            (t - 1) / self.limit
        };
        Pagination { total_items: Some(total), last_page: Some(last), ..self }
    }

    /// Records whether a next page exists after an over-fetch: the caller
    /// asked for one row more than the page size, so more rows than the page
    /// size mean at least one further page. All other facts are kept.
    pub fn with_count(self, count: usize) -> (r: Self)
        ensures
            r.has_next_page == (count > self.limit),
            r.q == self.q,
            r.page == self.page,
            r.limit == self.limit,
            r.sort_by == self.sort_by,
            r.sort_order == self.sort_order,
            r.total_items == self.total_items,
            r.last_page == self.last_page,
            r.uri == self.uri,
            r.has_previous_page == self.has_previous_page,
    {
        let has_next = count > self.limit;
        Pagination { has_next_page: has_next, ..self }
    }

    /// Stores the originating request target verbatim, for link building.
    pub fn with_uri(self, uri: String) -> (r: Self)
        ensures
            r.uri == Some(uri),
            r.q == self.q,
            r.page == self.page,
            r.limit == self.limit,
            r.sort_by == self.sort_by,
            r.sort_order == self.sort_order,
            r.total_items == self.total_items,
            r.last_page == self.last_page,
            r.has_previous_page == self.has_previous_page,
            r.has_next_page == self.has_next_page,
    {
        Pagination { uri: Some(uri), ..self }
    }
}

} // verus!
