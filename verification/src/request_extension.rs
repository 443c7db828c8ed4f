//! Questions handlers ask of a request beyond its query state: whether the
//! htmx headers were sent, and the path part of a request target.

use vstd::prelude::*;
use vstd::string::StrSliceExecFns;

use crate::context::Context;
use crate::strutil::{first_index, lemma_first_index_at, lemma_first_index_none};

verus! {

/// Header facts of a request: was it issued by htmx, and was it a boosted
/// navigation?
pub trait HttpExt {
    spec fn hx_request_spec(&self) -> bool;

    spec fn hx_boosted_spec(&self) -> bool;

    /// Was the `hx-request` header present?
    fn is_hx_request(&self) -> (r: bool)
        ensures
            r == self.hx_request_spec(),
    ;

    /// Was the `hx-boosted` header present?
    fn is_boosted_request(&self) -> (r: bool)
        ensures
            r == self.hx_boosted_spec(),
    ;
}

impl HttpExt for Context {
    open spec fn hx_request_spec(&self) -> bool {
        self.hx_request
    }

    open spec fn hx_boosted_spec(&self) -> bool {
        self.hx_boosted
    }

    fn is_hx_request(&self) -> bool {
        self.hx_request
    }

    fn is_boosted_request(&self) -> bool {
        self.hx_boosted
    }
}

/// Everything before the first `?` of a request target — the whole target
/// when it carries no query string.
pub open spec fn strip_query_spec(s: Seq<char>) -> Seq<char> {
    match first_index(s, '?') {
        None => s,
        Some(i) => s.take(i as int),
    }
}

/// The path part of a `path?query` request target.
pub fn strip_query_from_uri(path_and_query: &str) -> (r: &str)
    ensures
        r@ == strip_query_spec(path_and_query@),
{
    match crate::strutil::find_char_from(path_and_query, '?', 0) {
        None => {
            proof {
                lemma_first_index_none(path_and_query@, '?');
            }
            path_and_query
        },
        Some(i) => {
            proof {
                lemma_first_index_at(path_and_query@, '?', i as int);
            }
            let r = path_and_query.substring_char(0, i);
            proof {
                assert(r@ =~= path_and_query@.take(i as int));
            }
            r
        },
    }
}

} // verus!
