//! Per-request context: the request path, the raw query string, and the
//! parsed query state. It answers what handlers ask of a request — which
//! page it is on, whether it is a create request, and how to build a link
//! that moves to another page while keeping every other parameter.

use vstd::prelude::*;
use vstd::string::StrSliceExecFns;
use vstd::string::StringExecFns;

use crate::pagination::resolved_page;
use crate::path::{detail_operation_of, DetailOperations};
use crate::query_params::{
    apply_segment, apply_segments, default_params, lemma_apply_page_prefixed_keeps_rest,
    lemma_apply_page_segment, lemma_apply_segment_congruence, lemma_apply_segment_keeps_page,
    lemma_apply_segments_concat, lemma_apply_segments_cons, lemma_apply_segments_snoc,
    lemma_parse_page_roundtrip, parse_query, with_page, StateParams, StateParamsView,
};
use crate::strutil::{
    has_no_char, lemma_last_segment_after, lemma_last_segment_is_split_last,
    lemma_last_segment_whole, lemma_nat_to_digits_all_digits, lemma_split_at_first_sep,
    lemma_split_concat, lemma_split_no_sep, lemma_split_segments_no_sep, nat_to_digits,
    opt_str_view, split_char, starts_with, usize_to_string,
};

verus! {

// ---------------------------------------------------------------------------
// Lowercasing
// ---------------------------------------------------------------------------

/// ASCII lowercasing of one character: `A`..`Z` map to `a`..`z`, everything
/// else stays.
pub open spec fn ascii_lower_char(c: char) -> char {
    if 'A' <= c <= 'Z' {
        ((c as u32) + 32) as char
    } else {
        c
    }
}

pub open spec fn ascii_lower(s: Seq<char>) -> Seq<char> {
    s.map_values(|c: char| ascii_lower_char(c))
}

pub open spec fn all_ascii(s: Seq<char>) -> bool {
    forall|i: int| 0 <= i < s.len() ==> (#[trigger] s[i] as u32) < 128
}

/// What `str::to_lowercase` returns on a given sequence of characters. The
/// full Unicode mapping is only named, not spelled out.
pub uninterp spec fn lower_of(s: Seq<char>) -> Seq<char>;

/// Relies on `str::to_lowercase`: the result depends on the characters
/// alone, and on ASCII text the Unicode lowercase mapping coincides with
/// the ASCII one — `A`..`Z` map to `a`..`z`, other ASCII characters are
/// unchanged.
#[verifier::external_body]
fn to_lowercase(s: &str) -> (r: String)
    ensures
        r@ == lower_of(s@),
        all_ascii(s@) ==> r@ == ascii_lower(s@),
{
    s.to_lowercase()
}

// ---------------------------------------------------------------------------
// Preserving query state while switching the page
// ---------------------------------------------------------------------------

/// The `page=<digits>` assignment for a target page.
pub open spec fn page_assign(page: usize) -> Seq<char> {
    "page="@ + nat_to_digits(page as nat)
}

/// One pass over the query segments, exactly as the link builder walks
/// them: each segment that starts with `page=` becomes `page=<target>`,
/// every other segment is kept verbatim; segments are joined with `&`
/// (skipped while the accumulator is still empty); if no segment carried a
/// page, `&page=<target>` is appended at the end.
pub open spec fn preserve_loop(acc: Seq<char>, found: bool, parts: Seq<Seq<char>>, page: usize) -> Seq<
    char,
>
    decreases parts.len(),
{
    if parts.len() == 0 {
        if found {
            acc
        } else {
            acc + seq!['&'] + page_assign(page)
        }
    } else {
        let seg = parts[0];
        let hit = starts_with(seg, "page="@);
        let piece = if hit {
            page_assign(page)
        } else {
            seg
        };
        let acc2 = if acc.len() == 0 {
            piece
        } else {
            acc + seq!['&'] + piece
        };
        preserve_loop(acc2, found || hit, parts.skip(1), page)
    }
}

/// The query string with its `page` parameter replaced by the target page —
/// appended when absent — and every other parameter kept verbatim, in
/// order. An empty query string becomes `page=<target>` alone.
pub open spec fn preserve_spec(query: Seq<char>, page: usize) -> Seq<char> {
    if query.len() == 0 {
        page_assign(page)
    } else {
        preserve_loop(Seq::empty(), false, split_char(query, '&'), page)
    }
}

/// The full link target: the preserved query string, prefixed with
/// `<path>?` when the path is asked for.
pub open spec fn preserve_full(
    path: Seq<char>,
    query: Option<Seq<char>>,
    page: usize,
    with_pathname: bool,
) -> Seq<char> {
    let q = match query {
        None => Seq::<char>::empty(),
        Some(s) => s,
    };
    let r = preserve_spec(q, page);
    if with_pathname {
        path + seq!['?'] + r
    } else {
        r
    }
}

/// `apply_segments` over the one-segment split of the empty string is the
/// identity: the empty segment assigns nothing.
proof fn lemma_apply_empty_query(y: StateParamsView)
    ensures
        apply_segments(y, split_char(Seq::<char>::empty(), '&')) == y,
{
    let parts0 = split_char(Seq::<char>::empty(), '&');
    assert(parts0 =~= seq![Seq::<char>::empty()]);
    assert(apply_segment(y, Seq::<char>::empty()) == y);
    assert(parts0.skip(1) =~= Seq::<Seq<char>>::empty());
    assert(apply_segments(apply_segment(y, parts0[0]), parts0.skip(1)) == apply_segment(
        y,
        parts0[0],
    ));
}

/// One walk step of the link builder, related to the parse: under the
/// running hypothesis that the accumulated string parses like the segments
/// already walked — with the page forced to the target once a page segment
/// was seen — the finished link parses like the whole walk with the page
/// forced to the target.
proof fn lemma_preserve_loop_keeps_state(
    acc: Seq<char>,
    found: bool,
    parts: Seq<Seq<char>>,
    done: Seq<Seq<char>>,
    page: usize,
    x: StateParamsView,
)
    requires
        forall|y: StateParamsView|
            #[trigger] apply_segments(y, split_char(acc, '&')) == (if found {
                with_page(apply_segments(y, done), page)
            } else {
                apply_segments(y, done)
            }),
        found ==> acc.len() > 0,
        forall|k: int| 0 <= k < parts.len() ==> has_no_char(#[trigger] parts[k], '&'),
    ensures
        apply_segments(x, split_char(preserve_loop(acc, found, parts, page), '&')) == with_page(
            apply_segments(x, done + parts),
            page,
        ),
    decreases parts.len(),
{
    reveal_strlit("page=");
    lemma_nat_to_digits_all_digits(page as nat);
    let pa = page_assign(page);
    assert forall|j: int| 0 <= j < pa.len() implies pa[j] != '&' by {
        if j < 5 {
            assert(pa[j] == "page="@[j]);
        } else {
            assert(pa[j] == nat_to_digits(page as nat)[j - 5]);
        }
    }
    if parts.len() == 0 {
        assert(done + parts =~= done);
        if found {
            assert(apply_segments(x, split_char(acc, '&')) == with_page(
                apply_segments(x, done),
                page,
            ));
        } else {
            lemma_split_concat(acc, pa, '&');
            lemma_split_no_sep(pa, '&');
            lemma_apply_segments_concat(x, split_char(acc, '&'), split_char(pa, '&'));
            let z = apply_segments(x, split_char(acc, '&'));
            lemma_apply_segments_cons(z, pa, Seq::<Seq<char>>::empty());
            assert(seq![pa] + Seq::<Seq<char>>::empty() =~= seq![pa]);
            assert(apply_segments(apply_segment(z, pa), Seq::<Seq<char>>::empty())
                == apply_segment(z, pa));
            lemma_apply_page_segment(z, page);
        }
    } else {
        let seg = parts[0];
        assert(has_no_char(seg, '&'));
        let hit = starts_with(seg, "page="@);
        let piece = if hit {
            pa
        } else {
            seg
        };
        let acc2 = if acc.len() == 0 {
            piece
        } else {
            acc + seq!['&'] + piece
        };
        let found2 = found || hit;
        let done2 = done.push(seg);
        assert forall|y: StateParamsView|
            #[trigger] apply_segments(y, split_char(acc2, '&')) == (if found2 {
                with_page(apply_segments(y, done2), page)
            } else {
                apply_segments(y, done2)
            }) by {
            let w = apply_segments(y, done);
            lemma_apply_segments_snoc(y, done, seg);
            let w2 = apply_segment(w, seg);
            if acc.len() == 0 {
                assert(acc =~= Seq::<char>::empty());
                lemma_apply_empty_query(y);
                assert(w == y);
                lemma_split_no_sep(piece, '&');
                lemma_apply_segments_cons(y, piece, Seq::<Seq<char>>::empty());
                assert(seq![piece] + Seq::<Seq<char>>::empty() =~= seq![piece]);
                assert(apply_segments(apply_segment(y, piece), Seq::<Seq<char>>::empty())
                    == apply_segment(y, piece));
                if hit {
                    lemma_apply_page_segment(y, page);
                    lemma_apply_page_prefixed_keeps_rest(y, seg);
                }
            } else {
                lemma_split_concat(acc, piece, '&');
                lemma_split_no_sep(piece, '&');
                lemma_apply_segments_concat(y, split_char(acc, '&'), split_char(piece, '&'));
                let z = apply_segments(y, split_char(acc, '&'));
                lemma_apply_segments_cons(z, piece, Seq::<Seq<char>>::empty());
                assert(seq![piece] + Seq::<Seq<char>>::empty() =~= seq![piece]);
                assert(apply_segments(apply_segment(z, piece), Seq::<Seq<char>>::empty())
                    == apply_segment(z, piece));
                if hit {
                    lemma_apply_page_segment(z, page);
                    lemma_apply_page_prefixed_keeps_rest(w, seg);
                } else {
                    lemma_apply_segment_keeps_page(z, seg);
                    lemma_apply_segment_congruence(z, w, seg);
                }
            }
        }
        assert(found2 ==> acc2.len() > 0);
        assert forall|k: int|
            0 <= k < parts.skip(1).len() implies has_no_char(#[trigger] parts.skip(1)[k], '&') by {
            assert(parts.skip(1)[k] == parts[k + 1]);
        }
        assert(done2 + parts.skip(1) =~= done + parts);
        lemma_preserve_loop_keeps_state(acc2, found2, parts.skip(1), done2, page, x);
    }
}

/// What a pagination link does to the state, in full: parsing the query
/// string the link builder produces yields exactly the state the incoming
/// query string parses to, with the page — and nothing else — replaced by
/// the target page. Links switch the page and keep every filter.
pub proof fn lemma_preserve_keeps_state(query: Seq<char>, page: usize)
    ensures
        parse_query(Some(preserve_spec(query, page))) == with_page(
            parse_query(Some(query)),
            page,
        ),
{
    if query.len() == 0 {
        lemma_parse_page_roundtrip(page);
        assert(query =~= Seq::<char>::empty());
        lemma_apply_empty_query(default_params());
    } else {
        lemma_split_segments_no_sep(query, '&');
        assert forall|y: StateParamsView|
            #[trigger] apply_segments(y, split_char(Seq::<char>::empty(), '&'))
                == apply_segments(y, Seq::<Seq<char>>::empty()) by {
            lemma_apply_empty_query(y);
        }
        lemma_preserve_loop_keeps_state(
            Seq::empty(),
            false,
            split_char(query, '&'),
            Seq::empty(),
            page,
            default_params(),
        );
        assert(Seq::<Seq<char>>::empty() + split_char(query, '&') =~= split_char(query, '&'));
    }
}

/// A pagination link always leads to the page it names: parsing the query
/// string the link builder produces yields exactly the target page,
/// whatever the incoming query string held.
pub proof fn lemma_preserve_then_parse(query: Seq<char>, page: usize)
    ensures
        parse_query(Some(preserve_spec(query, page))).page == Some(page),
{
    lemma_preserve_keeps_state(query, page);
}

/// Is this path's trailing segment — the last piece of the `/`-split,
/// lowercased — the create keyword?
pub open spec fn is_create_spec(path: Seq<char>) -> bool {
    detail_operation_of(lower_of(split_char(path, '/').last())) matches Some(
        DetailOperations::Create,
    )
}

/// One request's URI facts and parsed query state, as the handlers read
/// them: the path, the raw query string, and whether the `hx-request` and
/// `hx-boosted` headers were present.
pub struct Context {
    pub path: String,
    pub query: Option<String>,
    pub hx_request: bool,
    pub hx_boosted: bool,
    pub query_params: StateParams,
}

impl Context {
    /// Builds the context for one request, parsing its query string.
    pub fn new(path: String, query: Option<String>, hx_request: bool, hx_boosted: bool) -> (r:
        Self)
        ensures
            r.path == path,
            r.query == query,
            r.hx_request == hx_request,
            r.hx_boosted == hx_boosted,
            r.query_params@ == parse_query(opt_str_view(query)),
    {
        let query_params = match &query {
            None => StateParams::from_query(None),
            Some(s) => StateParams::from_query(Some(s.as_str())),
        };
        Context { path, query, hx_request, hx_boosted, query_params }
    }

    /// The page this request is on, 0 when none was given.
    pub fn get_current_page(&self) -> (r: usize)
        ensures
            r == resolved_page(self.query_params@),
    {
        match self.query_params.get_page() {
            Some(p) => p,
            None => 0,
        }
    }

    /// Does the trailing path segment, lowercased, spell the create
    /// keyword? Distinguishes "create a resource" from "show resource by
    /// id" on the shared detail route. On an ASCII segment — every real
    /// route — the second clause spells the lowercasing out, so callers
    /// can settle concrete paths without a call.
    pub fn is_create_operation(&self) -> (r: bool)
        ensures
            r == is_create_spec(self.path@),
            all_ascii(split_char(self.path@, '/').last()) ==> r == (detail_operation_of(
                ascii_lower(split_char(self.path@, '/').last()),
            ) matches Some(DetailOperations::Create)),
    {
        let path_str = self.path.as_str();
        let n = path_str.unicode_len();
        let mut i: usize = 0;
        let mut last_slash: Option<usize> = None;
        while i < n
            invariant
                i <= n,
                n == path_str@.len(),
                match last_slash {
                    None => forall|j: int| 0 <= j < i ==> path_str@[j] != '/',
                    Some(k) => k < i && path_str@[k as int] == '/' && forall|j: int|
                        k < j < i ==> path_str@[j] != '/',
                },
            decreases n - i,
        {
            if path_str.get_char(i) == '/' {
                last_slash = Some(i);
            }
            i = i + 1;
        }
        proof {
            lemma_last_segment_is_split_last(path_str@, '/');
        }
        let seg = match last_slash {
            None => {
                proof {
                    lemma_last_segment_whole(path_str@, '/');
                }
                path_str
            },
            Some(k) => {
                proof {
                    lemma_last_segment_after(path_str@, '/', k as int);
                }
                let s = path_str.substring_char(k + 1, n);
                proof {
                    assert(s@ =~= path_str@.skip(k + 1));
                }
                s
            },
        };
        let lowered = to_lowercase(seg);
        match DetailOperations::from_string(lowered) {
            Some(DetailOperations::Create) => true,
            _ => false,
        }
    }

    /// The link to a target page that keeps the rest of the query state:
    /// every parameter but `page` survives verbatim, in order, so that
    /// pagination links never drop an active filter or sort.
    pub fn preserve_query_state(&self, page: &usize, with_pathname: bool) -> (r: String)
        ensures
            r@ == preserve_full(self.path@, opt_str_view(self.query), *page, with_pathname),
    {
        let query: &str = match &self.query {
            None => "",
            Some(s) => s.as_str(),
        };
        proof {
            reveal_strlit("");
            assert(""@ =~= Seq::<char>::empty());
        }
        let n = query.unicode_len();
        let mut res = String::new();
        if n == 0 {
            res.append("page=");
            let digits = usize_to_string(*page);
            res.append(digits.as_str());
            proof {
                assert(res@ =~= page_assign(*page));
            }
        } else {
            let ghost target = preserve_loop(
                Seq::empty(),
                false,
                split_char(query@, '&'),
                *page,
            );
            let mut found: bool = false;
            let mut start: usize = 0;
            proof {
                assert(query@.skip(0) =~= query@);
            }
            loop
                invariant_except_break
                    start <= n,
                    n == query@.len(),
                    preserve_loop(res@, found, split_char(query@.skip(start as int), '&'), *page)
                        == target,
                ensures
                    res@ == target,
                decreases n - start,
            {
                let end = match crate::strutil::find_char_from(query, '&', start) {
                    Some(i) => i,
                    None => n,
                };
                let seg = query.substring_char(start, end);
                let ghost acc_before = res@;
                let hit = crate::strutil::str_starts_with(seg, "page=");
                if res.unicode_len() > 0 {
                    res.append("&");
                }
                if hit {
                    res.append("page=");
                    let digits = usize_to_string(*page);
                    res.append(digits.as_str());
                    found = true;
                } else {
                    res.append(seg);
                }
                proof {
                    reveal_strlit("&");
                    assert("&"@ =~= seq!['&']);
                    let t = query@.skip(start as int);
                    let ghost rest: Seq<Seq<char>>;
                    if end < n {
                        assert(t[end - start] == query@[end as int]);
                        assert forall|j: int| 0 <= j < end - start implies t[j] != '&' by {
                            assert(t[j] == query@[start + j]);
                        }
                        lemma_split_at_first_sep(t, '&', end - start);
                        assert(t.take(end - start) =~= seg@);
                        assert(t.skip(end - start + 1) =~= query@.skip(end + 1));
                        rest = split_char(query@.skip(end + 1), '&');
                    } else {
                        assert forall|j: int| 0 <= j < t.len() implies t[j] != '&' by {
                            assert(t[j] == query@[start + j]);
                        }
                        lemma_split_no_sep(t, '&');
                        assert(t =~= seg@);
                        rest = Seq::<Seq<char>>::empty();
                    }
                    let parts = seq![seg@] + rest;
                    assert(split_char(t, '&') == parts);
                    assert(parts[0] == seg@);
                    assert(parts.skip(1) =~= rest);
                    let piece = if hit {
                        page_assign(*page)
                    } else {
                        seg@
                    };
                    let acc2 = if acc_before.len() == 0 {
                        piece
                    } else {
                        acc_before + seq!['&'] + piece
                    };
                    assert(res@ =~= acc2);
                    assert(preserve_loop(res@, found, rest, *page) == target);
                }
                if end == n {
                    if !found {
                        res.append("&");
                        res.append("page=");
                        let digits = usize_to_string(*page);
                        res.append(digits.as_str());
                        proof {
                            reveal_strlit("&");
                            assert("&"@ =~= seq!['&']);
                        }
                    }
                    proof {
                        assert(res@ =~= target);
                    }
                    break ;
                }
                start = end + 1;
            }
        }
        if with_pathname {
            let mut out = self.path.clone();
            out.append("?");
            out.append(res.as_str());
            proof {
                reveal_strlit("?");
                assert("?"@ =~= seq!['?']);
                assert(out@ =~= self.path@ + seq!['?'] + res@);
            }
            out
        } else {
            res
        }
    }
}

} // verus!
