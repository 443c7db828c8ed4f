//! The typed query state of a request: the recognized parameters `q`, `page`,
//! `limit`, `sort_by`, `sort_order` and `is`, parsed best-effort from the raw
//! query string. Malformed or unknown input never fails: each field falls
//! back to its default.

use vstd::prelude::*;
use vstd::string::StrSliceExecFns;

use crate::strutil::{
    first_index, lemma_digits_roundtrip, lemma_first_index, lemma_first_index_at,
    lemma_first_index_none, lemma_nat_to_digits_all_digits, lemma_split_at_first_sep,
    lemma_split_concat, lemma_split_no_sep, nat_to_digits, opt_str_ref_view, opt_str_view,
    parse_usize, parse_usize_spec, split_char, starts_with, str_to_nat,
};

verus! {

/// Direction of a sort, as the `sort_order` parameter names it.
#[derive(Debug, Clone, Copy, PartialEq, Eq, Structural)]
pub enum SortOrder {
    Asc,
    Desc,
}

pub open spec fn sort_order_of(s: Seq<char>) -> SortOrder {
    if s == "ASC"@ || s == "asc"@ {
        SortOrder::Asc
    } else {
        SortOrder::Desc
    }
}

impl SortOrder {
    /// The SQL keyword for this direction.
    pub fn to_string(&self) -> (r: String)
        ensures
            r@ == (match self {
                SortOrder::Asc => "ASC"@,
                SortOrder::Desc => "DESC"@,
            }),
    {
        match self {
            SortOrder::Asc => "ASC".to_owned(),
            SortOrder::Desc => "DESC".to_owned(),
        }
    }

    /// Reads `ASC`/`asc`/`DESC`/`desc`; anything else falls back to `Desc`.
    pub fn from_str(str: &str) -> (r: Self)
        ensures
            r == sort_order_of(str@),
    {
        if crate::strutil::str_eq(str, "ASC") || crate::strutil::str_eq(str, "asc") {
            SortOrder::Asc
        } else {
            SortOrder::Desc
        }
    }
}

/// The one-shot notification state carried across a redirect by the `is`
/// parameter.
#[derive(Debug, Clone, Copy, PartialEq, Eq, Structural)]
pub enum RedirectSuccessState {
    Success,
    Error,
}

pub open spec fn redirect_state_of(s: Seq<char>) -> RedirectSuccessState {
    if s == "success"@ {
        RedirectSuccessState::Success
    } else {
        RedirectSuccessState::Error
    }
}

impl RedirectSuccessState {
    /// Reads `success`; anything else counts as `Error`.
    pub fn from_str(str: &str) -> (r: Self)
        ensures
            r == redirect_state_of(str@),
    {
        if crate::strutil::str_eq(str, "success") {
            RedirectSuccessState::Success
        } else {
            RedirectSuccessState::Error
        }
    }
}

/// The spec-level value of a [`StateParams`]: each recognized parameter as it
/// stands after the parse.
pub struct StateParamsView {
    pub q: Option<Seq<char>>,
    pub page: Option<usize>,
    pub limit: Option<usize>,
    pub sort_by: Option<Seq<char>>,
    pub sort_order: Option<Seq<char>>,
    pub is: Option<Seq<char>>,
}

/// The state before any query segment is read: `page` 0, `limit` 10,
/// everything else absent.
pub open spec fn default_params() -> StateParamsView {
    StateParamsView {
        q: None,
        page: Some(0usize),
        limit: Some(10usize),
        sort_by: None,
        sort_order: None,
        is: None,
    }
}

/// The value a number parameter takes: the parsed value, or — since a
/// malformed number silently keeps the field at its default — the field's
/// default.
pub open spec fn parse_usize_defaulted(s: Seq<char>, default: usize) -> usize {
    match parse_usize_spec(s) {
        Some(v) => v,
        None => default,
    }
}

/// One `name=value` segment applied to the state. A segment without `=` is
/// skipped; an unrecognized name changes nothing; a recognized name is
/// overwritten with the parse of its value — a failed number parse writes
/// the field's default back.
pub open spec fn apply_segment(p: StateParamsView, seg: Seq<char>) -> StateParamsView {
    match first_index(seg, '=') {
        None => p,
        Some(i) => {
            let name = seg.take(i as int);
            let value = seg.skip(i as int + 1);
            if name == "q"@ {
                StateParamsView { q: Some(value), ..p }
            } else if name == "page"@ {
                StateParamsView { page: Some(parse_usize_defaulted(value, 0)), ..p }
            } else if name == "limit"@ {
                StateParamsView { limit: Some(parse_usize_defaulted(value, 10)), ..p }
            } else if name == "sort_by"@ {
                StateParamsView { sort_by: Some(value), ..p }
            } else if name == "sort_order"@ {
                StateParamsView { sort_order: Some(value), ..p }
            } else if name == "is"@ {
                StateParamsView { is: Some(value), ..p }
            } else {
                p
            }
        },
    }
}

/// All segments applied in order, so a later duplicate overwrites an earlier
/// one.
pub open spec fn apply_segments(p: StateParamsView, segs: Seq<Seq<char>>) -> StateParamsView
    decreases segs.len(),
{
    if segs.len() == 0 {
        p
    } else {
        apply_segments(apply_segment(p, segs[0]), segs.skip(1))
    }
}

/// The whole parse: defaults, then every `&`-separated segment of the query
/// string, if one was given.
pub open spec fn parse_query(query: Option<Seq<char>>) -> StateParamsView {
    match query {
        None => default_params(),
        Some(s) => apply_segments(default_params(), split_char(s, '&')),
    }
}

pub proof fn lemma_apply_segments_cons(p: StateParamsView, seg: Seq<char>, rest: Seq<Seq<char>>)
    ensures
        apply_segments(p, seq![seg] + rest) == apply_segments(apply_segment(p, seg), rest),
{
    let whole = seq![seg] + rest;
    assert(whole[0] == seg);
    assert(whole.skip(1) =~= rest);
}

pub proof fn lemma_apply_segments_concat(
    p: StateParamsView,
    a: Seq<Seq<char>>,
    b: Seq<Seq<char>>,
)
    ensures
        apply_segments(p, a + b) == apply_segments(apply_segments(p, a), b),
    decreases a.len(),
{
    if a.len() == 0 {
        assert(a + b =~= b);
    } else {
        assert((a + b)[0] == a[0]);
        assert((a + b).skip(1) =~= a.skip(1) + b);
        lemma_apply_segments_concat(apply_segment(p, a[0]), a.skip(1), b);
    }
}

pub proof fn lemma_apply_segments_snoc(p: StateParamsView, segs: Seq<Seq<char>>, seg: Seq<char>)
    ensures
        apply_segments(p, segs.push(seg)) == apply_segment(apply_segments(p, segs), seg),
{
    assert(segs.push(seg) =~= segs + seq![seg]);
    lemma_apply_segments_concat(p, segs, seq![seg]);
    lemma_apply_segments_cons(apply_segments(p, segs), seg, Seq::<Seq<char>>::empty());
    assert(seq![seg] + Seq::<Seq<char>>::empty() =~= seq![seg]);
    assert(apply_segments(apply_segment(apply_segments(p, segs), seg), Seq::<Seq<char>>::empty())
        == apply_segment(apply_segments(p, segs), seg));
}

/// The parameters of one request, with the parse-time defaults applied.
#[derive(Debug)]
pub struct StateParams {
    q: Option<String>,
    page: Option<usize>,
    limit: Option<usize>,
    sort_by: Option<String>,
    sort_order: Option<String>,
    is: Option<String>,
}

impl View for StateParams {
    type V = StateParamsView;

    closed spec fn view(&self) -> StateParamsView {
        StateParamsView {
            q: opt_str_view(self.q),
            page: self.page,
            limit: self.limit,
            sort_by: opt_str_view(self.sort_by),
            sort_order: opt_str_view(self.sort_order),
            is: opt_str_view(self.is),
        }
    }
}

/// Applies one raw `name[=value]` segment to the state, as
/// [`apply_segment`] describes.
fn apply_segment_exec(p: &mut StateParams, seg: &str)
    ensures
        final(p)@ == apply_segment(old(p)@, seg@),
{
    let n = seg.unicode_len();
    let eq = match crate::strutil::find_char_from(seg, '=', 0) {
        None => {
            proof {
                lemma_first_index_none(seg@, '=');
            }
            return ;
        },
        Some(i) => i,
    };
    proof {
        lemma_first_index_at(seg@, '=', eq as int);
    }
    let name = seg.substring_char(0, eq);
    let value = seg.substring_char(eq + 1, n);
    proof {
        assert(name@ =~= seg@.take(eq as int));
        assert(value@ =~= seg@.skip(eq as int + 1));
    }
    if crate::strutil::str_eq(name, "q") {
        p.q = Some(value.to_owned());
    } else if crate::strutil::str_eq(name, "page") {
        p.page = Some(
            match parse_usize(value) {
                Some(v) => v,
                None => 0,
            },
        );
    } else if crate::strutil::str_eq(name, "limit") {
        p.limit = Some(
            match parse_usize(value) {
                Some(v) => v,
                None => 10,
            },
        );
    } else if crate::strutil::str_eq(name, "sort_by") {
        p.sort_by = Some(value.to_owned());
    } else if crate::strutil::str_eq(name, "sort_order") {
        p.sort_order = Some(value.to_owned());
    } else if crate::strutil::str_eq(name, "is") {
        p.is = Some(value.to_owned());
    }
}

impl StateParams {
    /// Parses an optional raw query string, never failing: every field of the
    /// result is exactly what [`parse_query`] names.
    pub fn from_query(query: Option<&str>) -> (r: Self)
        ensures
            r@ == parse_query(opt_str_ref_view(query)),
    {
        let mut p = StateParams {
            q: None,
            page: Some(0),
            limit: Some(10),
            sort_by: None,
            sort_order: None,
            is: None,
        };
        let s = match query {
            None => {
                return p;
            },
            Some(s) => s,
        };
        let n = s.unicode_len();
        let ghost target = apply_segments(default_params(), split_char(s@, '&'));
        let mut start: usize = 0;
        proof {
            assert(s@.skip(0) =~= s@);
            assert(p@ == default_params());
        }
        loop
            invariant_except_break
                start <= n,
                n == s@.len(),
                apply_segments(p@, split_char(s@.skip(start as int), '&')) == target,
            ensures
                p@ == target,
            decreases n - start,
        {
            let end = match crate::strutil::find_char_from(s, '&', start) {
                Some(i) => i,
                None => n,
            };
            let seg = s.substring_char(start, end);
            let ghost before = p@;
            apply_segment_exec(&mut p, seg);
            proof {
                let t = s@.skip(start as int);
                if end < n {
                    assert(t[end - start] == s@[end as int]);
                    assert forall|j: int| 0 <= j < end - start implies t[j] != '&' by {
                        assert(t[j] == s@[start + j]);
                    }
                    lemma_split_at_first_sep(t, '&', end - start);
                    assert(t.take(end - start) =~= seg@);
                    assert(t.skip(end - start + 1) =~= s@.skip(end + 1));
                    lemma_apply_segments_cons(before, seg@, split_char(s@.skip(end + 1), '&'));
                } else {
                    assert forall|j: int| 0 <= j < t.len() implies t[j] != '&' by {
                        assert(t[j] == s@[start + j]);
                    }
                    lemma_split_no_sep(t, '&');
                    assert(t =~= seg@);
                    lemma_apply_segments_cons(before, seg@, Seq::<Seq<char>>::empty());
                    assert(seq![seg@] + Seq::<Seq<char>>::empty() =~= seq![seg@]);
                    assert(apply_segments(p@, Seq::<Seq<char>>::empty()) == p@);
                }
            }
            if end == n {
                break ;
            }
            start = end + 1;
        }
        p
    }

    pub fn get_q(self: &Self) -> (r: Option<String>)
        ensures
            opt_str_view(r) == self@.q,
    {
        match &self.q {
            None => None,
            Some(s) => Some(s.clone()),
        }
    }

    pub fn get_sort_by(self: &Self) -> (r: Option<String>)
        ensures
            opt_str_view(r) == self@.sort_by,
    {
        match &self.sort_by {
            None => None,
            Some(s) => Some(s.clone()),
        }
    }

    pub fn get_sort_order(self: &Self) -> (r: Option<String>)
        ensures
            opt_str_view(r) == self@.sort_order,
    {
        match &self.sort_order {
            None => None,
            Some(s) => Some(s.clone()),
        }
    }

    pub fn get_limit(self: &Self) -> (r: Option<usize>)
        ensures
            r == self@.limit,
    {
        self.limit
    }

    pub fn get_page(self: &Self) -> (r: Option<usize>)
        ensures
            r == self@.page,
    {
        self.page
    }

    /// The one-shot redirect state the `is` parameter carries, if one was
    /// given: `success` means success, any other value an error.
    pub fn redirect_state(&self) -> (r: Option<RedirectSuccessState>)
        ensures
            r == (match self@.is {
                None => None::<RedirectSuccessState>,
                Some(s) => Some(redirect_state_of(s)),
            }),
    {
        match &self.is {
            None => None,
            Some(s) => Some(RedirectSuccessState::from_str(s.as_str())),
        }
    }
}

/// The parameters of the account-activation link.
#[derive(Debug)]
pub struct ActivationParams {
    pub token: Option<String>,
}

// ---------------------------------------------------------------------------
// Laws of the parse
// ---------------------------------------------------------------------------

/// A `page=<digits>` segment overwrites the page of any prior state with
/// exactly the number the digits spell.
pub proof fn lemma_apply_page_segment(x: StateParamsView, p: usize)
    ensures
        apply_segment(x, "page="@ + nat_to_digits(p as nat)) == (StateParamsView {
            page: Some(p),
            ..x
        }),
{
    let digits = nat_to_digits(p as nat);
    lemma_nat_to_digits_all_digits(p as nat);
    let seg = "page="@ + digits;
    reveal_strlit("page=");
    reveal_strlit("page");
    reveal_strlit("q");
    assert(seg[4] == '=');
    assert forall|j: int| 0 <= j < 4 implies seg[j] != '=' by {
        assert(seg[j] == "page="@[j]);
    }
    lemma_first_index_at(seg, '=', 4);
    assert(seg.take(4) =~= "page"@);
    assert(seg.skip(5) =~= digits);
    assert(seg.take(4) != "q"@);
    assert(digits[0] != '+');
    lemma_digits_roundtrip(p as nat);
    assert(str_to_nat(digits) <= usize::MAX);
}

/// The given state with its page overwritten.
pub open spec fn with_page(v: StateParamsView, p: usize) -> StateParamsView {
    StateParamsView { page: Some(p), ..v }
}

/// Do two states agree on everything but the page?
pub open spec fn agrees_except_page(a: StateParamsView, b: StateParamsView) -> bool {
    a.q == b.q && a.limit == b.limit && a.sort_by == b.sort_by && a.sort_order == b.sort_order
        && a.is == b.is
}

/// One segment acts on two states that agree outside the page in the same
/// way: the results still agree outside the page, and the page is either
/// set alike by the segment or kept from each input.
pub proof fn lemma_apply_segment_congruence(a: StateParamsView, b: StateParamsView, seg: Seq<char>)
    requires
        agrees_except_page(a, b),
    ensures
        agrees_except_page(apply_segment(a, seg), apply_segment(b, seg)),
        apply_segment(a, seg).page == apply_segment(b, seg).page || (apply_segment(a, seg).page
            == a.page && apply_segment(b, seg).page == b.page),
{
}

/// A `page=`-prefixed segment may set the page and touches nothing else.
pub proof fn lemma_apply_page_prefixed_keeps_rest(x: StateParamsView, seg: Seq<char>)
    requires
        starts_with(seg, "page="@),
    ensures
        agrees_except_page(apply_segment(x, seg), x),
{
    reveal_strlit("page=");
    reveal_strlit("page");
    reveal_strlit("q");
    assert(seg[4] == seg.take(5)[4]);
    assert forall|j: int| 0 <= j < 4 implies seg[j] != '=' by {
        assert(seg[j] == seg.take(5)[j]);
    }
    lemma_first_index_at(seg, '=', 4);
    assert(seg.take(4) =~= seg.take(5).take(4));
    assert(seg.take(4) =~= "page"@);
}

/// A segment that does not begin with `page=` leaves the parsed page alone,
/// whatever else it sets.
pub proof fn lemma_apply_segment_keeps_page(x: StateParamsView, seg: Seq<char>)
    requires
        !starts_with(seg, "page="@),
    ensures
        apply_segment(x, seg).page == x.page,
{
    match first_index(seg, '=') {
        None => {},
        Some(i) => {
            lemma_first_index(seg, '=');
            let name = seg.take(i as int);
            if name == "page"@ {
                reveal_strlit("page");
                reveal_strlit("page=");
                assert(name.len() == i);
                assert(i == 4);
                assert(seg[4] == '=');
                assert(seg.take(5) =~= "page="@);
                assert(starts_with(seg, "page="@));
            }
        },
    }
}

/// For every page number `p`, parsing the query string `page=<digits of p>`
/// yields exactly page `p` and leaves every other field at its default;
/// this is the round trip from a number through its decimal spelling back
/// to the parsed state.
pub proof fn lemma_parse_page_roundtrip(p: usize)
    ensures
        parse_query(Some("page="@ + nat_to_digits(p as nat))) == (StateParamsView {
            page: Some(p),
            ..default_params()
        }),
{
    let digits = nat_to_digits(p as nat);
    lemma_nat_to_digits_all_digits(p as nat);
    let seg = "page="@ + digits;
    reveal_strlit("page=");
    assert forall|j: int| 0 <= j < seg.len() implies seg[j] != '&' by {
        if j < 5 {
            assert(seg[j] == "page="@[j]);
        } else {
            assert(seg[j] == digits[j - 5]);
        }
    }
    lemma_split_no_sep(seg, '&');
    lemma_apply_segments_cons(default_params(), seg, Seq::<Seq<char>>::empty());
    assert(seq![seg] + Seq::<Seq<char>>::empty() =~= seq![seg]);
    assert(apply_segments(apply_segment(default_params(), seg), Seq::<Seq<char>>::empty())
        == apply_segment(default_params(), seg));
    lemma_apply_page_segment(default_params(), p);
}

/// The last occurrence of a parameter wins: whatever query string comes
/// before it, an appended `&page=<digits of p>` makes the parsed page `p`.
pub proof fn lemma_last_page_param_wins(s: Seq<char>, p: usize)
    ensures
        parse_query(Some(s + seq!['&'] + ("page="@ + nat_to_digits(p as nat)))).page == Some(p),
{
    let digits = nat_to_digits(p as nat);
    lemma_nat_to_digits_all_digits(p as nat);
    let seg = "page="@ + digits;
    lemma_split_concat(s, seg, '&');
    reveal_strlit("page=");
    assert forall|j: int| 0 <= j < seg.len() implies seg[j] != '&' by {
        if j < 5 {
            assert(seg[j] == "page="@[j]);
        } else {
            assert(seg[j] == digits[j - 5]);
        }
    }
    lemma_split_no_sep(seg, '&');
    lemma_apply_segments_concat(default_params(), split_char(s, '&'), seq![seg]);
    let x = apply_segments(default_params(), split_char(s, '&'));
    lemma_apply_segments_cons(x, seg, Seq::<Seq<char>>::empty());
    assert(seq![seg] + Seq::<Seq<char>>::empty() =~= seq![seg]);
    assert(apply_segments(apply_segment(x, seg), Seq::<Seq<char>>::empty()) == apply_segment(
        x,
        seg,
    ));
    lemma_apply_page_segment(x, p);
}

} // verus!
