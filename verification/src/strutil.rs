//! Verified helpers on strings viewed as sequences of characters: decimal
//! numbers, character search, splitting on a separator, and prefix tests.
//! They carry the spec-level model (`Seq<char>` functions) that the rest of
//! the crate states its contracts over.

use vstd::prelude::*;
use vstd::string::StrSliceExecFns;
use vstd::string::StringExecFns;

verus! {

// ---------------------------------------------------------------------------
// Views of optional strings
// ---------------------------------------------------------------------------

pub open spec fn opt_str_view(o: Option<String>) -> Option<Seq<char>> {
    match o {
        None => None,
        Some(s) => Some(s@),
    }
}

pub open spec fn opt_str_ref_view(o: Option<&str>) -> Option<Seq<char>> {
    match o {
        None => None,
        Some(s) => Some(s@),
    }
}

// ---------------------------------------------------------------------------
// Decimal digits
// ---------------------------------------------------------------------------

/// An ASCII decimal digit, `'0'` through `'9'`.
pub open spec fn is_digit(c: char) -> bool {
    48 <= c as u32 <= 57
}

/// Numeric value of an ASCII digit.
pub open spec fn digit_val(c: char) -> nat
    recommends
        is_digit(c),
{
    (c as u32 - 48) as nat
}

/// The digit character for a value below ten.
pub open spec fn digit_char(d: nat) -> char
    recommends
        d < 10,
{
    if d == 0 {
        '0'
    } else if d == 1 {
        '1'
    } else if d == 2 {
        '2'
    } else if d == 3 {
        '3'
    } else if d == 4 {
        '4'
    } else if d == 5 {
        '5'
    } else if d == 6 {
        '6'
    } else if d == 7 {
        '7'
    } else if d == 8 {
        '8'
    } else {
        '9'
    }
}

pub open spec fn all_digits(s: Seq<char>) -> bool {
    forall|i: int| 0 <= i < s.len() ==> is_digit(#[trigger] s[i])
}

/// Value of a digit string, most significant digit first.
pub open spec fn str_to_nat(s: Seq<char>) -> nat
    decreases s.len(),
{
    if s.len() == 0 {
        0
    } else {
        str_to_nat(s.drop_last()) * 10 + digit_val(s.last())
    }
}

/// Decimal representation of `n`, most significant digit first, no leading
/// zeros (a lone `'0'` for zero).
pub open spec fn nat_to_digits(n: nat) -> Seq<char>
    decreases n,
{
    if n < 10 {
        seq![digit_char(n)]
    } else {
        nat_to_digits(n / 10).push(digit_char(n % 10))
    }
}

pub proof fn lemma_nat_to_digits_all_digits(n: nat)
    ensures
        all_digits(nat_to_digits(n)),
        nat_to_digits(n).len() >= 1,
    decreases n,
{
    if n >= 10 {
        lemma_nat_to_digits_all_digits(n / 10);
    }
}

/// Writing a number and reading it back yields the number.
pub proof fn lemma_digits_roundtrip(n: nat)
    ensures
        str_to_nat(nat_to_digits(n)) == n,
    decreases n,
{
    if n < 10 {
        let s = nat_to_digits(n);
        assert(s.drop_last() =~= Seq::<char>::empty());
        assert(str_to_nat(Seq::<char>::empty()) == 0);
        assert(s.last() == digit_char(n));
    } else {
        lemma_digits_roundtrip(n / 10);
        let s = nat_to_digits(n);
        assert(s.drop_last() =~= nat_to_digits(n / 10));
        assert(s.last() == digit_char(n % 10));
        assert(digit_val(digit_char(n % 10)) == n % 10);
    }
}

/// Reading one more digit multiplies the prefix value by ten and adds it.
pub proof fn lemma_str_to_nat_step(s: Seq<char>, i: int)
    requires
        0 <= i < s.len(),
    ensures
        str_to_nat(s.take(i + 1)) == str_to_nat(s.take(i)) * 10 + digit_val(s[i]),
{
    assert(s.take(i + 1).drop_last() =~= s.take(i));
    assert(s.take(i + 1).last() == s[i]);
}

/// On digit strings the value of a prefix never exceeds the whole.
pub proof fn lemma_str_to_nat_prefix_le(s: Seq<char>, i: int)
    requires
        0 <= i <= s.len(),
    ensures
        str_to_nat(s.take(i)) <= str_to_nat(s),
    decreases s.len() - i,
{
    if i == s.len() {
        assert(s.take(i) =~= s);
    } else {
        lemma_str_to_nat_step(s, i);
        lemma_str_to_nat_prefix_le(s, i + 1);
    }
}

/// What `str::parse::<usize>` accepts: an optional leading `'+'`, then one or
/// more decimal digits, whose value fits in `usize`.
pub open spec fn parse_usize_spec(s: Seq<char>) -> Option<usize> {
    let body = if s.len() > 0 && s[0] == '+' {
        s.skip(1)
    } else {
        s
    };
    if body.len() > 0 && all_digits(body) && str_to_nat(body) <= usize::MAX {
        Some(str_to_nat(body) as usize)
    } else {
        None
    }
}

/// Best-effort decimal parse, matching `str::parse::<usize>` exactly:
/// `None` on an empty string, a stray character, or overflow.
pub fn parse_usize(s: &str) -> (r: Option<usize>)
    ensures
        r == parse_usize_spec(s@),
{
    let n = s.unicode_len();
    let start: usize = if n > 0 && s.get_char(0) == '+' {
        1
    } else {
        0
    };
    let ghost body: Seq<char> = if start == 1 {
        s@.skip(1)
    } else {
        s@
    };
    if start == n {
        return None;
    }
    let mut acc: usize = 0;
    let mut i: usize = start;
    while i < n
        invariant
            start <= i <= n,
            n == s@.len(),
            start == 0 || start == 1,
            start == 1 ==> n > 0 && s@[0] == '+' && body == s@.skip(1),
            start == 0 ==> body == s@ && (n == 0 || s@[0] != '+'),
            start < n,
            all_digits(body.take(i - start)),
            acc == str_to_nat(body.take(i - start)),
        decreases n - i,
    {
        let c = s.get_char(i);
        let u = c as u32;
        proof {
            if start == 1 {
                assert(s@.skip(1).len() == n - 1);
                assert(s@.skip(1)[i - 1] == s@[i as int]);
            }
            assert(body[i - start] == s@[i as int]);
        }
        if u < 48 || u > 57 {
            return None;
        }
        let d = (u - 48) as usize;
        if acc > (usize::MAX - d) / 10 {
            proof {
                assert(acc * 10 + d > usize::MAX) by (nonlinear_arith)
                    requires
                        acc > (usize::MAX - d) / 10,
                        d <= usize::MAX,
                ;
                lemma_str_to_nat_step(body, i - start);
                lemma_str_to_nat_prefix_le(body, i - start + 1);
            }
            return None;
        }
        proof {
            lemma_str_to_nat_step(body, i - start);
        }
        acc = acc * 10 + d;
        i = i + 1;
    }
    proof {
        assert(body.take(n - start) =~= body);
    }
    Some(acc)
}

/// The one-character string for a digit value.
fn digit_str(d: usize) -> (r: &'static str)
    requires
        d < 10,
    ensures
        r@ == seq![digit_char(d as nat)],
{
    let r: &'static str = match d {
        0 => "0",
        1 => "1",
        2 => "2",
        3 => "3",
        4 => "4",
        5 => "5",
        6 => "6",
        7 => "7",
        8 => "8",
        _ => "9",
    };
    proof {
        reveal_strlit("0");
        reveal_strlit("1");
        reveal_strlit("2");
        reveal_strlit("3");
        reveal_strlit("4");
        reveal_strlit("5");
        reveal_strlit("6");
        reveal_strlit("7");
        reveal_strlit("8");
        reveal_strlit("9");
        assert(r@ =~= seq![digit_char(d as nat)]);
    }
    r
}

/// Decimal rendering of `n`, as `format!("{n}")` would produce it.
pub fn usize_to_string(n: usize) -> (r: String)
    ensures
        r@ == nat_to_digits(n as nat),
    decreases n,
{
    if n < 10 {
        digit_str(n).to_owned()
    } else {
        let mut s = usize_to_string(n / 10);
        s.append(digit_str(n % 10));
        proof {
            assert(s@ =~= nat_to_digits((n / 10) as nat).push(digit_char((n % 10) as nat)));
        }
        s
    }
}

// ---------------------------------------------------------------------------
// Character search and comparison
// ---------------------------------------------------------------------------

/// Character-for-character string equality.
pub fn str_eq(a: &str, b: &str) -> (r: bool)
    ensures
        r == (a@ == b@),
{
    let an = a.unicode_len();
    let bn = b.unicode_len();
    if an != bn {
        return false;
    }
    let mut i: usize = 0;
    while i < an
        invariant
            i <= an,
            an == a@.len(),
            bn == b@.len(),
            an == bn,
            forall|j: int| 0 <= j < i ==> a@[j] == b@[j],
        decreases an - i,
    {
        if a.get_char(i) != b.get_char(i) {
            return false;
        }
        i = i + 1;
    }
    proof {
        assert(a@ =~= b@);
    }
    true
}

/// First occurrence of `c` in `s` at or after `from`, if any.
pub fn find_char_from(s: &str, c: char, from: usize) -> (r: Option<usize>)
    requires
        from <= s@.len(),
    ensures
        match r {
            Some(i) => from <= i < s@.len() && s@[i as int] == c && forall|j: int|
                from <= j < i ==> s@[j] != c,
            None => forall|j: int| from <= j < s@.len() ==> s@[j] != c,
        },
{
    let n = s.unicode_len();
    let mut i: usize = from;
    while i < n
        invariant
            from <= i <= n,
            n == s@.len(),
            forall|j: int| from <= j < i ==> s@[j] != c,
        decreases n - i,
    {
        if s.get_char(i) == c {
            return Some(i);
        }
        i = i + 1;
    }
    None
}

/// Position of the first occurrence of `c` in `s`, if any.
pub open spec fn first_index(s: Seq<char>, c: char) -> Option<nat>
    decreases s.len(),
{
    if s.len() == 0 {
        None
    } else if s[0] == c {
        Some(0nat)
    } else {
        match first_index(s.skip(1), c) {
            None => None,
            Some(i) => Some((i + 1) as nat),
        }
    }
}

pub proof fn lemma_first_index(s: Seq<char>, c: char)
    ensures
        match first_index(s, c) {
            Some(i) => i < s.len() && s[i as int] == c && forall|j: int| 0 <= j < i ==> s[j] != c,
            None => forall|j: int| 0 <= j < s.len() ==> s[j] != c,
        },
    decreases s.len(),
{
    if s.len() != 0 && s[0] != c {
        lemma_first_index(s.skip(1), c);
        match first_index(s.skip(1), c) {
            None => {
                assert forall|j: int| 0 <= j < s.len() implies s[j] != c by {
                    if j > 0 {
                        assert(s.skip(1)[j - 1] == s[j]);
                    }
                }
            },
            Some(i) => {
                assert(s.skip(1)[i as int] == s[i as int + 1]);
                assert forall|j: int| 0 <= j < i + 1 implies s[j] != c by {
                    if j > 0 {
                        assert(s.skip(1)[j - 1] == s[j]);
                    }
                }
            },
        }
    }
}

/// The converse direction: a witness pins `first_index` down.
pub proof fn lemma_first_index_at(s: Seq<char>, c: char, i: int)
    requires
        0 <= i < s.len(),
        s[i] == c,
        forall|j: int| 0 <= j < i ==> s[j] != c,
    ensures
        first_index(s, c) == Some(i as nat),
{
    lemma_first_index(s, c);
}

pub proof fn lemma_first_index_none(s: Seq<char>, c: char)
    requires
        forall|j: int| 0 <= j < s.len() ==> s[j] != c,
    ensures
        first_index(s, c) is None,
{
    lemma_first_index(s, c);
}

/// Does `s` begin with `p`?
pub open spec fn starts_with(s: Seq<char>, p: Seq<char>) -> bool {
    s.len() >= p.len() && s.take(p.len() as int) == p
}

/// Prefix test, character for character.
pub fn str_starts_with(s: &str, p: &str) -> (r: bool)
    ensures
        r == starts_with(s@, p@),
{
    let sn = s.unicode_len();
    let pn = p.unicode_len();
    if sn < pn {
        return false;
    }
    let head = s.substring_char(0, pn);
    str_eq(head, p)
}

// ---------------------------------------------------------------------------
// Splitting on a separator character
// ---------------------------------------------------------------------------

/// The segments of `s` between occurrences of `sep`, exactly as
/// `str::split` yields them: always at least one segment, empty segments
/// kept, and `[""]` for the empty string.
pub open spec fn split_char(s: Seq<char>, sep: char) -> Seq<Seq<char>>
    decreases s.len(),
{
    if s.len() == 0 {
        seq![s]
    } else {
        let rest = split_char(s.drop_last(), sep);
        if s.last() == sep {
            rest.push(Seq::empty())
        } else {
            rest.update(rest.len() - 1, rest.last().push(s.last()))
        }
    }
}

/// `c` occurs nowhere in `s`.
pub open spec fn has_no_char(s: Seq<char>, c: char) -> bool {
    forall|j: int| 0 <= j < s.len() ==> s[j] != c
}

/// No segment of a split contains the separator it was split on.
pub proof fn lemma_split_segments_no_sep(s: Seq<char>, sep: char)
    ensures
        forall|k: int|
            0 <= k < split_char(s, sep).len() ==> has_no_char(
                #[trigger] split_char(s, sep)[k],
                sep,
            ),
    decreases s.len(),
{
    if s.len() != 0 {
        lemma_split_segments_no_sep(s.drop_last(), sep);
        let rest = split_char(s.drop_last(), sep);
        lemma_split_nonempty(s.drop_last(), sep);
        if s.last() == sep {
            assert forall|k: int|
                0 <= k < split_char(s, sep).len() implies has_no_char(
                split_char(s, sep)[k],
                sep,
            ) by {
                if k < rest.len() {
                    assert(split_char(s, sep)[k] == rest[k]);
                } else {
                    assert(split_char(s, sep)[k] =~= Seq::<char>::empty());
                }
            }
        } else {
            let updated = rest.update(rest.len() - 1, rest.last().push(s.last()));
            assert forall|k: int| 0 <= k < updated.len() implies has_no_char(
                updated[k],
                sep,
            ) by {
                if k == rest.len() - 1 {
                    assert(updated[k] == rest.last().push(s.last()));
                    assert(has_no_char(rest[rest.len() - 1], sep));
                } else {
                    assert(updated[k] == rest[k]);
                }
            }
        }
    }
}

pub proof fn lemma_split_nonempty(s: Seq<char>, sep: char)
    ensures
        split_char(s, sep).len() >= 1,
    decreases s.len(),
{
    if s.len() != 0 {
        lemma_split_nonempty(s.drop_last(), sep);
    }
}

/// A string without the separator is a single segment.
pub proof fn lemma_split_no_sep(s: Seq<char>, sep: char)
    requires
        forall|j: int| 0 <= j < s.len() ==> s[j] != sep,
    ensures
        split_char(s, sep) == seq![s],
    decreases s.len(),
{
    if s.len() == 0 {
    } else {
        let s1 = s.drop_last();
        lemma_split_no_sep(s1, sep);
        assert(s1.push(s.last()) =~= s);
        assert(split_char(s, sep) =~= seq![s]);
    }
}

/// Splitting at the first separator: the head segment, then the split of
/// what follows.
pub proof fn lemma_split_at_first_sep(s: Seq<char>, sep: char, i: int)
    requires
        0 <= i < s.len(),
        s[i] == sep,
        forall|j: int| 0 <= j < i ==> s[j] != sep,
    ensures
        split_char(s, sep) == seq![s.take(i)] + split_char(s.skip(i + 1), sep),
    decreases s.len(),
{
    let s1 = s.drop_last();
    let c = s.last();
    if i == s.len() - 1 {
        // The last character is the first separator: everything before it is
        // one segment and an empty segment follows.
        lemma_split_no_sep(s1, sep);
        assert(s.take(i) =~= s1);
        assert(s.skip(i + 1) =~= Seq::<char>::empty());
        assert(split_char(s, sep) =~= seq![s.take(i)] + split_char(s.skip(i + 1), sep));
    } else {
        lemma_split_at_first_sep(s1, sep, i);
        let tail1 = s1.skip(i + 1);
        let tail = s.skip(i + 1);
        assert(s.take(i) =~= s1.take(i));
        assert(tail.drop_last() =~= tail1);
        assert(tail.last() == c);
        assert(tail.len() == s.len() - i - 1 >= 1);
        let r1 = split_char(tail1, sep);
        lemma_split_nonempty(tail1, sep);
        if c == sep {
            assert(split_char(tail, sep) == r1.push(Seq::empty()));
            assert(split_char(s, sep) =~= seq![s.take(i)] + split_char(tail, sep));
        } else {
            assert(split_char(tail, sep) == r1.update(r1.len() - 1, r1.last().push(c)));
            let whole1 = seq![s1.take(i)] + r1;
            assert(split_char(s1, sep) == whole1);
            assert(whole1.len() == 1 + r1.len());
            assert(whole1.last() == r1.last());
            assert(split_char(s, sep) == whole1.update(whole1.len() - 1, whole1.last().push(c)));
            assert(whole1.update(whole1.len() - 1, whole1.last().push(c)) =~= seq![s.take(i)]
                + r1.update(r1.len() - 1, r1.last().push(c)));
        }
    }
}

/// Splitting a string with a separator appended in the middle splits each
/// side on its own.
pub proof fn lemma_split_concat(a: Seq<char>, b: Seq<char>, sep: char)
    ensures
        split_char(a + seq![sep] + b, sep) == split_char(a, sep) + split_char(b, sep),
    decreases b.len(),
{
    let s = a + seq![sep] + b;
    if b.len() == 0 {
        assert(s.len() == a.len() + 1);
        assert(s.last() == sep);
        assert(s.drop_last() =~= a);
        assert(b =~= Seq::<char>::empty());
        assert(split_char(b, sep) =~= seq![b]);
        assert(split_char(s, sep) =~= split_char(a, sep) + split_char(b, sep));
    } else {
        let b1 = b.drop_last();
        let c = b.last();
        lemma_split_concat(a, b1, sep);
        let s1 = a + seq![sep] + b1;
        assert(s.drop_last() =~= s1);
        assert(s.last() == c);
        let ra = split_char(a, sep);
        let rb1 = split_char(b1, sep);
        lemma_split_nonempty(b1, sep);
        if c == sep {
            assert(split_char(b, sep) == rb1.push(Seq::empty()));
            assert(split_char(s, sep) == (ra + rb1).push(Seq::empty()));
            assert((ra + rb1).push(Seq::empty()) =~= ra + rb1.push(Seq::empty()));
        } else {
            assert(split_char(b, sep) == rb1.update(rb1.len() - 1, rb1.last().push(c)));
            let w = ra + rb1;
            assert(split_char(s, sep) == w.update(w.len() - 1, w.last().push(c)));
            assert(w.last() == rb1.last());
            assert(w.update(w.len() - 1, w.last().push(c)) =~= ra + rb1.update(
                rb1.len() - 1,
                rb1.last().push(c),
            ));
        }
    }
}

// ---------------------------------------------------------------------------
// The last segment of a path
// ---------------------------------------------------------------------------

/// The suffix of `s` after the last occurrence of `sep` (all of `s` when the
/// separator is absent) — the last segment of `split_char`.
pub open spec fn last_segment(s: Seq<char>, sep: char) -> Seq<char>
    decreases s.len(),
{
    if s.len() == 0 {
        s
    } else if s.last() == sep {
        Seq::empty()
    } else {
        last_segment(s.drop_last(), sep).push(s.last())
    }
}

/// `last_segment` names the final segment of the split.
pub proof fn lemma_last_segment_is_split_last(s: Seq<char>, sep: char)
    ensures
        split_char(s, sep).len() >= 1,
        split_char(s, sep).last() == last_segment(s, sep),
    decreases s.len(),
{
    lemma_split_nonempty(s, sep);
    if s.len() == 0 {
        assert(last_segment(s, sep) =~= split_char(s, sep).last());
    } else {
        lemma_last_segment_is_split_last(s.drop_last(), sep);
    }
}

/// Extracting the suffix after the last separator yields `last_segment`.
pub proof fn lemma_last_segment_after(s: Seq<char>, sep: char, i: int)
    requires
        0 <= i < s.len(),
        s[i] == sep,
        forall|j: int| i < j < s.len() ==> s[j] != sep,
    ensures
        last_segment(s, sep) == s.skip(i + 1),
    decreases s.len(),
{
    if i == s.len() - 1 {
        assert(s.skip(i + 1) =~= Seq::<char>::empty());
    } else {
        let s1 = s.drop_last();
        lemma_last_segment_after(s1, sep, i);
        assert(s1.skip(i + 1).push(s.last()) =~= s.skip(i + 1));
    }
}

/// Without the separator the last segment is the whole string.
pub proof fn lemma_last_segment_whole(s: Seq<char>, sep: char)
    requires
        forall|j: int| 0 <= j < s.len() ==> s[j] != sep,
    ensures
        last_segment(s, sep) == s,
    decreases s.len(),
{
    if s.len() != 0 {
        lemma_last_segment_whole(s.drop_last(), sep);
        assert(last_segment(s.drop_last(), sep).push(s.last()) =~= s);
    }
}

} // verus!
