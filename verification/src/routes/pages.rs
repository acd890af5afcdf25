//! Feed pages: query parameters, the paging cursor, and which response answers.
use vstd::prelude::*;

use crate::text::{
    chars_of, i64_text, int_decimal, lemma_int_decimal_parses, lemma_nat_decimal, lower_seq,
    nat_decimal, parse_i64, parse_i64_spec, push_char,
    string_from_range, to_ascii_lower, trim_bounds, trim_seq,
};

verus! {

pub const PAGE_SIZE: i64 = 20;

/// The query parameters of a feed page.
pub struct FeedParams {
    pub tag: Option<String>,
    pub q: Option<String>,
    pub before: Option<String>,
}

/// Index of the first `,` in `s` at or after `k`.
pub open spec fn first_comma(s: Seq<char>, k: int) -> Option<int>
    decreases s.len() - k,
{
    if k < 0 || k >= s.len() {
        None
    } else if s[k] == ',' {
        Some(k)
    } else {
        first_comma(s, k + 1)
    }
}

/// The keyset cursor `created_at,id`: split at the first comma, both halves
/// integers.
pub open spec fn parse_before_spec(s: Seq<char>) -> Option<(i64, i64)> {
    match first_comma(s, 0) {
        Some(q) => match (parse_i64_spec(s.subrange(0, q)), parse_i64_spec(s.subrange(q + 1, s.len() as int))) {
            (Some(ts), Some(id)) => Some((ts, id)),
            _ => None,
        },
        None => None,
    }
}

pub fn parse_before(s: &str) -> (r: Option<(i64, i64)>)
    ensures
        r == parse_before_spec(s@),
{
    let v = chars_of(s);
    let mut q: usize = 0;
    while q < v.len() && v[q] != ','
        invariant
            q <= v@.len(),
            v@ == s@,
            first_comma(v@, 0) == first_comma(v@, q as int),
        decreases v.len() - q,
    {
        q += 1;
    }
    if q == v.len() {
        return None;
    }
    let left = string_from_range(&v, 0, q);
    let right = string_from_range(&v, q + 1, v.len());
    match (parse_i64(left.as_str()), parse_i64(right.as_str())) {
        (Some(ts), Some(id)) => Some((ts, id)),
        _ => None,
    }
}

/// The cursor text of a memo: `created_at,id`.
pub open spec fn cursor_text(created_at: i64, id: i64) -> Seq<char> {
    int_decimal(created_at as int) + seq![','] + int_decimal(id as int)
}

/// The first comma at or after `k` is the one at `q` when none stands between.
proof fn lemma_first_comma_at(s: Seq<char>, k: int, q: int)
    requires
        0 <= k <= q < s.len(),
        s[q] == ',',
        forall|i: int| k <= i < q ==> s[i] != ',',
    ensures
        first_comma(s, k) == Some(q),
    decreases q - k,
{
    if k < q {
        lemma_first_comma_at(s, k + 1, q);
    }
}

/// Parsing the cursor written for a memo gives back its `created_at` and `id`.
pub proof fn lemma_cursor_round_trip(created_at: i64, id: i64)
    ensures
        parse_before_spec(cursor_text(created_at, id)) == Some((created_at, id)),
{
    let a = int_decimal(created_at as int);
    let b = int_decimal(id as int);
    let s = cursor_text(created_at, id);
    if created_at < 0 {
        lemma_nat_decimal((-created_at) as nat);
        assert forall|i: int| 0 <= i < a.len() implies a[i] != ',' by {
            if i > 0 {
                assert(a[i] == nat_decimal((-created_at) as nat)[i - 1]);
            }
        }
    } else {
        lemma_nat_decimal(created_at as nat);
    }
    assert(s[a.len() as int] == ',');
    assert forall|i: int| 0 <= i < a.len() implies s[i] != ',' by {
        assert(s[i] == a[i]);
    }
    lemma_first_comma_at(s, 0, a.len() as int);
    assert(s.subrange(0, a.len() as int) =~= a);
    assert(s.subrange(a.len() as int + 1, s.len() as int) =~= b);
    lemma_int_decimal_parses(created_at);
    lemma_int_decimal_parses(id);
}

/// The cursor for the next page: after the last memo shown, when more follow.
pub fn next_before(has_more: bool, last: Option<(i64, i64)>) -> (cursor: Option<String>)
    ensures
        match (has_more, last) {
            (true, Some((ts, id))) => cursor matches Some(c) && c@ == cursor_text(ts, id),
            _ => cursor is None,
        },
{
    if !has_more {
        return None;
    }
    match last {
        Some((ts, id)) => {
            let mut c = i64_text(ts);
            push_char(&mut c, ',');
            let i = i64_text(id);
            c.append(i.as_str());
            Some(c)
        },
        None => None,
    }
}

/// A trimmed parameter, `None` when blank.
pub open spec fn trimmed_param(p: Option<Seq<char>>) -> Option<Seq<char>> {
    match p {
        Some(t) => if trim_seq(t).len() > 0 {
            Some(trim_seq(t))
        } else {
            None
        },
        None => None,
    }
}

pub open spec fn opt_str(p: Option<String>) -> Option<Seq<char>> {
    match p {
        Some(s) => Some(s@),
        None => None,
    }
}

/// The search text of a feed page: trimmed, dropped when blank.
pub fn search_param(q: &Option<String>) -> (r: Option<String>)
    ensures
        opt_str(r) == trimmed_param(opt_str(*q)),
{
    match q {
        Some(s) => {
            let v = chars_of(s.as_str());
            assert(v@.subrange(0, v@.len() as int) =~= v@);
            let (a, b) = trim_bounds(&v, 0, v.len());
            if a == b {
                None
            } else {
                Some(string_from_range(&v, a, b))
            }
        },
        None => None,
    }
}

/// The tag filter of a feed page: trimmed and lowercased, dropped when blank.
pub fn tag_param(tag: &Option<String>) -> (r: Option<String>)
    ensures
        opt_str(r) == match trimmed_param(opt_str(*tag)) {
            Some(t) => Some(lower_seq(t)),
            None => None,
        },
{
    match tag {
        Some(s) => {
            let v = chars_of(s.as_str());
            assert(v@.subrange(0, v@.len() as int) =~= v@);
            let (a, b) = trim_bounds(&v, 0, v.len());
            if a == b {
                return None;
            }
            let mut out = String::new();
            let mut k = a;
            while k < b
                invariant
                    a <= k <= b <= v@.len(),
                    out@ == lower_seq(v@.subrange(a as int, k as int)),
                decreases b - k,
            {
                push_char(&mut out, to_ascii_lower(v[k]));
                k += 1;
                assert(out@ =~= lower_seq(v@.subrange(a as int, k as int)));
            }
            Some(out)
        },
        None => None,
    }
}

/// Which response a feed request gets.
#[derive(Debug, Clone, Copy, PartialEq, Eq, Structural)]
pub enum FeedResponse {
    /// Infinite-scroll continuation: more cards and the next sentinel.
    Items,
    /// Live search or filter: the whole list swapped in.
    List,
    /// A full page.
    Page,
}

/// An htmx request that is not a boosted navigation gets a fragment: the next
/// cards when it carries a cursor, else the whole list; anything else gets the
/// full page.
pub fn feed_response_kind(hx_request: bool, hx_boosted: bool, has_before: bool) -> (r: FeedResponse)
    ensures
        hx_request && !hx_boosted && has_before ==> r == FeedResponse::Items,
        hx_request && !hx_boosted && !has_before ==> r == FeedResponse::List,
        !(hx_request && !hx_boosted) ==> r == FeedResponse::Page,
{
    let is_fragment = hx_request && !hx_boosted;
    if is_fragment && has_before {
        FeedResponse::Items
    } else if is_fragment {
        FeedResponse::List
    } else {
        FeedResponse::Page
    }
}

} // verus!
