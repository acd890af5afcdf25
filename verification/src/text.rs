//! Character-level text utilities shared by the rest of the library.
//!
//! Strings are handled as sequences of `char`; every routine here states its
//! result over `Seq<char>` views.
use vstd::prelude::*;

verus! {

// ---------------------------------------------------------------------------
// Specifications
// ---------------------------------------------------------------------------

pub open spec fn is_ascii_digit_spec(c: char) -> bool {
    '0' <= c && c <= '9'
}

pub open spec fn is_ascii_lower_spec(c: char) -> bool {
    'a' <= c && c <= 'z'
}

pub open spec fn is_ascii_upper_spec(c: char) -> bool {
    'A' <= c && c <= 'Z'
}

pub open spec fn is_ascii_alphabetic_spec(c: char) -> bool {
    is_ascii_lower_spec(c) || is_ascii_upper_spec(c)
}

pub open spec fn is_ascii_alphanumeric_spec(c: char) -> bool {
    is_ascii_alphabetic_spec(c) || is_ascii_digit_spec(c)
}

pub open spec fn is_ascii_hexdigit_spec(c: char) -> bool {
    is_ascii_digit_spec(c) || ('a' <= c && c <= 'f') || ('A' <= c && c <= 'F')
}

/// `char::to_ascii_lowercase`: ASCII capitals map to their lowercase letter,
/// every other character is unchanged.
pub open spec fn to_ascii_lower_spec(c: char) -> char {
    if is_ascii_upper_spec(c) {
        ((c as u32) + 32) as char
    } else {
        c
    }
}

pub open spec fn lower_seq(s: Seq<char>) -> Seq<char> {
    s.map_values(|c: char| to_ascii_lower_spec(c))
}

/// The Unicode `White_Space` property, which `char::is_whitespace` tests.
pub open spec fn is_whitespace_spec(c: char) -> bool {
    let u = c as u32;
    (0x09 <= u && u <= 0x0D) || u == 0x20 || u == 0x85 || u == 0xA0 || u == 0x1680 || (0x2000
        <= u && u <= 0x200A) || u == 0x2028 || u == 0x2029 || u == 0x202F || u == 0x205F || u
        == 0x3000
}

/// The Unicode general category `Cc`, which `char::is_control` tests.
pub open spec fn is_control_spec(c: char) -> bool {
    let u = c as u32;
    u <= 0x1F || (0x7F <= u && u <= 0x9F)
}

/// `s` with leading whitespace removed.
pub open spec fn trim_start_seq(s: Seq<char>) -> Seq<char>
    decreases s.len(),
{
    if s.len() > 0 && is_whitespace_spec(s[0]) {
        trim_start_seq(s.drop_first())
    } else {
        s
    }
}

/// `s` with trailing whitespace removed.
pub open spec fn trim_end_seq(s: Seq<char>) -> Seq<char>
    decreases s.len(),
{
    if s.len() > 0 && is_whitespace_spec(s.last()) {
        trim_end_seq(s.drop_last())
    } else {
        s
    }
}

/// `str::trim`: leading and trailing whitespace removed.
pub open spec fn trim_seq(s: Seq<char>) -> Seq<char> {
    trim_end_seq(trim_start_seq(s))
}

/// `needle` occurs in `s` starting at index `i`.
pub open spec fn occurs_at(s: Seq<char>, i: int, needle: Seq<char>) -> bool {
    0 <= i && i + needle.len() <= s.len() && s.subrange(i, i + needle.len()) == needle
}

/// The first index `k >= from` at which a non-empty `needle` occurs in `s`.
pub open spec fn find_from(s: Seq<char>, from: int, needle: Seq<char>) -> Option<int>
    decreases s.len() - from,
{
    if needle.len() == 0 || from < 0 || from + needle.len() > s.len() {
        None
    } else if occurs_at(s, from, needle) {
        Some(from)
    } else {
        find_from(s, from + 1, needle)
    }
}

/// `str::replace` with a non-empty pattern, applied from index `i` on: every
/// non-overlapping occurrence of `pat`, found left to right, becomes `rep`.
pub open spec fn replace_from(s: Seq<char>, i: int, pat: Seq<char>, rep: Seq<char>) -> Seq<char>
    decreases s.len() - i,
{
    if i < 0 || i >= s.len() || pat.len() == 0 {
        if 0 <= i < s.len() {
            s.subrange(i, s.len() as int)
        } else {
            Seq::empty()
        }
    } else if occurs_at(s, i, pat) {
        rep + replace_from(s, i + pat.len(), pat, rep)
    } else {
        seq![s[i]] + replace_from(s, i + 1, pat, rep)
    }
}

pub open spec fn replace_all(s: Seq<char>, pat: Seq<char>, rep: Seq<char>) -> Seq<char> {
    replace_from(s, 0, pat, rep)
}

/// `s` contains `needle` somewhere.
pub open spec fn contains_seq(s: Seq<char>, needle: Seq<char>) -> bool {
    exists|i: int| occurs_at(s, i, needle)
}

/// The decimal digit character for `d < 10`.
pub open spec fn digit_char(d: nat) -> char {
    ((48 + d) as u32) as char
}

/// Decimal digits of a natural number, most significant first, no leading zeros.
pub open spec fn nat_decimal(n: nat) -> Seq<char>
    decreases n,
{
    if n < 10 {
        seq![digit_char(n)]
    } else {
        nat_decimal(n / 10).push(digit_char(n % 10))
    }
}

/// How `Display` writes an integer: a `-` for negatives, then the decimal digits.
pub open spec fn int_decimal(x: int) -> Seq<char> {
    if x < 0 {
        seq!['-'] + nat_decimal((-x) as nat)
    } else {
        nat_decimal(x as nat)
    }
}

pub open spec fn all_digits(s: Seq<char>) -> bool {
    forall|i: int| 0 <= i < s.len() ==> is_ascii_digit_spec(#[trigger] s[i])
}

/// The value of a run of decimal digits.
pub open spec fn digits_value(s: Seq<char>) -> int
    decreases s.len(),
{
    if s.len() == 0 {
        0
    } else {
        digits_value(s.drop_last()) * 10 + ((s.last() as u32) - 48)
    }
}

/// The integer that `str::parse::<i64>` reads from `s`: an optional `+` or `-`,
/// then one or more ASCII digits and nothing else; `None` for anything else or
/// for a value out of the `i64` range.
pub open spec fn parse_i64_spec(s: Seq<char>) -> Option<i64> {
    let signed = s.len() > 0 && (s[0] == '+' || s[0] == '-');
    let digits = if signed {
        s.drop_first()
    } else {
        s
    };
    let magnitude = digits_value(digits);
    let value = if signed && s[0] == '-' {
        -magnitude
    } else {
        magnitude
    };
    if digits.len() > 0 && all_digits(digits) && i64::MIN <= value <= i64::MAX {
        Some(value as i64)
    } else {
        None
    }
}

/// The text of `n` copies of `c`.
pub open spec fn repeat_char(c: char, n: nat) -> Seq<char>
    decreases n,
{
    if n == 0 {
        Seq::empty()
    } else {
        repeat_char(c, (n - 1) as nat).push(c)
    }
}

/// What `find_from` returns: the first occurrence at or after `from`, if any.
pub proof fn lemma_find_from(s: Seq<char>, from: int, n: Seq<char>)
    requires
        0 <= from,
        n.len() > 0,
    ensures
        match find_from(s, from, n) {
            Some(k) => from <= k && occurs_at(s, k, n) && forall|q: int|
                from <= q < k ==> !occurs_at(s, q, n),
            None => forall|q: int| from <= q ==> !occurs_at(s, q, n),
        },
    decreases s.len() - from,
{
    if from + n.len() > s.len() {
    } else if occurs_at(s, from, n) {
    } else {
        lemma_find_from(s, from + 1, n);
    }
}

/// A digit character reads back as the digit it was made from.
pub proof fn lemma_digit_char(d: nat)
    requires
        d < 10,
    ensures
        is_ascii_digit_spec(digit_char(d)),
        (digit_char(d) as u32) - 48 == d,
{
    let u: u32 = (48 + d) as u32;
    assert(u == 48 + d);
    assert((u as char) as u32 == u);
}

/// The decimal text of `n` is a non-empty run of digits whose value is `n`.
pub proof fn lemma_nat_decimal(n: nat)
    ensures
        nat_decimal(n).len() > 0,
        all_digits(nat_decimal(n)),
        digits_value(nat_decimal(n)) == n,
    decreases n,
{
    if n < 10 {
        lemma_digit_char(n);
        let s = nat_decimal(n);
        assert(s.drop_last() =~= Seq::<char>::empty());
        assert(digits_value(s.drop_last()) == 0);
        assert(s.last() == digit_char(n));
    } else {
        lemma_nat_decimal(n / 10);
        lemma_digit_char(n % 10);
        let s = nat_decimal(n);
        assert(s.drop_last() =~= nat_decimal(n / 10));
        assert(s.last() == digit_char(n % 10));
        assert(digits_value(s) == digits_value(nat_decimal(n / 10)) * 10 + (n % 10));
        assert((n / 10) * 10 + n % 10 == n);
        assert forall|i: int| 0 <= i < s.len() implies is_ascii_digit_spec(#[trigger] s[i]) by {
            if i < s.len() - 1 {
                assert(s[i] == nat_decimal(n / 10)[i]);
            }
        }
    }
}

/// `str::parse::<i64>` reads back what `Display` wrote.
pub proof fn lemma_int_decimal_parses(x: i64)
    ensures
        parse_i64_spec(int_decimal(x as int)) == Some(x),
{
    if x < 0 {
        let m: nat = (-x) as nat;
        lemma_nat_decimal(m);
        let s = int_decimal(x as int);
        assert(s.drop_first() =~= nat_decimal(m));
    } else {
        lemma_nat_decimal(x as nat);
        lemma_digit_char(0);
        let s = nat_decimal(x as nat);
        assert(is_ascii_digit_spec(s[0]));
    }
}

/// Where no occurrence of `pat` starts in `[i, i + m)`, replacing from `i`
/// copies those `m` characters unchanged.
proof fn lemma_replace_copies(s: Seq<char>, i: int, m: int, pat: Seq<char>, rep: Seq<char>)
    requires
        0 <= i,
        0 <= m,
        i + m <= s.len(),
        pat.len() > 0,
        forall|q: int| i <= q < i + m ==> !occurs_at(s, q, pat),
    ensures
        replace_from(s, i, pat, rep) == s.subrange(i, i + m) + replace_from(s, i + m, pat, rep),
    decreases m,
{
    if m > 0 {
        lemma_replace_copies(s, i + 1, m - 1, pat, rep);
        assert(s.subrange(i, i + m) =~= seq![s[i]] + s.subrange(i + 1, i + m));
    } else {
        assert(s.subrange(i, i) =~= Seq::<char>::empty());
    }
}

/// What occurs in `t` at `w` occurs in `b + t` at `b.len() + w`.
proof fn lemma_occurs_shift(b: Seq<char>, t: Seq<char>, w: int, n: Seq<char>)
    requires
        occurs_at(t, w, n),
    ensures
        occurs_at(b + t, b.len() + w, n),
{
    assert((b + t).subrange(b.len() + w, b.len() + w + n.len()) =~= t.subrange(w, w + n.len()));
}

/// Replacing one pattern leaves alone an occurrence of `n` at `p` that no
/// occurrence of the pattern overlaps.
pub proof fn lemma_replace_keeps(s: Seq<char>, i: int, p: int, n: Seq<char>, pat: Seq<char>, rep: Seq<char>)
    requires
        0 <= i <= p,
        occurs_at(s, p, n),
        pat.len() > 0,
        forall|q: int| i <= q && occurs_at(s, q, pat) ==> q + pat.len() <= p || q >= p + n.len(),
    ensures
        contains_seq(replace_from(s, i, pat, rep), n),
    decreases p - i,
{
    if i == p {
        assert forall|q: int| p <= q < p + n.len() implies !occurs_at(s, q, pat) by {
            if occurs_at(s, q, pat) {
                assert(q + pat.len() <= p || q >= p + n.len());
            }
        }
        lemma_replace_copies(s, p, n.len() as int, pat, rep);
        let r = replace_from(s, p, pat, rep);
        assert(r.subrange(0, n.len() as int) =~= s.subrange(p, p + n.len()));
        assert(occurs_at(r, 0, n));
    } else if occurs_at(s, i, pat) {
        lemma_replace_keeps(s, i + pat.len(), p, n, pat, rep);
        let t = replace_from(s, i + pat.len(), pat, rep);
        let w = choose|w: int| occurs_at(t, w, n);
        lemma_occurs_shift(rep, t, w, n);
    } else {
        lemma_replace_keeps(s, i + 1, p, n, pat, rep);
        let t = replace_from(s, i + 1, pat, rep);
        let w = choose|w: int| occurs_at(t, w, n);
        lemma_occurs_shift(seq![s[i]], t, w, n);
    }
}

/// Replacing a pattern that occurs at or after `i` puts the replacement in.
pub proof fn lemma_replace_inserts(s: Seq<char>, i: int, q: int, pat: Seq<char>, rep: Seq<char>)
    requires
        0 <= i <= q,
        occurs_at(s, q, pat),
        pat.len() > 0,
    ensures
        contains_seq(replace_from(s, i, pat, rep), rep),
    decreases q - i,
{
    let r = replace_from(s, i, pat, rep);
    if occurs_at(s, i, pat) {
        assert(r.subrange(0, rep.len() as int) =~= rep);
        assert(occurs_at(r, 0, rep));
    } else {
        lemma_replace_inserts(s, i + 1, q, pat, rep);
        let t = replace_from(s, i + 1, pat, rep);
        let w = choose|w: int| occurs_at(t, w, rep);
        lemma_occurs_shift(seq![s[i]], t, w, rep);
    }
}

/// Trimming leaves alone a text that neither starts nor ends with whitespace.
pub proof fn lemma_trim_noop(s: Seq<char>)
    requires
        s.len() > 0 ==> !is_whitespace_spec(s[0]) && !is_whitespace_spec(s.last()),
    ensures
        trim_seq(s) == s,
{
}

// ---------------------------------------------------------------------------
// Trusted std calls
// ---------------------------------------------------------------------------

/// `String::push`: appends one character.
#[verifier::external_body]
pub(crate) fn push_char(s: &mut String, c: char)
    ensures
        final(s)@ == old(s)@.push(c),
{
    s.push(c);
}

/// `i64`'s `Display` (through `to_string`): the decimal text of `x`.
#[verifier::external_body]
pub(crate) fn i64_text(x: i64) -> (res: String)
    ensures
        res@ == int_decimal(x as int),
{
    x.to_string()
}

/// `usize`'s `Display` (through `to_string`): the decimal text of `x`.
#[verifier::external_body]
pub(crate) fn usize_text(x: usize) -> (res: String)
    ensures
        res@ == int_decimal(x as int),
{
    x.to_string()
}

/// `str::parse::<i64>`, with the error dropped: `Some` exactly on the texts that
/// its documentation accepts.
#[verifier::external_body]
pub(crate) fn parse_i64(s: &str) -> (res: Option<i64>)
    ensures
        res == parse_i64_spec(s@),
{
    s.parse::<i64>().ok()
}

// ---------------------------------------------------------------------------
// Verified helpers
// ---------------------------------------------------------------------------

/// The characters of `s`, in order, as an indexable vector.
pub fn chars_of(s: &str) -> (out: Vec<char>)
    ensures
        out@ == s@,
{
    let mut out: Vec<char> = Vec::new();
    for c in it: s.chars()
        invariant
            it.seq() == s@,
            out@ == it.seq().take(it.index() as int),
    {
        out.push(c);
    }
    out
}

/// A `String` holding `v[from..to]`.
pub fn string_from_range(v: &Vec<char>, from: usize, to: usize) -> (out: String)
    requires
        from <= to <= v@.len(),
    ensures
        out@ == v@.subrange(from as int, to as int),
{
    let mut out = String::new();
    let mut k = from;
    while k < to
        invariant
            from <= k <= to <= v@.len(),
            out@ == v@.subrange(from as int, k as int),
        decreases to - k,
    {
        push_char(&mut out, v[k]);
        k += 1;
        assert(out@ =~= v@.subrange(from as int, k as int));
    }
    out
}

/// Appends every character of `v` to `out`.
pub fn push_chars(out: &mut String, v: &Vec<char>)
    ensures
        final(out)@ == old(out)@ + v@,
{
    let mut k: usize = 0;
    while k < v.len()
        invariant
            k <= v@.len(),
            out@ == old(out)@ + v@.take(k as int),
        decreases v.len() - k,
    {
        push_char(out, v[k]);
        k += 1;
        assert(out@ =~= old(out)@ + v@.take(k as int));
    }
    assert(v@.take(v@.len() as int) =~= v@);
}


/// Whether `needle` occurs in `hay` at index `k`.
pub fn matches_at(hay: &Vec<char>, k: usize, needle: &Vec<char>) -> (b: bool)
    ensures
        b == occurs_at(hay@, k as int, needle@),
{
    if k > hay.len() || needle.len() > hay.len() - k {
        return false;
    }
    let mut j: usize = 0;
    while j < needle.len()
        invariant
            k + needle.len() <= hay.len(),
            j <= needle@.len(),
            hay@.subrange(k as int, k + j) == needle@.take(j as int),
        decreases needle.len() - j,
    {
        assert(k + j < hay@.len());
        if hay[k + j] != needle[j] {
            assert(hay@.subrange(k as int, k + needle@.len())[j as int] != needle@[j as int]);
            return false;
        }
        j += 1;
        assert(hay@.subrange(k as int, k + j) =~= needle@.take(j as int));
    }
    assert(needle@.take(needle@.len() as int) =~= needle@);
    true
}

/// The first index `k >= from` at which a non-empty `needle` occurs in `hay`.
pub fn find(hay: &Vec<char>, from: usize, needle: &Vec<char>) -> (r: Option<usize>)
    ensures
        match r {
            Some(k) => find_from(hay@, from as int, needle@) == Some(k as int),
            None => find_from(hay@, from as int, needle@) is None,
        },
{
    if needle.len() == 0 {
        return None;
    }
    let mut k = from;
    while k <= hay.len() && needle.len() <= hay.len() - k
        invariant
            needle@.len() > 0,
            from <= k,
            find_from(hay@, from as int, needle@) == find_from(hay@, k as int, needle@),
        decreases hay.len() - k,
    {
        if matches_at(hay, k, needle) {
            return Some(k);
        }
        k += 1;
    }
    None
}

/// Every non-overlapping occurrence of the non-empty `pat` in `s`, found left
/// to right, replaced by `rep`.
pub fn replace_chars(s: &Vec<char>, pat: &Vec<char>, rep: &Vec<char>) -> (out: String)
    requires
        pat@.len() > 0,
    ensures
        out@ == replace_all(s@, pat@, rep@),
{
    let mut out = String::new();
    let mut i: usize = 0;
    while i < s.len()
        invariant
            pat@.len() > 0,
            i <= s@.len(),
            out@ + replace_from(s@, i as int, pat@, rep@) == replace_all(s@, pat@, rep@),
        decreases s.len() - i,
    {
        if matches_at(s, i, pat) {
            let ghost prev = out@;
            push_chars(&mut out, rep);
            proof {
                let rest = replace_from(s@, i + pat@.len(), pat@, rep@);
                assert(replace_from(s@, i as int, pat@, rep@) == rep@ + rest);
                assert(out@ + rest =~= prev + (rep@ + rest));
            }
            i = i + pat.len();
        } else {
            let ghost prev = out@;
            push_char(&mut out, s[i]);
            proof {
                let rest = replace_from(s@, i + 1, pat@, rep@);
                assert(replace_from(s@, i as int, pat@, rep@) == seq![s@[i as int]] + rest);
                assert(out@ + rest =~= prev + (seq![s@[i as int]] + rest));
            }
            i += 1;
        }
    }
    out
}

/// `str::replace` for a non-empty pattern.
pub fn replace_str(s: &str, pat: &str, rep: &str) -> (out: String)
    requires
        pat@.len() > 0,
    ensures
        out@ == replace_all(s@, pat@, rep@),
{
    let sv = chars_of(s);
    let pv = chars_of(pat);
    let rv = chars_of(rep);
    replace_chars(&sv, &pv, &rv)
}

/// The bounds, within `v[from..to]`, of that span with leading and trailing
/// whitespace dropped.
pub fn trim_bounds(v: &Vec<char>, from: usize, to: usize) -> (r: (usize, usize))
    requires
        from <= to <= v@.len(),
    ensures
        from <= r.0 <= r.1 <= to,
        v@.subrange(r.0 as int, r.1 as int) == trim_seq(v@.subrange(from as int, to as int)),
{
    let ghost w = v@.subrange(from as int, to as int);
    let mut i: usize = from;
    while i < to && is_whitespace(v[i])
        invariant
            from <= i <= to <= v@.len(),
            w == v@.subrange(from as int, to as int),
            trim_start_seq(w) == trim_start_seq(v@.subrange(i as int, to as int)),
        decreases to - i,
    {
        assert(v@.subrange(i as int, to as int).drop_first() =~= v@.subrange(i + 1, to as int));
        i += 1;
    }
    let mut j: usize = to;
    while j > i && is_whitespace(v[j - 1])
        invariant
            from <= i <= j <= to <= v@.len(),
            trim_start_seq(w) == v@.subrange(i as int, to as int),
            trim_seq(w) == trim_end_seq(v@.subrange(i as int, j as int)),
        decreases j,
    {
        assert(v@.subrange(i as int, j as int).drop_last() =~= v@.subrange(i as int, j - 1));
        j -= 1;
    }
    (i, j)
}

/// `str::trim`, as a new `String`.
pub fn trim_str(s: &str) -> (out: String)
    ensures
        out@ == trim_seq(s@),
{
    let v = chars_of(s);
    assert(v@.subrange(0, v@.len() as int) =~= v@);
    let (a, b) = trim_bounds(&v, 0, v.len());
    string_from_range(&v, a, b)
}

/// Whether `s` begins with `prefix`.
pub fn starts_with(s: &str, prefix: &str) -> (b: bool)
    ensures
        b == occurs_at(s@, 0, prefix@),
{
    let sv = chars_of(s);
    let pv = chars_of(prefix);
    matches_at(&sv, 0, &pv)
}

/// Whether `needle` occurs anywhere in `s`.
pub fn contains_str(s: &str, needle: &str) -> (b: bool)
    ensures
        b == contains_seq(s@, needle@),
{
    let sv = chars_of(s);
    let nv = chars_of(needle);
    if nv.len() == 0 {
        assert(s@.subrange(0, 0) =~= needle@);
        assert(occurs_at(s@, 0, needle@));
        return true;
    }
    let mut k: usize = 0;
    while k < sv.len()
        invariant
            nv@.len() > 0,
            sv@ == s@,
            nv@ == needle@,
            forall|j: int| 0 <= j < k ==> !occurs_at(sv@, j, nv@),
        decreases sv.len() - k,
    {
        if matches_at(&sv, k, &nv) {
            assert(occurs_at(sv@, k as int, nv@));
            assert(occurs_at(s@, k as int, needle@));
            return true;
        }
        k += 1;
    }
    proof {
        assert forall|j: int| !occurs_at(s@, j, needle@) by {
            if 0 <= j < k {
            } else {
            }
        }
    }
    false
}


/// Whether two strings hold the same characters.
pub fn str_eq(a: &str, b: &str) -> (r: bool)
    ensures
        r == (a@ == b@),
{
    let av = chars_of(a);
    let bv = chars_of(b);
    if av.len() != bv.len() {
        return false;
    }
    let r = matches_at(&av, 0, &bv);
    assert(r ==> av@.subrange(0, bv@.len() as int) =~= av@);
    proof {
        if av@ == bv@ {
            assert(av@.subrange(0, bv@.len() as int) =~= av@);
        }
    }
    r
}

pub fn is_ascii_digit(c: char) -> (b: bool)
    ensures
        b == is_ascii_digit_spec(c),
{
    '0' <= c && c <= '9'
}

pub fn is_ascii_alphabetic(c: char) -> (b: bool)
    ensures
        b == is_ascii_alphabetic_spec(c),
{
    ('a' <= c && c <= 'z') || ('A' <= c && c <= 'Z')
}

pub fn is_ascii_alphanumeric(c: char) -> (b: bool)
    ensures
        b == is_ascii_alphanumeric_spec(c),
{
    is_ascii_alphabetic(c) || is_ascii_digit(c)
}

pub fn is_ascii_hexdigit(c: char) -> (b: bool)
    ensures
        b == is_ascii_hexdigit_spec(c),
{
    is_ascii_digit(c) || ('a' <= c && c <= 'f') || ('A' <= c && c <= 'F')
}

pub fn to_ascii_lower(c: char) -> (r: char)
    ensures
        r == to_ascii_lower_spec(c),
{
    if 'A' <= c && c <= 'Z' {
        let b: u8 = (c as u8) + 32;
        b as char
    } else {
        c
    }
}

pub fn is_whitespace(c: char) -> (b: bool)
    ensures
        b == is_whitespace_spec(c),
{
    let u = c as u32;
    (0x09 <= u && u <= 0x0D) || u == 0x20 || u == 0x85 || u == 0xA0 || u == 0x1680 || (0x2000
        <= u && u <= 0x200A) || u == 0x2028 || u == 0x2029 || u == 0x202F || u == 0x205F || u
        == 0x3000
}

pub fn is_control(c: char) -> (b: bool)
    ensures
        b == is_control_spec(c),
{
    let u = c as u32;
    u <= 0x1F || (0x7F <= u && u <= 0x9F)
}

} // verus!
