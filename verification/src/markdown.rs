//! Memo markdown: rendering through comrak, inline `{{attach:UID}}` /
//! `{{memo:UUID}}` tokens, `#tags` and title excerpts.
use comrak::nodes::NodeValue;
use vstd::prelude::*;

use crate::text::{
    chars_of, find, find_from, is_ascii_alphabetic, is_ascii_alphabetic_spec, is_ascii_alphanumeric,
    is_ascii_alphanumeric_spec, is_ascii_hexdigit, is_ascii_hexdigit_spec, lemma_find_from,
    lower_seq, to_ascii_lower, matches_at, occurs_at, push_char, replace_all, replace_chars,
    str_eq, string_from_range, trim_bounds, trim_seq,
};

verus! {

/// One attachment available for inline substitution.
pub struct InlineAttachment {
    pub uid: String,
    pub filename: String,
    pub is_image: bool,
}

/// One note-to-note link, resolved from a `{{memo:UUID}}` token, ready for inline
/// substitution. `viewable` is false when the target exists but the current viewer
/// may not see it (the title is then withheld and the link renders as a locked chip).
pub struct InlineMemoLink {
    pub uuid: String,
    /// The target note's current short uid, used to build its `/m/{uid}` permalink.
    pub uid: String,
    pub title: String,
    pub viewable: bool,
}

/// An attachment as `(uid, filename, is_image)`.
impl View for InlineAttachment {
    type V = (Seq<char>, Seq<char>, bool);

    open spec fn view(&self) -> (Seq<char>, Seq<char>, bool) {
        (self.uid@, self.filename@, self.is_image)
    }
}

/// A note link as `(uuid, uid, title, viewable)`.
impl View for InlineMemoLink {
    type V = (Seq<char>, Seq<char>, Seq<char>, bool);

    open spec fn view(&self) -> (Seq<char>, Seq<char>, Seq<char>, bool) {
        (self.uuid@, self.uid@, self.title@, self.viewable)
    }
}

pub open spec fn att_views(atts: Seq<InlineAttachment>) -> Seq<(Seq<char>, Seq<char>, bool)> {
    atts.map_values(|a: InlineAttachment| a@)
}

pub open spec fn link_views(links: Seq<InlineMemoLink>) -> Seq<(Seq<char>, Seq<char>, Seq<char>, bool)> {
    links.map_values(|l: InlineMemoLink| l@)
}

// ---------------------------------------------------------------------------
// comrak
// ---------------------------------------------------------------------------

/// The HTML that comrak renders for a markdown text under this library's options.
pub uninterp spec fn markdown_html(content: Seq<char>) -> Seq<char>;

/// The `Text` nodes of comrak's parse of a markdown text, in document order,
/// each with the destination of the nearest link it stands inside, if any.
pub uninterp spec fn markdown_text_nodes(content: Seq<char>) -> Seq<(Seq<char>, Option<Seq<char>>)>;

/// The view of an optional string.
pub open spec fn opt_seq(s: Option<String>) -> Option<Seq<char>> {
    match s {
        Some(t) => Some(t@),
        None => None,
    }
}

/// Whether a text node is a URL written out: the text of a link whose
/// destination is that text itself, or that text behind `http://` (a `www.`
/// autolink) or `mailto:` (an e-mail autolink).
pub open spec fn shows_url(text: Seq<char>, link: Option<Seq<char>>) -> bool {
    link matches Some(u) && (u == text || u == "http://"@ + text || u == "mailto:"@ + text)
}

/// Render memo markdown to sanitized HTML.
///
/// Calls `comrak::markdown_to_html` with GFM tables, task lists, autolinks and
/// strikethrough enabled and its default of leaving raw HTML out of the output
/// (`render.unsafe_` off); the contract names the result and claims nothing
/// else of it.
#[verifier::external_body]
pub fn render(content: &str) -> (html: String)
    ensures
        html@ == markdown_html(content@),
{
    let mut options = comrak::Options::default();
    options.extension.table = true;
    options.extension.tasklist = true;
    options.extension.autolink = true;
    options.extension.strikethrough = true;
    comrak::markdown_to_html(content, &options)
}

/// Parses `content` with `comrak::parse_document` (same options as `render`)
/// and hands out the text of each `NodeValue::Text` node in document order,
/// with the `url` of its nearest `NodeValue::Link` ancestor; the contract
/// names that list and claims nothing else of it.
#[verifier::external_body]
fn text_nodes(content: &str) -> (texts: Vec<(String, Option<String>)>)
    ensures
        texts@.map_values(|t: (String, Option<String>)| (t.0@, opt_seq(t.1)))
            == markdown_text_nodes(content@),
{
    let mut options = comrak::Options::default();
    options.extension.table = true;
    options.extension.tasklist = true;
    options.extension.autolink = true;
    options.extension.strikethrough = true;
    let arena = comrak::Arena::new();
    let root = comrak::parse_document(&arena, content, &options);
    root.descendants().filter_map(|node| match &node.data.borrow().value {
        NodeValue::Text(t) => Some((t.to_string(), node.ancestors().find_map(|a| match &a.data.borrow().value {
            NodeValue::Link(l) => Some(l.url.clone()),
            _ => None,
        }))),
        _ => None,
    }).collect()
}

// ---------------------------------------------------------------------------
// `{{memo:UUID}}` and `{{attach:UID}}` tokens
// ---------------------------------------------------------------------------

/// The characters of a UUIDv4 string produced by `auth::new_uuid`.
pub open spec fn is_uuid_char_spec(c: char) -> bool {
    is_ascii_hexdigit_spec(c) || c == '-'
}

/// The base62 uid characters produced by `auth::new_uid`.
pub open spec fn is_uid_char_spec(c: char) -> bool {
    is_ascii_alphanumeric_spec(c)
}

/// The characters a reference may hold: uuid characters for note links
/// (`memo`), uid characters for attachments.
pub open spec fn ref_char(memo: bool, c: char) -> bool {
    if memo {
        is_uuid_char_spec(c)
    } else {
        is_uid_char_spec(c)
    }
}

pub open spec fn memo_needle() -> Seq<char> {
    seq!['{', '{', 'm', 'e', 'm', 'o', ':']
}

pub open spec fn attach_needle() -> Seq<char> {
    seq!['{', '{', 'a', 't', 't', 'a', 'c', 'h', ':']
}

/// The opening of a reference token: `{{memo:` or `{{attach:`.
pub open spec fn ref_needle(memo: bool) -> Seq<char> {
    if memo {
        memo_needle()
    } else {
        attach_needle()
    }
}

/// End of the run of reference characters that starts at index `k`.
pub open spec fn ref_run_end(s: Seq<char>, k: int, memo: bool) -> int
    decreases s.len() - k,
{
    if 0 <= k < s.len() && ref_char(memo, s[k]) {
        ref_run_end(s, k + 1, memo)
    } else {
        k
    }
}

/// The reference of a token starting at index `p`: the opening, then one or
/// more reference characters, then `}}`.
pub open spec fn ref_at(s: Seq<char>, p: int, memo: bool) -> Option<Seq<char>> {
    let start = p + ref_needle(memo).len();
    let j = ref_run_end(s, start, memo);
    if occurs_at(s, p, ref_needle(memo)) && j > start && j + 1 < s.len() && s[j] == '}' && s[j
        + 1] == '}' {
        Some(s.subrange(start, j))
    } else {
        None
    }
}

/// The references of the tokens that start before index `n`, in order of
/// position, each kept only at its first occurrence.
pub open spec fn refs_upto(s: Seq<char>, n: int, memo: bool) -> Seq<Seq<char>>
    decreases n,
{
    if n <= 0 {
        Seq::empty()
    } else {
        let prev = refs_upto(s, n - 1, memo);
        match ref_at(s, n - 1, memo) {
            Some(r) => if prev.contains(r) {
                prev
            } else {
                prev.push(r)
            },
            None => prev,
        }
    }
}

/// The note uuids referenced by `{{memo:UUID}}` tokens of `s`, in order, without
/// repeats.
pub open spec fn memo_refs(s: Seq<char>) -> Seq<Seq<char>> {
    refs_upto(s, s.len() as int, true)
}

/// The attachment uids referenced by `{{attach:UID}}` tokens of `s`, in order,
/// without repeats.
pub open spec fn attachment_refs(s: Seq<char>) -> Seq<Seq<char>> {
    refs_upto(s, s.len() as int, false)
}

pub open spec fn views(v: Seq<String>) -> Seq<Seq<char>> {
    v.map_values(|x: String| x@)
}

proof fn lemma_refs_stable(s: Seq<char>, memo: bool, a: int, b: int)
    requires
        0 <= a <= b,
        forall|p: int| a <= p < b ==> ref_at(s, p, memo) is None,
    ensures
        refs_upto(s, b, memo) == refs_upto(s, a, memo),
    decreases b - a,
{
    if b > a {
        lemma_refs_stable(s, memo, a, b - 1);
    }
}

proof fn lemma_run_end(s: Seq<char>, k: int, memo: bool)
    requires
        0 <= k,
    ensures
        k <= ref_run_end(s, k, memo) <= if k <= s.len() {
            s.len() as int
        } else {
            k
        },
        forall|t: int| k <= t < ref_run_end(s, k, memo) ==> ref_char(memo, #[trigger] s[t]),
    decreases s.len() - k,
{
    if 0 <= k < s.len() && ref_char(memo, s[k]) {
        lemma_run_end(s, k + 1, memo);
    }
}

/// No token starts strictly inside the opening of a token at `pos`, nor inside
/// the run of reference characters that follows it.
proof fn lemma_no_token_inside(s: Seq<char>, pos: int, memo: bool, j: int)
    requires
        0 <= pos,
        occurs_at(s, pos, ref_needle(memo)),
        pos + ref_needle(memo).len() <= j,
        forall|t: int| pos + ref_needle(memo).len() <= t < j ==> ref_char(memo, #[trigger] s[t]),
    ensures
        forall|q: int| pos < q < j ==> !occurs_at(s, q, ref_needle(memo)),
{
    let n = ref_needle(memo);
    assert forall|q: int| pos < q < j implies !occurs_at(s, q, n) by {
        if occurs_at(s, q, n) {
            assert(s.subrange(q, q + n.len())[0] == n[0]);
            assert(s[q] == '{');
            if q < pos + n.len() {
                let t = q - pos;
                assert(s.subrange(pos, pos + n.len())[t] == n[t]);
                assert(s.subrange(q, q + n.len())[1] == n[1]);
                if t == 1 {
                    assert(s.subrange(pos, pos + n.len())[2] == n[2]);
                    assert(s[q + 1] == n[2]);
                } else {
                    assert(n[t] == '{');
                    if memo {
                        assert(t == 2 || t == 3 || t == 4 || t == 5 || t == 6);
                    } else {
                        assert(t == 2 || t == 3 || t == 4 || t == 5 || t == 6 || t == 7 || t
                            == 8);
                    }
                }
            } else {
                assert(ref_char(memo, s[q]));
            }
        }
    }
}

fn needle_chars(memo: bool) -> (v: Vec<char>)
    ensures
        v@ == ref_needle(memo),
{
    if memo {
        let v = vec!['{', '{', 'm', 'e', 'm', 'o', ':'];
        assert(v@ =~= memo_needle());
        v
    } else {
        let v = vec!['{', '{', 'a', 't', 't', 'a', 'c', 'h', ':'];
        assert(v@ =~= attach_needle());
        v
    }
}

/// True for the base62 uid characters produced by `auth::new_uid`.
fn is_uid_char(c: char) -> (b: bool)
    ensures
        b == is_uid_char_spec(c),
{
    is_ascii_alphanumeric(c)
}

/// True for the characters of a UUIDv4 string produced by `auth::new_uuid`.
fn is_uuid_char(c: char) -> (b: bool)
    ensures
        b == is_uuid_char_spec(c),
{
    is_ascii_hexdigit(c) || c == '-'
}

fn is_ref_char(memo: bool, c: char) -> (b: bool)
    ensures
        b == ref_char(memo, c),
{
    if memo {
        is_uuid_char(c)
    } else {
        is_uid_char(c)
    }
}

/// Whether `v` holds a string equal to `s`.
pub fn contains_string(v: &Vec<String>, s: &String) -> (b: bool)
    ensures
        b == views(v@).contains(s@),
{
    let mut k: usize = 0;
    while k < v.len()
        invariant
            k <= v@.len(),
            forall|t: int| 0 <= t < k ==> v@[t]@ != s@,
        decreases v.len() - k,
    {
        if v[k] == *s {
            assert(views(v@)[k as int] == s@);
            return true;
        }
        k += 1;
    }
    proof {
        if views(v@).contains(s@) {
            let t = choose|t: int| 0 <= t < views(v@).len() && views(v@)[t] == s@;
            assert(v@[t]@ == s@);
        }
    }
    false
}

fn extract_refs(content: &str, memo: bool) -> (out: Vec<String>)
    ensures
        views(out@) == refs_upto(content@, content@.len() as int, memo),
{
    let chars = chars_of(content);
    let needle = needle_chars(memo);
    let ghost s = chars@;
    let mut out: Vec<String> = Vec::new();
    let mut i: usize = 0;
    assert(views(out@) =~= refs_upto(s, 0, memo));
    loop
        invariant
            s == chars@,
            s == content@,
            needle@ == ref_needle(memo),
            i <= s.len(),
            views(out@) == refs_upto(s, i as int, memo),
        ensures
            views(out@) == refs_upto(s, s.len() as int, memo),
        decreases s.len() - i,
    {
        let found = find(&chars, i, &needle);
        proof {
            lemma_find_from(s, i as int, needle@);
        }
        match found {
            None => {
                proof {
                    lemma_refs_stable(s, memo, i as int, s.len() as int);
                }
                break ;
            },
            Some(pos) => {
                assert(occurs_at(s, pos as int, needle@));
                assert(pos + needle.len() <= chars.len());
                let start = pos + needle.len();
                let mut j = start;
                proof {
                    lemma_run_end(s, start as int, memo);
                }
                while j < chars.len() && is_ref_char(memo, chars[j])
                    invariant
                        s == chars@,
                        start <= j <= s.len(),
                        ref_run_end(s, start as int, memo) == ref_run_end(s, j as int, memo),
                        forall|t: int| start <= t < j ==> ref_char(memo, #[trigger] s[t]),
                    decreases s.len() - j,
                {
                    j += 1;
                }
                assert(ref_run_end(s, j as int, memo) == j);
                proof {
                    lemma_refs_stable(s, memo, i as int, pos as int);
                }
                let ghost before = views(out@);
                if j > start && j < chars.len() && j + 1 < chars.len() && chars[j] == '}' && chars[j + 1] == '}' {
                    let r = string_from_range(&chars, start, j);
                    assert(ref_at(s, pos as int, memo) == Some(r@));
                    if !contains_string(&out, &r) {
                        out.push(r);
                        assert(views(out@) =~= before.push(r@));
                    }
                } else {
                    assert(ref_at(s, pos as int, memo) is None);
                }
                assert(views(out@) == refs_upto(s, pos + 1, memo));
                proof {
                    lemma_no_token_inside(s, pos as int, memo, j as int);
                    assert forall|p: int| pos + 1 <= p < j implies ref_at(s, p, memo) is None by {
                        assert(!occurs_at(s, p, ref_needle(memo)));
                    }
                    lemma_refs_stable(s, memo, pos + 1, j as int);
                }
                i = j;
            },
        }
    }
    out
}

/// Collect the note uuids referenced by `{{memo:UUID}}` tokens, in order,
/// de-duplicated. Empty `{{memo}}` placeholders carry no uuid and are ignored.
pub fn extract_memo_refs(content: &str) -> (out: Vec<String>)
    ensures
        views(out@) == memo_refs(content@),
{
    extract_refs(content, true)
}

/// Collect the attachment uids referenced by `{{attach:UID}}` tokens, in order,
/// de-duplicated. Empty `{{attach}}` placeholders carry no uid and are ignored.
pub fn extract_attachment_refs(content: &str) -> (out: Vec<String>)
    ensures
        views(out@) == attachment_refs(content@),
{
    extract_refs(content, false)
}

// ---------------------------------------------------------------------------
// Inline substitution
// ---------------------------------------------------------------------------

/// HTML-escaping of one character.
pub open spec fn escape_char(c: char) -> Seq<char> {
    if c == '&' {
        "&amp;"@
    } else if c == '<' {
        "&lt;"@
    } else if c == '>' {
        "&gt;"@
    } else if c == '"' {
        "&quot;"@
    } else {
        seq![c]
    }
}

/// `s` with `&`, `<`, `>` and `"` replaced by their HTML entities.
pub open spec fn escape_seq(s: Seq<char>) -> Seq<char>
    decreases s.len(),
{
    if s.len() == 0 {
        Seq::empty()
    } else {
        escape_seq(s.drop_last()) + escape_char(s.last())
    }
}

pub open spec fn close_braces() -> Seq<char> {
    seq!['}', '}']
}

pub open spec fn attach_opener() -> Seq<char> {
    seq!['{', '{', 'a', 't', 't', 'a', 'c', 'h']
}

pub open spec fn memo_opener() -> Seq<char> {
    seq!['{', '{', 'm', 'e', 'm', 'o']
}

/// The text that stands in for a leftover note-link token.
pub open spec fn broken_link_html() -> Seq<char> {
    "<span class=\"memo-link memo-link-broken\">\u{26A0} missing note</span>"@
}

/// From index `i` on: each span that starts with `opener` and runs through the
/// next `}}` becomes `rep`; an `opener` with no later `}}` stays as text.
pub open spec fn strip_from(s: Seq<char>, i: int, opener: Seq<char>, rep: Seq<char>) -> Seq<
    char,
>
    decreases s.len() - i,
{
    if i < 0 || i >= s.len() {
        Seq::empty()
    } else if occurs_at(s, i, opener) && find_from(s, i, close_braces()) is Some {
        proof {
            lemma_find_from(s, i, close_braces());
        }
        rep + strip_from(s, find_from(s, i, close_braces())->0 + 2, opener, rep)
    } else {
        seq![s[i]] + strip_from(s, i + 1, opener, rep)
    }
}

/// The number of `{` characters in a text.
pub open spec fn open_braces(s: Seq<char>) -> nat
    decreases s.len(),
{
    if s.len() == 0 {
        0
    } else {
        (if s[0] == '{' {
            1nat
        } else {
            0nat
        }) + open_braces(s.drop_first())
    }
}

/// `opener` occurs at `j` and a `}}` follows it: a closed token starts there.
pub open spec fn closed_token_at(s: Seq<char>, j: int, opener: Seq<char>) -> bool {
    occurs_at(s, j, opener) && find_from(s, j, close_braces()) is Some
}

/// No `opener` in `s` is followed by a `}}`.
pub open spec fn no_closed_token(s: Seq<char>, opener: Seq<char>) -> bool {
    forall|j: int| 0 <= j < s.len() ==> !#[trigger] closed_token_at(s, j, opener)
}

/// Strip passes repeated until one changes nothing: no closed token is left.
pub open spec fn strip_all(s: Seq<char>, opener: Seq<char>, rep: Seq<char>) -> Seq<char>
    decreases open_braces(s),
{
    let t = strip_from(s, 0, opener, rep);
    if open_braces(t) < open_braces(s) {
        strip_all(t, opener, rep)
    } else {
        t
    }
}

/// One pass over both kinds of token: note links, then attachments.
pub open spec fn strip_both_pass(s: Seq<char>) -> Seq<char> {
    strip_from(
        strip_from(s, 0, memo_opener(), broken_link_html()),
        0,
        attach_opener(),
        Seq::empty(),
    )
}

/// Both strips repeated until neither changes anything.
pub open spec fn strip_leftovers(s: Seq<char>) -> Seq<char>
    decreases open_braces(s),
{
    let t = strip_both_pass(s);
    if open_braces(t) < open_braces(s) {
        strip_leftovers(t)
    } else {
        t
    }
}

/// Rendered HTML with every `{{attach...}}` token removed.
pub open spec fn strip_attachment_spec(s: Seq<char>) -> Seq<char> {
    strip_all(s, attach_opener(), Seq::empty())
}

/// Rendered HTML with every `{{memo...}}` token turned into the broken-link
/// placeholder.
pub open spec fn strip_memo_spec(s: Seq<char>) -> Seq<char> {
    strip_all(s, memo_opener(), broken_link_html())
}

proof fn lemma_open_braces_concat(a: Seq<char>, b: Seq<char>)
    ensures
        open_braces(a + b) == open_braces(a) + open_braces(b),
    decreases a.len(),
{
    if a.len() > 0 {
        assert((a + b).drop_first() =~= a.drop_first() + b);
        lemma_open_braces_concat(a.drop_first(), b);
    } else {
        assert(a + b =~= b);
    }
}

proof fn lemma_open_braces_none(s: Seq<char>)
    requires
        forall|i: int| 0 <= i < s.len() ==> s[i] != '{',
    ensures
        open_braces(s) == 0,
    decreases s.len(),
{
    if s.len() > 0 {
        lemma_open_braces_none(s.drop_first());
    }
}

proof fn lemma_broken_link_braces()
    ensures
        open_braces(broken_link_html()) == 0,
{
    reveal_strlit("<span class=\"memo-link memo-link-broken\">\u{26A0} missing note</span>");
    let b = broken_link_html();
    assert forall|i: int| 0 <= i < b.len() implies b[i] != '{' by {
    }
    lemma_open_braces_none(b);
}

/// A strip pass never adds a `{`, and one that removes none changes nothing
/// and found no closed token.
proof fn lemma_strip_pass(s: Seq<char>, i: int, opener: Seq<char>, rep: Seq<char>)
    requires
        0 <= i <= s.len(),
        opener.len() >= 2,
        opener[0] == '{',
        opener[1] == '{',
        open_braces(rep) == 0,
    ensures
        open_braces(strip_from(s, i, opener, rep)) <= open_braces(s.subrange(i, s.len() as int)),
        open_braces(strip_from(s, i, opener, rep)) == open_braces(s.subrange(i, s.len() as int))
            ==> strip_from(s, i, opener, rep) == s.subrange(i, s.len() as int) && forall|j: int|
            i <= j < s.len() ==> !#[trigger] closed_token_at(s, j, opener),
    decreases s.len() - i,
{
    let rest_s = s.subrange(i, s.len() as int);
    if i == s.len() {
        assert(rest_s =~= Seq::<char>::empty());
    } else if closed_token_at(s, i, opener) {
        lemma_find_from(s, i, close_braces());
        let k = find_from(s, i, close_braces())->0;
        lemma_strip_pass(s, k + 2, opener, rep);
        let rest = strip_from(s, k + 2, opener, rep);
        lemma_open_braces_concat(rep, rest);
        let head = s.subrange(i, k + 2);
        let tail = s.subrange(k + 2, s.len() as int);
        assert(rest_s =~= head + tail);
        lemma_open_braces_concat(head, tail);
        assert(head[0] == opener[0]) by {
            assert(s.subrange(i, i + opener.len())[0] == s[i]);
        }
        assert(head[1] == opener[1]) by {
            assert(s.subrange(i, i + opener.len())[1] == s[i + 1]);
        }
        assert(head.len() >= 2);
        assert(head.drop_first()[0] == '{');
        assert(open_braces(head) == 1 + open_braces(head.drop_first()));
        assert(open_braces(head.drop_first()) == 1 + open_braces(head.drop_first().drop_first()));
    } else {
        lemma_strip_pass(s, i + 1, opener, rep);
        let rest = strip_from(s, i + 1, opener, rep);
        lemma_open_braces_concat(seq![s[i]], rest);
        assert(rest_s =~= seq![s[i]] + s.subrange(i + 1, s.len() as int));
        lemma_open_braces_concat(seq![s[i]], s.subrange(i + 1, s.len() as int));
    }
}

/// Repeated stripping leaves no closed token.
proof fn lemma_strip_all(s: Seq<char>, opener: Seq<char>, rep: Seq<char>)
    requires
        opener.len() >= 2,
        opener[0] == '{',
        opener[1] == '{',
        open_braces(rep) == 0,
    ensures
        no_closed_token(strip_all(s, opener, rep), opener),
    decreases open_braces(s),
{
    let t = strip_from(s, 0, opener, rep);
    lemma_strip_pass(s, 0, opener, rep);
    assert(s.subrange(0, s.len() as int) =~= s);
    if open_braces(t) < open_braces(s) {
        lemma_strip_all(t, opener, rep);
    }
}

/// Stripping both kinds of token until nothing changes leaves no closed token
/// of either kind.
pub proof fn lemma_strip_leftovers(s: Seq<char>)
    ensures
        no_closed_token(strip_leftovers(s), memo_opener()),
        no_closed_token(strip_leftovers(s), attach_opener()),
    decreases open_braces(s),
{
    lemma_broken_link_braces();
    assert(open_braces(Seq::<char>::empty()) == 0);
    let m = strip_from(s, 0, memo_opener(), broken_link_html());
    let t = strip_both_pass(s);
    lemma_strip_pass(s, 0, memo_opener(), broken_link_html());
    lemma_strip_pass(m, 0, attach_opener(), Seq::empty());
    assert(s.subrange(0, s.len() as int) =~= s);
    assert(m.subrange(0, m.len() as int) =~= m);
    if open_braces(t) < open_braces(s) {
        lemma_strip_leftovers(t);
    }
}

pub open spec fn attach_token(uid: Seq<char>) -> Seq<char> {
    attach_needle() + uid + close_braces()
}

pub open spec fn memo_token(uuid: Seq<char>) -> Seq<char> {
    memo_needle() + uuid + close_braces()
}

/// The inline HTML of one attachment: an image, or a download chip.
pub open spec fn attachment_html(a: (Seq<char>, Seq<char>, bool)) -> Seq<char> {
    let (uid, filename, is_image) = a;
    if is_image {
        "<a href=\"/r/"@ + uid + "\" target=\"_blank\"><img class=\"inline-attachment\" src=\"/r/"@
            + uid + "\" alt=\""@ + escape_seq(filename) + "\" loading=\"lazy\"></a>"@
    } else {
        "<a class=\"chip\" href=\"/r/"@ + uid + "\" target=\"_blank\">\u{1F4CE} "@ + escape_seq(
            filename,
        ) + "</a>"@
    }
}

/// The inline HTML of one note link: a titled link, or a locked chip.
pub open spec fn memo_link_html(l: (Seq<char>, Seq<char>, Seq<char>, bool)) -> Seq<char> {
    let (uuid, uid, title, viewable) = l;
    if viewable {
        "<a class=\"memo-link\" href=\"/m/"@ + uid + "\">"@ + escape_seq(title) + "</a>"@
    } else {
        "<span class=\"memo-link memo-link-locked\">\u{1F512} note</span>"@
    }
}

/// Each attachment's token replaced by its HTML, in list order.
pub open spec fn apply_attachments(html: Seq<char>, atts: Seq<(Seq<char>, Seq<char>, bool)>) -> Seq<char>
    decreases atts.len(),
{
    if atts.len() == 0 {
        html
    } else {
        replace_all(
            apply_attachments(html, atts.drop_last()),
            attach_token(atts.last().0),
            attachment_html(atts.last()),
        )
    }
}

/// Each link's token replaced by its HTML, in list order.
pub open spec fn apply_memo_links(html: Seq<char>, links: Seq<(Seq<char>, Seq<char>, Seq<char>, bool)>) -> Seq<char>
    decreases links.len(),
{
    if links.len() == 0 {
        html
    } else {
        replace_all(
            apply_memo_links(html, links.drop_last()),
            memo_token(links.last().0),
            memo_link_html(links.last()),
        )
    }
}

pub open spec fn substitute_attachments_spec(html: Seq<char>, atts: Seq<(Seq<char>, Seq<char>, bool)>) -> Seq<
    char,
> {
    strip_attachment_spec(apply_attachments(html, atts))
}

pub open spec fn substitute_memo_links_spec(html: Seq<char>, links: Seq<(Seq<char>, Seq<char>, Seq<char>, bool)>) -> Seq<
    char,
> {
    strip_memo_spec(apply_memo_links(html, links))
}

/// The page HTML of a memo: rendered markdown with attachment tokens, then
/// note-link tokens, substituted, and whatever tokens are left (one carried in
/// by a link title, say) stripped.
pub open spec fn inline_html(
    content: Seq<char>,
    atts: Seq<(Seq<char>, Seq<char>, bool)>,
    links: Seq<(Seq<char>, Seq<char>, Seq<char>, bool)>,
) -> Seq<char> {
    strip_leftovers(
        substitute_memo_links_spec(substitute_attachments_spec(markdown_html(content), atts), links),
    )
}

/// Two lists of note links that agree on everything a reader can see: the
/// same uuids and viewability, and the same target uid and title wherever the
/// target may be viewed.
pub open spec fn same_shown_links(
    l1: Seq<(Seq<char>, Seq<char>, Seq<char>, bool)>,
    l2: Seq<(Seq<char>, Seq<char>, Seq<char>, bool)>,
) -> bool {
    &&& l1.len() == l2.len()
    &&& forall|i: int|
        0 <= i < l1.len() ==> (#[trigger] l1[i]).0 == l2[i].0 && l1[i].3 == l2[i].3 && (l1[i].3
            ==> l1[i].1 == l2[i].1 && l1[i].2 == l2[i].2)
}

proof fn lemma_apply_memo_links_shown(
    html: Seq<char>,
    l1: Seq<(Seq<char>, Seq<char>, Seq<char>, bool)>,
    l2: Seq<(Seq<char>, Seq<char>, Seq<char>, bool)>,
)
    requires
        same_shown_links(l1, l2),
    ensures
        apply_memo_links(html, l1) == apply_memo_links(html, l2),
    decreases l1.len(),
{
    if l1.len() > 0 {
        let n = l1.len() - 1;
        assert(l1[n].0 == l2[n].0);
        assert(same_shown_links(l1.drop_last(), l2.drop_last())) by {
            assert forall|i: int| 0 <= i < l1.drop_last().len() implies (#[trigger] l1.drop_last()[i]).0
                == l2.drop_last()[i].0 && l1.drop_last()[i].3 == l2.drop_last()[i].3 && (
            l1.drop_last()[i].3 ==> l1.drop_last()[i].1 == l2.drop_last()[i].1
                && l1.drop_last()[i].2 == l2.drop_last()[i].2) by {
                assert(l1[i].0 == l2[i].0);
            }
        }
        lemma_apply_memo_links_shown(html, l1.drop_last(), l2.drop_last());
        assert(memo_link_html(l1.last()) == memo_link_html(l2.last()));
    }
}

/// A note link's target uid and title reach the HTML only where the viewer may
/// see the target: links that agree on what a reader can see render the same.
pub proof fn lemma_locked_links_render_alike(
    content: Seq<char>,
    atts: Seq<(Seq<char>, Seq<char>, bool)>,
    l1: Seq<(Seq<char>, Seq<char>, Seq<char>, bool)>,
    l2: Seq<(Seq<char>, Seq<char>, Seq<char>, bool)>,
)
    requires
        same_shown_links(l1, l2),
    ensures
        inline_html(content, atts, l1) == inline_html(content, atts, l2),
{
    lemma_apply_memo_links_shown(substitute_attachments_spec(markdown_html(content), atts), l1, l2);
}

pub fn escape_html(s: &str) -> (out: String)
    ensures
        out@ == escape_seq(s@),
{
    let mut out = String::new();
    for c in it: s.chars()
        invariant
            it.seq() == s@,
            out@ == escape_seq(it.seq().take(it.index() as int)),
    {
        let ghost prev = out@;
        if c == '&' {
            out.append("&amp;");
        } else if c == '<' {
            out.append("&lt;");
        } else if c == '>' {
            out.append("&gt;");
        } else if c == '"' {
            out.append("&quot;");
        } else {
            push_char(&mut out, c);
        }
        proof {
            let t = it.seq().take(it.index() + 1);
            assert(t.drop_last() =~= it.seq().take(it.index() as int));
            assert(t.last() == c);
            assert(out@ == prev + escape_char(c));
        }
    }
    assert(s@.take(s@.len() as int) =~= s@);
    out
}

fn brace_chars() -> (v: Vec<char>)
    ensures
        v@ == close_braces(),
{
    let v = vec!['}', '}'];
    assert(v@ =~= close_braces());
    v
}

fn opener_chars(memo: bool) -> (v: Vec<char>)
    ensures
        v@ == (if memo {
            memo_opener()
        } else {
            attach_opener()
        }),
{
    if memo {
        let v = vec!['{', '{', 'm', 'e', 'm', 'o'];
        assert(v@ =~= memo_opener());
        v
    } else {
        let v = vec!['{', '{', 'a', 't', 't', 'a', 'c', 'h'];
        assert(v@ =~= attach_opener());
        v
    }
}

/// Replace each span from `opener` through the next `}}` by `rep`.
fn strip_tokens(html: &str, memo: bool, rep: &str) -> (out: String)
    ensures
        out@ == strip_from(
            html@,
            0,
            if memo {
                memo_opener()
            } else {
                attach_opener()
            },
            rep@,
        ),
{
    let chars = chars_of(html);
    let opener = opener_chars(memo);
    let close = brace_chars();
    let ghost s = chars@;
    let mut out = String::new();
    let mut i: usize = 0;
    while i < chars.len()
        invariant
            s == chars@,
            opener@ == (if memo {
                memo_opener()
            } else {
                attach_opener()
            }),
            close@ == close_braces(),
            i <= s.len(),
            out@ + strip_from(s, i as int, opener@, rep@) == strip_from(s, 0, opener@, rep@),
        decreases s.len() - i,
    {
        let ghost prev = out@;
        if matches_at(&chars, i, &opener) {
            let f = find(&chars, i, &close);
            proof {
                lemma_find_from(s, i as int, close@);
            }
            if let Some(k) = f {
                out.append(rep);
                proof {
                    let rest = strip_from(s, k + 2, opener@, rep@);
                    assert(strip_from(s, i as int, opener@, rep@) == rep@ + rest);
                    assert(out@ + rest =~= prev + (rep@ + rest));
                }
                i = k + 2;
                continue ;
            }
        }
        push_char(&mut out, chars[i]);
        proof {
            let rest = strip_from(s, i + 1, opener@, rep@);
            assert(strip_from(s, i as int, opener@, rep@) == seq![s[i as int]] + rest);
            assert(out@ + rest =~= prev + (seq![s[i as int]] + rest));
        }
        i += 1;
    }
    out
}

/// Strip passes repeated until one changes nothing.
fn strip_tokens_all(html: &str, memo: bool, rep: &str) -> (out: String)
    requires
        open_braces(rep@) == 0,
    ensures
        out@ == strip_all(
            html@,
            if memo {
                memo_opener()
            } else {
                attach_opener()
            },
            rep@,
        ),
{
    let ghost opener = if memo {
        memo_opener()
    } else {
        attach_opener()
    };
    let mut cur = String::from_str(html);
    loop
        invariant
            open_braces(rep@) == 0,
            opener == (if memo {
                memo_opener()
            } else {
                attach_opener()
            }),
            strip_all(cur@, opener, rep@) == strip_all(html@, opener, rep@),
        decreases open_braces(cur@),
    {
        let t = strip_tokens(cur.as_str(), memo, rep);
        proof {
            lemma_strip_pass(cur@, 0, opener, rep@);
            assert(cur@.subrange(0, cur@.len() as int) =~= cur@);
        }
        if str_eq(t.as_str(), cur.as_str()) {
            return t;
        }
        cur = t;
    }
}

/// Remove any remaining `{{attach:...}}` or `{{attach}}` tokens from rendered
/// HTML, pass after pass, so that none closed by `}}` is left.
fn strip_attachment_tokens(html: &str) -> (out: String)
    ensures
        out@ == strip_attachment_spec(html@),
        no_closed_token(out@, attach_opener()),
{
    proof {
        reveal_strlit("");
        assert(""@ =~= Seq::<char>::empty());
        assert(open_braces(Seq::<char>::empty()) == 0);
        lemma_strip_all(html@, attach_opener(), Seq::empty());
    }
    strip_tokens_all(html, false, "")
}

/// Replace any remaining `{{memo:...}}` or `{{memo}}` tokens in rendered HTML with
/// a broken-link placeholder (the target was deleted or isn't the author's
/// note), pass after pass, so that none closed by `}}` is left.
fn strip_memo_tokens(html: &str) -> (out: String)
    ensures
        out@ == strip_memo_spec(html@),
        no_closed_token(out@, memo_opener()),
{
    proof {
        lemma_broken_link_braces();
        lemma_strip_all(html@, memo_opener(), broken_link_html());
    }
    strip_tokens_all(
        html,
        true,
        "<span class=\"memo-link memo-link-broken\">\u{26A0} missing note</span>",
    )
}

/// Leftover tokens of both kinds stripped, pass after pass, until neither kind
/// closed by `}}` is left.
fn strip_leftover_tokens(html: String) -> (out: String)
    ensures
        out@ == strip_leftovers(html@),
{
    let mut cur = html;
    loop
        invariant
            strip_leftovers(cur@) == strip_leftovers(html@),
        decreases open_braces(cur@),
    {
        let m = strip_tokens(
            cur.as_str(),
            true,
            "<span class=\"memo-link memo-link-broken\">\u{26A0} missing note</span>",
        );
        let t = strip_tokens(m.as_str(), false, "");
        proof {
            reveal_strlit("");
            lemma_broken_link_braces();
            assert(open_braces(Seq::<char>::empty()) == 0);
            lemma_strip_pass(cur@, 0, memo_opener(), broken_link_html());
            lemma_strip_pass(m@, 0, attach_opener(), ""@);
            assert(cur@.subrange(0, cur@.len() as int) =~= cur@);
            assert(m@.subrange(0, m@.len() as int) =~= m@);
            assert(""@ =~= Seq::<char>::empty());
            assert(t@ == strip_both_pass(cur@));
        }
        if str_eq(t.as_str(), cur.as_str()) {
            return t;
        }
        cur = t;
    }
}

fn attachment_html_of(a: &InlineAttachment) -> (out: String)
    ensures
        out@ == attachment_html(a@),
{
    let name = escape_html(a.filename.as_str());
    let mut out = String::new();
    if a.is_image {
        out.append("<a href=\"/r/");
        out.append(a.uid.as_str());
        out.append("\" target=\"_blank\"><img class=\"inline-attachment\" src=\"/r/");
        out.append(a.uid.as_str());
        out.append("\" alt=\"");
        out.append(name.as_str());
        out.append("\" loading=\"lazy\"></a>");
    } else {
        out.append("<a class=\"chip\" href=\"/r/");
        out.append(a.uid.as_str());
        out.append("\" target=\"_blank\">\u{1F4CE} ");
        out.append(name.as_str());
        out.append("</a>");
    }
    out
}

fn memo_link_html_of(l: &InlineMemoLink) -> (out: String)
    ensures
        out@ == memo_link_html(l@),
{
    let mut out = String::new();
    if l.viewable {
        let title = escape_html(l.title.as_str());
        out.append("<a class=\"memo-link\" href=\"/m/");
        out.append(l.uid.as_str());
        out.append("\">");
        out.append(title.as_str());
        out.append("</a>");
    } else {
        out.append("<span class=\"memo-link memo-link-locked\">\u{1F512} note</span>");
    }
    out
}

/// The characters of a reference token around `r`.
fn token_chars(memo: bool, r: &String) -> (v: Vec<char>)
    ensures
        v@ == ref_needle(memo) + r@ + close_braces(),
{
    let mut v = needle_chars(memo);
    let rc = chars_of(r.as_str());
    let mut k: usize = 0;
    while k < rc.len()
        invariant
            k <= rc@.len(),
            v@ == ref_needle(memo) + rc@.take(k as int),
        decreases rc.len() - k,
    {
        v.push(rc[k]);
        k += 1;
        assert(v@ =~= ref_needle(memo) + rc@.take(k as int));
    }
    v.push('}');
    v.push('}');
    assert(rc@.take(rc@.len() as int) =~= rc@);
    assert(v@ =~= ref_needle(memo) + r@ + close_braces());
    v
}

/// Replace `{{attach:UID}}` tokens (images inline, other files as download chips),
/// then strip any leftover attachment tokens.
pub fn substitute_attachments(html: String, atts: &[InlineAttachment]) -> (out: String)
    ensures
        out@ == substitute_attachments_spec(html@, att_views(atts@)),
        no_closed_token(out@, attach_opener()),
{
    let mut html = html;
    let ghost orig = html@;
    let mut k: usize = 0;
    while k < atts.len()
        invariant
            k <= atts@.len(),
            html@ == apply_attachments(orig, att_views(atts@.take(k as int))),
        decreases atts.len() - k,
    {
        let a = &atts[k];
        let token = token_chars(false, &a.uid);
        let rep = attachment_html_of(a);
        let repc = chars_of(rep.as_str());
        let cur = chars_of(html.as_str());
        html = replace_chars(&cur, &token, &repc);
        proof {
            let t = att_views(atts@.take(k + 1));
            assert(t.drop_last() =~= att_views(atts@.take(k as int)));
            assert(t.last() == atts@[k as int]@);
            assert(token@ == attach_token(a.uid@));
        }
        k += 1;
    }
    assert(atts@.take(atts@.len() as int) =~= atts@);
    assert(att_views(atts@.take(atts@.len() as int)) =~= att_views(atts@));
    strip_attachment_tokens(html.as_str())
}

/// Replace `{{memo:UUID}}` tokens with note-link chips, then turn any leftover
/// (unresolvable — deleted, or another user's note) memo tokens into a broken-link
/// placeholder so they never show as raw text.
pub fn substitute_memo_links(html: String, links: &[InlineMemoLink]) -> (out: String)
    ensures
        out@ == substitute_memo_links_spec(html@, link_views(links@)),
        no_closed_token(out@, memo_opener()),
{
    let mut html = html;
    let ghost orig = html@;
    let mut k: usize = 0;
    while k < links.len()
        invariant
            k <= links@.len(),
            html@ == apply_memo_links(orig, link_views(links@.take(k as int))),
        decreases links.len() - k,
    {
        let l = &links[k];
        let token = token_chars(true, &l.uuid);
        let rep = memo_link_html_of(l);
        let repc = chars_of(rep.as_str());
        let cur = chars_of(html.as_str());
        html = replace_chars(&cur, &token, &repc);
        proof {
            let t = link_views(links@.take(k + 1));
            assert(t.drop_last() =~= link_views(links@.take(k as int)));
            assert(t.last() == links@[k as int]@);
            assert(token@ == memo_token(l.uuid@));
        }
        k += 1;
    }
    assert(links@.take(links@.len() as int) =~= links@);
    assert(link_views(links@.take(links@.len() as int)) =~= link_views(links@));
    strip_memo_tokens(html.as_str())
}

/// Render memo markdown, then substitute both attachment (`{{attach:UID}}`) and
/// note-link (`{{memo:UUID}}`) tokens with their inline HTML. Only tokens present
/// in `atts` / `links` are substituted; any leftover tokens are stripped (pass
/// after pass, until none closed by `}}` is left) so stray or in-flight
/// placeholders never show as raw text.
pub fn render_with_inlines(content: &str, atts: &[InlineAttachment], links: &[InlineMemoLink]) -> (out: String)
    ensures
        out@ == inline_html(content@, att_views(atts@), link_views(links@)),
        no_closed_token(out@, attach_opener()),
        no_closed_token(out@, memo_opener()),
{
    let html = substitute_attachments(render(content), atts);
    let html = substitute_memo_links(html, links);
    proof {
        lemma_strip_leftovers(html@);
    }
    strip_leftover_tokens(html)
}

/// Render with only attachment tokens substituted (no note links).
pub fn render_with_attachments(content: &str, atts: &[InlineAttachment]) -> (out: String)
    ensures
        out@ == inline_html(content@, att_views(atts@), Seq::empty()),
        no_closed_token(out@, attach_opener()),
        no_closed_token(out@, memo_opener()),
{
    let none: Vec<InlineMemoLink> = Vec::new();
    assert(link_views(none@) =~= Seq::empty());
    render_with_inlines(content, atts, none.as_slice())
}

// ---------------------------------------------------------------------------
// #tags
// ---------------------------------------------------------------------------

pub open spec fn is_tag_char_spec(c: char) -> bool {
    is_ascii_alphanumeric_spec(c) || c == '_' || c == '-' || c == '/'
}

/// End of the run of tag characters that starts at index `k`.
pub open spec fn tag_run_end(s: Seq<char>, k: int) -> int
    decreases s.len() - k,
{
    if 0 <= k < s.len() && is_tag_char_spec(s[k]) {
        tag_run_end(s, k + 1)
    } else {
        k
    }
}

/// The tag written at index `i` of a text: a `#` that does not follow a tag
/// character or another `#`, then a run of tag characters holding at least one
/// ASCII letter; the tag is that run, lowercased.
pub open spec fn tag_at(s: Seq<char>, i: int) -> Option<Seq<char>> {
    let j = tag_run_end(s, i + 1);
    let cand = s.subrange(i + 1, j);
    if 0 <= i < s.len() && s[i] == '#' && (i == 0 || (!is_tag_char_spec(s[i - 1]) && s[i - 1]
        != '#')) && cand.len() > 0 && exists|t: int|
        0 <= t < cand.len() && is_ascii_alphabetic_spec(#[trigger] cand[t]) {
        Some(lower_seq(cand))
    } else {
        None
    }
}

/// The tags written before index `n` of a text.
pub open spec fn tags_before(s: Seq<char>, n: int) -> Set<Seq<char>> {
    Set::new(|t: Seq<char>| exists|p: int| 0 <= p < n && #[trigger] tag_at(s, p) == Some(t))
}

/// All tags written in a text.
pub open spec fn tags_in(s: Seq<char>) -> Set<Seq<char>> {
    tags_before(s, s.len() as int)
}

/// The tags of the text nodes that are not a URL written out.
pub open spec fn tags_of_texts(texts: Seq<(Seq<char>, Option<Seq<char>>)>) -> Set<Seq<char>> {
    Set::new(
        |t: Seq<char>|
            exists|k: int|
                0 <= k < texts.len() && !shows_url(texts[k].0, texts[k].1) && #[trigger] tags_in(
                    texts[k].0,
                ).contains(t),
    )
}

/// Lexicographic order of character sequences (the order of `String`).
pub open spec fn seq_lt(a: Seq<char>, b: Seq<char>) -> bool
    decreases a.len(),
{
    if a.len() == 0 {
        b.len() > 0
    } else if b.len() == 0 {
        false
    } else if a[0] < b[0] {
        true
    } else if a[0] == b[0] {
        seq_lt(a.drop_first(), b.drop_first())
    } else {
        false
    }
}

/// Strictly increasing, hence also free of repeats.
pub open spec fn sorted_strict(v: Seq<Seq<char>>) -> bool {
    forall|i: int, j: int| 0 <= i < j < v.len() ==> seq_lt(#[trigger] v[i], #[trigger] v[j])
}

proof fn lemma_seq_lt_trans(a: Seq<char>, b: Seq<char>, c: Seq<char>)
    requires
        seq_lt(a, b),
        seq_lt(b, c),
    ensures
        seq_lt(a, c),
    decreases a.len(),
{
    if a.len() > 0 && b.len() > 0 && c.len() > 0 && a[0] == b[0] && b[0] == c[0] {
        lemma_seq_lt_trans(a.drop_first(), b.drop_first(), c.drop_first());
    }
}

proof fn lemma_seq_lt_total(a: Seq<char>, b: Seq<char>)
    ensures
        seq_lt(a, b) || seq_lt(b, a) || a == b,
    decreases a.len(),
{
    if a.len() > 0 && b.len() > 0 && a[0] == b[0] {
        lemma_seq_lt_total(a.drop_first(), b.drop_first());
        if a.drop_first() == b.drop_first() {
            assert(a =~= seq![a[0]] + a.drop_first());
            assert(b =~= seq![b[0]] + b.drop_first());
        }
    } else if a.len() == 0 && b.len() == 0 {
        assert(a =~= b);
    }
}

fn seq_less(a: &Vec<char>, b: &Vec<char>) -> (r: bool)
    ensures
        r == seq_lt(a@, b@),
{
    let mut k: usize = 0;
    assert(a@.skip(0) =~= a@);
    assert(b@.skip(0) =~= b@);
    while k < a.len() && k < b.len() && a[k] == b[k]
        invariant
            k <= a@.len(),
            k <= b@.len(),
            seq_lt(a@, b@) == seq_lt(a@.skip(k as int), b@.skip(k as int)),
        decreases a.len() - k,
    {
        assert(a@.skip(k as int).drop_first() =~= a@.skip(k + 1));
        assert(b@.skip(k as int).drop_first() =~= b@.skip(k + 1));
        k += 1;
    }
    if k == a.len() {
        k < b.len()
    } else if k == b.len() {
        false
    } else {
        a[k] < b[k]
    }
}

/// Insert `t` into the strictly sorted `tags`, unless it is already there.
fn insert_sorted(tags: &mut Vec<String>, t: String)
    requires
        sorted_strict(views(old(tags)@)),
    ensures
        sorted_strict(views(final(tags)@)),
        views(final(tags)@).to_set() == views(old(tags)@).to_set().insert(t@),
{
    let tc = chars_of(t.as_str());
    let mut p: usize = 0;
    while p < tags.len()
        invariant
            p <= tags@.len(),
            tc@ == t@,
            forall|q: int| 0 <= q < p ==> seq_lt(#[trigger] tags@[q]@, t@),
        ensures
            p <= tags@.len(),
            forall|q: int| 0 <= q < p ==> seq_lt(#[trigger] tags@[q]@, t@),
            p < tags@.len() ==> !seq_lt(tags@[p as int]@, t@),
        decreases tags.len() - p,
    {
        let cur = chars_of(tags[p].as_str());
        if !seq_less(&cur, &tc) {
            break;
        }
        p += 1;
    }
    let ghost old_v = views(tags@);
    if p < tags.len() && tags[p] == t {
        assert(old_v.to_set().insert(t@) =~= old_v.to_set()) by {
            assert(old_v[p as int] == t@);
        }
        return ;
    }
    proof {
        if p < tags@.len() {
            lemma_seq_lt_total(tags@[p as int]@, t@);
        }
    }
    tags.insert(p, t);
    let ghost new_v = views(tags@);
    proof {
        assert(new_v =~= old_v.insert(p as int, t@));
        assert forall|i: int, j: int| 0 <= i < j < new_v.len() implies seq_lt(
            #[trigger] new_v[i],
            #[trigger] new_v[j],
        ) by {
            if j < p {
            } else if j == p {
            } else if i == p {
                assert(seq_lt(t@, old_v[p as int]));
                if j - 1 > p {
                    lemma_seq_lt_trans(t@, old_v[p as int], old_v[j - 1]);
                }
            } else if i < p {
                assert(seq_lt(old_v[i], t@));
                assert(seq_lt(t@, old_v[p as int]));
                lemma_seq_lt_trans(old_v[i], t@, old_v[p as int]);
                if j - 1 > p {
                    lemma_seq_lt_trans(old_v[i], old_v[p as int], old_v[j - 1]);
                }
            } else {
                assert(new_v[i] == old_v[i - 1]);
                assert(new_v[j] == old_v[j - 1]);
            }
        }
        assert forall|x: Seq<char>| new_v.to_set().contains(x) <==> old_v.to_set().insert(
            t@,
        ).contains(x) by {
            if new_v.contains(x) {
                let k = choose|k: int| 0 <= k < new_v.len() && new_v[k] == x;
                if k < p {
                    assert(old_v[k] == x);
                } else if k > p {
                    assert(old_v[k - 1] == x);
                }
            }
            if old_v.contains(x) {
                let k = choose|k: int| 0 <= k < old_v.len() && old_v[k] == x;
                if k < p {
                    assert(new_v[k] == x);
                } else {
                    assert(new_v[k + 1] == x);
                }
            }
            if x == t@ {
                assert(new_v[p as int] == x);
            }
        }
        assert(new_v.to_set() =~= old_v.to_set().insert(t@));
    }
}

fn is_tag_char(c: char) -> (b: bool)
    ensures
        b == is_tag_char_spec(c),
{
    is_ascii_alphanumeric(c) || c == '_' || c == '-' || c == '/'
}

/// `v[from..to]` lowercased, as a `String`.
fn lowered(v: &Vec<char>, from: usize, to: usize) -> (out: String)
    requires
        from <= to <= v@.len(),
    ensures
        out@ == lower_seq(v@.subrange(from as int, to as int)),
{
    let mut out = String::new();
    let mut k = from;
    while k < to
        invariant
            from <= k <= to <= v@.len(),
            out@ == lower_seq(v@.subrange(from as int, k as int)),
        decreases to - k,
    {
        push_char(&mut out, to_ascii_lower(v[k]));
        k += 1;
        assert(out@ =~= lower_seq(v@.subrange(from as int, k as int)));
    }
    out
}

fn has_letter(v: &Vec<char>, from: usize, to: usize) -> (b: bool)
    requires
        from <= to <= v@.len(),
    ensures
        b == exists|t: int|
            0 <= t < to - from && is_ascii_alphabetic_spec(
                #[trigger] v@.subrange(from as int, to as int)[t],
            ),
{
    let mut k = from;
    while k < to
        invariant
            from <= k <= to <= v@.len(),
            forall|t: int| from <= t < k ==> !is_ascii_alphabetic_spec(#[trigger] v@[t]),
        decreases to - k,
    {
        if is_ascii_alphabetic(v[k]) {
            assert(v@.subrange(from as int, to as int)[k - from] == v@[k as int]);
            return true;
        }
        k += 1;
    }
    proof {
        assert forall|t: int| 0 <= t < to - from implies !is_ascii_alphabetic_spec(
            #[trigger] v@.subrange(from as int, to as int)[t],
        ) by {
            assert(v@.subrange(from as int, to as int)[t] == v@[from + t]);
        }
    }
    false
}

proof fn lemma_tag_run_end(s: Seq<char>, k: int)
    requires
        0 <= k,
    ensures
        k <= tag_run_end(s, k),
        k <= s.len() ==> tag_run_end(s, k) <= s.len(),
        forall|t: int| k <= t < tag_run_end(s, k) ==> is_tag_char_spec(#[trigger] s[t]),
    decreases s.len() - k,
{
    if 0 <= k < s.len() && is_tag_char_spec(s[k]) {
        lemma_tag_run_end(s, k + 1);
    }
}

/// A tag character as a plain predicate: an ASCII letter or digit, `_`, `-`
/// or `/`.
proof fn lemma_tag_char_is(c: char)
    ensures
        is_tag_char_spec(c) <==> ('a' <= c <= 'z' || 'A' <= c <= 'Z' || '0' <= c <= '9' || c == '_'
            || c == '-' || c == '/'),
{
}

proof fn lemma_tag_run_stops(s: Seq<char>, k: int)
    requires
        0 <= k <= s.len(),
    ensures
        tag_run_end(s, k) == s.len() || !is_tag_char_spec(s[tag_run_end(s, k)]),
    decreases s.len() - k,
{
    if k < s.len() && is_tag_char_spec(s[k]) {
        lemma_tag_run_stops(s, k + 1);
    }
}

proof fn lemma_run_reaches(s: Seq<char>, k: int, j: int)
    requires
        0 <= k <= j <= s.len(),
        forall|q: int| k <= q < j ==> is_tag_char_spec(#[trigger] s[q]),
        j == s.len() || !is_tag_char_spec(s[j]),
    ensures
        tag_run_end(s, k) == j,
    decreases j - k,
{
    if k < j {
        lemma_run_reaches(s, k + 1, j);
    }
}

/// A character that may stand in a tag: an ASCII letter or digit, `_`, `-`
/// or `/`.
pub open spec fn in_tag(c: char) -> bool {
    'a' <= c <= 'z' || 'A' <= c <= 'Z' || '0' <= c <= '9' || c == '_' || c == '-' || c == '/'
}

/// `s[i]` is a `#` that starts a word (at the start of the text, or after a
/// character that is neither a tag character nor `#`), `s[i + 1..j]` is a
/// whole run of tag characters, and an ASCII letter stands somewhere in it.
pub open spec fn hash_run(s: Seq<char>, i: int, j: int) -> bool {
    &&& 0 <= i < j <= s.len()
    &&& s[i] == '#'
    &&& i == 0 || !(in_tag(s[i - 1]) || s[i - 1] == '#')
    &&& forall|q: int| i < q < j ==> in_tag(#[trigger] s[q])
    &&& j == s.len() || !in_tag(s[j])
    &&& exists|q: int| i < q < j && ('a' <= #[trigger] s[q] <= 'z' || 'A' <= s[q] <= 'Z')
}

/// `s[i + 1..j]` with its ASCII capitals made small.
pub open spec fn run_lowered(s: Seq<char>, i: int, j: int) -> Seq<char> {
    Seq::new(
        (j - i - 1) as nat,
        |q: int|
            if 'A' <= s[i + 1 + q] <= 'Z' {
                ((s[i + 1 + q] as u32) + 32) as char
            } else {
                s[i + 1 + q]
            },
    )
}

/// Every `#` that starts a word followed by a whole run of tag characters
/// (ASCII letters and digits, `_`, `-`, `/`) yields that run, lowercased, as
/// a tag, as long as the run holds an ASCII letter somewhere, not necessarily
/// first: `#100daysofcode` is the tag `100daysofcode`.
pub proof fn lemma_hash_run_is_tag(s: Seq<char>, i: int, j: int)
    requires
        hash_run(s, i, j),
    ensures
        tags_in(s).contains(run_lowered(s, i, j)),
{
    assert forall|q: int| i + 1 <= q < j implies is_tag_char_spec(#[trigger] s[q]) by {
        assert(in_tag(s[q]));
        lemma_tag_char_is(s[q]);
    }
    if j < s.len() {
        lemma_tag_char_is(s[j]);
    }
    if i > 0 {
        lemma_tag_char_is(s[i - 1]);
    }
    lemma_run_reaches(s, i + 1, j);
    let cand = s.subrange(i + 1, j);
    let letter = choose|q: int| i < q < j && ('a' <= #[trigger] s[q] <= 'z' || 'A' <= s[q] <= 'Z');
    assert(cand[letter - i - 1] == s[letter]);
    assert(is_ascii_alphabetic_spec(cand[letter - i - 1]));
    assert(lower_seq(cand) =~= run_lowered(s, i, j));
    assert(tag_at(s, i) == Some(run_lowered(s, i, j)));
    assert(tags_before(s, s.len() as int).contains(run_lowered(s, i, j)));
}

/// Nothing else is a tag: each tag of a text is such a run, lowercased. A
/// `#` inside a word or after another `#`, a run without a letter (`#123`),
/// and part of a run never give one.
pub proof fn lemma_tags_are_hash_runs(s: Seq<char>, t: Seq<char>)
    requires
        tags_in(s).contains(t),
    ensures
        exists|i: int, j: int| hash_run(s, i, j) && t == run_lowered(s, i, j),
{
    let i = choose|p: int| 0 <= p < s.len() && #[trigger] tag_at(s, p) == Some(t);
    let j = tag_run_end(s, i + 1);
    lemma_tag_run_end(s, i + 1);
    lemma_tag_run_stops(s, i + 1);
    let cand = s.subrange(i + 1, j);
    assert forall|q: int| i < q < j implies in_tag(#[trigger] s[q]) by {
        lemma_tag_char_is(s[q]);
    }
    if j < s.len() {
        lemma_tag_char_is(s[j]);
    }
    if i > 0 {
        lemma_tag_char_is(s[i - 1]);
    }
    let k = choose|k: int| 0 <= k < cand.len() && is_ascii_alphabetic_spec(#[trigger] cand[k]);
    assert(cand[k] == s[i + 1 + k]);
    assert(i < i + 1 + k < j && ('a' <= s[i + 1 + k] <= 'z' || 'A' <= s[i + 1 + k] <= 'Z'));
    assert(hash_run(s, i, j));
    assert(lower_seq(cand) =~= run_lowered(s, i, j));
}

/// Add the tags written in `text` to the sorted, repeat-free `tags`.
pub fn collect_tags(text: &str, tags: &mut Vec<String>)
    requires
        sorted_strict(views(old(tags)@)),
    ensures
        sorted_strict(views(final(tags)@)),
        views(final(tags)@).to_set() == views(old(tags)@).to_set().union(tags_in(text@)),
{
    let v = chars_of(text);
    let ghost s = v@;
    let ghost base = views(tags@).to_set();
    let mut i: usize = 0;
    assert(tags_before(s, 0) =~= Set::<Seq<char>>::empty());
    assert(base.union(tags_before(s, 0)) =~= base);
    while i < v.len()
        invariant
            s == v@,
            s == text@,
            i <= s.len(),
            sorted_strict(views(tags@)),
            views(tags@).to_set() == base.union(tags_before(s, i as int)),
        decreases s.len() - i,
    {
        if v[i] == '#' {
            let starts = i == 0 || (!is_tag_char(v[i - 1]) && v[i - 1] != '#');
            let mut j = i + 1;
            proof {
                lemma_tag_run_end(s, i + 1);
            }
            while j < v.len() && is_tag_char(v[j])
                invariant
                    s == v@,
                    i + 1 <= j <= s.len(),
                    tag_run_end(s, i + 1) == tag_run_end(s, j as int),
                decreases s.len() - j,
            {
                j += 1;
            }
            assert(tag_run_end(s, j as int) == j);
            let ghost prev = views(tags@).to_set();
            if starts && j > i + 1 && has_letter(&v, i + 1, j) {
                let t = lowered(&v, i + 1, j);
                assert(tag_at(s, i as int) == Some(t@));
                insert_sorted(tags, t);
            } else {
                assert(tag_at(s, i as int) is None);
            }
            proof {
                assert forall|p: int| i < p < j implies tag_at(s, p) is None by {
                    assert(is_tag_char_spec(s[p]));
                }
                assert forall|x: Seq<char>| views(tags@).to_set().contains(x) <==> base.union(
                    tags_before(s, j as int),
                ).contains(x) by {
                    if tags_before(s, j as int).contains(x) {
                        let p = choose|p: int| 0 <= p < j && #[trigger] tag_at(s, p) == Some(x);
                        if p < i {
                            assert(tags_before(s, i as int).contains(x));
                        }
                    }
                    if tags_before(s, i as int).contains(x) {
                        let p = choose|p: int| 0 <= p < i && #[trigger] tag_at(s, p) == Some(x);
                        assert(tags_before(s, j as int).contains(x));
                    }
                    if tag_at(s, i as int) == Some(x) {
                        assert(tags_before(s, j as int).contains(x));
                    }
                }
                assert(views(tags@).to_set() =~= base.union(tags_before(s, j as int)));
            }
            i = j;
        } else {
            proof {
                assert(tag_at(s, i as int) is None);
                assert forall|x: Seq<char>| tags_before(s, i + 1).contains(x) <==> tags_before(
                    s,
                    i as int,
                ).contains(x) by {
                    if tags_before(s, i + 1).contains(x) {
                        let p = choose|p: int| 0 <= p < i + 1 && #[trigger] tag_at(s, p) == Some(
                            x,
                        );
                        assert(p != i);
                    }
                }
                assert(tags_before(s, i + 1) =~= tags_before(s, i as int));
            }
            i += 1;
        }
    }
}

/// Whether a text node's text is the destination of its link written out.
pub fn is_url_text(text: &str, link: &Option<String>) -> (b: bool)
    ensures
        b == shows_url(text@, opt_seq(*link)),
{
    match link {
        None => false,
        Some(u) => {
            let mut web = String::from_str("http://");
            web.append(text);
            let mut mail = String::from_str("mailto:");
            mail.append(text);
            proof {
                reveal_strlit("http://");
                reveal_strlit("mailto:");
            }
            str_eq(u.as_str(), text) || str_eq(u.as_str(), web.as_str()) || str_eq(
                u.as_str(),
                mail.as_str(),
            )
        },
    }
}

/// Collect `#tags` from the markdown's text nodes — code spans and code blocks
/// never produce tags because they aren't Text nodes, and a URL written out
/// (an autolink's text) is skipped; the text of an ordinary link counts. The
/// result is sorted and free of repeats.
pub fn extract_tags(content: &str) -> (tags: Vec<String>)
    ensures
        sorted_strict(views(tags@)),
        views(tags@).to_set() == tags_of_texts(markdown_text_nodes(content@)),
{
    let texts = text_nodes(content);
    let ghost tv = markdown_text_nodes(content@);
    let mut tags: Vec<String> = Vec::new();
    let mut k: usize = 0;
    assert(views(tags@).to_set() =~= Set::<Seq<char>>::empty());
    while k < texts.len()
        invariant
            tv == texts@.map_values(|t: (String, Option<String>)| (t.0@, opt_seq(t.1))),
            k <= texts@.len(),
            sorted_strict(views(tags@)),
            views(tags@).to_set() == tags_of_texts(tv.take(k as int)),
        decreases texts.len() - k,
    {
        let ghost before = views(tags@).to_set();
        if !is_url_text(texts[k].0.as_str(), &texts[k].1) {
            collect_tags(texts[k].0.as_str(), &mut tags);
        }
        proof {
            assert(tv[k as int] == (texts@[k as int].0@, opt_seq(texts@[k as int].1)));
            let now = tv.take(k + 1);
            let was = tv.take(k as int);
            assert forall|x: Seq<char>| views(tags@).to_set().contains(x) <==> tags_of_texts(
                now,
            ).contains(x) by {
                if tags_of_texts(now).contains(x) {
                    let q = choose|q: int|
                        0 <= q < k + 1 && !shows_url(now[q].0, now[q].1) && #[trigger] tags_in(now[q].0).contains(x);
                    if q < k {
                        assert(was[q] == now[q]);
                        assert(!shows_url(was[q].0, was[q].1) && tags_in(was[q].0).contains(x));
                        assert(tags_of_texts(was).contains(x));
                    }
                }
                if tags_of_texts(was).contains(x) {
                    let q = choose|q: int|
                        0 <= q < k && !shows_url(was[q].0, was[q].1) && #[trigger] tags_in(was[q].0).contains(x);
                    assert(was[q] == now[q]);
                }
                if !shows_url(tv[k as int].0, tv[k as int].1) && tags_in(tv[k as int].0).contains(x) {
                    assert(now[k as int] == tv[k as int]);
                }
            }
            assert(views(tags@).to_set() =~= tags_of_texts(now));
        }
        k += 1;
    }
    assert(tv.take(tv.len() as int) =~= tv);
    tags
}

// ---------------------------------------------------------------------------
// Title excerpts
// ---------------------------------------------------------------------------

/// End of the line that starts at index `i`: the next `\n`, or the end.
pub open spec fn line_end(s: Seq<char>, i: int) -> int
    decreases s.len() - i,
{
    if 0 <= i < s.len() && s[i] != '\n' {
        line_end(s, i + 1)
    } else {
        i
    }
}

/// Where `line_end` stops.
pub proof fn lemma_line_end(s: Seq<char>, i: int)
    requires
        0 <= i <= s.len(),
    ensures
        i <= line_end(s, i) <= s.len(),
        line_end(s, i) < s.len() ==> s[line_end(s, i)] == '\n',
    decreases s.len() - i,
{
    if 0 <= i < s.len() && s[i] != '\n' {
        lemma_line_end(s, i + 1);
    }
}

/// From the line starting at index `i` on: the first line that is not blank,
/// trimmed; empty when every line is blank.
pub open spec fn title_line_from(s: Seq<char>, i: int) -> Seq<char>
    decreases s.len() - i,
{
    if i < 0 || i > s.len() {
        Seq::empty()
    } else {
        let e = line_end(s, i);
        let l = trim_seq(s.subrange(i, e));
        if l.len() > 0 {
            l
        } else if e < s.len() {
            proof {
                lemma_line_end(s, i);
            }
            title_line_from(s, e + 1)
        } else {
            Seq::empty()
        }
    }
}

/// Markdown marker characters dropped from titles.
pub open spec fn is_marker(c: char) -> bool {
    c == '#' || c == '*' || c == '`' || c == '>' || c == '_' || c == '~'
}

pub open spec fn drop_markers(s: Seq<char>) -> Seq<char>
    decreases s.len(),
{
    if s.len() == 0 {
        Seq::empty()
    } else if is_marker(s.last()) {
        drop_markers(s.drop_last())
    } else {
        drop_markers(s.drop_last()).push(s.last())
    }
}

/// The title of a memo: its first non-blank line, marker characters dropped,
/// trimmed, cut to `max` characters with `…` appended when it was longer.
pub open spec fn excerpt_spec(content: Seq<char>, max: nat) -> Seq<char> {
    let cleaned = trim_seq(drop_markers(title_line_from(content, 0)));
    if cleaned.len() > max {
        cleaned.take(max as int).push('…')
    } else {
        cleaned
    }
}

/// A title is at most `max` characters, plus the `…` that marks a cut.
pub proof fn lemma_excerpt_len(content: Seq<char>, max: nat)
    ensures
        excerpt_spec(content, max).len() <= max + 1,
        excerpt_spec(content, max).len() == max + 1 ==> excerpt_spec(content, max).last() == '…',
{
}

/// First line of the memo, markdown markers stripped, truncated — for titles.
pub fn excerpt(content: &str, max: usize) -> (out: String)
    ensures
        out@ == excerpt_spec(content@, max as nat),
{
    let v = chars_of(content);
    let ghost s = v@;
    let mut i: usize = 0;
    let mut a: usize = 0;
    let mut b: usize = 0;
    loop
        invariant
            s == v@,
            i <= s.len(),
            title_line_from(s, 0) == title_line_from(s, i as int),
        ensures
            a <= b <= s.len(),
            title_line_from(s, 0) == s.subrange(a as int, b as int),
        decreases s.len() - i,
    {
        let mut j = i;
        proof {
            lemma_line_end(s, i as int);
        }
        while j < v.len() && v[j] != '\n'
            invariant
                s == v@,
                i <= j <= s.len(),
                line_end(s, i as int) == line_end(s, j as int),
            decreases s.len() - j,
        {
            j += 1;
        }
        let (x, y) = trim_bounds(&v, i, j);
        if y > x {
            a = x;
            b = y;
            break ;
        } else if j < v.len() {
            i = j + 1;
        } else {
            assert(s.subrange(x as int, y as int) =~= Seq::<char>::empty());
            a = x;
            b = y;
            break ;
        }
    }
    let mut w: Vec<char> = Vec::new();
    let mut k = a;
    while k < b
        invariant
            s == v@,
            a <= k <= b <= s.len(),
            w@ == drop_markers(s.subrange(a as int, k as int)),
        decreases b - k,
    {
        let c = v[k];
        if !(c == '#' || c == '*' || c == '`' || c == '>' || c == '_' || c == '~') {
            w.push(c);
        }
        proof {
            let t = s.subrange(a as int, k + 1);
            assert(t.drop_last() =~= s.subrange(a as int, k as int));
            assert(t.last() == c);
        }
        k += 1;
    }
    assert(w@.subrange(0, w@.len() as int) =~= w@);
    let (c0, d0) = trim_bounds(&w, 0, w.len());
    let n = d0 - c0;
    let ghost cleaned = w@.subrange(c0 as int, d0 as int);
    if n > max {
        let mut out = string_from_range(&w, c0, c0 + max);
        assert(w@.subrange(c0 as int, c0 + max) =~= cleaned.take(max as int));
        push_char(&mut out, '…');
        out
    } else {
        string_from_range(&w, c0, d0)
    }
}

// ---------------------------------------------------------------------------
// Laws
// ---------------------------------------------------------------------------

proof fn lemma_run_to(s: Seq<char>, k: int, e: int, memo: bool)
    requires
        0 <= k <= e < s.len(),
        forall|t: int| k <= t < e ==> ref_char(memo, #[trigger] s[t]),
        !ref_char(memo, s[e]),
    ensures
        ref_run_end(s, k, memo) == e,
    decreases e - k,
{
    if k < e {
        lemma_run_to(s, k + 1, e, memo);
    }
}

/// The characters of `attach_token(a)` at offset `d`, for a uid `a`.
proof fn lemma_attach_token_char(a: Seq<char>, d: int)
    requires
        forall|i: int| 0 <= i < a.len() ==> is_uid_char_spec(#[trigger] a[i]),
        0 <= d < attach_token(a).len(),
    ensures
        d < 2 ==> attach_token(a)[d] == '{',
        d == 2 ==> attach_token(a)[d] == 'a',
        d >= 2 ==> attach_token(a)[d] != '{',
        9 <= d < 9 + a.len() ==> attach_token(a)[d] == a[d - 9],
        d == 9 + a.len() ==> attach_token(a)[d] == '}',
{
    let t = attach_token(a);
    if 9 <= d < 9 + a.len() {
        assert(t[d] == a[d - 9]);
    } else if d >= 9 + a.len() {
        assert(t[d] == close_braces()[d - 9 - a.len()]);
    } else {
        assert(t[d] == attach_needle()[d]);
    }
}

/// Two attachment tokens for different uids never overlap in a text.
pub proof fn lemma_attach_tokens_apart(s: Seq<char>, p: int, a: Seq<char>, q: int, b: Seq<char>)
    requires
        occurs_at(s, p, attach_token(a)),
        occurs_at(s, q, attach_token(b)),
        forall|i: int| 0 <= i < a.len() ==> is_uid_char_spec(#[trigger] a[i]),
        forall|i: int| 0 <= i < b.len() ==> is_uid_char_spec(#[trigger] b[i]),
        a != b,
    ensures
        q + attach_token(b).len() <= p || q >= p + attach_token(a).len(),
{
    if p <= q {
        lemma_attach_tokens_ordered(s, p, a, q, b);
    } else {
        lemma_attach_tokens_ordered(s, q, b, p, a);
    }
}

proof fn lemma_attach_tokens_ordered(s: Seq<char>, p: int, a: Seq<char>, q: int, b: Seq<char>)
    requires
        p <= q,
        occurs_at(s, p, attach_token(a)),
        occurs_at(s, q, attach_token(b)),
        forall|i: int| 0 <= i < a.len() ==> is_uid_char_spec(#[trigger] a[i]),
        forall|i: int| 0 <= i < b.len() ==> is_uid_char_spec(#[trigger] b[i]),
        a != b,
    ensures
        q >= p + attach_token(a).len(),
{
    let ta = attach_token(a);
    let tb = attach_token(b);
    if q < p + ta.len() {
        let d = q - p;
        assert(s.subrange(p, p + ta.len())[d] == s[q]);
        assert(s.subrange(q, q + tb.len())[0] == s[q]);
        lemma_attach_token_char(a, d);
        lemma_attach_token_char(b, 0);
        if d == 1 {
            assert(s.subrange(p, p + ta.len())[2] == s[q + 1]);
            assert(s.subrange(q, q + tb.len())[1] == s[q + 1]);
            lemma_attach_token_char(a, 2);
            lemma_attach_token_char(b, 1);
        }
        assert(d == 0);
        // Same start: the uids agree up to the first closing brace.
        if a.len() < b.len() {
            let x: int = 9 + a.len() as int;
            assert(s.subrange(p, p + ta.len())[x] == s[p + x]);
            assert(s.subrange(q, q + tb.len())[x] == s[p + x]);
            lemma_attach_token_char(a, x);
            lemma_attach_token_char(b, x);
            assert(is_uid_char_spec(b[a.len() as int]));
        } else if b.len() < a.len() {
            let x: int = 9 + b.len() as int;
            assert(s.subrange(p, p + ta.len())[x] == s[p + x]);
            assert(s.subrange(q, q + tb.len())[x] == s[p + x]);
            lemma_attach_token_char(a, x);
            lemma_attach_token_char(b, x);
            assert(is_uid_char_spec(a[b.len() as int]));
        } else {
            assert forall|i: int| 0 <= i < a.len() implies a[i] == b[i] by {
                assert(s.subrange(p, p + ta.len())[9 + i] == s[p + 9 + i]);
                assert(s.subrange(q, q + tb.len())[9 + i] == s[p + 9 + i]);
                lemma_attach_token_char(a, 9 + i);
                lemma_attach_token_char(b, 9 + i);
            }
            assert(a =~= b);
        }
    }
}

/// A token written for a reference reads back as exactly that reference: for
/// any non-empty `r` of reference characters (such as a uid from
/// `auth::new_uid` or a uuid from `auth::new_uuid`), the references of the text
/// `{{attach:r}}` (or `{{memo:r}}`) are `[r]`.
pub proof fn lemma_token_round_trip(r: Seq<char>, memo: bool)
    requires
        r.len() > 0,
        forall|i: int| 0 <= i < r.len() ==> ref_char(memo, #[trigger] r[i]),
    ensures
        refs_upto(
            ref_needle(memo) + r + close_braces(),
            (ref_needle(memo) + r + close_braces()).len() as int,
            memo,
        ) == seq![r],
{
    let n = ref_needle(memo);
    let s = n + r + close_braces();
    let l = n.len() as int;
    let e = l + r.len();
    assert forall|t: int| l <= t < e implies ref_char(memo, #[trigger] s[t]) by {
        assert(s[t] == r[t - l]);
    }
    assert(s[e] == '}');
    assert(s[e + 1] == '}');
    lemma_run_to(s, l, e, memo);
    assert(s.subrange(0, l) =~= n);
    assert(s.subrange(l, e) =~= r);
    assert(ref_at(s, 0, memo) == Some(r));
    assert(refs_upto(s, 0, memo) =~= Seq::<Seq<char>>::empty());
    assert(refs_upto(s, 1, memo) =~= seq![r]);
    lemma_no_token_inside(s, 0, memo, e);
    assert forall|p: int| 1 <= p < s.len() implies ref_at(s, p, memo) is None by {
        if p < e {
            assert(!occurs_at(s, p, n));
        } else {
            assert(s[p] == '}');
            if occurs_at(s, p, n) {
                assert(s.subrange(p, p + n.len())[0] == n[0]);
            }
        }
    }
    lemma_refs_stable(s, memo, 1, s.len() as int);
}

/// The references of a text are free of repeats.
pub proof fn lemma_refs_unique(s: Seq<char>, n: int, memo: bool)
    requires
        0 <= n,
    ensures
        refs_upto(s, n, memo).no_duplicates(),
    decreases n,
{
    if n > 0 {
        lemma_refs_unique(s, n - 1, memo);
        let prev = refs_upto(s, n - 1, memo);
        if let Some(r) = ref_at(s, n - 1, memo) {
            if !prev.contains(r) {
                assert forall|i: int, j: int|
                    0 <= i < prev.push(r).len() && 0 <= j < prev.push(r).len() && i != j implies prev.push(
                    r,
                )[i] != prev.push(r)[j] by {
                    if i == prev.len() {
                        assert(prev.push(r)[j] == prev[j]);
                    } else if j == prev.len() {
                        assert(prev.push(r)[i] == prev[i]);
                    }
                }
            }
        }
    }
}

/// HTML-escaped text holds no `<`, `>` or `"`: titles and file names put into
/// inline links cannot open a tag or leave an attribute.
pub proof fn lemma_escape_is_inert(s: Seq<char>)
    ensures
        forall|i: int| 0 <= i < escape_seq(s).len() ==> {
            let c = #[trigger] escape_seq(s)[i];
            c != '<' && c != '>' && c != '"'
        },
    decreases s.len(),
{
    reveal_strlit("&amp;");
    reveal_strlit("&lt;");
    reveal_strlit("&gt;");
    reveal_strlit("&quot;");
    if s.len() > 0 {
        lemma_escape_is_inert(s.drop_last());
        let a = escape_seq(s.drop_last());
        let b = escape_char(s.last());
        assert(escape_seq(s) == a + b);
        assert forall|i: int| 0 <= i < (a + b).len() implies {
            let c = #[trigger] (a + b)[i];
            c != '<' && c != '>' && c != '"'
        } by {
            if i >= a.len() {
                assert((a + b)[i] == b[i - a.len()]);
            }
        }
    }
}

} // verus!
