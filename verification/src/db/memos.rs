//! Memos: who may see one, how a feed page is asked for and cut, how search
//! input is quoted, and how an export file is merged into a notebook.
use vstd::prelude::*;

use crate::error::AppError;
use crate::markdown::{attach_token, is_uid_char_spec, lemma_attach_tokens_apart};
use crate::models::{ExportAttachment, ExportNote, Memo, MemoState, User, Visibility};
use crate::text::{
    chars_of, contains_seq, contains_str, is_whitespace, is_whitespace_spec, lemma_replace_inserts,
    lemma_replace_keeps, lower_seq, occurs_at, push_char, push_chars, replace_all, replace_chars,
    str_eq, string_from_range, to_ascii_lower, trim_bounds, trim_seq,
};

verus! {

// ---------------------------------------------------------------------------
// Visibility
// ---------------------------------------------------------------------------

/// Whether `viewer` may see a memo of this visibility written by `author_id`.
pub open spec fn visible_to(visibility: Visibility, author_id: i64, viewer: Option<User>) -> bool {
    match visibility {
        Visibility::Public => true,
        Visibility::Protected => viewer is Some,
        Visibility::Private => viewer matches Some(u) && u.id == author_id,
    }
}

pub open spec fn viewer_of(viewer: Option<&User>) -> Option<User> {
    match viewer {
        Some(u) => Some(*u),
        None => None,
    }
}

/// Visibility check for a single memo page (`/m/:uid`) and resource serving.
pub fn can_view(memo: &Memo, viewer: Option<&User>) -> (b: bool)
    ensures
        b == visible_to(memo.visibility, memo.user_id, viewer_of(viewer)),
{
    match memo.visibility {
        Visibility::Public => true,
        Visibility::Protected => viewer.is_some(),
        Visibility::Private => match viewer {
            Some(u) => u.id == memo.user_id,
            None => false,
        },
    }
}

pub open spec fn can_view_considering_state_spec(memo: Memo, viewer: Option<User>) -> bool {
    if memo.state == MemoState::Archived {
        viewer matches Some(u) && u.id == memo.user_id
    } else {
        visible_to(memo.visibility, memo.user_id, viewer)
    }
}

/// Archived memos are only ever visible to their owner, regardless of visibility.
pub fn can_view_considering_state(memo: &Memo, viewer: Option<&User>) -> (b: bool)
    ensures
        b == can_view_considering_state_spec(*memo, viewer_of(viewer)),
{
    if memo.state == MemoState::Archived {
        return match viewer {
            Some(u) => u.id == memo.user_id,
            None => false,
        };
    }
    can_view(memo, viewer)
}

/// The visibility matrix: a memo's owner always sees it; anyone sees a public,
/// non-archived memo; a protected one needs a signed-in viewer; a private or an
/// archived one is seen by its owner alone.
pub proof fn lemma_visibility_matrix(memo: Memo, viewer: Option<User>)
    ensures
        (viewer matches Some(u) && u.id == memo.user_id) ==> can_view_considering_state_spec(
            memo,
            viewer,
        ),
        memo.state == MemoState::Normal && memo.visibility == Visibility::Public
            ==> can_view_considering_state_spec(memo, viewer),
        memo.state == MemoState::Normal && memo.visibility == Visibility::Protected ==> (
        can_view_considering_state_spec(memo, viewer) <==> viewer is Some),
        (memo.visibility == Visibility::Private || memo.state == MemoState::Archived)
            ==> (can_view_considering_state_spec(memo, viewer) <==> (viewer matches Some(u)
            && u.id == memo.user_id)),
        viewer is None ==> (can_view_considering_state_spec(memo, viewer) <==> (memo.state
            == MemoState::Normal && memo.visibility == Visibility::Public)),
{
}

/// A note-link target as resolved in the author's notebook.
pub struct LinkTarget {
    pub uid: String,
    pub visibility: Visibility,
    pub content: String,
}

/// A resolved note link: the target of `{{memo:uuid}}` in the notebook of
/// `author_id`.
pub struct LinkRef {
    pub author_id: i64,
    pub uuid: String,
    pub target: LinkTarget,
}

/// Which notes a tag sidebar counts.
#[derive(Debug, Clone, Copy, PartialEq, Eq, Structural)]
pub enum TagScope {
    Home,
    Section(i64),
    Imported,
}

// ---------------------------------------------------------------------------
// Feed queries
// ---------------------------------------------------------------------------

#[derive(Debug, Clone, Copy, PartialEq, Eq, Structural)]
pub enum Feed {
    /// The owner's own authored timeline (all visibilities, local origin).
    Own(i64),
    /// The owner's archived memos.
    Archive(i64),
    /// Everyone's public memos (+ protected ones for signed-in viewers).
    Explore { signed_in: bool },
    /// The owner's imported memos (origin='imported'), kept out of every other feed.
    Imported(i64),
}

pub struct MemoQuery {
    pub feed: Feed,
    pub tag: Option<String>,
    pub search: Option<String>,
    /// Half-open `[start, end)` created_at window (unix seconds) from the date filter.
    pub created_range: Option<(i64, i64)>,
    pub before: Option<(i64, i64)>,
    pub limit: i64,
}

pub struct MemoPage {
    /// Pinned block, only populated for an unfiltered first page of `Own`.
    pub pinned: Vec<Memo>,
    pub memos: Vec<Memo>,
    pub has_more: bool,
}

/// One condition of a feed query. Each stands for one fragment of the `WHERE`
/// clause, with its bound values.
pub enum Filter {
    /// `m.user_id = ? AND m.state = 'normal' AND m.origin = 'local'`
    OwnActive(i64),
    /// `m.user_id = ? AND m.state = 'archived'`
    OwnArchived(i64),
    /// `m.state = 'normal' AND m.origin = 'local'` and a visibility of
    /// `public`, or also `protected` for a signed-in viewer.
    Shared { signed_in: bool },
    /// `m.user_id = ? AND m.state = 'normal' AND m.origin = 'imported'`
    ImportedActive(i64),
    /// The memo carries this (lowercased) tag.
    Tag(String),
    /// The memo matches this full-text query.
    Search(String),
    /// `m.created_at >= ? AND m.created_at < ?`
    CreatedIn(i64, i64),
    /// `(m.created_at, m.id) < (?, ?)`: keyset paging.
    Before(i64, i64),
    /// `m.pinned = 0`
    NotPinned,
}

/// A `Filter` with its text as character sequences.
pub enum FilterView {
    OwnActive(i64),
    OwnArchived(i64),
    Shared { signed_in: bool },
    ImportedActive(i64),
    Tag(Seq<char>),
    Search(Seq<char>),
    CreatedIn(i64, i64),
    Before(i64, i64),
    NotPinned,
}

impl View for Filter {
    type V = FilterView;

    open spec fn view(&self) -> FilterView {
        match self {
            Filter::OwnActive(u) => FilterView::OwnActive(*u),
            Filter::OwnArchived(u) => FilterView::OwnArchived(*u),
            Filter::Shared { signed_in } => FilterView::Shared { signed_in: *signed_in },
            Filter::ImportedActive(u) => FilterView::ImportedActive(*u),
            Filter::Tag(t) => FilterView::Tag(t@),
            Filter::Search(s) => FilterView::Search(s@),
            Filter::CreatedIn(a, b) => FilterView::CreatedIn(*a, *b),
            Filter::Before(a, b) => FilterView::Before(*a, *b),
            Filter::NotPinned => FilterView::NotPinned,
        }
    }
}

/// How to run a feed query.
pub struct ListPlan {
    /// The conditions, joined with `AND`.
    pub filters: Vec<Filter>,
    /// For an unfiltered first page of `Own`: the user whose pinned memos are
    /// fetched into the pinned block.
    pub pinned_for: Option<i64>,
    /// The `LIMIT`: one row more than a page, to learn whether more follow.
    pub fetch: i64,
}

pub open spec fn feed_filter(feed: Feed) -> FilterView {
    match feed {
        Feed::Own(u) => FilterView::OwnActive(u),
        Feed::Archive(u) => FilterView::OwnArchived(u),
        Feed::Explore { signed_in } => FilterView::Shared { signed_in },
        Feed::Imported(u) => FilterView::ImportedActive(u),
    }
}

pub open spec fn opt_view(o: Option<String>) -> Option<Seq<char>> {
    match o {
        Some(s) => Some(s@),
        None => None,
    }
}

/// An unfiltered `Own` feed: no tag, no search, no date window.
pub open spec fn unfiltered_own(q: MemoQuery) -> bool {
    (q.feed matches Feed::Own(_)) && q.tag is None && q.search is None && q.created_range is None
}

/// The conditions of a feed query, in order: the feed's own, then the tag, the
/// search, the date window and the paging cursor where given, then
/// `NotPinned` for an unfiltered `Own` feed (whose pinned memos are shown in a
/// block of their own).
pub open spec fn list_filters_spec(q: MemoQuery) -> Seq<FilterView> {
    let f0 = seq![feed_filter(q.feed)];
    let f1 = match opt_view(q.tag) {
        Some(t) => f0.push(FilterView::Tag(lower_seq(t))),
        None => f0,
    };
    let f2 = match opt_view(q.search) {
        Some(s) => f1.push(FilterView::Search(fts_query_spec(s))),
        None => f1,
    };
    let f3 = match q.created_range {
        Some((a, b)) => f2.push(FilterView::CreatedIn(a, b)),
        None => f2,
    };
    let f4 = match q.before {
        Some((a, b)) => f3.push(FilterView::Before(a, b)),
        None => f3,
    };
    if unfiltered_own(q) {
        f4.push(FilterView::NotPinned)
    } else {
        f4
    }
}

pub open spec fn filter_views(v: Seq<Filter>) -> Seq<FilterView> {
    v.map_values(|f: Filter| f@)
}

fn lowercase(s: &String) -> (out: String)
    ensures
        out@ == lower_seq(s@),
{
    let v = chars_of(s.as_str());
    let mut out = String::new();
    let mut k: usize = 0;
    while k < v.len()
        invariant
            k <= v@.len(),
            v@ == s@,
            out@ == lower_seq(v@.take(k as int)),
        decreases v.len() - k,
    {
        push_char(&mut out, to_ascii_lower(v[k]));
        k += 1;
        assert(out@ =~= lower_seq(v@.take(k as int)));
    }
    assert(v@.take(v@.len() as int) =~= v@);
    out
}

/// The plan of a feed query: its conditions, whether the pinned block is
/// fetched, and the row limit.
pub fn list_plan(query: &MemoQuery) -> (plan: ListPlan)
    requires
        query.limit < i64::MAX,
    ensures
        filter_views(plan.filters@) == list_filters_spec(*query),
        plan.pinned_for == (if unfiltered_own(*query) && query.before is None {
            match query.feed {
                Feed::Own(u) => Some(u),
                _ => None,
            }
        } else {
            None
        }),
        plan.fetch == query.limit + 1,
{
    let mut filters: Vec<Filter> = Vec::new();
    match query.feed {
        Feed::Own(u) => filters.push(Filter::OwnActive(u)),
        Feed::Archive(u) => filters.push(Filter::OwnArchived(u)),
        Feed::Explore { signed_in } => filters.push(Filter::Shared { signed_in }),
        Feed::Imported(u) => filters.push(Filter::ImportedActive(u)),
    }
    let ghost f0 = filter_views(filters@);
    assert(f0 =~= seq![feed_filter(query.feed)]);
    if let Some(t) = &query.tag {
        filters.push(Filter::Tag(lowercase(t)));
    }
    assert(filter_views(filters@) =~= match opt_view(query.tag) {
        Some(t) => f0.push(FilterView::Tag(lower_seq(t))),
        None => f0,
    });
    let ghost f1 = filter_views(filters@);
    if let Some(s) = &query.search {
        filters.push(Filter::Search(fts_query(s.as_str())));
    }
    assert(filter_views(filters@) =~= match opt_view(query.search) {
        Some(s) => f1.push(FilterView::Search(fts_query_spec(s))),
        None => f1,
    });
    let ghost f2 = filter_views(filters@);
    if let Some((a, b)) = query.created_range {
        filters.push(Filter::CreatedIn(a, b));
    }
    assert(filter_views(filters@) =~= match query.created_range {
        Some((a, b)) => f2.push(FilterView::CreatedIn(a, b)),
        None => f2,
    });
    let ghost f3 = filter_views(filters@);
    if let Some((a, b)) = query.before {
        filters.push(Filter::Before(a, b));
    }
    assert(filter_views(filters@) =~= match query.before {
        Some((a, b)) => f3.push(FilterView::Before(a, b)),
        None => f3,
    });
    let ghost f4 = filter_views(filters@);
    let own = match query.feed {
        Feed::Own(_) => true,
        _ => false,
    };
    let unfiltered = own && query.tag.is_none() && query.search.is_none()
        && query.created_range.is_none();
    if unfiltered {
        filters.push(Filter::NotPinned);
    }
    assert(filter_views(filters@) =~= if unfiltered_own(*query) {
        f4.push(FilterView::NotPinned)
    } else {
        f4
    });
    let pinned_for = if unfiltered && query.before.is_none() {
        match query.feed {
            Feed::Own(u) => Some(u),
            _ => None,
        }
    } else {
        None
    };
    ListPlan { filters, pinned_for, fetch: query.limit + 1 }
}

/// How many of the fetched rows a page keeps: `limit` of them, all of them
/// when `limit` is negative (which the query left unbounded).
pub open spec fn page_len(fetched: nat, limit: i64) -> nat {
    if limit < 0 || fetched <= limit {
        fetched
    } else {
        limit as nat
    }
}

/// A page never holds more than `limit` memos, nor more than were fetched;
/// rows are cut exactly when more follow.
pub proof fn lemma_page_bounds(fetched: nat, limit: i64)
    requires
        0 <= limit,
    ensures
        page_len(fetched, limit) <= limit,
        page_len(fetched, limit) <= fetched,
        (page_len(fetched, limit) < fetched) <==> fetched > limit,
{
}

/// Cut the rows fetched for a feed page (one more than a page was asked for)
/// down to the page, and note whether more follow.
pub fn page_from_rows(pinned: Vec<Memo>, rows: Vec<Memo>, limit: i64) -> (page: MemoPage)
    ensures
        page.pinned@ == pinned@,
        page.memos@ == rows@.take(page_len(rows@.len(), limit) as int),
        page.has_more == (rows@.len() > limit),
{
    let mut memos = rows;
    let n = memos.len();
    let has_more = if limit < 0 {
        true
    } else {
        (n as u64) > (limit as u64)
    };
    if limit >= 0 && (n as u64) > (limit as u64) {
        memos.truncate(limit as usize);
    }
    assert(memos@ =~= rows@.take(page_len(rows@.len(), limit) as int));
    MemoPage { pinned, memos, has_more }
}

// ---------------------------------------------------------------------------
// Full-text search input
// ---------------------------------------------------------------------------

/// End of the run of non-whitespace characters that starts at index `k`.
pub open spec fn word_end(s: Seq<char>, k: int) -> int
    decreases s.len() - k,
{
    if 0 <= k < s.len() && !is_whitespace_spec(s[k]) {
        word_end(s, k + 1)
    } else {
        k
    }
}

/// Where `word_end` stops.
pub proof fn lemma_word_end(s: Seq<char>, k: int)
    requires
        0 <= k <= s.len(),
    ensures
        k <= word_end(s, k) <= s.len(),
        k < s.len() && !is_whitespace_spec(s[k]) ==> k < word_end(s, k),
    decreases s.len() - k,
{
    if 0 <= k < s.len() && !is_whitespace_spec(s[k]) {
        lemma_word_end(s, k + 1);
    }
}

/// The whitespace-separated words of `s` from index `i` on (`str::split_whitespace`).
pub open spec fn words_from(s: Seq<char>, i: int) -> Seq<Seq<char>>
    decreases s.len() - i,
{
    if i < 0 || i >= s.len() {
        Seq::empty()
    } else if is_whitespace_spec(s[i]) {
        words_from(s, i + 1)
    } else {
        proof {
            lemma_word_end(s, i);
        }
        seq![s.subrange(i, word_end(s, i))] + words_from(s, word_end(s, i))
    }
}

/// A search term in double quotes, inner quotes doubled.
pub open spec fn quote_term(t: Seq<char>) -> Seq<char> {
    seq!['"'] + replace_all(t, seq!['"'], seq!['"', '"']) + seq!['"']
}

/// The quoted terms, separated by single spaces.
pub open spec fn join_quoted(ws: Seq<Seq<char>>) -> Seq<char>
    decreases ws.len(),
{
    if ws.len() == 0 {
        Seq::empty()
    } else if ws.len() == 1 {
        quote_term(ws[0])
    } else {
        join_quoted(ws.drop_last()) + seq![' '] + quote_term(ws.last())
    }
}

/// Search input as a full-text query: every word quoted, so user input can't
/// reach FTS5 query syntax.
pub open spec fn fts_query_spec(input: Seq<char>) -> Seq<char> {
    join_quoted(words_from(input, 0))
}

/// Quote each search term so user input can't hit FTS5 query syntax.
fn fts_query(input: &str) -> (out: String)
    ensures
        out@ == fts_query_spec(input@),
{
    let v = chars_of(input);
    let ghost s = v@;
    let quote = vec!['"'];
    let doubled = vec!['"', '"'];
    assert(quote@ =~= seq!['"']);
    assert(doubled@ =~= seq!['"', '"']);
    let mut out = String::new();
    let ghost mut acc: Seq<Seq<char>> = Seq::empty();
    let mut any = false;
    let mut i: usize = 0;
    while i < v.len()
        invariant
            s == v@,
            s == input@,
            quote@ == seq!['"'],
            doubled@ == seq!['"', '"'],
            i <= s.len(),
            acc + words_from(s, i as int) == words_from(s, 0),
            out@ == join_quoted(acc),
            any == (acc.len() > 0),
        decreases s.len() - i,
    {
        if is_whitespace(v[i]) {
            i += 1;
        } else {
            let mut j = i;
            proof {
                lemma_word_end(s, i as int);
            }
            while j < v.len() && !is_whitespace(v[j])
                invariant
                    s == v@,
                    i <= j <= s.len(),
                    word_end(s, i as int) == word_end(s, j as int),
                decreases s.len() - j,
            {
                j += 1;
            }
            let w = string_from_range(&v, i, j);
            let wc = chars_of(w.as_str());
            let escaped = replace_chars(&wc, &quote, &doubled);
            let ghost prev = out@;
            if any {
                push_char(&mut out, ' ');
            }
            push_char(&mut out, '"');
            out.append(escaped.as_str());
            push_char(&mut out, '"');
            proof {
                let word = s.subrange(i as int, j as int);
                assert(words_from(s, i as int) == seq![word] + words_from(s, j as int));
                let nacc = acc.push(word);
                assert(nacc.drop_last() =~= acc);
                assert(acc + words_from(s, i as int) =~= nacc + words_from(s, j as int));
                if acc.len() > 0 {
                    assert(out@ =~= prev + seq![' '] + quote_term(word));
                } else {
                    assert(out@ =~= quote_term(word));
                }
                acc = nacc;
            }
            any = true;
            i = j;
        }
    }
    assert(acc =~= words_from(s, 0));
    out
}

// ---------------------------------------------------------------------------
// Export / import
// ---------------------------------------------------------------------------

/// The tag values an export asks for: each selected tag, lowercased. An empty
/// selection exports nothing.
pub fn export_tag_values(tags: &Vec<String>) -> (out: Vec<String>)
    ensures
        out@.len() == tags@.len(),
        forall|i: int| 0 <= i < tags@.len() ==> #[trigger] out@[i]@ == lower_seq(tags@[i]@),
{
    let mut out: Vec<String> = Vec::new();
    let mut k: usize = 0;
    while k < tags.len()
        invariant
            k <= tags@.len(),
            out@.len() == k,
            forall|i: int| 0 <= i < k ==> #[trigger] out@[i]@ == lower_seq(tags@[i]@),
        decreases tags.len() - k,
    {
        out.push(lowercase(&tags[k]));
        k += 1;
    }
    out
}

/// The base64 text (`data_encoding::BASE64`) of some bytes.
pub uninterp spec fn base64_encoded(data: Seq<u8>) -> Seq<char>;

/// What `data_encoding::BASE64` decodes a text to, `None` where it is refused.
pub uninterp spec fn base64_decoded(text: Seq<char>) -> Option<Seq<u8>>;

/// `data_encoding::BASE64.encode`, which asserts that the input is at most
/// `usize::MAX / 512` bytes. Its documentation promises that decoding the
/// encoding gives the data back, which the contract states; the text itself is
/// named, not described.
#[verifier::external_body]
fn base64_encode(data: &[u8]) -> (text: String)
    requires
        data@.len() <= usize::MAX / 512,
    ensures
        text@ == base64_encoded(data@),
        base64_decoded(text@) == Some(data@),
{
    data_encoding::BASE64.encode(data)
}

/// `data_encoding::BASE64.decode` of a text's bytes, which asserts that they
/// are at most `usize::MAX / 8`; the error is dropped. The contract names the
/// outcome and claims nothing else of it.
#[verifier::external_body]
fn base64_decode(text: &str) -> (data: Option<Vec<u8>>)
    requires
        vstd::utf8::encode_utf8(text@).len() <= usize::MAX / 8,
    ensures
        match data {
            Some(d) => base64_decoded(text@) == Some(d@),
            None => base64_decoded(text@) is None,
        },
{
    data_encoding::BASE64.decode(text.as_bytes()).ok()
}

/// An attachment row as it goes into an export file, its bytes base64-encoded.
pub fn export_attachment(
    uid: String,
    filename: String,
    content_type: String,
    created_at: i64,
    data: &[u8],
) -> (att: ExportAttachment)
    requires
        data@.len() <= usize::MAX / 512,
    ensures
        att.uid == uid,
        att.filename == filename,
        att.content_type == content_type,
        att.created_at == created_at,
        att.data@ == base64_encoded(data@),
        base64_decoded(att.data@) == Some(data@),
{
    ExportAttachment { uid, filename, content_type, created_at, data: base64_encode(data) }
}

/// The bytes of an imported attachment and their count, or `None` when its
/// base64 does not decode (the attachment is then left out).
pub fn imported_attachment_bytes(att: &ExportAttachment) -> (r: Option<(Vec<u8>, i64)>)
    requires
        vstd::utf8::encode_utf8(att.data@).len() <= usize::MAX / 8,
    ensures
        match r {
            Some((bytes, size)) => base64_decoded(att.data@) == Some(bytes@) && size
                == bytes@.len() as i64,
            None => base64_decoded(att.data@) is None,
        },
{
    match base64_decode(att.data.as_str()) {
        Some(bytes) => {
            let size = bytes.len() as i64;
            Some((bytes, size))
        },
        None => None,
    }
}

/// What an import does with one note.
#[derive(Debug, Clone, Copy, PartialEq, Eq, Structural)]
pub enum ImportAction {
    /// Leave it out.
    Skip,
    /// Overwrite the imported note with this id.
    Overwrite(i64),
    /// Insert it as a new imported note.
    Insert,
}

pub open spec fn import_action_spec(
    existing: Option<(i64, Seq<char>, i64)>,
    incoming_updated: i64,
    overwrite: bool,
) -> ImportAction {
    match existing {
        None => ImportAction::Insert,
        Some((id, origin, existing_updated)) => if origin == "local"@ {
            ImportAction::Skip
        } else if overwrite || incoming_updated > existing_updated {
            ImportAction::Overwrite(id)
        } else {
            ImportAction::Skip
        },
    }
}

/// Import dedup by uuid: a note matching one of the user's **local** notes is
/// already present; one matching an **imported** note overwrites it if
/// `overwrite` is set or the incoming copy is strictly newer; anything else is
/// inserted. `existing` is the user's note with the same uuid, as
/// `(id, origin, updated_at)`.
pub fn import_action(existing: &Option<(i64, String, i64)>, incoming_updated: i64, overwrite: bool) -> (a: ImportAction)
    ensures
        a == import_action_spec(
            match existing {
                Some((id, o, u)) => Some((*id, o@, *u)),
                None => None,
            },
            incoming_updated,
            overwrite,
        ),
{
    match existing {
        None => ImportAction::Insert,
        Some((id, origin, existing_updated)) => {
            if str_eq(origin.as_str(), "local") {
                ImportAction::Skip
            } else if overwrite || incoming_updated > *existing_updated {
                ImportAction::Overwrite(*id)
            } else {
                ImportAction::Skip
            }
        },
    }
}

/// One attachment's effect on an imported note's content: its token, if the
/// content carries it, is rewritten to the attachment's new uid; otherwise a
/// token for the new uid is appended after a blank line.
pub open spec fn retoken(content: Seq<char>, old_uid: Seq<char>, new_uid: Seq<char>) -> Seq<char> {
    if old_uid.len() > 0 && contains_seq(content, attach_token(old_uid)) {
        replace_all(content, attach_token(old_uid), attach_token(new_uid))
    } else {
        content + seq!['\n', '\n'] + attach_token(new_uid)
    }
}

/// The content after the first `k` attachments are retokened, in order.
pub open spec fn retoken_all(
    content: Seq<char>,
    atts: Seq<ExportAttachment>,
    new_uids: Seq<String>,
    k: int,
) -> Seq<char>
    decreases k,
{
    if k <= 0 {
        content
    } else {
        retoken(retoken_all(content, atts, new_uids, k - 1), atts[k - 1].uid@, new_uids[k - 1]@)
    }
}

/// The content an imported note is stored with, or `None` for a note that is
/// skipped because its content or uuid is blank.
pub open spec fn import_content_spec(note: ExportNote, new_uids: Seq<String>) -> Option<Seq<char>> {
    if trim_seq(note.content@).len() == 0 || trim_seq(note.uuid@).len() == 0 {
        None
    } else {
        Some(
            retoken_all(
                trim_seq(note.content@),
                note.attachments@,
                new_uids,
                note.attachments@.len() as int,
            ),
        )
    }
}

fn token_string(uid: &String) -> (out: String)
    ensures
        out@ == attach_token(uid@),
{
    let mut out = String::new();
    out.append("{{attach:");
    out.append(uid.as_str());
    out.append("}}");
    proof {
        reveal_strlit("{{attach:");
        reveal_strlit("}}");
        assert(out@ =~= attach_token(uid@));
    }
    out
}

/// The content a note is imported with: trimmed, with each attachment's token
/// moved to the fresh uid it is stored under (`new_uids[i]` for
/// `attachments[i]`); `None` when the note is skipped for a blank content or
/// uuid.
pub fn import_content(note: &ExportNote, new_uids: &Vec<String>) -> (r: Option<String>)
    requires
        new_uids@.len() == note.attachments@.len(),
    ensures
        match r {
            Some(c) => import_content_spec(*note, new_uids@) == Some(c@),
            None => import_content_spec(*note, new_uids@) is None,
        },
{
    let cv = chars_of(note.content.as_str());
    assert(cv@.subrange(0, cv@.len() as int) =~= cv@);
    let (a, b) = trim_bounds(&cv, 0, cv.len());
    let uv = chars_of(note.uuid.as_str());
    assert(uv@.subrange(0, uv@.len() as int) =~= uv@);
    let (c, d) = trim_bounds(&uv, 0, uv.len());
    if a == b || c == d {
        return None;
    }
    let mut content = string_from_range(&cv, a, b);
    let mut k: usize = 0;
    while k < note.attachments.len()
        invariant
            k <= note.attachments@.len(),
            new_uids@.len() == note.attachments@.len(),
            content@ == retoken_all(
                trim_seq(note.content@),
                note.attachments@,
                new_uids@,
                k as int,
            ),
        decreases note.attachments.len() - k,
    {
        let att = &note.attachments[k];
        let new_token = token_string(&new_uids[k]);
        let old_token = token_string(&att.uid);
        let has_uid = !str_eq(att.uid.as_str(), "");
        proof {
            reveal_strlit("");
            assert(""@ =~= Seq::<char>::empty());
            if att.uid@.len() == 0 {
                assert(att.uid@ =~= ""@);
            }
            assert(has_uid == (att.uid@.len() > 0));
        }
        let ghost prev = content@;
        if has_uid && contains_str(content.as_str(), old_token.as_str()) {
            let cc = chars_of(content.as_str());
            let oc = chars_of(old_token.as_str());
            let nc = chars_of(new_token.as_str());
            content = replace_chars(&cc, &oc, &nc);
        } else {
            push_char(&mut content, '\n');
            push_char(&mut content, '\n');
            content.append(new_token.as_str());
            assert(content@ =~= prev + seq!['\n', '\n'] + attach_token(new_uids@[k as int]@));
        }
        assert(content@ == retoken(prev, note.attachments@[k as int].uid@, new_uids@[k as int]@));
        k += 1;
    }
    Some(content)
}

/// Outcome of an import run, surfaced to the user.
#[derive(Debug, Clone, Copy)]
pub struct ImportSummary {
    pub inserted: usize,
    pub updated: usize,
    pub skipped: usize,
}

impl Default for ImportSummary {
    fn default() -> (s: Self)
        ensures
            s.inserted == 0 && s.updated == 0 && s.skipped == 0,
    {
        ImportSummary { inserted: 0, updated: 0, skipped: 0 }
    }
}

/// The counts of a summary as `(inserted, updated, skipped)`.
pub open spec fn summary_counts(s: ImportSummary) -> (int, int, int) {
    (s.inserted as int, s.updated as int, s.skipped as int)
}

/// The counts once one more note is recorded under `action`.
pub open spec fn recorded(s: ImportSummary, action: ImportAction) -> (int, int, int) {
    match action {
        ImportAction::Insert => (s.inserted + 1, s.updated as int, s.skipped as int),
        ImportAction::Overwrite(_) => (s.inserted as int, s.updated + 1, s.skipped as int),
        ImportAction::Skip => (s.inserted as int, s.updated as int, s.skipped + 1),
    }
}

impl ImportSummary {
    /// Count one note under what the import did with it.
    pub fn record(&mut self, action: ImportAction)
        requires
            action == ImportAction::Insert ==> old(self).inserted < usize::MAX,
            action matches ImportAction::Overwrite(_) ==> old(self).updated < usize::MAX,
            action == ImportAction::Skip ==> old(self).skipped < usize::MAX,
        ensures
            summary_counts(*final(self)) == recorded(*old(self), action),
    {
        match action {
            ImportAction::Insert => self.inserted = self.inserted + 1,
            ImportAction::Overwrite(_) => self.updated = self.updated + 1,
            ImportAction::Skip => self.skipped = self.skipped + 1,
        }
    }
}

/// Every note of an import is counted exactly once: recording a note adds one
/// to the total, whatever the import did with it.
pub proof fn lemma_import_counts_each_note(s: ImportSummary, action: ImportAction)
    ensures
        recorded(s, action).0 + recorded(s, action).1 + recorded(s, action).2 == s.inserted
            + s.updated + s.skipped + 1,
{
}

/// The counts after recording `actions` in order on a fresh summary.
pub open spec fn counts_after(actions: Seq<ImportAction>) -> (int, int, int)
    decreases actions.len(),
{
    if actions.len() == 0 {
        (0, 0, 0)
    } else {
        let (i, u, k) = counts_after(actions.drop_last());
        match actions.last() {
            ImportAction::Insert => (i + 1, u, k),
            ImportAction::Overwrite(_) => (i, u + 1, k),
            ImportAction::Skip => (i, u, k + 1),
        }
    }
}

/// An import run counts every note of the file once: the three counts add up
/// to the number of notes.
pub proof fn lemma_import_counts_all_notes(actions: Seq<ImportAction>)
    ensures
        counts_after(actions).0 + counts_after(actions).1 + counts_after(actions).2
            == actions.len(),
    decreases actions.len(),
{
    if actions.len() > 0 {
        lemma_import_counts_all_notes(actions.drop_last());
    }
}

/// Recording one more action on a summary that holds the counts of `actions`
/// gives the counts of `actions` followed by it.
pub proof fn lemma_record_extends(s: ImportSummary, actions: Seq<ImportAction>, action: ImportAction)
    requires
        summary_counts(s) == counts_after(actions),
    ensures
        recorded(s, action) == counts_after(actions.push(action)),
{
    assert(actions.push(action).drop_last() =~= actions);
}

/// The user's row for a note's uuid, as `(id, origin, updated_at)`, after the
/// import acted on the note: one inserted (as `new_id`) or overwritten now
/// carries the incoming `updated_at` under origin `imported`; a skipped one is
/// left as it was.
pub open spec fn row_after(
    existing: Option<(i64, Seq<char>, i64)>,
    incoming_updated: i64,
    action: ImportAction,
    new_id: i64,
) -> Option<(i64, Seq<char>, i64)> {
    match action {
        ImportAction::Insert => Some((new_id, "imported"@, incoming_updated)),
        ImportAction::Overwrite(id) => Some((id, "imported"@, incoming_updated)),
        ImportAction::Skip => existing,
    }
}

/// A row that an import without overwrite leaves alone: a note written here,
/// or an imported copy at least as new as the incoming one.
pub open spec fn settled(existing: Option<(i64, Seq<char>, i64)>, incoming_updated: i64) -> bool {
    existing matches Some(e) && (e.1 == "local"@ || incoming_updated <= e.2)
}

/// Once a note has been imported, whatever the import did with it, its row is
/// settled: importing the same note again without overwrite skips it.
pub proof fn lemma_import_settles(
    existing: Option<(i64, Seq<char>, i64)>,
    incoming_updated: i64,
    overwrite: bool,
    new_id: i64,
)
    ensures
        settled(
            row_after(
                existing,
                incoming_updated,
                import_action_spec(existing, incoming_updated, overwrite),
                new_id,
            ),
            incoming_updated,
        ),
        import_action_spec(
            row_after(
                existing,
                incoming_updated,
                import_action_spec(existing, incoming_updated, overwrite),
                new_id,
            ),
            incoming_updated,
            false,
        ) == ImportAction::Skip,
{
}

/// The user's row for `uuid` in a table of notes keyed by uuid.
pub open spec fn found_row(t: Map<Seq<char>, (i64, Seq<char>, i64)>, uuid: Seq<char>) -> Option<
    (i64, Seq<char>, i64),
> {
    if t.contains_key(uuid) {
        Some(t[uuid])
    } else {
        None
    }
}

/// One note of an import run, given as `(uuid, updated_at, usable)` where
/// `usable` says whether its content could be rewritten (`import_content`
/// gave some): the table after it and what was done. An unusable note is
/// skipped; a note inserted gets the row id `new_id`.
pub open spec fn import_step(
    t: Map<Seq<char>, (i64, Seq<char>, i64)>,
    note: (Seq<char>, i64, bool),
    overwrite: bool,
    new_id: i64,
) -> (Map<Seq<char>, (i64, Seq<char>, i64)>, ImportAction) {
    if !note.2 {
        (t, ImportAction::Skip)
    } else {
        let existing = found_row(t, note.0);
        let action = import_action_spec(existing, note.1, overwrite);
        (
            match row_after(existing, note.1, action, new_id) {
                Some(r) => t.insert(note.0, r),
                None => t,
            },
            action,
        )
    }
}

/// An import run over `notes` in order, the `i`-th insert taking row id
/// `ids[i]`: the table after it and the action taken for each note.
pub open spec fn import_run(
    t: Map<Seq<char>, (i64, Seq<char>, i64)>,
    notes: Seq<(Seq<char>, i64, bool)>,
    overwrite: bool,
    ids: Seq<i64>,
) -> (Map<Seq<char>, (i64, Seq<char>, i64)>, Seq<ImportAction>)
    decreases notes.len(),
{
    if notes.len() == 0 {
        (t, Seq::empty())
    } else {
        let prev = import_run(t, notes.drop_last(), overwrite, ids);
        let last = import_step(prev.0, notes.last(), overwrite, ids[notes.len() - 1]);
        (last.0, prev.1.push(last.1))
    }
}

proof fn lemma_step_keeps_settled(
    t: Map<Seq<char>, (i64, Seq<char>, i64)>,
    note: (Seq<char>, i64, bool),
    new_id: i64,
    u: Seq<char>,
    v: i64,
)
    requires
        settled(found_row(t, u), v),
    ensures
        settled(found_row(import_step(t, note, false, new_id).0, u), v),
{
}

proof fn lemma_run_settles(
    t: Map<Seq<char>, (i64, Seq<char>, i64)>,
    notes: Seq<(Seq<char>, i64, bool)>,
    ids: Seq<i64>,
)
    ensures
        forall|i: int|
            0 <= i < notes.len() && (#[trigger] notes[i]).2 ==> settled(
                found_row(import_run(t, notes, false, ids).0, notes[i].0),
                notes[i].1,
            ),
    decreases notes.len(),
{
    if notes.len() > 0 {
        let n = notes.len() - 1;
        let pre = notes.drop_last();
        lemma_run_settles(t, pre, ids);
        let t1 = import_run(t, pre, false, ids).0;
        assert forall|i: int| 0 <= i < notes.len() && (#[trigger] notes[i]).2 implies settled(
            found_row(import_run(t, notes, false, ids).0, notes[i].0),
            notes[i].1,
        ) by {
            if i < n {
                assert(pre[i] == notes[i]);
                lemma_step_keeps_settled(t1, notes[n], ids[n], notes[i].0, notes[i].1);
            } else {
                lemma_import_settles(found_row(t1, notes[n].0), notes[n].1, false, ids[n]);
            }
        }
    }
}

proof fn lemma_run_on_settled(
    t: Map<Seq<char>, (i64, Seq<char>, i64)>,
    notes: Seq<(Seq<char>, i64, bool)>,
    ids: Seq<i64>,
)
    requires
        forall|i: int|
            0 <= i < notes.len() && (#[trigger] notes[i]).2 ==> settled(
                found_row(t, notes[i].0),
                notes[i].1,
            ),
    ensures
        import_run(t, notes, false, ids).0 == t,
        import_run(t, notes, false, ids).1.len() == notes.len(),
        forall|i: int|
            0 <= i < notes.len() ==> #[trigger] import_run(t, notes, false, ids).1[i]
                == ImportAction::Skip,
        counts_after(import_run(t, notes, false, ids).1) == (0int, 0int, notes.len() as int),
    decreases notes.len(),
{
    if notes.len() > 0 {
        let n = notes.len() - 1;
        let pre = notes.drop_last();
        assert forall|i: int| 0 <= i < pre.len() && (#[trigger] pre[i]).2 implies settled(
            found_row(t, pre[i].0),
            pre[i].1,
        ) by {
            assert(pre[i] == notes[i]);
        }
        lemma_run_on_settled(t, pre, ids);
        let acts = import_run(t, notes, false, ids).1;
        let note = notes[n];
        if note.2 {
            assert(settled(found_row(t, note.0), note.1));
            assert(t.insert(note.0, t[note.0]) =~= t);
        }
        assert(acts.drop_last() =~= import_run(t, pre, false, ids).1);
    }
}

/// Importing the same file a second time without overwrite changes nothing:
/// after a run without overwrite, a second run over the same notes leaves
/// every row as it was, and its summary counts no insert, no update and every
/// note as skipped.
pub proof fn lemma_import_twice_changes_nothing(
    t: Map<Seq<char>, (i64, Seq<char>, i64)>,
    notes: Seq<(Seq<char>, i64, bool)>,
    ids1: Seq<i64>,
    ids2: Seq<i64>,
)
    ensures
        import_run(import_run(t, notes, false, ids1).0, notes, false, ids2).0 == import_run(
            t,
            notes,
            false,
            ids1,
        ).0,
        counts_after(import_run(import_run(t, notes, false, ids1).0, notes, false, ids2).1) == (
            0int,
            0int,
            notes.len() as int,
        ),
{
    lemma_run_settles(t, notes, ids1);
    lemma_run_on_settled(import_run(t, notes, false, ids1).0, notes, ids2);
}

/// An imported note never replaces one the user wrote here, and a note already
/// imported is only replaced by a strictly newer copy unless overwriting was
/// asked for.
pub proof fn lemma_import_protects_local_notes(
    id: i64,
    origin: Seq<char>,
    existing_updated: i64,
    incoming_updated: i64,
    overwrite: bool,
)
    ensures
        origin == "local"@ ==> import_action_spec(
            Some((id, origin, existing_updated)),
            incoming_updated,
            overwrite,
        ) == ImportAction::Skip,
        origin != "local"@ && !overwrite && incoming_updated <= existing_updated
            ==> import_action_spec(Some((id, origin, existing_updated)), incoming_updated, overwrite)
            == ImportAction::Skip,
        import_action_spec(None, incoming_updated, overwrite) == ImportAction::Insert,
{
}

/// The content after the first `k` attachments are retokened carries a token
/// for each of their new uids.
proof fn lemma_retoken_all_references(
    content: Seq<char>,
    atts: Seq<ExportAttachment>,
    new_uids: Seq<String>,
    k: int,
)
    requires
        0 <= k <= atts.len(),
        new_uids.len() == atts.len(),
        forall|i: int, x: int|
            0 <= i < new_uids.len() && 0 <= x < new_uids[i]@.len() ==> is_uid_char_spec(
                #[trigger] new_uids[i]@[x],
            ),
        forall|i: int, x: int|
            0 <= i < atts.len() && 0 <= x < atts[i].uid@.len() ==> is_uid_char_spec(
                #[trigger] atts[i].uid@[x],
            ),
        forall|i: int, j: int|
            0 <= i < new_uids.len() && 0 <= j < new_uids.len() && i != j ==> #[trigger] new_uids[i]@
                != #[trigger] new_uids[j]@,
        forall|i: int, j: int|
            0 <= i < new_uids.len() && 0 <= j < atts.len() ==> #[trigger] new_uids[i]@
                != #[trigger] atts[j].uid@,
    ensures
        forall|j: int|
            0 <= j < k ==> contains_seq(
                retoken_all(content, atts, new_uids, k),
                attach_token(#[trigger] new_uids[j]@),
            ),
    decreases k,
{
    if k > 0 {
        lemma_retoken_all_references(content, atts, new_uids, k - 1);
        let c = retoken_all(content, atts, new_uids, k - 1);
        let old = atts[k - 1].uid@;
        let new = new_uids[k - 1]@;
        let to = attach_token(old);
        let tn = attach_token(new);
        assert forall|x: int| 0 <= x < old.len() implies is_uid_char_spec(#[trigger] old[x]) by {
            assert(is_uid_char_spec(atts[k - 1].uid@[x]));
        }
        if old.len() > 0 && contains_seq(c, to) {
            let r = replace_all(c, to, tn);
            let q = choose|q: int| occurs_at(c, q, to);
            lemma_replace_inserts(c, 0, q, to, tn);
            assert forall|j: int| 0 <= j < k implies contains_seq(r, attach_token(#[trigger] new_uids[j]@)) by {
                if j < k - 1 {
                    let nj = new_uids[j]@;
                    let tj = attach_token(nj);
                    let p = choose|p: int| occurs_at(c, p, tj);
                    assert forall|x: int| 0 <= x < nj.len() implies is_uid_char_spec(#[trigger] nj[x]) by {
                        assert(is_uid_char_spec(new_uids[j]@[x]));
                    }
                    assert(nj != old) by {
                        assert(new_uids[j]@ != atts[k - 1].uid@);
                    }
                    assert forall|q2: int| 0 <= q2 && occurs_at(c, q2, to) implies q2 + to.len() <= p
                        || q2 >= p + tj.len() by {
                        lemma_attach_tokens_apart(c, p, nj, q2, old);
                    }
                    lemma_replace_keeps(c, 0, p, tj, to, tn);
                }
            }
        } else {
            let c2 = c + seq!['\n', '\n'] + tn;
            let at: int = c.len() as int + 2;
            assert(c2.subrange(at, at + tn.len()) =~= tn);
            assert(occurs_at(c2, at, tn));
            assert forall|j: int| 0 <= j < k implies contains_seq(c2, attach_token(#[trigger] new_uids[j]@)) by {
                if j < k - 1 {
                    let tj = attach_token(new_uids[j]@);
                    let p = choose|p: int| occurs_at(c, p, tj);
                    assert(c2.subrange(p, p + tj.len()) =~= c.subrange(p, p + tj.len()));
                    assert(occurs_at(c2, p, tj));
                }
            }
        }
    }
}

/// An import references every attachment it stores: the imported content
/// carries a `{{attach:UID}}` token for each new uid, whether the note's own
/// token was moved to it or a token was appended. Stated for uids made of uid
/// characters, the new ones distinct from each other and from the note's own.
pub proof fn lemma_import_references_new_uids(note: ExportNote, new_uids: Seq<String>)
    requires
        new_uids.len() == note.attachments@.len(),
        forall|i: int, x: int|
            0 <= i < new_uids.len() && 0 <= x < new_uids[i]@.len() ==> is_uid_char_spec(
                #[trigger] new_uids[i]@[x],
            ),
        forall|i: int, x: int|
            0 <= i < note.attachments@.len() && 0 <= x < note.attachments@[i].uid@.len()
                ==> is_uid_char_spec(#[trigger] note.attachments@[i].uid@[x]),
        forall|i: int, j: int|
            0 <= i < new_uids.len() && 0 <= j < new_uids.len() && i != j ==> #[trigger] new_uids[i]@
                != #[trigger] new_uids[j]@,
        forall|i: int, j: int|
            0 <= i < new_uids.len() && 0 <= j < note.attachments@.len() ==> #[trigger] new_uids[i]@
                != #[trigger] note.attachments@[j].uid@,
        import_content_spec(note, new_uids) is Some,
    ensures
        forall|j: int|
            0 <= j < new_uids.len() ==> contains_seq(
                import_content_spec(note, new_uids)->0,
                attach_token(#[trigger] new_uids[j]@),
            ),
{
    lemma_retoken_all_references(
        trim_seq(note.content@),
        note.attachments@,
        new_uids,
        note.attachments@.len() as int,
    );
}

} // verus!
