//! Template-ready data: memo cards and the activity heatmap.
use vstd::prelude::*;

use crate::db::memos::{LinkRef, LinkTarget, visible_to, viewer_of};
use crate::markdown::{
    InlineAttachment, InlineMemoLink, excerpt, excerpt_spec, extract_memo_refs, inline_html,
    lemma_locked_links_render_alike, same_shown_links,
    memo_refs, memo_token, render_with_inlines, views,
};
use crate::models::{Memo, MemoOrigin, MemoState, ResourceMeta, User, Visibility, visibility_text};
use crate::text::{
    chars_of, i64_text, int_decimal, nat_decimal, occurs_at, push_char, push_chars, repeat_char,
    starts_with, str_eq, usize_text,
};

verus! {

/// Template-ready memo: markdown pre-rendered, times pre-formatted,
/// permissions resolved against the viewer.
pub struct MemoView {
    pub id: i64,
    pub uid: String,
    pub uuid: String,
    /// The `{{memo:UUID}}` markup that links to this note, for the "Ref" copy button.
    pub link_token: String,
    pub username: String,
    pub raw: String,
    pub html: String,
    pub visibility: &'static str,
    pub pinned: bool,
    pub archived: bool,
    pub created_iso: String,
    pub created_display: String,
    pub can_edit: bool,
    pub section_id: Option<i64>,
    pub is_imported: bool,
}

/// Human-readable attachment size limit for the composer's paperclip tooltip.
/// `0` means uncapped (see `Config::max_upload_mb`).
pub fn upload_limit_label(max_upload_mb: usize) -> (label: String)
    ensures
        max_upload_mb == 0 ==> label@ == "no size limit"@,
        max_upload_mb > 0 ==> label@ == "max "@ + int_decimal(max_upload_mb as int) + " MB"@,
{
    if max_upload_mb == 0 {
        String::from_str("no size limit")
    } else {
        let mut label = String::from_str("max ");
        let n = usize_text(max_upload_mb);
        label.append(n.as_str());
        label.append(" MB");
        label
    }
}

/// The unix timestamps that `time` represents: from -9999-01-01 00:00:00 to
/// 9999-12-31 23:59:59 UTC.
pub open spec fn unix_ts_in_range(ts: i64) -> bool {
    -377705116800 <= ts <= 253402300799
}

/// The RFC 3339 text `time` formats for a representable unix timestamp, `None`
/// where it refuses to format it.
pub uninterp spec fn rfc3339_text(ts: i64) -> Option<Seq<char>>;

pub open spec fn opt_text(o: Option<String>) -> Option<Seq<char>> {
    match o {
        Some(t) => Some(t@),
        None => None,
    }
}

/// `OffsetDateTime::from_unix_timestamp`, then `format(&Rfc3339)`: `None` for
/// a timestamp out of `time`'s range (its `ComponentRange` error), else the
/// outcome of formatting, its error dropped. The text is named.
#[verifier::external_body]
fn rfc3339_at(ts: i64) -> (r: Option<Option<String>>)
    ensures
        r is Some <==> unix_ts_in_range(ts),
        r matches Some(f) ==> opt_text(f) == rfc3339_text(ts),
{
    match time::OffsetDateTime::from_unix_timestamp(ts) {
        Ok(dt) => Some(dt.format(&time::format_description::well_known::Rfc3339).ok()),
        Err(_) => None,
    }
}

/// The Julian day of 1970-01-01, the unix epoch.
pub open spec fn unix_epoch_julian_day() -> int {
    2440588
}

/// The UTC calendar fields `(year, month, day, hour, minute)` of a unix
/// timestamp: the civil date of its day, counted in whole days of 86400
/// seconds from the epoch (rounding down), and the hour and minute of the
/// seconds left.
pub open spec fn utc_parts_of(ts: i64) -> (i32, u8, u8, u8, u8) {
    let t = ts as int;
    let secs = t % 86400;
    let (y, m, d) = civil_date((t / 86400 + unix_epoch_julian_day()) as i32);
    (y, m, d, (secs / 3600) as u8, ((secs % 3600) / 60) as u8)
}

/// `OffsetDateTime::from_unix_timestamp` and its `year`, `month`, `day`,
/// `hour` and `minute`: `None` for a timestamp out of `time`'s range, else the
/// UTC date and time of day of the timestamp, within the ranges `time`
/// documents.
#[verifier::external_body]
fn utc_parts(ts: i64) -> (r: Option<(i32, u8, u8, u8, u8)>)
    ensures
        r is Some <==> unix_ts_in_range(ts),
        r matches Some(p) ==> p == utc_parts_of(ts) && -9999 <= p.0 <= 9999 && 1 <= p.1 <= 12 && 1
            <= p.2 <= 31 && p.3 < 24 && p.4 < 60,
{
    match time::OffsetDateTime::from_unix_timestamp(ts) {
        Ok(dt) => Some((dt.year(), u8::from(dt.month()), dt.day(), dt.hour(), dt.minute())),
        Err(_) => None,
    }
}

/// The fields shown for a timestamp: its own, the epoch's for one out of range.
pub open spec fn shown_parts(ts: i64) -> (i32, u8, u8, u8, u8) {
    if unix_ts_in_range(ts) {
        utc_parts_of(ts)
    } else {
        (1970, 1, 1, 0, 0)
    }
}

/// The RFC 3339 text shown for a timestamp: the epoch's for one out of range,
/// empty where formatting fails.
pub open spec fn iso_text(ts: i64) -> Seq<char> {
    match rfc3339_text(if unix_ts_in_range(ts) { ts } else { 0 }) {
        Some(t) => t,
        None => Seq::empty(),
    }
}

/// The decimal digits of `n`, padded with zeros on the left to `width`.
pub open spec fn padded(n: nat, width: nat) -> Seq<char> {
    let d = nat_decimal(n);
    if d.len() < width {
        repeat_char('0', (width - d.len()) as nat) + d
    } else {
        d
    }
}

/// A year as `time` writes `[year]`: a `-` for negatives, then at least four
/// digits.
pub open spec fn time_year_text(y: int) -> Seq<char> {
    if y < 0 {
        seq!['-'] + padded((-y) as nat, 4)
    } else {
        padded(y as nat, 4)
    }
}

/// The `[year]-[month]-[day] [hour]:[minute] UTC` text of calendar fields.
pub open spec fn utc_display_spec(p: (i32, u8, u8, u8, u8)) -> Seq<char> {
    time_year_text(p.0 as int) + seq!['-'] + padded(p.1 as nat, 2) + seq!['-'] + padded(
        p.2 as nat,
        2,
    ) + seq![' '] + padded(p.3 as nat, 2) + seq![':'] + padded(p.4 as nat, 2) + " UTC"@
}

pub open spec fn utc_display_text(ts: i64) -> Seq<char> {
    utc_display_spec(shown_parts(ts))
}

/// Append the decimal digits of `n`, zero-padded to `width`.
fn push_padded(out: &mut String, n: u32, width: usize)
    requires
        width <= 16,
    ensures
        final(out)@ == old(out)@ + padded(n as nat, width as nat),
{
    let digits = i64_text(n as i64);
    let dv = chars_of(digits.as_str());
    proof {
        assert(int_decimal(n as int) == nat_decimal(n as nat));
    }
    let mut fill: usize = 0;
    if dv.len() < width {
        fill = width - dv.len();
    }
    let mut k: usize = 0;
    while k < fill
        invariant
            k <= fill,
            out@ == old(out)@ + repeat_char('0', k as nat),
        decreases fill - k,
    {
        push_char(out, '0');
        k += 1;
    }
    push_chars(out, &dv);
    assert(out@ =~= old(out)@ + padded(n as nat, width as nat));
}

/// The `YYYY-MM-DD HH:MM UTC` text of a unix timestamp.
fn utc_display_at(ts: i64) -> (text: String)
    ensures
        text@ == utc_display_text(ts),
{
    let (y, mo, d, h, mi) = match utc_parts(ts) {
        Some(p) => p,
        None => (1970, 1, 1, 0, 0),
    };
    let mut text = String::new();
    if y < 0 {
        push_char(&mut text, '-');
        push_padded(&mut text, (0i64 - (y as i64)) as u32, 4);
    } else {
        push_padded(&mut text, y as u32, 4);
    }
    push_char(&mut text, '-');
    push_padded(&mut text, mo as u32, 2);
    push_char(&mut text, '-');
    push_padded(&mut text, d as u32, 2);
    push_char(&mut text, ' ');
    push_padded(&mut text, h as u32, 2);
    push_char(&mut text, ':');
    push_padded(&mut text, mi as u32, 2);
    text.append(" UTC");
    assert(text@ =~= utc_display_spec((y, mo, d, h, mi)));
    text
}

/// A timestamp as machine-readable RFC 3339 and as the UTC text shown until the
/// page's script rewrites it to the viewer's locale.
pub fn format_times(ts: i64) -> (times: (String, String))
    ensures
        times.0@ == iso_text(ts),
        times.1@ == utc_display_text(ts),
{
    let formatted = match rfc3339_at(ts) {
        Some(f) => f,
        None => match rfc3339_at(0) {
            Some(f) => f,
            None => None,
        },
    };
    let iso = match formatted {
        Some(t) => t,
        None => String::new(),
    };
    (iso, utc_display_at(ts))
}

/// Whether a viewer may see a link target's title, mirroring `db::memos::can_view`
/// but working from the bare visibility + author id we resolved for the link.
fn link_viewable(visibility: Visibility, author_id: i64, viewer: Option<&User>) -> (b: bool)
    ensures
        b == visible_to(visibility, author_id, viewer_of(viewer)),
{
    match visibility {
        Visibility::Public => true,
        Visibility::Protected => viewer.is_some(),
        Visibility::Private => match viewer {
            Some(u) => u.id == author_id,
            None => false,
        },
    }
}

/// The index of the first resolved link for `(author_id, uuid)`.
pub open spec fn find_link(refs: Seq<LinkRef>, author_id: i64, uuid: Seq<char>, k: int) -> Option<int>
    decreases refs.len() - k,
{
    if k < 0 || k >= refs.len() {
        None
    } else if refs[k].author_id == author_id && refs[k].uuid@ == uuid {
        Some(k)
    } else {
        find_link(refs, author_id, uuid, k + 1)
    }
}

fn lookup_link(refs: &[LinkRef], author_id: i64, uuid: &String) -> (r: Option<usize>)
    ensures
        match r {
            Some(k) => find_link(refs@, author_id, uuid@, 0) == Some(k as int) && k < refs@.len(),
            None => find_link(refs@, author_id, uuid@, 0) is None,
        },
{
    let mut k: usize = 0;
    while k < refs.len()
        invariant
            k <= refs@.len(),
            find_link(refs@, author_id, uuid@, 0) == find_link(refs@, author_id, uuid@, k as int),
        decreases refs.len() - k,
    {
        if refs[k].author_id == author_id && str_eq(refs[k].uuid.as_str(), uuid.as_str()) {
            return Some(k);
        }
        k += 1;
    }
    None
}

/// The inline link for one referenced uuid resolved to `t`: its title is shown
/// only to a viewer allowed to see the target.
pub open spec fn link_view_for(uuid: Seq<char>, t: LinkTarget, author_id: i64, viewer: Option<User>) -> (
    Seq<char>,
    Seq<char>,
    Seq<char>,
    bool,
) {
    let v = visible_to(t.visibility, author_id, viewer);
    (uuid, t.uid@, if v {
        excerpt_spec(t.content@, 60)
    } else {
        Seq::empty()
    }, v)
}

/// The inline links of the referenced uuids that resolve in the author's
/// notebook, in order; unresolved ones are left to the broken-link pass.
pub open spec fn resolved_links(
    uuids: Seq<Seq<char>>,
    refs: Seq<LinkRef>,
    author_id: i64,
    viewer: Option<User>,
) -> Seq<(Seq<char>, Seq<char>, Seq<char>, bool)>
    decreases uuids.len(),
{
    if uuids.len() == 0 {
        Seq::empty()
    } else {
        let prev = resolved_links(uuids.drop_last(), refs, author_id, viewer);
        match find_link(refs, author_id, uuids.last(), 0) {
            Some(k) => prev.push(link_view_for(uuids.last(), refs[k].target, author_id, viewer)),
            None => prev,
        }
    }
}

/// Attachments as inline items: images are those whose content type starts
/// with `image/`.
pub open spec fn attachment_items(atts: Seq<ResourceMeta>) -> Seq<(Seq<char>, Seq<char>, bool)> {
    atts.map_values(|r: ResourceMeta| (r.uid@, r.filename@, occurs_at(r.content_type@, 0, "image/"@)))
}

/// An attachment is shown as an inline image exactly when its content type
/// begins with `image/`, whatever the image format.
pub proof fn lemma_images_by_content_type(atts: Seq<ResourceMeta>, i: int)
    requires
        0 <= i < atts.len(),
    ensures
        attachment_items(atts)[i].2 <==> (atts[i].content_type@.len() >= 6
            && atts[i].content_type@[0] == 'i' && atts[i].content_type@[1] == 'm'
            && atts[i].content_type@[2] == 'a' && atts[i].content_type@[3] == 'g'
            && atts[i].content_type@[4] == 'e' && atts[i].content_type@[5] == '/'),
        attachment_items(atts)[i].0 == atts[i].uid@,
        attachment_items(atts)[i].1 == atts[i].filename@,
{
    let t = atts[i].content_type@;
    reveal_strlit("image/");
    if t.len() >= 6 {
        let p = t.subrange(0, 6);
        if t[0] == 'i' && t[1] == 'm' && t[2] == 'a' && t[3] == 'g' && t[4] == 'e' && t[5] == '/' {
            assert(p =~= "image/"@);
        }
        if p == "image/"@ {
            assert(p[0] == t[0] && p[1] == t[1] && p[2] == t[2] && p[3] == t[3] && p[4] == t[4]
                && p[5] == t[5]);
        }
    }
}

pub fn memo_view(
    memo: &Memo,
    viewer: Option<&User>,
    attachments: Vec<ResourceMeta>,
    link_targets: &[LinkRef],
) -> (v: MemoView)
    ensures
        v.id == memo.id,
        v.uid@ == memo.uid@,
        v.uuid@ == memo.uuid@,
        v.link_token@ == memo_token(memo.uuid@),
        v.username@ == memo.username@,
        v.raw@ == memo.content@,
        v.html@ == inline_html(
            memo.content@,
            attachment_items(attachments@),
            resolved_links(memo_refs(memo.content@), link_targets@, memo.user_id, viewer_of(viewer)),
        ),
        v.visibility@ == visibility_text(memo.visibility),
        v.pinned == memo.pinned,
        v.archived == (memo.state == MemoState::Archived),
        v.created_iso@ == iso_text(memo.created_at),
        v.created_display@ == utc_display_text(memo.created_at),
        v.can_edit == (viewer matches Some(u) && u.id == memo.user_id),
        v.section_id == memo.section_id,
        v.is_imported == (memo.origin == MemoOrigin::Imported),
{
    let (created_iso, created_display) = format_times(memo.created_at);
    let mut inline: Vec<InlineAttachment> = Vec::new();
    let mut k: usize = 0;
    while k < attachments.len()
        invariant
            k <= attachments@.len(),
            crate::markdown::att_views(inline@) == attachment_items(attachments@.take(k as int)),
        decreases attachments.len() - k,
    {
        let r = &attachments[k];
        let is_image = starts_with(r.content_type.as_str(), "image/");
        let ghost prev = crate::markdown::att_views(inline@);
        let item = InlineAttachment { uid: r.uid.clone(), filename: r.filename.clone(), is_image };
        let ghost iv = item@;
        inline.push(item);
        assert(crate::markdown::att_views(inline@) =~= prev.push(iv));
        assert(attachment_items(attachments@.take(k + 1)) =~= attachment_items(
            attachments@.take(k as int),
        ).push(iv));
        k += 1;
    }
    assert(attachments@.take(attachments@.len() as int) =~= attachments@);
    let uuids = extract_memo_refs(memo.content.as_str());
    let ghost uv = views(uuids@);
    let mut links: Vec<InlineMemoLink> = Vec::new();
    let mut j: usize = 0;
    while j < uuids.len()
        invariant
            j <= uuids@.len(),
            uv == views(uuids@),
            crate::markdown::link_views(links@) == resolved_links(
                uv.take(j as int),
                link_targets@,
                memo.user_id,
                viewer_of(viewer),
            ),
        decreases uuids.len() - j,
    {
        let uuid = &uuids[j];
        let found = lookup_link(link_targets, memo.user_id, uuid);
        let ghost prev = crate::markdown::link_views(links@);
        proof {
            assert(uv.take(j + 1).drop_last() =~= uv.take(j as int));
            assert(uv.take(j + 1).last() == uuid@);
        }
        if let Some(idx) = found {
            let t = &link_targets[idx].target;
            let viewable = link_viewable(t.visibility, memo.user_id, viewer);
            let title = if viewable {
                excerpt(t.content.as_str(), 60)
            } else {
                String::new()
            };
            links.push(InlineMemoLink { uuid: uuid.clone(), uid: t.uid.clone(), title, viewable });
            assert(crate::markdown::link_views(links@) =~= prev.push(
                link_view_for(uuid@, *t, memo.user_id, viewer_of(viewer)),
            ));
        }
        j += 1;
    }
    assert(uv.take(uv.len() as int) =~= uv);
    let html = render_with_inlines(memo.content.as_str(), inline.as_slice(), links.as_slice());
    let mut link_token = String::from_str("{{memo:");
    link_token.append(memo.uuid.as_str());
    link_token.append("}}");
    proof {
        reveal_strlit("{{memo:");
        reveal_strlit("}}");
        assert(link_token@ =~= memo_token(memo.uuid@));
    }
    let can_edit = match viewer {
        Some(u) => u.id == memo.user_id,
        None => false,
    };
    MemoView {
        id: memo.id,
        uid: memo.uid.clone(),
        uuid: memo.uuid.clone(),
        link_token,
        username: memo.username.clone(),
        raw: memo.content.clone(),
        html,
        visibility: memo.visibility.as_str(),
        pinned: memo.pinned,
        archived: memo.state == MemoState::Archived,
        created_iso,
        created_display,
        can_edit,
        section_id: memo.section_id,
        is_imported: memo.origin == MemoOrigin::Imported,
    }
}

/// The note that a link table resolves `uuid` to in `author`'s notebook: the
/// target of the first entry keyed `(author, uuid)`.
pub open spec fn target_for(r: Seq<LinkRef>, author: i64, uuid: Seq<char>) -> Option<LinkTarget> {
    match find_link(r, author, uuid, 0) {
        Some(k) => Some(r[k].target),
        None => None,
    }
}

/// Two link tables agree on `uuid` as far as the viewer can look: both leave
/// it unresolved, or both resolve it to notes of the same visibility that, if
/// the viewer may see them, have the same uid and content.
pub open spec fn same_target_at(
    r1: Seq<LinkRef>,
    r2: Seq<LinkRef>,
    author: i64,
    viewer: Option<User>,
    uuid: Seq<char>,
) -> bool {
    match (target_for(r1, author, uuid), target_for(r2, author, uuid)) {
        (None, None) => true,
        (Some(a), Some(b)) => a.visibility == b.visibility && (visible_to(a.visibility, author, viewer)
            ==> a.uid@ == b.uid@ && a.content@ == b.content@),
        _ => false,
    }
}

/// Two link tables that agree, for every uuid, on what the author's notebook
/// shows this viewer; entries of other authors may differ freely.
pub open spec fn same_visible_targets(
    r1: Seq<LinkRef>,
    r2: Seq<LinkRef>,
    author: i64,
    viewer: Option<User>,
) -> bool {
    forall|u: Seq<char>| #[trigger] same_target_at(r1, r2, author, viewer, u)
}

proof fn lemma_find_link_in_range(r: Seq<LinkRef>, author: i64, uuid: Seq<char>, k: int)
    ensures
        find_link(r, author, uuid, k) matches Some(i) ==> 0 <= i < r.len(),
    decreases r.len() - k,
{
    if 0 <= k < r.len() {
        lemma_find_link_in_range(r, author, uuid, k + 1);
    }
}

proof fn lemma_resolved_links_alike(
    uuids: Seq<Seq<char>>,
    r1: Seq<LinkRef>,
    r2: Seq<LinkRef>,
    author: i64,
    viewer: Option<User>,
)
    requires
        same_visible_targets(r1, r2, author, viewer),
    ensures
        same_shown_links(
            resolved_links(uuids, r1, author, viewer),
            resolved_links(uuids, r2, author, viewer),
        ),
    decreases uuids.len(),
{
    if uuids.len() > 0 {
        let u = uuids.last();
        lemma_resolved_links_alike(uuids.drop_last(), r1, r2, author, viewer);
        lemma_find_link_in_range(r1, author, u, 0);
        lemma_find_link_in_range(r2, author, u, 0);
        assert(same_target_at(r1, r2, author, viewer, u));
        let p1 = resolved_links(uuids.drop_last(), r1, author, viewer);
        let p2 = resolved_links(uuids.drop_last(), r2, author, viewer);
        match (find_link(r1, author, u, 0), find_link(r2, author, u, 0)) {
            (Some(k1), Some(k2)) => {
                let a = link_view_for(u, r1[k1].target, author, viewer);
                let b = link_view_for(u, r2[k2].target, author, viewer);
                assert forall|i: int| 0 <= i < p1.len() + 1 implies (#[trigger] p1.push(a)[i]).0
                    == p2.push(b)[i].0 && p1.push(a)[i].3 == p2.push(b)[i].3 && (p1.push(a)[i].3
                    ==> p1.push(a)[i].1 == p2.push(b)[i].1 && p1.push(a)[i].2 == p2.push(b)[i].2) by {
                    if i < p1.len() {
                        assert(p1.push(a)[i] == p1[i]);
                        assert(p2.push(b)[i] == p2[i]);
                        assert(p1[i].0 == p2[i].0);
                    }
                }
            },
            _ => {},
        }
    }
}

/// Other authors' notes and the uid and title of a note the viewer may not
/// see never reach a memo's view: for link tables that agree wherever the
/// viewer can look, the HTML that `memo_view` states is the same (no other
/// field of the view depends on the table).
pub proof fn lemma_hidden_targets_stay_hidden(
    memo: Memo,
    viewer: Option<User>,
    attachments: Seq<ResourceMeta>,
    r1: Seq<LinkRef>,
    r2: Seq<LinkRef>,
)
    requires
        same_visible_targets(r1, r2, memo.user_id, viewer),
    ensures
        inline_html(
            memo.content@,
            attachment_items(attachments),
            resolved_links(memo_refs(memo.content@), r1, memo.user_id, viewer),
        ) == inline_html(
            memo.content@,
            attachment_items(attachments),
            resolved_links(memo_refs(memo.content@), r2, memo.user_id, viewer),
        ),
{
    let content = memo.content@;
    lemma_resolved_links_alike(memo_refs(content), r1, r2, memo.user_id, viewer);
    lemma_locked_links_render_alike(
        content,
        attachment_items(attachments),
        resolved_links(memo_refs(content), r1, memo.user_id, viewer),
        resolved_links(memo_refs(content), r2, memo.user_id, viewer),
    );
}

/// The `(author, uuid)` pairs of the note links of `memos`, memo by memo.
pub open spec fn link_pairs(memos: Seq<Memo>) -> Seq<(i64, Seq<char>)>
    decreases memos.len(),
{
    if memos.len() == 0 {
        Seq::empty()
    } else {
        link_pairs(memos.drop_last()) + memo_refs(memos.last().content@).map_values(
            |u: Seq<char>| (memos.last().user_id, u),
        )
    }
}

pub open spec fn pair_views(v: Seq<(i64, String)>) -> Seq<(i64, Seq<char>)> {
    v.map_values(|p: (i64, String)| (p.0, p.1@))
}

/// Collect every `(author_user_id, uuid)` note-link pair referenced across `memos`.
pub fn link_ref_pairs(memos: &[Memo]) -> (pairs: Vec<(i64, String)>)
    ensures
        pair_views(pairs@) == link_pairs(memos@),
{
    let mut pairs: Vec<(i64, String)> = Vec::new();
    let mut m: usize = 0;
    while m < memos.len()
        invariant
            m <= memos@.len(),
            pair_views(pairs@) == link_pairs(memos@.take(m as int)),
        decreases memos.len() - m,
    {
        let refs = extract_memo_refs(memos[m].content.as_str());
        let ghost base = pair_views(pairs@);
        let ghost author = memos@[m as int].user_id;
        let mut r: usize = 0;
        while r < refs.len()
            invariant
                m < memos@.len(),
                author == memos@[m as int].user_id,
                r <= refs@.len(),
                pair_views(pairs@) == base + views(refs@).take(r as int).map_values(
                    |u: Seq<char>| (author, u),
                ),
            decreases refs.len() - r,
        {
            let ghost prev = pair_views(pairs@);
            pairs.push((memos[m].user_id, refs[r].clone()));
            proof {
                assert(pair_views(pairs@) =~= prev.push((author, refs@[r as int]@)));
                assert(views(refs@).take(r + 1) =~= views(refs@).take(r as int).push(
                    refs@[r as int]@,
                ));
                assert(views(refs@).take(r + 1).map_values(|u: Seq<char>| (author, u))
                    =~= views(refs@).take(r as int).map_values(|u: Seq<char>| (author, u)).push(
                    (author, refs@[r as int]@),
                ));
            }
            r += 1;
        }
        proof {
            assert(views(refs@).take(refs@.len() as int) =~= views(refs@));
            assert(memos@.take(m + 1).drop_last() =~= memos@.take(m as int));
            assert(memos@.take(m + 1).last() == memos@[m as int]);
        }
        m += 1;
    }
    assert(memos@.take(memos@.len() as int) =~= memos@);
    pairs
}

// ---------------------------------------------------------------------------
// Activity heatmap
// ---------------------------------------------------------------------------

/// One day square in the GitHub-style contribution grid.
pub struct ActivityCell {
    /// `YYYY-MM-DD`, or empty for trailing future-day padding cells.
    pub date: String,
    pub count: i64,
    /// Intensity bucket 0–4, mapped to colour in CSS.
    pub level: u8,
    /// Hover tooltip text (empty for padding cells).
    pub label: String,
}

pub struct MonthLabel {
    /// Three-letter abbreviation at a column where a new month begins, else empty.
    pub name: &'static str,
}

pub struct ActivityGrid {
    /// Column-major: one week per column, 7 days (Sun→Sat) each.
    pub cells: Vec<ActivityCell>,
    /// One entry per week column, aligned with `cells`.
    pub months: Vec<MonthLabel>,
    pub weeks: usize,
    pub total: i64,
}

/// The Julian day of `time`'s earliest date, -9999-01-01.
pub const MIN_JULIAN_DAY: i32 = -1930999;

/// The Julian day of `time`'s latest date, 9999-12-31.
pub const MAX_JULIAN_DAY: i32 = 5373484;

/// The proleptic Gregorian `(year, month, day)` of a Julian day: days are
/// counted from 0000-03-01 in 400-year eras of 146097 days, years run from
/// March, so that a leap day falls at a year's end.
pub open spec fn civil_date(jd: i32) -> (i32, u8, u8) {
    let z = jd - 1721120;
    let era = z / 146097;
    let doe = z % 146097;
    let yoe = (doe - doe / 1460 + doe / 36524 - doe / 146096) / 365;
    let doy = doe - (365 * yoe + yoe / 4 - yoe / 100);
    let mp = (5 * doy + 2) / 153;
    let d = doy - (153 * mp + 2) / 5 + 1;
    let m = if mp < 10 {
        mp + 3
    } else {
        mp - 9
    };
    let y = yoe + era * 400 + if m <= 2 {
        1int
    } else {
        0int
    };
    (y as i32, m as u8, d as u8)
}

/// The weekday of a Julian day, counted from Sunday as 0: Julian day 0 was a
/// Monday.
pub open spec fn weekday_from_sunday(jd: i32) -> u8 {
    ((jd + 1) % 7) as u8
}

/// `Date::from_julian_day`, within its documented range, and the date's year,
/// month number and day: the proleptic Gregorian calendar date of the day.
#[verifier::external_body]
fn date_of_julian(jd: i32) -> (d: (i32, u8, u8))
    requires
        MIN_JULIAN_DAY <= jd <= MAX_JULIAN_DAY,
    ensures
        d == civil_date(jd),
        -9999 <= d.0 <= 9999,
        1 <= d.1 <= 12,
        1 <= d.2 <= 31,
{
    let date = time::Date::from_julian_day(jd).unwrap_or(time::Date::MIN);
    (date.year(), u8::from(date.month()), date.day())
}

/// `Date::from_julian_day(jd).weekday().number_days_from_sunday()`: `weekday`
/// maps the Julian day's remainder by 7 to a weekday, 0 to Monday.
#[verifier::external_body]
fn days_from_sunday(jd: i32) -> (w: u8)
    requires
        MIN_JULIAN_DAY <= jd <= MAX_JULIAN_DAY,
    ensures
        w == weekday_from_sunday(jd),
        w < 7,
{
    time::Date::from_julian_day(jd).unwrap_or(time::Date::MIN).weekday().number_days_from_sunday()
}

/// A year as `{:04}` writes it: zero-padded to four characters, a `-` counting
/// as one of them.
pub open spec fn std_year_text(y: int) -> Seq<char> {
    if y < 0 {
        seq!['-'] + padded((-y) as nat, 3)
    } else {
        padded(y as nat, 4)
    }
}

/// The `YYYY-MM-DD` key of a Julian day, as the activity counts are keyed.
pub open spec fn date_key_spec(jd: i32) -> Seq<char> {
    let (y, m, d) = civil_date(jd);
    std_year_text(y as int) + seq!['-'] + padded(m as nat, 2) + seq!['-'] + padded(d as nat, 2)
}

fn date_key(jd: i32) -> (key: String)
    requires
        MIN_JULIAN_DAY <= jd <= MAX_JULIAN_DAY,
    ensures
        key@ == date_key_spec(jd),
{
    let (y, m, d) = date_of_julian(jd);
    let mut key = String::new();
    if y < 0 {
        push_char(&mut key, '-');
        push_padded(&mut key, (0i64 - (y as i64)) as u32, 3);
    } else {
        push_padded(&mut key, y as u32, 4);
    }
    push_char(&mut key, '-');
    push_padded(&mut key, m as u32, 2);
    push_char(&mut key, '-');
    push_padded(&mut key, d as u32, 2);
    assert(key@ =~= date_key_spec(jd));
    key
}

pub open spec fn level_spec(count: i64) -> u8 {
    if count == 0 {
        0
    } else if count == 1 {
        1
    } else if 2 <= count <= 3 {
        2
    } else if 4 <= count <= 6 {
        3
    } else {
        4
    }
}

/// The intensity bucket of a day's count.
pub fn level_of(count: i64) -> (level: u8)
    ensures
        level == level_spec(count),
{
    if count == 0 {
        0
    } else if count == 1 {
        1
    } else if 2 <= count && count <= 3 {
        2
    } else if 4 <= count && count <= 6 {
        3
    } else {
        4
    }
}

pub open spec fn month_abbr_spec(m: u8) -> Seq<char> {
    if m == 1 {
        "Jan"@
    } else if m == 2 {
        "Feb"@
    } else if m == 3 {
        "Mar"@
    } else if m == 4 {
        "Apr"@
    } else if m == 5 {
        "May"@
    } else if m == 6 {
        "Jun"@
    } else if m == 7 {
        "Jul"@
    } else if m == 8 {
        "Aug"@
    } else if m == 9 {
        "Sep"@
    } else if m == 10 {
        "Oct"@
    } else if m == 11 {
        "Nov"@
    } else {
        "Dec"@
    }
}

/// Months are named by their English three-letter abbreviations, January
/// to December in calendar order.
pub proof fn lemma_month_names(m: u8)
    requires
        1 <= m <= 12,
    ensures
        month_abbr_spec(m) == seq![
            "Jan"@, "Feb"@, "Mar"@, "Apr"@, "May"@, "Jun"@, "Jul"@, "Aug"@, "Sep"@, "Oct"@,
            "Nov"@, "Dec"@,
        ][m - 1],
{
}

/// The three-letter name of a month number.
fn month_abbr(m: u8) -> (name: &'static str)
    requires
        1 <= m <= 12,
    ensures
        name@ == month_abbr_spec(m),
{
    if m == 1 {
        "Jan"
    } else if m == 2 {
        "Feb"
    } else if m == 3 {
        "Mar"
    } else if m == 4 {
        "Apr"
    } else if m == 5 {
        "May"
    } else if m == 6 {
        "Jun"
    } else if m == 7 {
        "Jul"
    } else if m == 8 {
        "Aug"
    } else if m == 9 {
        "Sep"
    } else if m == 10 {
        "Oct"
    } else if m == 11 {
        "Nov"
    } else {
        "Dec"
    }
}

/// The count stored under `key`: the first row with that key, else 0.
pub open spec fn count_for(counts: Seq<(String, i64)>, key: Seq<char>, k: int) -> i64
    decreases counts.len() - k,
{
    if k < 0 || k >= counts.len() {
        0
    } else if counts[k].0@ == key {
        counts[k].1
    } else {
        count_for(counts, key, k + 1)
    }
}

fn lookup_count(counts: &Vec<(String, i64)>, key: &String) -> (c: i64)
    ensures
        c == count_for(counts@, key@, 0),
{
    let mut k: usize = 0;
    while k < counts.len()
        invariant
            k <= counts@.len(),
            count_for(counts@, key@, 0) == count_for(counts@, key@, k as int),
        decreases counts.len() - k,
    {
        if str_eq(counts[k].0.as_str(), key.as_str()) {
            return counts[k].1;
        }
        k += 1;
    }
    0
}

/// The sum of the counts of the days `from..=to`.
pub open spec fn count_sum(counts: Seq<(String, i64)>, from: int, to: int) -> int
    decreases to - from + 1,
{
    if to < from {
        0
    } else {
        count_sum(counts, from, to - 1) + count_for(counts, date_key_spec(to as i32), 0)
    }
}

/// The first day of the grid: the Sunday starting the week 52 weeks before
/// `today`.
pub open spec fn grid_start(today: i32) -> int {
    (today - 364) - weekday_from_sunday((today - 364) as i32)
}

pub open spec fn label_spec(count: i64, key: Seq<char>) -> Seq<char> {
    int_decimal(count as int) + (if count == 1 {
        " note on "@
    } else {
        " notes on "@
    }) + key
}

/// The square of day `day`: empty padding after `today`, else its date, count,
/// level and tooltip.
pub open spec fn cell_spec(c: ActivityCell, day: int, today: i32, counts: Seq<(String, i64)>) -> bool {
    if day > today {
        c.date@ == Seq::<char>::empty() && c.count == 0 && c.level == 0 && c.label@
            == Seq::<char>::empty()
    } else {
        let key = date_key_spec(day as i32);
        let n = count_for(counts, key, 0);
        c.date@ == key && c.count == n && c.level == level_spec(n) && c.label@ == label_spec(n, key)
    }
}

/// A column is labelled with its month when it is the first or when its week
/// starts in another month than the previous week.
pub open spec fn month_label_spec(l: MonthLabel, start: int, col: int) -> bool {
    let m = civil_date((start + 7 * col) as i32).1;
    if col == 0 || m != civil_date((start + 7 * (col - 1)) as i32).1 {
        l.name@ == month_abbr_spec(m)
    } else {
        l.name@ == Seq::<char>::empty()
    }
}

/// Build ~53 weeks of activity squares ending on `today` (a Julian day), from
/// per-day counts keyed `YYYY-MM-DD`. Weeks run Sunday→Saturday; the final week
/// is padded with empty future cells so every column has 7 rows.
pub fn activity_grid(counts: &Vec<(String, i64)>, today: i32) -> (grid: ActivityGrid)
    requires
        MIN_JULIAN_DAY + 370 <= today <= MAX_JULIAN_DAY,
        forall|d: int|
            grid_start(today) <= d <= today ==> i64::MIN <= #[trigger] count_sum(
                counts@,
                grid_start(today),
                d,
            ) <= i64::MAX,
    ensures
        grid.weeks == grid.months@.len(),
        grid.cells@.len() == 7 * grid.weeks,
        grid.weeks == (today - grid_start(today)) / 7 + 1,
        forall|k: int| 0 <= k < grid.cells@.len() ==> cell_spec(
            #[trigger] grid.cells@[k],
            grid_start(today) + k,
            today,
            counts@,
        ),
        forall|c: int| 0 <= c < grid.weeks ==> month_label_spec(
            #[trigger] grid.months@[c],
            grid_start(today),
            c,
        ),
        grid.total == count_sum(counts@, grid_start(today), today as int),
{
    let approx = today - 364;
    let back = days_from_sunday(approx) as i32;
    let start = approx - back;
    let ghost s = start as int;
    assert(s == grid_start(today));
    let mut week_start: i32 = start;
    let mut cells: Vec<ActivityCell> = Vec::new();
    let mut months: Vec<MonthLabel> = Vec::new();
    let mut total: i64 = 0;
    let mut last_month: u8 = 0;
    loop
        invariant_except_break
            week_start <= today,
            total == count_sum(counts@, s, week_start - 1),
        invariant
            MIN_JULIAN_DAY + 370 <= today <= MAX_JULIAN_DAY,
            forall|d: int| s <= d <= today ==> i64::MIN <= #[trigger] count_sum(counts@, s, d) <= i64::MAX,
            s == grid_start(today),
            today - 370 <= s <= today,
            week_start == s + 7 * months@.len(),
            cells@.len() == 7 * months@.len(),
            months@.len() == 0 ==> last_month == 0,
            months@.len() > 0 ==> last_month == civil_date((week_start - 7) as i32).1,
            forall|k: int| 0 <= k < cells@.len() ==> cell_spec(
                #[trigger] cells@[k],
                s + k,
                today,
                counts@,
            ),
            forall|c: int| 0 <= c < months@.len() ==> month_label_spec(#[trigger] months@[c], s, c),
        ensures
            cells@.len() == 7 * months@.len(),
            week_start == s + 7 * months@.len(),
            today < week_start <= today + 7,
            forall|k: int| 0 <= k < cells@.len() ==> cell_spec(
                #[trigger] cells@[k],
                s + k,
                today,
                counts@,
            ),
            forall|c: int| 0 <= c < months@.len() ==> month_label_spec(#[trigger] months@[c], s, c),
            total == count_sum(counts@, s, today as int),
        decreases today - week_start,
    {
        let (_, m, _) = date_of_julian(week_start);
        let ghost col = months@.len() as int;
        let name = if months.len() == 0 || last_month != m {
            last_month = m;
            month_abbr(m)
        } else {
            ""
        };
        proof {
            reveal_strlit("");
            assert(""@ =~= Seq::<char>::empty());
        }
        months.push(MonthLabel { name });
        assert(month_label_spec(months@[col], s, col));
        let mut i: i32 = 0;
        while i < 7
            invariant
                MIN_JULIAN_DAY + 370 <= today <= MAX_JULIAN_DAY,
                forall|d: int| s <= d <= today ==> i64::MIN <= #[trigger] count_sum(counts@, s, d) <= i64::MAX,
                0 <= i <= 7,
                today - 370 <= s <= today,
                week_start == s + 7 * col,
                week_start <= today,
                cells@.len() == 7 * col + i,
                forall|k: int| 0 <= k < cells@.len() ==> cell_spec(
                    #[trigger] cells@[k],
                    s + k,
                    today,
                    counts@,
                ),
                total == count_sum(counts@, s, if week_start + i - 1 <= today {
                    week_start + i - 1
                } else {
                    today as int
                }),
            decreases 7 - i,
        {
            let day = week_start + i;
            if day > today {
                cells.push(
                    ActivityCell { date: String::new(), count: 0, level: 0, label: String::new() },
                );
            } else {
                let key = date_key(day);
                let count = lookup_count(counts, &key);
                assert(count_sum(counts@, s, day as int) == total + count);
                total = total + count;
                let mut label = i64_text(count);
                if count == 1 {
                    label.append(" note on ");
                } else {
                    label.append(" notes on ");
                }
                label.append(key.as_str());
                let level = level_of(count);
                cells.push(ActivityCell { date: key, count, level, label });
            }
            i += 1;
        }
        week_start = week_start + 7;
        if week_start > today {
            break ;
        }
    }
    let weeks = months.len();
    proof {
        assert((today - s) / 7 + 1 == months@.len()) by (nonlinear_arith)
            requires
                s + 7 * months@.len() > today,
                s + 7 * (months@.len() - 1) <= today,
                months@.len() >= 1,
        ;
    }
    ActivityGrid { cells, months, weeks, total }
}

} // verus!
