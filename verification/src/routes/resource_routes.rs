//! Attachment uploads and downloads: file names, inline-safe types, access.
use vstd::prelude::*;

use crate::db::memos::{can_view_considering_state, can_view_considering_state_spec, viewer_of};
use crate::error::AppError;
use crate::models::{Memo, User};
use crate::text::{chars_of, is_control, is_control_spec, push_char, str_eq, trim_bounds, trim_seq};

verus! {

/// Index just past the last `/` or `\` before index `n`, 0 when there is none.
pub open spec fn base_start(s: Seq<char>, n: int) -> int
    decreases n,
{
    if n <= 0 {
        0
    } else if s[n - 1] == '/' || s[n - 1] == '\\' {
        n
    } else {
        base_start(s, n - 1)
    }
}

/// Characters kept in a stored file name: no control characters, quotes or
/// semicolons.
pub open spec fn keep_in_filename(c: char) -> bool {
    !is_control_spec(c) && c != '"' && c != ';'
}

pub open spec fn kept_chars(s: Seq<char>) -> Seq<char>
    decreases s.len(),
{
    if s.len() == 0 {
        Seq::empty()
    } else if keep_in_filename(s.last()) {
        kept_chars(s.drop_last()).push(s.last())
    } else {
        kept_chars(s.drop_last())
    }
}

/// A stored file name: the last path segment, unwanted characters dropped,
/// at most 120 characters; `file` when nothing but whitespace is left.
pub open spec fn sanitize_filename_spec(name: Seq<char>) -> Seq<char> {
    let base = name.subrange(base_start(name, name.len() as int), name.len() as int);
    let k = kept_chars(base);
    let cleaned = if k.len() > 120 {
        k.take(120)
    } else {
        k
    };
    if trim_seq(cleaned).len() == 0 {
        "file"@
    } else {
        cleaned
    }
}

proof fn lemma_base_start(s: Seq<char>, n: int)
    requires
        0 <= n <= s.len(),
    ensures
        0 <= base_start(s, n) <= n,
    decreases n,
{
    if n > 0 && !(s[n - 1] == '/' || s[n - 1] == '\\') {
        lemma_base_start(s, n - 1);
    }
}

pub fn sanitize_filename(name: &str) -> (out: String)
    ensures
        out@ == sanitize_filename_spec(name@),
{
    let v = chars_of(name);
    let ghost s = v@;
    let mut n = v.len();
    proof {
        lemma_base_start(s, s.len() as int);
    }
    while n > 0 && !(v[n - 1] == '/' || v[n - 1] == '\\')
        invariant
            s == v@,
            n <= s.len(),
            base_start(s, s.len() as int) == base_start(s, n as int),
        decreases n,
    {
        n -= 1;
    }
    let start = n;
    let mut kept: Vec<char> = Vec::new();
    let mut k = start;
    while k < v.len()
        invariant
            s == v@,
            start <= k <= s.len(),
            kept@ == kept_chars(s.subrange(start as int, k as int)),
        decreases v.len() - k,
    {
        let c = v[k];
        if !is_control(c) && c != '"' && c != ';' {
            kept.push(c);
        }
        proof {
            let t = s.subrange(start as int, k + 1);
            assert(t.drop_last() =~= s.subrange(start as int, k as int));
            assert(t.last() == c);
        }
        k += 1;
    }
    let end = if kept.len() > 120 {
        120
    } else {
        kept.len()
    };
    let (a, b) = trim_bounds(&kept, 0, end);
    assert(kept@.subrange(0, end as int) =~= if kept@.len() > 120 {
        kept@.take(120)
    } else {
        kept@
    });
    if a == b {
        return String::from_str("file");
    }
    let mut out = String::new();
    let mut i: usize = 0;
    while i < end
        invariant
            i <= end <= kept@.len(),
            out@ == kept@.subrange(0, i as int),
        decreases end - i,
    {
        push_char(&mut out, kept[i]);
        i += 1;
        assert(out@ =~= kept@.subrange(0, i as int));
    }
    out
}

/// Content types the browser may render inline. Everything else downloads as
/// an attachment so user uploads (e.g. HTML/SVG) can't run scripts here.
pub open spec fn inline_safe_spec(t: Seq<char>) -> bool {
    t == "image/png"@ || t == "image/jpeg"@ || t == "image/gif"@ || t == "image/webp"@ || t
        == "image/avif"@ || t == "video/mp4"@ || t == "video/webm"@ || t == "audio/mpeg"@ || t
        == "audio/ogg"@ || t == "audio/wav"@ || t == "application/pdf"@ || t == "text/plain"@
}

pub fn inline_safe(content_type: &str) -> (safe: bool)
    ensures
        safe == inline_safe_spec(content_type@),
{
    str_eq(content_type, "image/png") || str_eq(content_type, "image/jpeg") || str_eq(
        content_type,
        "image/gif",
    ) || str_eq(content_type, "image/webp") || str_eq(content_type, "image/avif") || str_eq(
        content_type,
        "video/mp4",
    ) || str_eq(content_type, "video/webm") || str_eq(content_type, "audio/mpeg") || str_eq(
        content_type,
        "audio/ogg",
    ) || str_eq(content_type, "audio/wav") || str_eq(content_type, "application/pdf") || str_eq(
        content_type,
        "text/plain",
    )
}

/// The types served inline: PNG, JPEG, GIF, WebP and AVIF images, MP4 and
/// WebM video, MPEG, Ogg and WAV audio, PDF and plain text; every other type
/// is served as a download.
pub proof fn lemma_inline_safe_types(t: Seq<char>)
    ensures
        inline_safe_spec(t) <==> {
            ||| t == "image/png"@
            ||| t == "image/jpeg"@
            ||| t == "image/gif"@
            ||| t == "image/webp"@
            ||| t == "image/avif"@
            ||| t == "video/mp4"@
            ||| t == "video/webm"@
            ||| t == "audio/mpeg"@
            ||| t == "audio/ogg"@
            ||| t == "audio/wav"@
            ||| t == "application/pdf"@
            ||| t == "text/plain"@
        },
{
}

/// The `Content-Type` and `Content-Disposition` of a served blob: its own type
/// inline when that is safe, else a download of `application/octet-stream`.
pub fn serve_headers(content_type: &str, filename: &str) -> (h: (String, String))
    ensures
        inline_safe_spec(content_type@) ==> h.0@ == content_type@ && h.1@ == "inline; filename=\""@
            + filename@ + "\""@,
        !inline_safe_spec(content_type@) ==> h.0@ == "application/octet-stream"@ && h.1@
            == "attachment; filename=\""@ + filename@ + "\""@,
{
    if inline_safe(content_type) {
        let mut d = String::from_str("inline; filename=\"");
        d.append(filename);
        d.append("\"");
        (String::from_str(content_type), d)
    } else {
        let mut d = String::from_str("attachment; filename=\"");
        d.append(filename);
        d.append("\"");
        (String::from_str("application/octet-stream"), d)
    }
}

/// Access to a stored blob follows the owning memo's visibility; an unattached
/// upload is visible only to its uploader.
pub fn blob_allowed(owner_id: i64, memo: Option<&Memo>, viewer: Option<&User>) -> (ok: bool)
    ensures
        ok == match memo {
            Some(m) => can_view_considering_state_spec(*m, viewer_of(viewer)),
            None => viewer matches Some(u) && u.id == owner_id,
        },
{
    match memo {
        Some(m) => can_view_considering_state(m, viewer),
        None => match viewer {
            Some(u) => u.id == owner_id,
            None => false,
        },
    }
}

/// What an upload stores of one multipart field, as `(filename, content_type)`:
/// only a non-empty field named `file` is kept, under its sanitized file name
/// (`file` when it has none) and its content type (`application/octet-stream`
/// when it has none).
pub open spec fn upload_entry_spec(
    name: Option<Seq<char>>,
    file_name: Option<Seq<char>>,
    content_type: Option<Seq<char>>,
    data_len: nat,
) -> Option<(Seq<char>, Seq<char>)> {
    if name == Some("file"@) && data_len > 0 {
        Some(
            (
                sanitize_filename_spec(
                    match file_name {
                        Some(f) => f,
                        None => "file"@,
                    },
                ),
                match content_type {
                    Some(t) => t,
                    None => "application/octet-stream"@,
                },
            ),
        )
    } else {
        None
    }
}

/// One multipart field of an upload: `None` when it is skipped, else the file
/// name and content type it is stored under.
pub fn upload_entry(
    name: Option<&str>,
    file_name: Option<&str>,
    content_type: Option<&str>,
    data_len: usize,
) -> (r: Option<(String, String)>)
    ensures
        r matches Some((f, t)) ==> upload_entry_spec(
            opt_view(name),
            opt_view(file_name),
            opt_view(content_type),
            data_len as nat,
        ) == Some((f@, t@)),
        r is None <==> upload_entry_spec(
            opt_view(name),
            opt_view(file_name),
            opt_view(content_type),
            data_len as nat,
        ) is None,
{
    let named_file = match name {
        Some(n) => str_eq(n, "file"),
        None => false,
    };
    proof {
        reveal_strlit("file");
        reveal_strlit("application/octet-stream");
    }
    if !named_file || data_len == 0 {
        return None;
    }
    let filename = match file_name {
        Some(f) => sanitize_filename(f),
        None => sanitize_filename("file"),
    };
    let ty = match content_type {
        Some(t) => t.to_string(),
        None => "application/octet-stream".to_string(),
    };
    Some((filename, ty))
}

/// The view of an optional text.
pub open spec fn opt_view(s: Option<&str>) -> Option<Seq<char>> {
    match s {
        Some(t) => Some(t@),
        None => None,
    }
}

/// The answer to an upload: the chips of the stored files, or a refusal when
/// no file was stored.
pub fn upload_answer(chips: String) -> (r: Result<String, AppError>)
    ensures
        chips@.len() > 0 ==> r == Ok::<String, AppError>(chips),
        chips@.len() == 0 ==> (r matches Err(AppError::BadRequest(m)) && m@ == "No files received"@),
{
    if chips.as_str().is_empty() {
        return Err(AppError::BadRequest(String::from_str("No files received")));
    }
    Ok(chips)
}

} // verus!
