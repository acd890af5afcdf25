//! Export download and import forms.
use vstd::prelude::*;

use crate::db::memos::ImportSummary;
use crate::error::AppError;
use crate::models::{ExportFile, ExportNote};
use crate::text::{int_decimal, str_eq, usize_text};

verus! {

/// The CSRF token and the selected tags of an export form, read from its
/// raw key/value pairs: the last `csrf_token` wins (empty when missing), every
/// `tags` value is kept in order.
pub open spec fn download_csrf(pairs: Seq<(String, String)>) -> Seq<char>
    decreases pairs.len(),
{
    if pairs.len() == 0 {
        Seq::empty()
    } else if pairs.last().0@ == "csrf_token"@ {
        pairs.last().1@
    } else {
        download_csrf(pairs.drop_last())
    }
}

pub open spec fn download_tags(pairs: Seq<(String, String)>) -> Seq<Seq<char>>
    decreases pairs.len(),
{
    if pairs.len() == 0 {
        Seq::empty()
    } else if pairs.last().0@ == "tags"@ {
        download_tags(pairs.drop_last()).push(pairs.last().1@)
    } else {
        download_tags(pairs.drop_last())
    }
}

pub fn download_form(pairs: &Vec<(String, String)>) -> (r: (String, Vec<String>))
    ensures
        r.0@ == download_csrf(pairs@),
        crate::markdown::views(r.1@) == download_tags(pairs@),
{
    let mut csrf = String::new();
    let mut tags: Vec<String> = Vec::new();
    let mut k: usize = 0;
    while k < pairs.len()
        invariant
            k <= pairs@.len(),
            csrf@ == download_csrf(pairs@.take(k as int)),
            crate::markdown::views(tags@) == download_tags(pairs@.take(k as int)),
        decreases pairs.len() - k,
    {
        let (key, value) = (&pairs[k].0, &pairs[k].1);
        let ghost prev_tags = crate::markdown::views(tags@);
        proof {
            let t = pairs@.take(k + 1);
            assert(t.drop_last() =~= pairs@.take(k as int));
            assert(t.last() == pairs@[k as int]);
            reveal_strlit("csrf_token");
            reveal_strlit("tags");
            assert("csrf_token"@.len() != "tags"@.len());
        }
        if str_eq(key.as_str(), "csrf_token") {
            csrf = value.clone();
        } else if str_eq(key.as_str(), "tags") {
            tags.push(value.clone());
            assert(crate::markdown::views(tags@) =~= prev_tags.push(value@));
        }
        k += 1;
    }
    assert(pairs@.take(pairs@.len() as int) =~= pairs@);
    (csrf, tags)
}

/// An export needs at least one selected tag.
pub fn require_export_tags(tags: &Vec<String>) -> (r: Result<(), AppError>)
    ensures
        tags@.len() > 0 ==> r is Ok,
        tags@.len() == 0 ==> (r matches Err(AppError::BadRequest(m)) && m@
            == "Select at least one hashtag to export"@),
{
    if tags.len() == 0 {
        return Err(AppError::BadRequest(String::from_str("Select at least one hashtag to export")));
    }
    Ok(())
}

/// The export file of the selected notes; this is version 3 of the format.
pub fn export_file(notes: Vec<ExportNote>) -> (f: ExportFile)
    ensures
        f.version == 3,
        f.notes@ == notes@,
{
    ExportFile { version: 3, notes }
}

/// The import form's `overwrite` part is on only when it says `true`.
pub fn overwrite_flag(text: &str) -> (on: bool)
    ensures
        on == (text@ == "true"@),
{
    str_eq(text, "true")
}

/// The message shown after an import.
pub fn import_message(s: &ImportSummary) -> (msg: String)
    ensures
        msg@ == "Imported "@ + int_decimal(s.inserted as int) + " new, updated "@ + int_decimal(
            s.updated as int,
        ) + ", skipped "@ + int_decimal(s.skipped as int) + "."@,
{
    let mut msg = String::from_str("Imported ");
    let a = usize_text(s.inserted);
    msg.append(a.as_str());
    msg.append(" new, updated ");
    let b = usize_text(s.updated);
    msg.append(b.as_str());
    msg.append(", skipped ");
    let c = usize_text(s.skipped);
    msg.append(c.as_str());
    msg.append(".");
    msg
}

} // verus!
