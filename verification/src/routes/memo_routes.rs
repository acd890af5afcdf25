//! Memo create/edit forms and the tag sidebar they refresh.
use vstd::prelude::*;

use crate::db::memos::TagScope;
use crate::error::AppError;
use crate::models::{MemoOrigin, Visibility, visibility_from_text};
use crate::routes::auth_routes::byte_len;
use crate::routes::pages::opt_str;
use crate::text::{chars_of, string_from_range, trim_bounds, trim_seq};
use crate::routes::sections_routes::{section_path, section_path_spec};

verus! {

pub struct MemoForm {
    pub content: String,
    pub visibility: Option<String>,
    /// Set by the section-view composer so new notes land in that section.
    pub section_id: Option<i64>,
    /// Set by the editor's Section select to move an existing note.
    pub section: Option<String>,
}

/// The longest memo accepted, in bytes.
pub const MAX_MEMO_BYTES: usize = 100000;

/// Attachments are derived from `{{attach:uid}}` tokens in the content itself,
/// so there's no separate resource list to parse here. The content is trimmed
/// and must be neither blank nor longer than 100 000 bytes; the visibility is
/// private unless a known one is given.
pub fn parse_form(form: &MemoForm) -> (r: Result<(String, Visibility), AppError>)
    ensures
        trim_seq(form.content@).len() == 0 ==> (r matches Err(AppError::BadRequest(m)) && m@
            == "Memo content can't be empty"@),
        trim_seq(form.content@).len() > 0 && byte_len(trim_seq(form.content@)) > 100000 ==> (r matches Err(
            AppError::BadRequest(m),
        ) && m@ == "Memo is too long"@),
        trim_seq(form.content@).len() > 0 && byte_len(trim_seq(form.content@)) <= 100000 ==> (r matches Ok(
            (c, v),
        ) && c@ == trim_seq(form.content@) && v == match opt_str(form.visibility) {
            Some(t) => match visibility_from_text(t) {
                Some(v) => v,
                None => Visibility::Private,
            },
            None => Visibility::Private,
        }),
{
    let v = chars_of(form.content.as_str());
    assert(v@.subrange(0, v@.len() as int) =~= v@);
    let (a, b) = trim_bounds(&v, 0, v.len());
    if a == b {
        return Err(AppError::BadRequest(String::from_str("Memo content can't be empty")));
    }
    let content = string_from_range(&v, a, b);
    if content.as_str().len() > MAX_MEMO_BYTES {
        return Err(AppError::BadRequest(String::from_str("Memo is too long")));
    }
    let visibility = match &form.visibility {
        Some(t) => match Visibility::parse(t.as_str()) {
            Some(v) => v,
            None => Visibility::Private,
        },
        None => Visibility::Private,
    };
    Ok((content, visibility))
}

/// The tag sidebar refreshed after a create or edit: the bucket the note
/// belongs to, its label (`None`: the section's own name) and its path.
pub struct SidebarPlan {
    pub scope: TagScope,
    pub label: Option<String>,
    pub path: String,
}

/// Imported notes refresh the Imported sidebar, filed notes their section's,
/// everything else Home's.
pub fn sidebar_plan(origin: MemoOrigin, section_id: Option<i64>) -> (p: SidebarPlan)
    ensures
        origin == MemoOrigin::Imported ==> (p.label matches Some(l) && l@ == "Imported"@ && p.scope == TagScope::Imported
            && p.path@ == "/imported"@),
        origin != MemoOrigin::Imported && section_id is Some ==> p.scope == TagScope::Section(
            section_id->0,
        ) && p.label is None && p.path@ == section_path_spec(section_id->0),
        origin != MemoOrigin::Imported && section_id is None ==> (p.label matches Some(l) && l@ == "Home"@ && p.scope
            == TagScope::Home && p.path@ == "/"@),
{
    match (origin, section_id) {
        (MemoOrigin::Imported, _) => SidebarPlan {
            scope: TagScope::Imported,
            label: Some(String::from_str("Imported")),
            path: String::from_str("/imported"),
        },
        (_, Some(sid)) => SidebarPlan {
            scope: TagScope::Section(sid),
            label: None,
            path: section_path(sid),
        },
        _ => SidebarPlan {
            scope: TagScope::Home,
            label: Some(String::from_str("Home")),
            path: String::from_str("/"),
        },
    }
}

} // verus!
