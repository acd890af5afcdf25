//! The records the library works on: users, memos and their text-valued
//! enums, export files, attachments and counts.
use vstd::prelude::*;

use crate::text::str_eq;

verus! {

/// A user's role.
#[derive(Debug, Clone, Copy, PartialEq, Eq, Structural)]
pub enum Role {
    Admin,
    User,
}

/// Who may see a memo.
#[derive(Debug, Clone, Copy, PartialEq, Eq, Structural)]
pub enum Visibility {
    Private,
    Protected,
    Public,
}

/// Whether a memo is in the feeds or archived.
#[derive(Debug, Clone, Copy, PartialEq, Eq, Structural)]
pub enum MemoState {
    Normal,
    Archived,
}

/// Whether a memo was written here or imported from an export file.
#[derive(Debug, Clone, Copy, PartialEq, Eq, Structural)]
pub enum MemoOrigin {
    Local,
    Imported,
}

pub open spec fn role_text(r: Role) -> Seq<char> {
    match r {
        Role::Admin => "admin"@,
        Role::User => "user"@,
    }
}

pub open spec fn role_from_text(t: Seq<char>) -> Option<Role> {
    if t == "admin"@ {
        Some(Role::Admin)
    } else if t == "user"@ {
        Some(Role::User)
    } else {
        None
    }
}

pub open spec fn visibility_text(v: Visibility) -> Seq<char> {
    match v {
        Visibility::Private => "private"@,
        Visibility::Protected => "protected"@,
        Visibility::Public => "public"@,
    }
}

pub open spec fn visibility_from_text(t: Seq<char>) -> Option<Visibility> {
    if t == "private"@ {
        Some(Visibility::Private)
    } else if t == "protected"@ {
        Some(Visibility::Protected)
    } else if t == "public"@ {
        Some(Visibility::Public)
    } else {
        None
    }
}

pub open spec fn state_text(s: MemoState) -> Seq<char> {
    match s {
        MemoState::Normal => "normal"@,
        MemoState::Archived => "archived"@,
    }
}

pub open spec fn state_from_text(t: Seq<char>) -> Option<MemoState> {
    if t == "normal"@ {
        Some(MemoState::Normal)
    } else if t == "archived"@ {
        Some(MemoState::Archived)
    } else {
        None
    }
}

pub open spec fn origin_text(o: MemoOrigin) -> Seq<char> {
    match o {
        MemoOrigin::Local => "local"@,
        MemoOrigin::Imported => "imported"@,
    }
}

pub open spec fn origin_from_text(t: Seq<char>) -> Option<MemoOrigin> {
    if t == "local"@ {
        Some(MemoOrigin::Local)
    } else if t == "imported"@ {
        Some(MemoOrigin::Imported)
    } else {
        None
    }
}

impl Role {
    pub fn as_str(&self) -> (s: &'static str)
        ensures
            s@ == role_text(*self),
    {
        match self {
            Role::Admin => "admin",
            Role::User => "user",
        }
    }

    pub fn parse(s: &str) -> (r: Option<Self>)
        ensures
            r == role_from_text(s@),
    {
        if str_eq(s, "admin") {
            Some(Role::Admin)
        } else if str_eq(s, "user") {
            Some(Role::User)
        } else {
            None
        }
    }
}

impl Visibility {
    pub fn as_str(&self) -> (s: &'static str)
        ensures
            s@ == visibility_text(*self),
    {
        match self {
            Visibility::Private => "private",
            Visibility::Protected => "protected",
            Visibility::Public => "public",
        }
    }

    pub fn parse(s: &str) -> (r: Option<Self>)
        ensures
            r == visibility_from_text(s@),
    {
        if str_eq(s, "private") {
            Some(Visibility::Private)
        } else if str_eq(s, "protected") {
            Some(Visibility::Protected)
        } else if str_eq(s, "public") {
            Some(Visibility::Public)
        } else {
            None
        }
    }
}

impl MemoState {
    pub fn as_str(&self) -> (s: &'static str)
        ensures
            s@ == state_text(*self),
    {
        match self {
            MemoState::Normal => "normal",
            MemoState::Archived => "archived",
        }
    }

    pub fn parse(s: &str) -> (r: Option<Self>)
        ensures
            r == state_from_text(s@),
    {
        if str_eq(s, "normal") {
            Some(MemoState::Normal)
        } else if str_eq(s, "archived") {
            Some(MemoState::Archived)
        } else {
            None
        }
    }
}

impl MemoOrigin {
    pub fn as_str(&self) -> (s: &'static str)
        ensures
            s@ == origin_text(*self),
    {
        match self {
            MemoOrigin::Local => "local",
            MemoOrigin::Imported => "imported",
        }
    }

    pub fn parse(s: &str) -> (r: Option<Self>)
        ensures
            r == origin_from_text(s@),
    {
        if str_eq(s, "local") {
            Some(MemoOrigin::Local)
        } else if str_eq(s, "imported") {
            Some(MemoOrigin::Imported)
        } else {
            None
        }
    }
}

/// Each text enum reads back what it writes: parsing the stored text of a
/// value gives that value again.
pub proof fn lemma_text_enums_round_trip(r: Role, v: Visibility, s: MemoState, o: MemoOrigin)
    ensures
        role_from_text(role_text(r)) == Some(r),
        visibility_from_text(visibility_text(v)) == Some(v),
        state_from_text(state_text(s)) == Some(s),
        origin_from_text(origin_text(o)) == Some(o),
{
    reveal_strlit("admin");
    reveal_strlit("user");
    reveal_strlit("private");
    reveal_strlit("protected");
    reveal_strlit("public");
    reveal_strlit("normal");
    reveal_strlit("archived");
    reveal_strlit("local");
    reveal_strlit("imported");
    assert("admin"@.len() != "user"@.len());
    assert("private"@.len() != "protected"@.len());
    assert("private"@ != "public"@);
    assert("protected"@ != "public"@);
    assert("normal"@.len() != "archived"@.len());
    assert("local"@.len() != "imported"@.len());
}

/// Parsing is one-to-one: a text that parses is exactly the stored text of the
/// value it parses to.
pub proof fn lemma_text_enums_parse_exact(t: Seq<char>)
    ensures
        role_from_text(t) is Some ==> role_text(role_from_text(t)->0) == t,
        visibility_from_text(t) is Some ==> visibility_text(visibility_from_text(t)->0) == t,
        state_from_text(t) is Some ==> state_text(state_from_text(t)->0) == t,
        origin_from_text(t) is Some ==> origin_text(origin_from_text(t)->0) == t,
{
}

#[derive(Debug, Clone)]
pub struct User {
    pub id: i64,
    pub username: String,
    pub role: Role,
}

impl User {
    pub fn is_admin(&self) -> (b: bool)
        ensures
            b == (self.role == Role::Admin),
    {
        self.role == Role::Admin
    }
}

#[derive(Debug, Clone)]
pub struct Memo {
    pub id: i64,
    pub uid: String,
    pub uuid: String,
    pub user_id: i64,
    pub username: String,
    pub content: String,
    pub visibility: Visibility,
    pub pinned: bool,
    pub state: MemoState,
    pub origin: MemoOrigin,
    /// The section the note is filed under; `None` for Home.
    pub section_id: Option<i64>,
    pub created_at: i64,
    pub updated_at: i64,
}

/// One attachment of an exported note, its bytes base64-encoded. `uid` lets an
/// import remap the note's `{{attach:UID}}` tokens to the new ids.
#[derive(Debug, Clone)]
pub struct ExportAttachment {
    pub uid: String,
    pub filename: String,
    pub content_type: String,
    pub created_at: i64,
    pub data: String,
}

/// One note in the export/import JSON file. `uuid` is the cross-instance
/// identity used to dedup on import; tags are re-derived from `content`.
#[derive(Debug, Clone)]
pub struct ExportNote {
    pub uuid: String,
    pub content: String,
    pub visibility: Visibility,
    pub created_at: i64,
    pub updated_at: i64,
    pub attachments: Vec<ExportAttachment>,
}

/// Top-level shape of an export file.
#[derive(Debug, Clone)]
pub struct ExportFile {
    pub version: u32,
    pub notes: Vec<ExportNote>,
}

#[derive(Debug, Clone)]
pub struct ResourceMeta {
    pub uid: String,
    pub filename: String,
    pub content_type: String,
    pub size: i64,
}

#[derive(Debug, Clone)]
pub struct TagCount {
    pub tag: String,
    pub count: i64,
}

/// Active (non-archived) note counts for the Home and Imported nav items.
#[derive(Debug, Clone, Copy)]
pub struct NoteCounts {
    pub home: i64,
    pub imported: i64,
}

/// A user's section with its active-note count; `active` marks the one being
/// viewed or edited.
#[derive(Debug, Clone)]
pub struct Section {
    pub id: i64,
    pub name: String,
    pub count: i64,
    pub active: bool,
}

} // verus!
