//! Sections: named buckets a user files notes under.
use vstd::prelude::*;

use crate::error::AppError;
use crate::text::{chars_of, parse_i64, parse_i64_spec, str_eq, string_from_range, trim_bounds, trim_seq};

verus! {

/// Where a note is being moved, parsed from the editor's Section select.
#[derive(Debug, Clone, Copy, PartialEq, Eq, Structural)]
pub enum MoveDest {
    /// Home: local, no section.
    Home,
    /// A specific section.
    Section(i64),
    /// Leave an imported note where it is.
    KeepImported,
}

pub open spec fn move_dest_spec(s: Seq<char>) -> MoveDest {
    if s == Seq::<char>::empty() || s == "home"@ {
        MoveDest::Home
    } else if s == "imported"@ {
        MoveDest::KeepImported
    } else {
        match parse_i64_spec(s) {
            Some(id) => MoveDest::Section(id),
            None => MoveDest::Home,
        }
    }
}

impl MoveDest {
    /// `""` and `home` mean Home, `imported` keeps an imported note where it is,
    /// a number names a section, and anything else falls back to Home.
    pub fn parse(s: &str) -> (dest: Self)
        ensures
            dest == move_dest_spec(s@),
    {
        proof {
            reveal_strlit("");
            assert(""@ =~= Seq::<char>::empty());
        }
        if str_eq(s, "") || str_eq(s, "home") {
            MoveDest::Home
        } else if str_eq(s, "imported") {
            MoveDest::KeepImported
        } else {
            match parse_i64(s) {
                Some(id) => MoveDest::Section(id),
                None => MoveDest::Home,
            }
        }
    }
}

/// What a move does to the note.
#[derive(Debug, Clone, Copy, PartialEq, Eq, Structural)]
pub enum MovePlan {
    /// Nothing changes.
    Stay,
    /// The note becomes local and is filed under this section (`None`: Home).
    File(Option<i64>),
}

/// The plan of a note move, `None` where it is refused: an unknown section,
/// or an imported note whose uuid a local note already carries.
pub open spec fn move_plan_spec(
    dest: MoveDest,
    origin_imported: bool,
    section_owned: bool,
    local_duplicate: bool,
) -> Option<MovePlan> {
    match dest {
        MoveDest::KeepImported => Some(MovePlan::Stay),
        MoveDest::Home => if origin_imported && local_duplicate {
            None
        } else {
            Some(MovePlan::File(None))
        },
        MoveDest::Section(sid) => if !section_owned || (origin_imported && local_duplicate) {
            None
        } else {
            Some(MovePlan::File(Some(sid)))
        },
    }
}

/// A user's notes as `(uuid, is_local)`.
pub open spec fn unique_local_uuids(notes: Seq<(Seq<char>, bool)>) -> bool {
    forall|i: int, j: int|
        0 <= i < notes.len() && 0 <= j < notes.len() && i != j && (#[trigger] notes[i]).1
            && (#[trigger] notes[j]).1 ==> notes[i].0 != notes[j].0
}

/// The notes after a planned move of note `m`: filing it makes it local.
pub open spec fn after_move(notes: Seq<(Seq<char>, bool)>, m: int, plan: MovePlan) -> Seq<
    (Seq<char>, bool),
> {
    match plan {
        MovePlan::Stay => notes,
        MovePlan::File(_) => notes.update(m, (notes[m].0, true)),
    }
}

/// Moving notes never makes two local notes share a uuid: a move the plan
/// allows, with `local_duplicate` telling whether another local note carries
/// the moved note's uuid, keeps the user's local uuids distinct.
pub proof fn lemma_move_keeps_local_uuids_unique(
    notes: Seq<(Seq<char>, bool)>,
    m: int,
    dest: MoveDest,
    section_owned: bool,
    local_duplicate: bool,
)
    requires
        unique_local_uuids(notes),
        0 <= m < notes.len(),
        local_duplicate == exists|j: int|
            0 <= j < notes.len() && j != m && (#[trigger] notes[j]).1 && notes[j].0 == notes[m].0,
        move_plan_spec(dest, !notes[m].1, section_owned, local_duplicate) is Some,
    ensures
        unique_local_uuids(
            after_move(
                notes,
                m,
                move_plan_spec(dest, !notes[m].1, section_owned, local_duplicate)->0,
            ),
        ),
{
    let plan = move_plan_spec(dest, !notes[m].1, section_owned, local_duplicate)->0;
    let after = after_move(notes, m, plan);
    assert forall|i: int, j: int|
        0 <= i < after.len() && 0 <= j < after.len() && i != j && (#[trigger] after[i]).1
            && (#[trigger] after[j]).1 implies after[i].0 != after[j].0 by {
        if i != m && j != m {
            assert(after[i] == notes[i] && after[j] == notes[j]);
            assert(notes[i].1 && notes[j].1);
        } else if i == m {
            assert(after[j] == notes[j]);
            if !notes[m].1 {
                assert(!local_duplicate);
                assert(!(notes[j].1 && notes[j].0 == notes[m].0));
            } else {
                assert(notes[m].1 && notes[j].1);
            }
        } else {
            assert(after[i] == notes[i]);
            if !notes[m].1 {
                assert(!local_duplicate);
                assert(!(notes[i].1 && notes[i].0 == notes[m].0));
            } else {
                assert(notes[m].1 && notes[i].1);
            }
        }
    }
}

/// Moving a note between Home and the sections. Moving to a section the user
/// does not own is refused; an imported note becomes local when it lands in a
/// local bucket, unless a local note with the same uuid exists.
pub fn plan_note_move(
    dest: MoveDest,
    origin_imported: bool,
    section_owned: bool,
    local_duplicate: bool,
) -> (plan: Result<MovePlan, AppError>)
    ensures
        plan is Ok <==> move_plan_spec(dest, origin_imported, section_owned, local_duplicate) is Some,
        plan matches Ok(p) ==> Some(p) == move_plan_spec(
            dest,
            origin_imported,
            section_owned,
            local_duplicate,
        ),
        dest == MoveDest::KeepImported ==> plan == Ok::<MovePlan, AppError>(MovePlan::Stay),
        (dest matches MoveDest::Section(_)) && !section_owned ==> (plan matches Err(
            AppError::BadRequest(m),
        ) && m@ == "Unknown section"@),
        dest != MoveDest::KeepImported && !((dest matches MoveDest::Section(_)) && !section_owned)
            && origin_imported && local_duplicate ==> (plan matches Err(AppError::BadRequest(m))
            && m@ == "A local note with this id already exists"@),
        dest == MoveDest::Home && !(origin_imported && local_duplicate) ==> plan == Ok::<
            MovePlan,
            AppError,
        >(MovePlan::File(None)),
        dest matches MoveDest::Section(sid) ==> (section_owned && !(origin_imported
            && local_duplicate) ==> plan == Ok::<MovePlan, AppError>(MovePlan::File(Some(sid)))),
{
    let target = match dest {
        MoveDest::KeepImported => {
            return Ok(MovePlan::Stay);
        },
        MoveDest::Home => None,
        MoveDest::Section(sid) => {
            if !section_owned {
                return Err(AppError::BadRequest(String::from_str("Unknown section")));
            }
            Some(sid)
        },
    };
    if origin_imported && local_duplicate {
        return Err(
            AppError::BadRequest(String::from_str("A local note with this id already exists")),
        );
    }
    Ok(MovePlan::File(target))
}

/// The name of a new section: trimmed; an empty name is refused.
pub fn section_name(raw: &str) -> (r: Result<String, AppError>)
    ensures
        trim_seq(raw@).len() > 0 ==> (r matches Ok(n) && n@ == trim_seq(raw@)),
        trim_seq(raw@).len() == 0 ==> (r matches Err(AppError::BadRequest(m)) && m@
            == "Section name can't be empty"@),
{
    let v = chars_of(raw);
    assert(v@.subrange(0, v@.len() as int) =~= v@);
    let (a, b) = trim_bounds(&v, 0, v.len());
    if a == b {
        return Err(AppError::BadRequest(String::from_str("Section name can't be empty")));
    }
    Ok(string_from_range(&v, a, b))
}

} // verus!
