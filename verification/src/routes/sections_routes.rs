//! Section forms.
use vstd::prelude::*;

use crate::text::{i64_text, int_decimal};

verus! {

pub struct CreateForm {
    pub csrf_token: String,
    pub name: String,
}

pub struct CsrfForm {
    pub csrf_token: String,
}

pub open spec fn section_path_spec(id: i64) -> Seq<char> {
    "/s/"@ + int_decimal(id as int)
}

/// The page of a section: `/s/{id}`.
pub fn section_path(id: i64) -> (p: String)
    ensures
        p@ == section_path_spec(id),
{
    let mut p = String::from_str("/s/");
    let n = i64_text(id);
    p.append(n.as_str());
    p
}

} // verus!
