//! API tokens.
use vstd::prelude::*;

use crate::error::AppError;
use crate::text::{chars_of, string_from_range, trim_bounds, trim_seq};

verus! {

pub struct ApiTokenMeta {
    pub id: i64,
    pub name: String,
    pub created_at: i64,
    pub last_used_at: Option<i64>,
}

/// A token's name as stored: trimmed, at most 64 characters.
pub open spec fn token_name_spec(raw: Seq<char>) -> Seq<char> {
    let t = trim_seq(raw);
    if t.len() > 64 {
        t.take(64)
    } else {
        t
    }
}

/// The name of a new API token: the form's name trimmed and cut to 64
/// characters; an empty name is refused.
pub fn token_name(raw: &str) -> (r: Result<String, AppError>)
    ensures
        token_name_spec(raw@).len() > 0 ==> (r matches Ok(n) && n@ == token_name_spec(raw@)),
        token_name_spec(raw@).len() == 0 ==> (r matches Err(AppError::BadRequest(m)) && m@
            == "Token name is required"@),
{
    let v = chars_of(raw);
    assert(v@.subrange(0, v@.len() as int) =~= v@);
    let (a, b) = trim_bounds(&v, 0, v.len());
    let end = if b - a > 64 {
        a + 64
    } else {
        b
    };
    assert(v@.subrange(a as int, end as int) =~= token_name_spec(raw@));
    if end == a {
        return Err(AppError::BadRequest(String::from_str("Token name is required")));
    }
    Ok(string_from_range(&v, a, end))
}

} // verus!
