//! The decisions behind the database layer: what to query, and what the rows
//! that come back mean. The SQL itself runs outside the library.
pub mod memos;
pub mod resources;
pub mod sections;
pub mod sessions;
pub mod settings;
pub mod tokens;
pub mod users;

use vstd::prelude::*;

verus! {

/// `n` SQL parameter placeholders separated by commas: `?,?,…,?`.
pub open spec fn placeholders_spec(n: nat) -> Seq<char>
    decreases n,
{
    if n == 0 {
        Seq::empty()
    } else if n == 1 {
        seq!['?']
    } else {
        placeholders_spec((n - 1) as nat) + seq![',', '?']
    }
}

/// The placeholder list for an `IN (…)` over `n` values.
pub fn sql_placeholders(n: usize) -> (out: String)
    ensures
        out@ == placeholders_spec(n as nat),
{
    let mut out = String::new();
    let mut k: usize = 0;
    while k < n
        invariant
            k <= n,
            out@ == placeholders_spec(k as nat),
        decreases n - k,
    {
        if k > 0 {
            crate::text::push_char(&mut out, ',');
        }
        crate::text::push_char(&mut out, '?');
        k += 1;
        assert(out@ =~= placeholders_spec(k as nat));
    }
    out
}

/// Which schema migrations still have to run, as the index range
/// `[first, total)`: those past the count recorded in `PRAGMA user_version`.
/// The recorded count is read as an unsigned number, so a negative one, like
/// one at or past `total`, leaves nothing to run.
pub fn pending_migrations(user_version: i64, total: usize) -> (range: (usize, usize))
    ensures
        range.1 == total,
        (0 <= user_version && user_version < total) ==> range.0 == user_version,
        !(0 <= user_version && user_version < total) ==> range.0 == total,
{
    if user_version < 0 {
        (total, total)
    } else if (user_version as u64) < (total as u64) {
        (user_version as usize, total)
    } else {
        (total, total)
    }
}

} // verus!
