//! Login sessions: the sliding expiry.
use vstd::prelude::*;

use crate::auth::SESSION_TTL_SECS;

verus! {

pub open spec fn needs_extension_spec(expires_at: i64, now: i64) -> bool {
    expires_at - now < SESSION_TTL_SECS / 2
}

/// Sliding expiry: a session is extended once less than half its lifetime
/// remains.
pub fn needs_extension(expires_at: i64, now: i64) -> (extend: bool)
    requires
        i64::MIN <= expires_at - now <= i64::MAX,
    ensures
        extend == needs_extension_spec(expires_at, now),
{
    expires_at - now < SESSION_TTL_SECS / 2
}

} // verus!
