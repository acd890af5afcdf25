//! Instance settings: the registration switch.
use vstd::prelude::*;

use crate::text::str_eq;

verus! {

/// The settings key of the registration switch.
pub const ALLOW_REGISTRATION: &'static str = "allow_registration";

/// The stored switch counts as on only when its value is exactly `true`.
pub fn allow_registration_from(value: Option<&str>) -> (allowed: bool)
    ensures
        allowed == (value matches Some(v) && v@ == "true"@),
{
    match value {
        Some(v) => str_eq(v, "true"),
        None => false,
    }
}

pub open spec fn registration_open_spec(user_count: i64, allowed: bool) -> bool {
    user_count == 0 || allowed
}

/// Registration is open when explicitly enabled, or when no users exist yet
/// (first-run onboarding).
pub fn registration_open(user_count: i64, allowed: bool) -> (open: bool)
    ensures
        open == registration_open_spec(user_count, allowed),
{
    user_count == 0 || allowed
}

/// The value stored for the admin's registration form: `true` when the form
/// said `true`, else `false`.
pub fn registration_value(enabled: &str) -> (value: &'static str)
    ensures
        enabled@ == "true"@ ==> value@ == "true"@,
        enabled@ != "true"@ ==> value@ == "false"@,
{
    if str_eq(enabled, "true") {
        "true"
    } else {
        "false"
    }
}

/// The login and register pages agree with the registration rule: the rule
/// refuses a new account for a reason other than a taken name exactly when the
/// pages call registration closed.
pub proof fn lemma_open_matches_register(user_count: i64, allowed: bool, exists: bool)
    requires
        user_count >= 0,
    ensures
        (crate::db::users::register_step_spec(user_count, allowed, exists)
            == crate::db::users::RegisterStep::Closed) <==> !registration_open_spec(
            user_count,
            allowed,
        ),
{
}

} // verus!
