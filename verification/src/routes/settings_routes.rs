//! Settings and admin forms.
use vstd::prelude::*;

use crate::routes::auth_routes::byte_len;
use crate::text::str_eq;

verus! {

pub struct PasswordForm {
    pub csrf_token: String,
    pub current_password: String,
    pub new_password: String,
    pub new_password_confirm: String,
}

pub struct TokenForm {
    pub csrf_token: String,
    pub name: String,
}

pub struct CsrfOnlyForm {
    pub csrf_token: String,
}

pub struct RegistrationForm {
    pub csrf_token: String,
    pub enabled: String,
}

/// The checks on a new password made before the current one is verified: at
/// least 8 bytes, and confirmed.
pub fn check_new_password(form: &PasswordForm) -> (r: Result<(), &'static str>)
    ensures
        byte_len(form.new_password@) < 8 ==> (r matches Err(m) && m@
            == "New password must be at least 8 characters"@),
        byte_len(form.new_password@) >= 8 && form.new_password@ != form.new_password_confirm@
            ==> (r matches Err(m) && m@ == "New passwords don't match"@),
        byte_len(form.new_password@) >= 8 && form.new_password@ == form.new_password_confirm@
            ==> r is Ok,
{
    if form.new_password.as_str().len() < 8 {
        return Err("New password must be at least 8 characters");
    }
    if !str_eq(form.new_password.as_str(), form.new_password_confirm.as_str()) {
        return Err("New passwords don't match");
    }
    Ok(())
}

} // verus!
