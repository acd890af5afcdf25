//! Sign-in, registration and sign-out: form checks and page routing.
use vstd::prelude::*;

use crate::text::{
    chars_of, is_ascii_alphanumeric, is_ascii_alphanumeric_spec, str_eq, string_from_range,
    trim_bounds, trim_seq,
};

verus! {

pub struct LoginForm {
    pub username: String,
    pub password: String,
}

pub struct RegisterForm {
    pub username: String,
    pub password: String,
    pub password_confirm: String,
}

pub struct LogoutForm {
    pub csrf_token: String,
}

pub open spec fn is_username_char(c: char) -> bool {
    is_ascii_alphanumeric_spec(c) || c == '_' || c == '.' || c == '-'
}

/// A username: 3 to 32 characters, each an ASCII letter or digit, `_`, `.`
/// or `-`.
pub open spec fn valid_username_spec(name: Seq<char>) -> bool {
    3 <= name.len() <= 32 && forall|i: int| 0 <= i < name.len() ==> is_username_char(#[trigger] name[i])
}

/// A username is accepted exactly when it has 3 to 32 characters, each an
/// ASCII letter or digit, `_`, `.` or `-`: a space, `@` or any other
/// character makes it invalid.
pub proof fn lemma_username_characters(name: Seq<char>)
    ensures
        valid_username_spec(name) <==> (3 <= name.len() <= 32 && forall|i: int|
            0 <= i < name.len() ==> ('a' <= #[trigger] name[i] <= 'z' || 'A' <= name[i] <= 'Z'
                || '0' <= name[i] <= '9' || name[i] == '_' || name[i] == '.' || name[i] == '-')),
{
}

fn valid_username(name: &str) -> (ok: bool)
    ensures
        ok == valid_username_spec(name@),
{
    let v = chars_of(name);
    if v.len() < 3 || v.len() > 32 {
        return false;
    }
    let mut k: usize = 0;
    while k < v.len()
        invariant
            k <= v@.len(),
            v@ == name@,
            forall|i: int| 0 <= i < k ==> is_username_char(#[trigger] v@[i]),
        decreases v.len() - k,
    {
        let c = v[k];
        if !(is_ascii_alphanumeric(c) || c == '_' || c == '.' || c == '-') {
            return false;
        }
        k += 1;
    }
    true
}

/// The byte length of a text, as `str::len` reports it.
pub open spec fn byte_len(s: Seq<char>) -> usize {
    vstd::utf8::encode_utf8(s).len() as usize
}

/// A registration form: the trimmed username must be valid, the password at
/// least 8 bytes long, and the confirmation equal to it. The message of the
/// first check that fails is returned.
pub fn check_registration(form: &RegisterForm) -> (r: Result<String, &'static str>)
    ensures
        !valid_username_spec(trim_seq(form.username@)) ==> (r matches Err(m) && m@
            == "Username must be 3–32 characters: letters, digits, _ . -"@),
        valid_username_spec(trim_seq(form.username@)) && byte_len(form.password@) < 8 ==> (r matches Err(
            m,
        ) && m@ == "Password must be at least 8 characters"@),
        valid_username_spec(trim_seq(form.username@)) && byte_len(form.password@) >= 8
            && form.password@ != form.password_confirm@ ==> (r matches Err(m) && m@
            == "Passwords don't match"@),
        valid_username_spec(trim_seq(form.username@)) && byte_len(form.password@) >= 8
            && form.password@ == form.password_confirm@ ==> (r matches Ok(u) && u@ == trim_seq(
            form.username@,
        )),
{
    let v = chars_of(form.username.as_str());
    assert(v@.subrange(0, v@.len() as int) =~= v@);
    let (a, b) = trim_bounds(&v, 0, v.len());
    let username = string_from_range(&v, a, b);
    if !valid_username(username.as_str()) {
        return Err("Username must be 3–32 characters: letters, digits, _ . -");
    }
    if form.password.as_str().len() < 8 {
        return Err("Password must be at least 8 characters");
    }
    if !str_eq(form.password.as_str(), form.password_confirm.as_str()) {
        return Err("Passwords don't match");
    }
    Ok(username)
}

/// Where `GET /login` goes.
#[derive(Debug, Clone, Copy, PartialEq, Eq, Structural)]
pub enum LoginRoute {
    /// Already signed in: to the home feed.
    Home,
    /// No account exists yet: to registration.
    Register,
    /// The sign-in form.
    Show,
}

pub fn login_route(signed_in: bool, user_count: i64) -> (r: LoginRoute)
    ensures
        signed_in ==> r == LoginRoute::Home,
        !signed_in && user_count == 0 ==> r == LoginRoute::Register,
        !signed_in && user_count != 0 ==> r == LoginRoute::Show,
{
    if signed_in {
        LoginRoute::Home
    } else if user_count == 0 {
        LoginRoute::Register
    } else {
        LoginRoute::Show
    }
}

/// Where `GET /register` goes.
#[derive(Debug, Clone, Copy, PartialEq, Eq, Structural)]
pub enum RegisterRoute {
    /// Already signed in: to the home feed.
    Home,
    /// Registration is closed.
    Forbidden,
    /// The registration form; `first_user` when the account will be the admin.
    Show { first_user: bool },
}

pub fn register_route(signed_in: bool, registration_open: bool, user_count: i64) -> (r: RegisterRoute)
    ensures
        signed_in ==> r == RegisterRoute::Home,
        !signed_in && !registration_open ==> r == RegisterRoute::Forbidden,
        !signed_in && registration_open ==> r == (RegisterRoute::Show { first_user: user_count == 0 }),
{
    if signed_in {
        RegisterRoute::Home
    } else if !registration_open {
        RegisterRoute::Forbidden
    } else {
        RegisterRoute::Show { first_user: user_count == 0 }
    }
}

} // verus!
