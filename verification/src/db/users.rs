//! Accounts: the registration rule.
use vstd::prelude::*;

use crate::models::{Role, User};

verus! {

/// What a registration attempt came to.
pub enum RegisterOutcome {
    Created(User),
    RegistrationClosed,
    UsernameTaken,
}

/// What registration does, given the state of the user table.
#[derive(Debug, Clone, Copy, PartialEq, Eq, Structural)]
pub enum RegisterStep {
    /// Registration is closed: there are users and the admin has not opened it.
    Closed,
    /// The username (compared without case) is already in use.
    Taken,
    /// Insert the user with this role.
    Create(Role),
}

pub open spec fn register_step_spec(user_count: i64, allow_registration: bool, username_exists: bool) -> RegisterStep {
    if user_count > 0 && !allow_registration {
        RegisterStep::Closed
    } else if username_exists {
        RegisterStep::Taken
    } else if user_count == 0 {
        RegisterStep::Create(Role::Admin)
    } else {
        RegisterStep::Create(Role::User)
    }
}

/// The registration rule, decided inside the registration transaction: closed
/// unless there are no users yet or registration is allowed; a taken username is
/// refused; the first user becomes admin and everyone after is a plain user.
pub fn register_step(user_count: i64, allow_registration: bool, username_exists: bool) -> (step: RegisterStep)
    ensures
        step == register_step_spec(user_count, allow_registration, username_exists),
{
    if user_count > 0 && !allow_registration {
        RegisterStep::Closed
    } else if username_exists {
        RegisterStep::Taken
    } else if user_count == 0 {
        RegisterStep::Create(Role::Admin)
    } else {
        RegisterStep::Create(Role::User)
    }
}

/// The user that a successful registration creates.
pub fn registered_user(id: i64, username: String, role: Role) -> (outcome: RegisterOutcome)
    ensures
        outcome matches RegisterOutcome::Created(u) && u.id == id && u.username == username
            && u.role == role,
{
    RegisterOutcome::Created(User { id, username, role })
}

/// The first account on an instance becomes its admin, and it can always be
/// created; once there are users, registration never makes another admin.
pub proof fn lemma_first_user_is_admin(user_count: i64, allow: bool, exists: bool)
    ensures
        user_count == 0 ==> register_step_spec(user_count, allow, exists) == (if exists {
            RegisterStep::Taken
        } else {
            RegisterStep::Create(Role::Admin)
        }),
        user_count > 0 ==> register_step_spec(user_count, allow, exists) != RegisterStep::Create(
            Role::Admin,
        ),
        user_count > 0 && !allow ==> register_step_spec(user_count, allow, exists)
            == RegisterStep::Closed,
{
}

} // verus!
