//! The errors that handlers answer with.
use vstd::prelude::*;

verus! {

#[derive(Debug)]
pub enum AppError {
    NotFound,
    Unauthorized,
    Forbidden,
    BadRequest(String),
    Internal(String),
}

/// The HTTP status of each error.
pub open spec fn status_spec(e: AppError) -> u16 {
    match e {
        AppError::NotFound => 404,
        AppError::Unauthorized => 401,
        AppError::Forbidden => 403,
        AppError::BadRequest(_) => 400,
        AppError::Internal(_) => 500,
    }
}

/// What a user is shown of each error; an internal error's detail never is.
pub open spec fn public_message_spec(e: AppError) -> Seq<char> {
    match e {
        AppError::NotFound => "Not found"@,
        AppError::Unauthorized => "Please sign in"@,
        AppError::Forbidden => "You don't have access to this"@,
        AppError::BadRequest(msg) => msg@,
        AppError::Internal(_) => "Something went wrong on our side"@,
    }
}

impl AppError {
    /// The HTTP status code of the error.
    pub fn status(&self) -> (code: u16)
        ensures
            code == status_spec(*self),
    {
        match self {
            AppError::NotFound => 404,
            AppError::Unauthorized => 401,
            AppError::Forbidden => 403,
            AppError::BadRequest(_) => 400,
            AppError::Internal(_) => 500,
        }
    }

    pub fn public_message(&self) -> (msg: String)
        ensures
            msg@ == public_message_spec(*self),
    {
        match self {
            AppError::NotFound => String::from_str("Not found"),
            AppError::Unauthorized => String::from_str("Please sign in"),
            AppError::Forbidden => String::from_str("You don't have access to this"),
            AppError::BadRequest(msg) => msg.clone(),
            AppError::Internal(_) => String::from_str("Something went wrong on our side"),
        }
    }
}

} // verus!
