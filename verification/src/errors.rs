//! The error taxonomy every operation reports its failures with.

use vstd::prelude::*;

verus! {

/// Classified failure of an operation.
///
/// - `BadRequest`: malformed, duplicate or otherwise invalid input.
/// - `Unauthorized`: missing/invalid credentials, or the caller is not a
///   member of the investigation it addresses.
/// - `NotFound`: the addressed resource is absent or outside the caller's
///   scope.
/// - `InternalError`: storage-level failure, an exhausted retry budget, or
///   another unexpected condition.
#[derive(Debug)]
pub enum AppError {
    BadRequest(String),
    Unauthorized(String),
    NotFound(String),
    InternalError(String),
}

impl AppError {
    /// The human-readable message carried by the error.
    pub fn message(&self) -> (m: &String)
        ensures
            m@ == self.message_view(),
    {
        match self {
            AppError::BadRequest(m) => m,
            AppError::Unauthorized(m) => m,
            AppError::NotFound(m) => m,
            AppError::InternalError(m) => m,
        }
    }

    /// The HTTP status code conventionally attached to this class of error.
    pub fn status_code(&self) -> (s: u16)
        ensures
            s == match self {
                AppError::BadRequest(_) => 400u16,
                AppError::Unauthorized(_) => 401u16,
                AppError::NotFound(_) => 404u16,
                AppError::InternalError(_) => 500u16,
            },
    {
        match self {
            AppError::BadRequest(_) => 400,
            AppError::Unauthorized(_) => 401,
            AppError::NotFound(_) => 404,
            AppError::InternalError(_) => 500,
        }
    }

    /// The message, as a sequence of characters.
    pub open spec fn message_view(&self) -> Seq<char> {
        match self {
            AppError::BadRequest(m) => m@,
            AppError::Unauthorized(m) => m@,
            AppError::NotFound(m) => m@,
            AppError::InternalError(m) => m@,
        }
    }
}

} // verus!
