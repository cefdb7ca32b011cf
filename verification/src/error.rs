use vstd::prelude::*;

verus! {

/// The request-level failure taxonomy.  Every fallible operation of the
/// library reports one of these; the HTTP layer maps each variant to a
/// status code with `status_code` and to a body with `message`.
#[derive(Debug)]
pub enum AppError {
    /// Bad credentials, or a missing, malformed or expired token (401).
    AuthError(String),
    /// A failure of the persistence layer (500).
    DatabaseError(String),
    /// Malformed input (400).
    ValidationError(String),
    /// The resource is absent, or not owned by the caller (404).
    NotFound(String),
    /// Token signing failure or another unexpected condition (500).
    InternalError(String),
}

impl AppError {
    /// The human-readable message carried by the error.
    pub open spec fn message_view(&self) -> Seq<char> {
        match self {
            AppError::AuthError(m) => m@,
            AppError::DatabaseError(m) => m@,
            AppError::ValidationError(m) => m@,
            AppError::NotFound(m) => m@,
            AppError::InternalError(m) => m@,
        }
    }

    /// The HTTP status code the error surfaces with.
    pub open spec fn status_code_spec(&self) -> u16 {
        match self {
            AppError::AuthError(_) => 401,
            AppError::DatabaseError(_) => 500,
            AppError::ValidationError(_) => 400,
            AppError::NotFound(_) => 404,
            AppError::InternalError(_) => 500,
        }
    }

    pub fn status_code(&self) -> (code: u16)
        ensures
            code == self.status_code_spec(),
    {
        match self {
            AppError::AuthError(_) => 401,
            AppError::DatabaseError(_) => 500,
            AppError::ValidationError(_) => 400,
            AppError::NotFound(_) => 404,
            AppError::InternalError(_) => 500,
        }
    }

    pub fn message(&self) -> (m: &String)
        ensures
            m@ == self.message_view(),
    {
        match self {
            AppError::AuthError(m) => m,
            AppError::DatabaseError(m) => m,
            AppError::ValidationError(m) => m,
            AppError::NotFound(m) => m,
            AppError::InternalError(m) => m,
        }
    }
}

} // verus!
