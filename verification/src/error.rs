//! The error taxonomy surfaced to callers, with the code and HTTP status
//! each kind maps to.

use vstd::prelude::*;

verus! {

/// What went wrong, with a human-readable message.
#[derive(Debug)]
pub enum AppError {
    DatabaseError(String),
    ValidationError(String),
    AuthenticationError(String),
    AuthorizationError(String),
    NotFoundError(String),
    ConflictError(String),
    ExternalApiError(String),
    InternalServerError(String),
}

/// The wire shape of an error: a stable code and the message.
#[derive(Debug)]
pub struct ErrorResponse {
    pub code: String,
    pub message: String,
}

impl AppError {
    /// The stable machine-readable code of this error kind.
    pub open spec fn spec_code(self) -> Seq<char> {
        match self {
            AppError::DatabaseError(m) => "DATABASE_ERROR"@,
            AppError::ValidationError(m) => "VALIDATION_ERROR"@,
            AppError::AuthenticationError(m) => "AUTHENTICATION_ERROR"@,
            AppError::AuthorizationError(m) => "AUTHORIZATION_ERROR"@,
            AppError::NotFoundError(m) => "NOT_FOUND_ERROR"@,
            AppError::ConflictError(m) => "CONFLICT_ERROR"@,
            AppError::ExternalApiError(m) => "EXTERNAL_API_ERROR"@,
            AppError::InternalServerError(m) => "INTERNAL_SERVER_ERROR"@,
        }
    }

    /// The message carried by this error.
    pub open spec fn spec_message(self) -> Seq<char> {
        match self {
            AppError::DatabaseError(m) => m@,
            AppError::ValidationError(m) => m@,
            AppError::AuthenticationError(m) => m@,
            AppError::AuthorizationError(m) => m@,
            AppError::NotFoundError(m) => m@,
            AppError::ConflictError(m) => m@,
            AppError::ExternalApiError(m) => m@,
            AppError::InternalServerError(m) => m@,
        }
    }

    /// The HTTP status this error kind maps to.
    pub open spec fn spec_http_status(self) -> u16 {
        match self {
            AppError::DatabaseError(m) => 500,
            AppError::ValidationError(m) => 400,
            AppError::AuthenticationError(m) => 401,
            AppError::AuthorizationError(m) => 403,
            AppError::NotFoundError(m) => 404,
            AppError::ConflictError(m) => 409,
            AppError::ExternalApiError(m) => 502,
            AppError::InternalServerError(m) => 500,
        }
    }

    /// The stable machine-readable code of this error kind.
    pub fn code(&self) -> (r: &str)
        ensures
            r@ == self.spec_code(),
    {
        match self {
            AppError::DatabaseError(m) => "DATABASE_ERROR",
            AppError::ValidationError(m) => "VALIDATION_ERROR",
            AppError::AuthenticationError(m) => "AUTHENTICATION_ERROR",
            AppError::AuthorizationError(m) => "AUTHORIZATION_ERROR",
            AppError::NotFoundError(m) => "NOT_FOUND_ERROR",
            AppError::ConflictError(m) => "CONFLICT_ERROR",
            AppError::ExternalApiError(m) => "EXTERNAL_API_ERROR",
            AppError::InternalServerError(m) => "INTERNAL_SERVER_ERROR",
        }
    }

    /// The HTTP status this error kind maps to.
    pub fn http_status(&self) -> (r: u16)
        ensures
            r == self.spec_http_status(),
    {
        match self {
            AppError::DatabaseError(m) => 500,
            AppError::ValidationError(m) => 400,
            AppError::AuthenticationError(m) => 401,
            AppError::AuthorizationError(m) => 403,
            AppError::NotFoundError(m) => 404,
            AppError::ConflictError(m) => 409,
            AppError::ExternalApiError(m) => 502,
            AppError::InternalServerError(m) => 500,
        }
    }

    /// The message carried by this error.
    pub fn message(&self) -> (r: &str)
        ensures
            r@ == self.spec_message(),
    {
        match self {
            AppError::DatabaseError(m) => m.as_str(),
            AppError::ValidationError(m) => m.as_str(),
            AppError::AuthenticationError(m) => m.as_str(),
            AppError::AuthorizationError(m) => m.as_str(),
            AppError::NotFoundError(m) => m.as_str(),
            AppError::ConflictError(m) => m.as_str(),
            AppError::ExternalApiError(m) => m.as_str(),
            AppError::InternalServerError(m) => m.as_str(),
        }
    }

    /// The wire shape of this error.
    pub fn to_response(&self) -> (r: ErrorResponse)
        ensures
            r.code@ == self.spec_code(),
            r.message@ == self.spec_message(),
    {
        ErrorResponse { code: self.code().to_owned(), message: self.message().to_owned() }
    }
}

/// A result whose failure is an `AppError`.
pub type AppResult<T> = Result<T, AppError>;

} // verus!
