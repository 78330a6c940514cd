use vstd::prelude::*;
use vstd::string::StringExecFns;

verus! {

/// The error taxonomy of the query engine.
pub enum ApiError {
    /// A malformed filter combination or paging parameter.
    BadRequest(String),
    /// No row for the requested natural key at the resolved head.
    NotFound(String),
    /// A storage failure or a data-integrity violation.
    InternalError(String),
    /// No database connection could be had.
    ServiceUnavailable(String),
    /// The caller could not be authenticated.
    Unauthorized(String),
}

impl ApiError {
    pub open spec fn is_bad_request(&self) -> bool {
        self is BadRequest
    }

    pub open spec fn is_not_found(&self) -> bool {
        self is NotFound
    }

    pub open spec fn is_internal(&self) -> bool {
        self is InternalError
    }

    /// The message carried by the error.
    pub fn message(&self) -> (r: &String)
        ensures
            match self {
                ApiError::BadRequest(m) => r == m,
                ApiError::NotFound(m) => r == m,
                ApiError::InternalError(m) => r == m,
                ApiError::ServiceUnavailable(m) => r == m,
                ApiError::Unauthorized(m) => r == m,
            },
    {
        match self {
            ApiError::BadRequest(m) => m,
            ApiError::NotFound(m) => m,
            ApiError::InternalError(m) => m,
            ApiError::ServiceUnavailable(m) => m,
            ApiError::Unauthorized(m) => m,
        }
    }
}

/// Builds an owned message from a literal.
pub fn message_of(s: &str) -> (r: String)
    ensures
        r@ == s@,
{
    String::from_str(s)
}

} // verus!
