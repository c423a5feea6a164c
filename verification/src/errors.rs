//! The API error taxonomy surfaced at the web boundary, with its status
//! code mapping and message texts.

use vstd::prelude::*;
use crate::text::{append_str, string_of};

verus! {

broadcast use vstd::string::group_string_axioms;

/// An error surfaced to an API caller.
#[derive(Debug, Clone)]
pub enum ApiError {
    DatabaseError(String),
    InvalidQuery(String),
    ValidationError(String),
    NotFound(String),
    Unauthorized,
    Internal(String),
}

/// The message text of an error.
pub open spec fn api_error_message(e: ApiError) -> Seq<char> {
    match e {
        ApiError::DatabaseError(d) => "Database connection failed: "@ + d@,
        ApiError::InvalidQuery(d) => "Invalid query parameters: "@ + d@,
        ApiError::ValidationError(d) => "Validation failed: "@ + d@,
        ApiError::NotFound(d) => "Resource not found: "@ + d@,
        ApiError::Unauthorized => "Authentication required"@,
        ApiError::Internal(d) => "Internal server error: "@ + d@,
    }
}

impl ApiError {
    /// The HTTP status code this error maps to.
    pub fn status_code(&self) -> (r: u16)
        ensures
            r == (match self {
                ApiError::DatabaseError(_) => 503u16,
                ApiError::InvalidQuery(_) => 400u16,
                ApiError::ValidationError(_) => 400u16,
                ApiError::NotFound(_) => 404u16,
                ApiError::Unauthorized => 401u16,
                ApiError::Internal(_) => 500u16,
            }),
    {
        match self {
            ApiError::DatabaseError(_) => 503,
            ApiError::InvalidQuery(_) => 400,
            ApiError::ValidationError(_) => 400,
            ApiError::NotFound(_) => 404,
            ApiError::Unauthorized => 401,
            ApiError::Internal(_) => 500,
        }
    }

    /// The message text of this error.
    pub fn message(&self) -> (r: String)
        ensures
            r@ == api_error_message(*self),
    {
        let mut w: Vec<char> = Vec::new();
        match self {
            ApiError::DatabaseError(d) => {
                append_str(&mut w, "Database connection failed: ");
                append_str(&mut w, d.as_str());
            },
            ApiError::InvalidQuery(d) => {
                append_str(&mut w, "Invalid query parameters: ");
                append_str(&mut w, d.as_str());
            },
            ApiError::ValidationError(d) => {
                append_str(&mut w, "Validation failed: ");
                append_str(&mut w, d.as_str());
            },
            ApiError::NotFound(d) => {
                append_str(&mut w, "Resource not found: ");
                append_str(&mut w, d.as_str());
            },
            ApiError::Unauthorized => {
                append_str(&mut w, "Authentication required");
            },
            ApiError::Internal(d) => {
                append_str(&mut w, "Internal server error: ");
                append_str(&mut w, d.as_str());
            },
        }
        string_of(w.as_slice())
    }
}

} // verus!
