//! Application-level failures and their response categories.
//!
//! Every failure a handler returns is one of three outcomes: a server-caused
//! failure carrying only the taxonomy-level storage error, a client-caused
//! validation failure with a human-readable reason, or an authorization
//! failure.  The mapping to a response status is total and exact, so no
//! backend-native error text ever leaks.

use crate::store::StoreError;
use vstd::prelude::*;

verus! {

/// A caller-supplied field violates a length or shape bound; the payload is
/// the human-readable reason.
#[derive(Debug)]
pub struct DtoValidationError(pub String);

impl DtoValidationError {
    /// The message a response carries for this failure.
    pub fn message(&self) -> (r: String)
        ensures
            r@ == "DTO is invalid: "@ + self.0@,
    {
        let prefix = String::from_str("DTO is invalid: ");
        prefix.concat(self.0.as_str())
    }
}

/// The failure a handler reports to its caller.
#[derive(Debug)]
pub enum AppError {
    /// A server-caused failure: only the storage taxonomy is surfaced.
    InternalServerError(StoreError),
    /// A client-caused failure with a human-readable reason.
    ValidationError(DtoValidationError),
    /// The presented token does not authorize the operation.
    Unauthorized,
}

impl AppError {
    /// Wraps a storage failure: the client-caused kinds (`UnknownId`,
    /// `DuplicateId`) become validation failures with a fixed reason, the
    /// server-caused kinds are surfaced as internal errors.
    pub fn from_store(e: StoreError) -> (r: AppError)
        ensures
            e == StoreError::UnknownId ==> (r matches AppError::ValidationError(v) && v.0@
                == "unknown id"@),
            e == StoreError::DuplicateId ==> (r matches AppError::ValidationError(v) && v.0@
                == "duplicate id"@),
            e == StoreError::Serialization || e == StoreError::Io ==> r == (
            AppError::InternalServerError(e)),
    {
        match e {
            StoreError::UnknownId => AppError::ValidationError(
                DtoValidationError(String::from_str("unknown id")),
            ),
            StoreError::DuplicateId => AppError::ValidationError(
                DtoValidationError(String::from_str("duplicate id")),
            ),
            StoreError::Serialization => AppError::InternalServerError(e),
            StoreError::Io => AppError::InternalServerError(e),
        }
    }

    /// The response status category: server-caused failures map to 500,
    /// client-caused validation failures to 400, authorization failures
    /// to 401 — exactly one outcome per failure kind.
    pub fn status_code(&self) -> (r: u16)
        ensures
            r == (match self {
                AppError::InternalServerError(_) => 500u16,
                AppError::ValidationError(_) => 400u16,
                AppError::Unauthorized => 401u16,
            }),
    {
        match self {
            AppError::InternalServerError(_) => 500,
            AppError::ValidationError(_) => 400,
            AppError::Unauthorized => 401,
        }
    }
}

} // verus!
