//! One error type for every server handler, one JSON shape on the wire.

use vstd::prelude::*;
use crate::api::{ApiErrorBody, ErrorCode};

verus! {

#[derive(Debug, Clone, PartialEq)]
pub enum AppError {
    BadRequest(String),
    Unauthorized,
    NotFound,
    /// Anything unexpected. The cause is logged; the client only learns that
    /// it was the server's fault, never why.
    Internal(String),
}

impl AppError {
    /// What the error says in the log.
    pub open spec fn text(self) -> Seq<char> {
        match self {
            AppError::BadRequest(m) => m@,
            AppError::Unauthorized => "missing or invalid credentials"@,
            AppError::NotFound => "no such note"@,
            AppError::Internal(cause) => cause@,
        }
    }

    pub fn message(&self) -> (r: String)
        ensures
            r@ == self.text(),
    {
        match self {
            AppError::BadRequest(m) => m.clone(),
            AppError::Unauthorized => String::from_str("missing or invalid credentials"),
            AppError::NotFound => String::from_str("no such note"),
            AppError::Internal(cause) => cause.clone(),
        }
    }

    /// The HTTP status and body the error is answered with. An internal
    /// error's cause never reaches the client.
    pub fn response(&self) -> (r: (u16, ApiErrorBody))
        ensures
            match self {
                AppError::BadRequest(m) => r.0 == 400 && r.1.code == ErrorCode::BadRequest
                    && r.1.message == m,
                AppError::Unauthorized => r.0 == 401 && r.1.code == ErrorCode::Unauthorized
                    && r.1.message@ == "missing or invalid credentials"@,
                AppError::NotFound => r.0 == 404 && r.1.code == ErrorCode::NotFound
                    && r.1.message@ == "no such note"@,
                AppError::Internal(_) => r.0 == 500 && r.1.code == ErrorCode::Internal
                    && r.1.message@ == "internal error"@,
            },
    {
        match self {
            AppError::BadRequest(m) => (
                400,
                ApiErrorBody { code: ErrorCode::BadRequest, message: m.clone() },
            ),
            AppError::Unauthorized => (
                401,
                ApiErrorBody {
                    code: ErrorCode::Unauthorized,
                    message: String::from_str("missing or invalid credentials"),
                },
            ),
            AppError::NotFound => (
                404,
                ApiErrorBody { code: ErrorCode::NotFound, message: String::from_str("no such note") },
            ),
            AppError::Internal(_) => (
                500,
                ApiErrorBody { code: ErrorCode::Internal, message: String::from_str("internal error") },
            ),
        }
    }
}

} // verus!
