//! The errors that a request can be answered with.

use vstd::prelude::*;
use vstd::string::StringExecFns;

verus! {

/// Why a request is turned down.
#[derive(Debug, Clone, Copy, PartialEq, Eq, Structural)]
pub enum ApiError {
    /// What was asked for does not exist.
    NotFound,
    /// The request carries no session, or one that is not known.
    NoSession,
    /// The session's user may not do what was asked.
    NoPermission,
}

/// The body of the answer to a request that was turned down.
#[derive(Debug)]
pub struct ApiErrorRes {
    pub code: u16,
    pub message: String,
}

impl ApiError {
    /// The number that stands for the error in the body of an answer.
    pub open spec fn code_of(self) -> u16 {
        match self {
            ApiError::NotFound => 1001,
            ApiError::NoSession => 1002,
            ApiError::NoPermission => 1003,
        }
    }

    /// The HTTP status of the answer: 404 where something was not found, 403
    /// where the request was not allowed.
    pub open spec fn status_of(self) -> u16 {
        match self {
            ApiError::NotFound => 404,
            ApiError::NoSession => 403,
            ApiError::NoPermission => 403,
        }
    }

    /// The name of the error, as the body of an answer gives it.
    pub open spec fn message_of(self) -> Seq<char> {
        match self {
            ApiError::NotFound => "NotFound"@,
            ApiError::NoSession => "NoSession"@,
            ApiError::NoPermission => "NoPermission"@,
        }
    }

    /// The number that stands for the error in the body of an answer.
    pub fn code(&self) -> (code: u16)
        ensures
            code == self.code_of(),
    {
        match self {
            ApiError::NotFound => 1001,
            ApiError::NoSession => 1002,
            ApiError::NoPermission => 1003,
        }
    }

    /// The HTTP status of the answer.
    pub fn status(&self) -> (status: u16)
        ensures
            status == self.status_of(),
    {
        match self {
            ApiError::NotFound => 404,
            ApiError::NoSession | ApiError::NoPermission => 403,
        }
    }

    /// The name of the error.
    pub fn message(&self) -> (message: String)
        ensures
            message@ == self.message_of(),
    {
        match self {
            ApiError::NotFound => String::from_str("NotFound"),
            ApiError::NoSession => String::from_str("NoSession"),
            ApiError::NoPermission => String::from_str("NoPermission"),
        }
    }
}

/// The answer to a request that was turned down with `e`: its HTTP status, and
/// its body, which holds the error's number and name.
pub fn catch_api_error(e: ApiError) -> (answer: (u16, ApiErrorRes))
    ensures
        answer.0 == e.status_of(),
        answer.1.code == e.code_of(),
        answer.1.message@ == e.message_of(),
{
    let status = e.status();
    let message = e.message();
    (status, ApiErrorRes { code: e.code(), message })
}

} // verus!
