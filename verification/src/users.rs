//! Who may do what, and how often the user's profile is asked for.

use vstd::prelude::*;
use crate::error::ApiError;

verus! {

/// The role of one who administers the site.
pub const ADMIN_ROLE_CODE: i32 = 0;

/// The role of one who reads it.
pub const READER_ROLE_CODE: i32 = 1;

/// Lets a request pass if its user's role is among `roles`, and says which
/// role that is; turns it down otherwise.
pub fn ensure_roles(user_role_code: i32, roles: &[i32]) -> (permitted: Result<i32, ApiError>)
    ensures
        permitted == if roles@.contains(user_role_code) {
            Ok::<i32, ApiError>(user_role_code)
        } else {
            Err::<i32, ApiError>(ApiError::NoPermission)
        },
{
    let mut i: usize = 0;
    while i < roles.len()
        invariant
            i <= roles.len(),
            forall|k: int| 0 <= k < i ==> roles@[k] != user_role_code,
        decreases roles.len() - i,
    {
        let role = roles[i];
        if role == user_role_code {
            return Ok(role);
        }
        i += 1;
    }
    Err(ApiError::NoPermission)
}

/// The 128-bit value of the identifier that `text` spells, in any of the forms
/// in which an identifier is written; `None` where `text` spells none.
pub uninterp spec fn uuid_of(text: Seq<char>) -> Option<u128>;

/// `uuid::Uuid::parse_str`, with `Uuid::as_u128` on what it gives: the value
/// of the identifier that `text` spells, and `None` where the parser refuses
/// `text`. The same text gives the same value wherever it is read.
#[verifier::external_body]
fn parse_uuid(text: &str) -> (value: Option<u128>)
    ensures
        value == uuid_of(text@),
{
    match uuid::Uuid::parse_str(text) {
        Ok(id) => Some(id.as_u128()),
        Err(_) => None,
    }
}

/// The identifier of the session that a request names, given the text of the
/// header that is to hold it: the value that the text spells. A request
/// without the header, or with one that spells no identifier, has no session.
pub fn session_id(header: Option<&str>) -> (id: Result<u128, ApiError>)
    ensures
        id == match header {
            Some(text) => match uuid_of(text@) {
                Some(value) => Ok::<u128, ApiError>(value),
                None => Err::<u128, ApiError>(ApiError::NoSession),
            },
            None => Err::<u128, ApiError>(ApiError::NoSession),
        },
{
    match header {
        Some(text) => require_session(parse_uuid(text)),
        None => Err(ApiError::NoSession),
    }
}

/// The session that was found for a request, or the error that says that the
/// request has none.
pub fn require_session<S>(found: Option<S>) -> (session: Result<S, ApiError>)
    ensures
        session == match found {
            Some(s) => Ok::<S, ApiError>(s),
            None => Err::<S, ApiError>(ApiError::NoSession),
        },
{
    match found {
        Some(s) => Ok(s),
        None => Err(ApiError::NoSession),
    }
}

/// What came of one request for a user's profile.
#[derive(Debug, Clone, Copy, PartialEq, Eq, Structural)]
pub enum Attempt {
    /// An answer came.
    Answered,
    /// The request failed on the status that came back.
    StatusError,
    /// The request failed for another reason.
    OtherError,
}

/// What to do after a request for a user's profile.
#[derive(Debug, Clone, Copy, PartialEq, Eq, Structural)]
pub enum Verdict {
    /// Read the profile from the answer.
    Accept,
    /// Give up with the error of this request.
    Fail,
    /// Ask again.
    Retry,
}

/// What to do after the request number `tried`, counted from 1, of at most
/// `retry`: an answer is accepted; an error of status ends the matter; any
/// other error is answered by asking again, unless this was the last request.
pub fn after_attempt(tried: usize, retry: usize, attempt: Attempt) -> (verdict: Verdict)
    requires
        1 <= tried <= retry,
    ensures
        verdict == match attempt {
            Attempt::Answered => Verdict::Accept,
            Attempt::StatusError => Verdict::Fail,
            Attempt::OtherError => if tried < retry {
                Verdict::Retry
            } else {
                Verdict::Fail
            },
        },
{
    match attempt {
        Attempt::Answered => Verdict::Accept,
        Attempt::StatusError => Verdict::Fail,
        Attempt::OtherError => if tried < retry {
            Verdict::Retry
        } else {
            Verdict::Fail
        },
    }
}

} // verus!
