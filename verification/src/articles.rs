//! What the answers about articles go by.

use vstd::prelude::*;
use crate::error::ApiError;

verus! {

/// The article that was found under a key, or the error that says that there
/// is none.
pub fn require_article<A>(found: Option<A>) -> (article: Result<A, ApiError>)
    ensures
        article == match found {
            Some(a) => Ok::<A, ApiError>(a),
            None => Err::<A, ApiError>(ApiError::NotFound),
        },
{
    match found {
        Some(a) => Ok(a),
        None => Err(ApiError::NotFound),
    }
}

/// Whether a statement that was meant for one row did its work: it changed
/// exactly one.
pub fn changed_one(rows_affected: u64) -> (done: bool)
    ensures
        done == (rows_affected == 1),
{
    rows_affected == 1
}

} // verus!
