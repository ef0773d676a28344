//! Errors that store operations report.
use vstd::prelude::*;
use vstd::string::*;

use crate::ids::{id_text, uuid_text};

verus! {

/// What a request failed on: invalid input, a missing resource, or missing
/// credentials.
#[derive(Clone, Debug)]
pub enum AppError {
    BadRequest(String),
    NotFound(String),
    Unauthorized,
}

/// `r` is a bad-request error with message `msg`.
pub open spec fn is_bad_request<T>(r: Result<T, AppError>, msg: Seq<char>) -> bool {
    r matches Err(AppError::BadRequest(m)) && m@ == msg
}

/// `r` is a not-found error with message `msg`.
pub open spec fn is_not_found<T>(r: Result<T, AppError>, msg: Seq<char>) -> bool {
    r matches Err(AppError::NotFound(m)) && m@ == msg
}

pub fn bad_request(msg: &str) -> (e: AppError)
    ensures
        e matches AppError::BadRequest(m) && m@ == msg@,
{
    AppError::BadRequest(String::from_str(msg))
}

/// The message for a resource of kind `what` whose identifier is unknown.
pub open spec fn not_found_text(what: Seq<char>, id: u128) -> Seq<char> {
    what + " '"@ + uuid_text(id) + "' not found"@
}

/// A not-found error for the resource of kind `what` with identifier `id`.
pub fn not_found(what: &str, id: u128) -> (e: AppError)
    ensures
        e matches AppError::NotFound(m) && m@ == not_found_text(what@, id),
{
    let mut m = String::from_str(what);
    m.append(" '");
    let t = id_text(id);
    m.append(t.as_str());
    m.append("' not found");
    AppError::NotFound(m)
}

} // verus!
