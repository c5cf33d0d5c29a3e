//! Replies to requests, as far as decisions depend on them.

use vstd::prelude::*;

verus! {

/// The status of a reply.
#[derive(Debug, Clone)]
pub struct HttpStatus {
    pub code: u16,
    /// The code with its phrase, such as `404 Not Found`.
    pub text: String,
}

pub open spec fn success(code: u16) -> bool {
    200 <= code <= 299
}

/// Whether a status says that the request succeeded.
pub fn is_success(code: u16) -> (res: bool)
    ensures
        res == success(code),
{
    200 <= code && code <= 299
}

pub const UNAUTHORIZED: u16 = 401;

pub const NOT_FOUND: u16 = 404;

/// What came of asking for a text.
#[derive(Debug)]
pub enum Fetched {
    /// The request did not reach the backend; why.
    SendFailed(String),
    /// The reply broke off; why.
    ReadFailed(String),
    Text { status: HttpStatus, text: String },
}

/// Whether a key is there to be sent along.
pub fn has_key(api_key: &str) -> (res: bool)
    ensures
        res == (api_key@.len() > 0),
{
    !api_key.is_empty()
}

} // verus!
