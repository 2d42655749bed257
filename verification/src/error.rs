//! Error type shared by the data layer and the authentication flow.

use vstd::prelude::*;

verus! {

/// Carrier for failures that are surfaced to the caller as a generic
/// server error; the message is logged, never sent to the client.
#[derive(Debug, Clone)]
pub struct ApiError {
    pub message: String,
}

impl ApiError {
    pub fn new(message: &str) -> (r: ApiError)
        ensures
            r.message@ == message@,
    {
        ApiError { message: message.to_owned() }
    }

    /// Internal detail for server-side logging.
    pub fn message(&self) -> (r: &str)
        ensures
            r@ == self.message@,
    {
        self.message.as_str()
    }
}

/// Outcome of an operation that may fail with a server-side error.
pub type ApiResult<T> = Result<T, ApiError>;

} // verus!
