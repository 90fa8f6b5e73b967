//! The error a request handler answers with: a status code and a message.

use vstd::prelude::*;

verus! {

/// An HTTP-level error: a status code and a human-readable message.
pub struct HttpError {
    pub error_status_code: u16,
    pub error_message: String,
}

impl HttpError {
    /// Builds an error from its status code and message.
    pub fn new(error_status_code: u16, error_message: String) -> (r: HttpError)
        ensures
            r.error_status_code == error_status_code,
            r.error_message == error_message,
    {
        HttpError { error_status_code, error_message }
    }

    /// The message a response body may carry: the stored message for client
    /// errors, a generic one for server errors.
    pub fn public_message(&self) -> (r: String)
        ensures
            self.error_status_code < 500 ==> r == self.error_message,
            self.error_status_code >= 500 ==> r@ == "Internal server error"@,
    {
        if self.error_status_code < 500 {
            self.error_message.clone()
        } else {
            "Internal server error".to_owned()
        }
    }
}

} // verus!
