//! The errors a request can end with, and how they are answered.

use vstd::prelude::*;

verus! {

/// Why a request failed; each variant carries the text of its cause.
pub enum ServerError {
    /// The platform (database, runtime) reported an error.
    Worker(String),
    /// The request to the completion service failed.
    Fetch(String),
    Deserialize { msg: String },
    Serialize { msg: String },
}

/// The text that describes an error.
pub open spec fn server_error_text(e: ServerError) -> Seq<char> {
    match e {
        ServerError::Worker(cause) => "Worker error: "@ + cause@,
        ServerError::Fetch(cause) => "Reqwest fetch failed: "@ + cause@,
        ServerError::Deserialize { msg } => "Failed to deserialize: "@ + msg@,
        ServerError::Serialize { msg } => "Failed to serialize: "@ + msg@,
    }
}

/// The status with which every failed request is answered: Internal Server Error.
pub open spec fn internal_server_error() -> u16 {
    500
}

impl ServerError {
    pub fn message(&self) -> (text: String)
        ensures
            text@ == server_error_text(*self),
    {
        let (head, cause) = match self {
            ServerError::Worker(cause) => ("Worker error: ", cause),
            ServerError::Fetch(cause) => ("Reqwest fetch failed: ", cause),
            ServerError::Deserialize { msg } => ("Failed to deserialize: ", msg),
            ServerError::Serialize { msg } => ("Failed to serialize: ", msg),
        };
        let mut text = String::from_str(head);
        text.append(cause.as_str());
        text
    }

    /// Every error is answered with Internal Server Error.
    pub fn status_code(&self) -> (status: u16)
        ensures
            status == internal_server_error(),
    {
        500
    }
}

} // verus!
