//! The error that request handling reports to the client.
use vstd::prelude::*;

verus! {

/// An application error, carried to the HTTP layer.
#[derive(Debug, Clone, Copy, PartialEq, Eq)]
pub enum AppError {
    /// The request is malformed; the message is shown to the client.
    BadRequest(&'static str),
    /// The requested record does not exist.
    NotFound(&'static str),
    /// Something failed on the server side.
    InternalServerError,
}

} // verus!
