//! The ways in which a request can fail.

use vstd::prelude::*;

verus! {

/// Why a connection did not end in the response that was asked for. Each
/// failure stays with its own connection.
#[derive(Clone, Copy, Debug, PartialEq, Eq, Structural)]
pub enum RequestError {
    /// The request line has no method and target, or `Content-Length` is no
    /// unsigned number.
    BadRequest,
    /// The buffer was full before the head or the body was complete.
    PayloadTooLarge,
    /// The peer closed in the middle of the message.
    IncompleteRequest,
    /// The request speaks `HTTP/0.9`.
    UpgradeRequired,
    /// The version token does not begin with `HTTP/`.
    VersionNotSupported,
    /// The path is known, the method is not offered on it.
    MethodNotAllowed,
    /// The path is not known.
    NotFound,
    /// A read, a write or the wait for a message took too long.
    Timeout,
    /// The peer reset the connection.
    ConnectionAborted,
}

} // verus!
