//! Error handling for the http server.

use vstd::prelude::*;

verus! {

/// Things that can go wrong when serializing FastCGI messages.
#[derive(Debug, PartialEq, Eq, Structural, Clone, Copy)]
pub enum SerializationError {
    /// The length of a name or value could not be represented in four bytes,
    /// or a record's content does not fit in its two-byte length field.
    TooLong,
}

/// All errors which might arise within the request-handling core.
#[derive(Debug, PartialEq, Eq, Structural, Clone, Copy)]
pub enum Error {
    /// The client's request head is malformed.
    Parse,
    /// A socket, file or pipe failed; the details stay at the edge that
    /// performed the transfer.
    Io,
    /// A FastCGI message could not be serialized.
    Serialization(SerializationError),
    /// Bytes that had to be text were not valid UTF-8.
    FromUtf8,
    /// The upstream connection's lock was left broken by a prior panic.
    Poison,
    /// The application server closed the connection mid-request.
    ApplicationServerDisappeared,
    /// The application server sent a record the driver cannot accept here.
    FastCgiProtocolViolation,
    /// The request-uri does not begin with `/`.
    PathNotInOriginForm,
    /// A `%` in the request-uri is not followed by two hex digits.
    IllegalPercentEncoding,
    /// The resolved file lies outside the webroot, or is a directory.
    PermissionDenied,
    /// The peer stopped sending before the request head was complete.
    RequestIncomplete,
    /// The request head exceeds the size the server accepts.
    RequestLineTooLong,
    /// A route matched the path but has no handler for the method.
    MethodNotAllowed,
}

} // verus!
