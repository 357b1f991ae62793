//! Server side of an HTTP/1.1 connection: decoding request heads and
//! deciding, request by request, whether a stream is reused.

use vstd::prelude::*;

pub mod ascii;
pub mod connection;
pub mod error;
pub mod decode;
pub mod head;
pub mod options;
pub mod request;

verus! {

/// Largest request head, in bytes, that is buffered before giving up.
pub const MAX_HEAD_LENGTH: usize = 8192;

/// Largest number of header fields in one request head.
pub const MAX_HEADERS: usize = 128;

/// Whether a connection may carry another request.
#[derive(Debug, Copy, Clone, PartialEq, Eq, Structural)]
pub enum ConnectionStatus {
    /// No further request is read from the stream.
    Close,
    /// The stream may carry another request.
    KeepAlive,
}

} // verus!
