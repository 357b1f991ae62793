//! The ways in which decoding a request or answering it can fail.

use vstd::prelude::*;

verus! {

/// Why a request could not be decoded, or a response not be prepared.
#[derive(Debug, Clone, PartialEq, Eq)]
pub enum Error {
    /// The head grew to the size limit without its blank line.
    HeadersTooLong,
    /// The request line holds no method.
    MissingMethod,
    /// The request line holds no request-target.
    RequestPathMissing,
    /// The tokenizer found the head incomplete after its blank line.
    PartialHead,
    /// The tokenizer refused the head.
    MalformedHead,
    /// The method token is not an HTTP method.
    UnrecognizedMethod(Vec<u8>),
    /// No Host header and no default host.
    HostHeaderMissing,
    /// An HTTP version other than 1.0 and 1.1.
    UnsupportedVersion(u8),
    /// A request-target of no form that applies to the method.
    UnexpectedURIFormat,
    /// A resolved URL that the URL parser refuses.
    InvalidUrl,
    /// A header value that is not UTF-8.
    InvalidUtf8,
    /// A `Content-Length` that is not a number.
    MalformedContentLength,
    /// `Content-Length` together with `Transfer-Encoding`.
    ConflictingFraming,
    /// A response with more than one `Connection` value.
    MultipleConnectionHeaders,
}

} // verus!
