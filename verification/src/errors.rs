//! The common error taxonomy used across this crate.  A [`ClientError`]
//! describes every way a provider's two phases (build, parse) or the shared
//! dispatch step can fail.  Per-entity malformed fields are not errors: such
//! rows are silently excluded during parsing.

use vstd::prelude::*;

verus! {

/// An error that occurred while querying or processing data from a
/// torrent provider.
#[derive(Debug)]
pub enum ClientError {
    /// The response body could not be decoded into the structured shape the
    /// source is expected to produce.  Carries the decoder's message.
    DataParseError(String),
    /// The source responded, but with a status code outside the successful
    /// range.  Carries the status code and the raw response body.
    ServerResponseError { code: u16, content: String },
    /// The response could not be retrieved at all: a transport-level
    /// failure such as a refused connection, a timeout, or an undecodable
    /// body.  Carries the transport's message.
    ResponseError(String),
    /// A wire request could not be turned into a real HTTP request.
    /// Carries the builder's message and the URL that was being used.
    RequestBuildError { source: String, url: String },
}

} // verus!
