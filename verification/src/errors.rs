//! Error values produced by configuration resolution and stream handling.

use vstd::prelude::*;

verus! {

/// Failure while resolving the effective configuration.
#[derive(Debug, PartialEq, Eq, Structural)]
pub enum ConfigError {
    /// The resolved sampling temperature lies outside the allowed range.
    OutOfRange { value: crate::config::Temperature },
}

/// Failure while performing or decoding the streamed request.
#[derive(Debug)]
pub enum StreamError {
    /// The endpoint answered with a non-2xx status; `body` holds the full
    /// response text read for diagnostics.
    HttpStatusError { code: u16, body: String },
    /// No byte arrived within the bounded wait for the first chunk.
    FirstChunkTimeout,
    /// The response body ended before any chunk was delivered.
    EmptyStream,
    /// A chunk was not valid UTF-8.
    EncodingError,
}

} // verus!
