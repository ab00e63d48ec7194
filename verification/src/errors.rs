//! Failure taxonomy of the transport layer.

use vstd::prelude::*;

verus! {

/// Every way an operation against the daemon can fail.
///
/// None of these are retried by this layer: retry policy belongs to the
/// caller, which alone knows whether an operation is safe to repeat.
#[derive(Clone, Debug, PartialEq, Eq)]
pub enum Error {
    /// Socket or TLS setup failed before a request could be written.
    Connection(String),
    /// The daemon answered with a non-2xx status.
    /// The body is the error payload exactly as received.
    Api { status: u16, body: String },
    /// A streamed JSON frame was malformed; the rest of that stream is lost.
    Decode,
    /// A multiplexed frame header carried a stream selector outside 0..=2.
    Protocol(u8),
    /// The stream ended in the middle of a frame header or payload.
    Truncated,
    /// A local read or write failed (filesystem during a tar build,
    /// or the transport socket).
    Io(String),
    /// The daemon's reply did not have the shape the operation requires.
    InvalidResponse(String),
}

impl Error {
    /// True exactly for the variant that reports a non-2xx daemon status.
    pub fn is_api_error(&self) -> (r: bool)
        ensures
            r == (self is Api),
    {
        match self {
            Error::Api { .. } => true,
            _ => false,
        }
    }

    /// The daemon status code, where one was received.
    pub fn status_code(&self) -> (r: Option<u16>)
        ensures
            match self {
                Error::Api { status, .. } => r == Some(*status),
                _ => r is None,
            },
    {
        match self {
            Error::Api { status, .. } => Some(*status),
            _ => None,
        }
    }
}

} // verus!
