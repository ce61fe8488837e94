//! Error taxonomy of the library.
//!
//! Transport failures, malformed payloads and authentication problems are
//! kept apart so that callers can react to each; a catch-all variant carries
//! protocol-specific messages.

use vstd::prelude::*;

verus! {

/// Errors that can occur when communicating with miners.
#[derive(Debug, Clone)]
pub enum MinerError {
    /// Operation exceeded its deadline; carries the target address.
    Timeout(String),
    /// Payload did not match the expected shape; carries a description.
    ParseError(String),
    /// Connection refused, reset, or otherwise failed; carries a description.
    NetworkError(String),
    /// Detected vendor has no matching client; carries the model label.
    UnsupportedModel(String),
    /// Credentials were rejected after all fallback attempts.
    AuthenticationError,
    /// Payload did not match the expected shape after garbage trimming.
    InvalidResponse,
    /// An address range string could not be expanded.
    InvalidRange,
    /// Catch-all for protocol-specific failures.
    GenericError(String),
}

/// Result of a library operation that can fail with a `MinerError`.
pub type MinerResult<T> = core::result::Result<T, MinerError>;

impl MinerError {
    /// A short human-readable label for the error, usable where the
    /// surrounding process wants to show or log it.
    pub fn message(&self) -> (r: String)
        ensures
            self matches MinerError::Timeout(ip) ==> r@ == "connection timeout: "@ + ip@,
            self matches MinerError::ParseError(what) ==> r@ == "invalid response payload: "@
                + what@,
            self matches MinerError::NetworkError(what) ==> r@ == "network error: "@ + what@,
            self matches MinerError::UnsupportedModel(model) ==> r@
                == "unsupported miner model: "@ + model@,
            self is AuthenticationError ==> r@ == "authentication failed"@,
            self is InvalidResponse ==> r@ == "invalid response format"@,
            self is InvalidRange ==> r@ == "invalid address range"@,
            self matches MinerError::GenericError(what) ==> r@ == what@,
    {
        let mut s = String::new();
        match self {
            MinerError::Timeout(ip) => {
                s.append("connection timeout: ");
                s.append(ip.as_str());
            },
            MinerError::ParseError(what) => {
                s.append("invalid response payload: ");
                s.append(what.as_str());
            },
            MinerError::NetworkError(what) => {
                s.append("network error: ");
                s.append(what.as_str());
            },
            MinerError::UnsupportedModel(model) => {
                s.append("unsupported miner model: ");
                s.append(model.as_str());
            },
            MinerError::AuthenticationError => {
                s.append("authentication failed");
            },
            MinerError::InvalidResponse => {
                s.append("invalid response format");
            },
            MinerError::InvalidRange => {
                s.append("invalid address range");
            },
            MinerError::GenericError(what) => {
                s.append(what.as_str());
            },
        }
        s
    }
}

} // verus!
