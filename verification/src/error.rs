//! HTTP client errors and their retry classification.

use vstd::prelude::*;
use crate::cloudflare::ChallengeType;

verus! {

/// An HTTP client error.
#[derive(Debug)]
pub enum HttpError {
    /// The transport failed; the flags record whether it was a timeout or a
    /// connection failure, and `message` describes it.
    Request { message: String, is_timeout: bool, is_connect: bool },
    /// The URL could not be used.
    InvalidUrl(String),
    /// The call timed out after the given duration.
    Timeout(std::time::Duration),
    /// The server answered with a status worth retrying.
    RetryableStatus(u16),
    /// The proxy pool failed.
    ProxyPool(String),
    /// A Cloudflare challenge (type, HTTP status, ray id).
    Cloudflare(ChallengeType, u16, String),
    /// The response body exceeded the configured cap.
    BodyTooLarge { limit: u64, observed: u64 },
    /// The response body could not be decoded.
    BodyDecodeError(String),
}

/// Transient failures: retryable statuses, timeouts, transport timeouts or
/// connection failures, and Cloudflare challenges.
pub open spec fn retryable(e: &HttpError) -> bool {
    match e {
        HttpError::RetryableStatus(_) => true,
        HttpError::Timeout(_) => true,
        HttpError::Request { is_timeout, is_connect, .. } => *is_timeout || *is_connect,
        HttpError::Cloudflare(_, _, _) => true,
        _ => false,
    }
}

impl HttpError {
    /// Returns `true` if this error is retryable (a transient failure).
    pub fn is_retryable(&self) -> (r: bool)
        ensures
            r == retryable(self),
    {
        match self {
            HttpError::RetryableStatus(_) => true,
            HttpError::Timeout(_) => true,
            HttpError::Request { is_timeout, is_connect, .. } => *is_timeout || *is_connect,
            HttpError::Cloudflare(_, _, _) => true,
            HttpError::InvalidUrl(_) | HttpError::ProxyPool(_) | HttpError::BodyTooLarge { .. }
            | HttpError::BodyDecodeError(_) => false,
        }
    }
}

} // verus!
