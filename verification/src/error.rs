//! Errors of the provider protocols.

use vstd::prelude::*;

verus! {

/// Why a provider's reply could not be decoded.
#[derive(Debug)]
pub enum DecodeError {
    /// Not JSON, or JSON of another shape.
    Json(serde_json::Error),
    /// Described in words.
    Message(String),
}

/// A failed exchange with a provider.
#[derive(Debug)]
pub enum ProviderError {
    /// The environment variable that holds the API key is not set.
    MissingApiKey { var: String },
    /// The provider answered with an error status.
    Http { status: u16, body: String },
    /// The provider's reply could not be decoded.
    Decode(DecodeError),
    /// The provider's reply holds no candidate.
    EmptyResponse,
}

/// The error for a stream sink that failed with `message`.
pub fn provider_error_from_core(message: &str) -> (r: ProviderError)
    ensures
        r matches ProviderError::Decode(DecodeError::Message(m)) && m@ == message@,
{
    ProviderError::Decode(DecodeError::Message(message.to_owned()))
}

/// A duration in milliseconds, as a `u64`, or `u64::MAX` when it does not fit.
pub fn elapsed_ms(millis: u128) -> (r: u64)
    ensures
        r == (if millis <= u64::MAX {
            millis as int
        } else {
            u64::MAX as int
        }),
{
    if millis <= u64::MAX as u128 {
        millis as u64
    } else {
        u64::MAX
    }
}

} // verus!
