//! Error taxonomy of the payment core. Every failure a caller must branch
//! on is one of these variants; a callback hash mismatch is not an error
//! but the `false` result of verification.

use vstd::prelude::*;

verus! {

/// A failure of the payment flow that is fatal for the current transaction.
#[derive(Clone, Copy, PartialEq, Eq, Structural, Debug)]
pub enum PaytrError {
    /// A required merchant credential is missing or empty.
    ConfigurationError,
    /// The basket or a field could not be serialized.
    EncodingError,
    /// Invalid key material at signing time (an empty merchant key).
    SigningError,
    /// The gateway could not be reached, or the call timed out.
    NetworkError,
}

impl PaytrError {
    /// A short human-readable description; it never carries secrets.
    pub fn message(&self) -> (r: &'static str)
        ensures
            r@ == self.spec_message(),
    {
        match self {
            PaytrError::ConfigurationError => "missing or empty merchant credential",
            PaytrError::EncodingError => "basket serialization failed",
            PaytrError::SigningError => "invalid signing key",
            PaytrError::NetworkError => "gateway request failed",
        }
    }

    /// What `message` returns for each variant.
    pub open spec fn spec_message(self) -> Seq<char> {
        match self {
            PaytrError::ConfigurationError => "missing or empty merchant credential"@,
            PaytrError::EncodingError => "basket serialization failed"@,
            PaytrError::SigningError => "invalid signing key"@,
            PaytrError::NetworkError => "gateway request failed"@,
        }
    }
}

} // verus!
