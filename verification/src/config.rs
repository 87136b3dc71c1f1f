//! Merchant credentials, read once at process start and passed explicitly
//! into signing and verification; business logic never reaches into the
//! process environment, and credentials are never echoed in errors.

use vstd::prelude::*;
use crate::errors::PaytrError;

verus! {

/// The id/key/salt triple the gateway issued to the merchant.
pub struct MerchantConfig {
    pub merchant_id: String,
    pub merchant_key: String,
    pub merchant_salt: String,
}

impl MerchantConfig {
    /// A usable configuration holds no empty credential.
    pub open spec fn wf(self) -> bool {
        self.merchant_id@.len() > 0 && self.merchant_key@.len() > 0
            && self.merchant_salt@.len() > 0
    }

    /// Accepts the three credentials exactly when none is empty; a missing
    /// or empty credential is fatal before any signing is attempted.
    pub fn new(merchant_id: String, merchant_key: String, merchant_salt: String) -> (r: Result<
        MerchantConfig,
        PaytrError,
    >)
        ensures
            r is Ok <==> merchant_id@.len() > 0 && merchant_key@.len() > 0
                && merchant_salt@.len() > 0,
            (match r {
                Ok(c) => c == (MerchantConfig { merchant_id, merchant_key, merchant_salt })
                    && c.wf(),
                Err(e) => e == PaytrError::ConfigurationError,
            }),
    {
        if merchant_id.as_str().is_empty() || merchant_key.as_str().is_empty()
            || merchant_salt.as_str().is_empty() {
            return Err(PaytrError::ConfigurationError);
        }
        Ok(MerchantConfig { merchant_id, merchant_key, merchant_salt })
    }
}

} // verus!
