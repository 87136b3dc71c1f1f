//! The asynchronous payment-result notification and its authentication.
//! A notification is authentic only if the HMAC freshly recomputed over
//! its canonical field concatenation equals the hash the gateway supplied;
//! verification itself never changes any state.

use vstd::prelude::*;
use crate::b64::{b64_encode, b64_encode_bytes};
use crate::mac::{hmac_sha256, hmac_sha256_digest};
use crate::numfmt::{dec_str, format_i64};

verus! {

/// One payment-result notification as the gateway posts it.
pub struct CallbackRequest {
    pub installment_count: i16,
    pub merchant_id: String,
    pub merchant_oid: String,
    pub status: String,
    pub total_amount: i64,
    pub hash: String,
    pub fail_reason_code: i16,
    pub fail_reason_message: String,
    pub test_mode: String,
    pub payment_type: String,
    pub currency: String,
    pub payment_amount: i64,
}

/// The canonical concatenation the callback HMAC is computed over:
/// merchant order id, merchant salt, status string, total amount,
/// with no separators.
pub open spec fn callback_message(cb: CallbackRequest, salt: Seq<char>) -> Seq<char> {
    cb.merchant_oid@ + salt + cb.status@ + dec_str(cb.total_amount as int)
}

/// The hash an authentic notification must carry: HMAC-SHA256 of the
/// canonical concatenation under the merchant key, base64-encoded.
pub open spec fn expected_hash(cb: CallbackRequest, key: Seq<char>, salt: Seq<char>) -> Seq<
    char,
> {
    b64_encode(hmac_sha256(key, callback_message(cb, salt)))
}

/// Whether a notification authenticates under the given secrets.
pub open spec fn callback_valid(cb: CallbackRequest, key: Seq<char>, salt: Seq<char>) -> bool {
    cb.hash@ == expected_hash(cb, key, salt)
}

impl CallbackRequest {
    /// Recomputes the callback HMAC and compares it, byte for byte, with
    /// the supplied hash. Returns true only on an exact match; any
    /// mismatch, whatever its cause, returns false. The notification
    /// itself is left untouched.
    pub fn is_valid(&mut self, merchant_key: String, merchant_salt: String) -> (r: bool)
        ensures
            r == callback_valid(*old(self), merchant_key@, merchant_salt@),
            *final(self) == *old(self),
    {
        let mut msg = self.merchant_oid.clone();
        msg.append(merchant_salt.as_str());
        msg.append(self.status.as_str());
        let amount = format_i64(self.total_amount);
        msg.append(amount.as_str());
        proof {
            assert(msg@ =~= callback_message(*self, merchant_salt@));
        }
        let digest = hmac_sha256_digest(merchant_key.as_str(), msg.as_str());
        let hashed = b64_encode_bytes(&digest);
        self.hash == hashed
    }
}

/// Verification is idempotent: the result is a function of the
/// notification and the secrets alone, so verifying the same notification
/// again yields the same boolean.
pub proof fn lemma_verify_idempotent(
    cb1: CallbackRequest,
    cb2: CallbackRequest,
    key: Seq<char>,
    salt: Seq<char>,
)
    requires
        cb1 == cb2,
    ensures
        callback_valid(cb1, key, salt) == callback_valid(cb2, key, salt),
{
}

/// An authenticated notification reports success exactly when its status
/// string is the literal `success`; every other status is a non-success
/// outcome and must not trigger fulfillment.
pub open spec fn reports_success(cb: CallbackRequest) -> bool {
    cb.status@ == "success"@
}

/// What the callback handler must do with a notification it has verified:
/// fulfill only a notification that authenticates and reports success,
/// while the gateway is acknowledged either way.
pub fn should_fulfill(cb: &mut CallbackRequest, merchant_key: String, merchant_salt: String) -> (r:
    bool)
    ensures
        r == (callback_valid(*old(cb), merchant_key@, merchant_salt@) && reports_success(
            *old(cb),
        )),
        *final(cb) == *old(cb),
{
    let valid = cb.is_valid(merchant_key, merchant_salt);
    let success_literal = String::from_str("success");
    let success = cb.status == success_literal;
    valid && success
}

} // verus!
