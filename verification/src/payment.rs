//! The outbound payment request and its signing token. The canonical field
//! concatenation below is the single most important contract here: the
//! gateway recomputes the same HMAC independently, so any deviation in
//! order or formatting silently breaks authentication.

use vstd::prelude::*;
use crate::b64::{b64_encode, b64_encode_bytes};
use crate::basket::{basket_encoding, carts_view, encode_basket, lemma_basket_encoding_injective, Cart, CartView};
use crate::config::MerchantConfig;
use crate::errors::PaytrError;
use crate::response::Request;
use crate::mac::{hmac_sha256, hmac_sha256_digest};
use crate::numfmt::{dec_str, format_i64};

verus! {

/// One payment-initiation request, fully populated before signing.
/// `paytr_token` is empty until `generate_token` runs and must be treated
/// as stale after any later field change (re-sign before use).
pub struct Payment {
    pub merchant_id: String,
    pub merchant_key: String,
    pub merchant_salt: String,
    pub user_ip: String,
    pub merchant_oid: String,
    pub email: String,
    pub payment_amount: i64,
    pub currency: String,
    pub user_basket: String,
    pub no_installment: i64,
    pub max_installment: i64,
    pub paytr_token: String,
    pub user_name: String,
    pub user_address: String,
    pub user_phone: String,
    pub merchant_ok_url: String,
    pub merchant_fail_url: String,
    pub test_mode: String,
    pub debug_on: i8,
    pub timeout_limit: i64,
    pub lang: String,
}

/// The canonical concatenation the signing HMAC is computed over:
/// merchant id, user IP, order id, email, amount, encoded basket,
/// installment count, maximum installment count, currency, test-mode flag,
/// with no separators, and the merchant salt appended at the end.
pub open spec fn token_message(p: Payment, salt: Seq<char>) -> Seq<char> {
    p.merchant_id@ + p.user_ip@ + p.merchant_oid@ + p.email@ + dec_str(p.payment_amount as int)
        + p.user_basket@ + dec_str(p.no_installment as int) + dec_str(p.max_installment as int)
        + p.currency@ + p.test_mode@ + salt
}

/// The signing token: HMAC-SHA256 of the canonical concatenation under the
/// merchant key, base64-encoded.
pub open spec fn signing_token(p: Payment, key: Seq<char>, salt: Seq<char>) -> Seq<char> {
    b64_encode(hmac_sha256(key, token_message(p, salt)))
}

impl Payment {
    /// Encodes the cart into the request's basket field; every other field
    /// is left untouched. Any basket, the empty one included, has a
    /// well-defined encoding, so this cannot fail.
    pub fn basket_config(&mut self, cart: &Vec<Cart>)
        ensures
            final(self).user_basket@ == basket_encoding(carts_view(cart@)),
            *final(self) == (Payment { user_basket: final(self).user_basket, ..*old(self) }),
    {
        self.user_basket = encode_basket(cart);
    }

    /// Computes the signing token from the fully populated request and
    /// stores it, together with the key and salt it was computed with, so
    /// the signature can be reproduced. An empty merchant key is a caller
    /// misconfiguration and is rejected before anything is touched.
    pub fn generate_token(&mut self, merchant_key: String, merchant_salt: String) -> (r: Result<
        (),
        PaytrError,
    >)
        ensures
            r is Ok <==> merchant_key@.len() > 0,
            (match r {
                Ok(_) => {
                    &&& final(self).paytr_token@ == signing_token(
                        *old(self),
                        merchant_key@,
                        merchant_salt@,
                    )
                    &&& final(self).merchant_key == merchant_key
                    &&& final(self).merchant_salt == merchant_salt
                    &&& *final(self) == (Payment {
                        paytr_token: final(self).paytr_token,
                        merchant_key: final(self).merchant_key,
                        merchant_salt: final(self).merchant_salt,
                        ..*old(self)
                    })
                },
                Err(e) => e == PaytrError::SigningError && *final(self) == *old(self),
            }),
    {
        if merchant_key.as_str().unicode_len() == 0 {
            return Err(PaytrError::SigningError);
        }
        let mut msg = self.merchant_id.clone();
        msg.append(self.user_ip.as_str());
        msg.append(self.merchant_oid.as_str());
        msg.append(self.email.as_str());
        let amount = format_i64(self.payment_amount);
        msg.append(amount.as_str());
        msg.append(self.user_basket.as_str());
        let no_inst = format_i64(self.no_installment);
        msg.append(no_inst.as_str());
        let max_inst = format_i64(self.max_installment);
        msg.append(max_inst.as_str());
        msg.append(self.currency.as_str());
        msg.append(self.test_mode.as_str());
        msg.append(merchant_salt.as_str());
        proof {
            assert(msg@ =~= token_message(*self, merchant_salt@));
        }
        let digest = hmac_sha256_digest(merchant_key.as_str(), msg.as_str());
        self.paytr_token = b64_encode_bytes(&digest);
        self.merchant_key = merchant_key;
        self.merchant_salt = merchant_salt;
        Ok(())
    }
}

/// The verified core of the payment endpoint: populate a request for the
/// demo flow (lira, test mode, a single installment, no debug, a
/// thirty-second timeout, Turkish UI), encode the basket, and sign it with
/// the configured credentials. With a well-formed configuration signing
/// cannot fail, so the signed request is returned directly.
pub fn prepare_payment(
    config: &MerchantConfig,
    merchant_oid: String,
    user_ip: String,
    ok_url: String,
    fail_url: String,
    req: Request,
) -> (r: Payment)
    requires
        config.wf(),
    ensures
        r.merchant_id@ == config.merchant_id@,
        r.merchant_key@ == config.merchant_key@,
        r.merchant_salt@ == config.merchant_salt@,
        r.user_ip@ == user_ip@,
        r.merchant_oid@ == merchant_oid@,
        r.email@ == req.email@,
        r.payment_amount == req.total_payment,
        r.currency@ == "TL"@,
        r.user_basket@ == basket_encoding(carts_view(req.basket@)),
        r.no_installment == 1,
        r.max_installment == 0,
        r.user_name@ == req.username@,
        r.user_address@ == req.user_address@,
        r.user_phone@ == req.user_phone@,
        r.merchant_ok_url@ == ok_url@,
        r.merchant_fail_url@ == fail_url@,
        r.test_mode@ == "1"@,
        r.debug_on == 0,
        r.timeout_limit == 30,
        r.lang@ == "tr"@,
        r.paytr_token@ == signing_token(r, config.merchant_key@, config.merchant_salt@),
{
    let mut p = Payment {
        merchant_id: config.merchant_id.clone(),
        merchant_key: config.merchant_key.clone(),
        merchant_salt: config.merchant_salt.clone(),
        user_ip,
        merchant_oid,
        email: req.email,
        payment_amount: req.total_payment,
        currency: String::from_str("TL"),
        user_basket: String::new(),
        no_installment: 1,
        max_installment: 0,
        paytr_token: String::new(),
        user_name: req.username,
        user_address: req.user_address,
        user_phone: req.user_phone,
        merchant_ok_url: ok_url,
        merchant_fail_url: fail_url,
        test_mode: String::from_str("1"),
        debug_on: 0,
        timeout_limit: 30,
        lang: String::from_str("tr"),
    };
    p.basket_config(&req.basket);
    let key = config.merchant_key.clone();
    let salt = config.merchant_salt.clone();
    match p.generate_token(key, salt) {
        Ok(_) => p,
        Err(_) => vstd::pervasive::unreached(),
    }
}

/// A different encoded basket yields a different canonical signing
/// message when every other signed field agrees: the surrounding fields
/// fix the basket's position and length inside the message, so the basket
/// string is recoverable from it.
pub proof fn lemma_basket_changes_message(p1: Payment, p2: Payment, salt: Seq<char>)
    requires
        p1.merchant_id@ == p2.merchant_id@,
        p1.user_ip@ == p2.user_ip@,
        p1.merchant_oid@ == p2.merchant_oid@,
        p1.email@ == p2.email@,
        p1.payment_amount == p2.payment_amount,
        p1.no_installment == p2.no_installment,
        p1.max_installment == p2.max_installment,
        p1.currency@ == p2.currency@,
        p1.test_mode@ == p2.test_mode@,
        p1.user_basket@ != p2.user_basket@,
    ensures
        token_message(p1, salt) != token_message(p2, salt),
{
    let pre = p1.merchant_id@ + p1.user_ip@ + p1.merchant_oid@ + p1.email@ + dec_str(
        p1.payment_amount as int,
    );
    let suf = dec_str(p1.no_installment as int) + dec_str(p1.max_installment as int)
        + p1.currency@ + p1.test_mode@ + salt;
    assert(token_message(p1, salt) =~= pre + p1.user_basket@ + suf);
    assert(token_message(p2, salt) =~= pre + p2.user_basket@ + suf);
    if token_message(p1, salt) == token_message(p2, salt) {
        assert(p1.user_basket@.len() == p2.user_basket@.len());
        assert(p1.user_basket@ =~= token_message(p1, salt).subrange(
            pre.len() as int,
            (pre.len() + p1.user_basket@.len()) as int,
        ));
        assert(p2.user_basket@ =~= token_message(p2, salt).subrange(
            pre.len() as int,
            (pre.len() + p2.user_basket@.len()) as int,
        ));
        assert(false);
    }
}

/// Reordering (or otherwise changing) the basket items changes the
/// encoded basket string and with it the canonical message the signing
/// HMAC is computed over; there is no accidental order-independence. (The
/// digest itself is an uninterpreted function here, so nothing is claimed
/// about HMAC collisions.)
pub proof fn lemma_basket_change_changes_token_message(
    p1: Payment,
    p2: Payment,
    items1: Seq<CartView>,
    items2: Seq<CartView>,
    salt: Seq<char>,
)
    requires
        p1.merchant_id@ == p2.merchant_id@,
        p1.user_ip@ == p2.user_ip@,
        p1.merchant_oid@ == p2.merchant_oid@,
        p1.email@ == p2.email@,
        p1.payment_amount == p2.payment_amount,
        p1.no_installment == p2.no_installment,
        p1.max_installment == p2.max_installment,
        p1.currency@ == p2.currency@,
        p1.test_mode@ == p2.test_mode@,
        p1.user_basket@ == basket_encoding(items1),
        p2.user_basket@ == basket_encoding(items2),
        items1 != items2,
    ensures
        p1.user_basket@ != p2.user_basket@,
        token_message(p1, salt) != token_message(p2, salt),
{
    lemma_basket_encoding_injective(items1, items2);
    lemma_basket_changes_message(p1, p2, salt);
}

/// Signing is deterministic: the token is a function of the request fields
/// and the secrets alone, so equal requests signed with equal secrets get
/// the identical token.
pub proof fn lemma_sign_deterministic(
    p1: Payment,
    p2: Payment,
    key: Seq<char>,
    salt: Seq<char>,
)
    requires
        p1 == p2,
    ensures
        signing_token(p1, key, salt) == signing_token(p2, key, salt),
{
}

} // verus!
