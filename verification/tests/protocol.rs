//! End-to-end protocol fixtures: the signing token and the callback hash
//! recomputed independently with the hmac, sha2 and base64 crates must
//! match what the library produces.

use base64::engine::{general_purpose, Engine as _};
use hmac::{Hmac, Mac};
use sha2::Sha256;

use paytr::callback::{should_fulfill, CallbackRequest};
use paytr::config::MerchantConfig;
use paytr::errors::PaytrError;
use paytr::payment::Payment;
use paytr::response::Request;

fn hmac_b64(key: &str, msg: &str) -> String {
    let mut mac = Hmac::<Sha256>::new_from_slice(key.as_bytes()).unwrap();
    mac.update(msg.as_bytes());
    general_purpose::STANDARD.encode(mac.finalize().into_bytes())
}

fn sample_payment() -> Payment {
    Payment {
        merchant_id: "M1".to_string(),
        merchant_key: String::new(),
        merchant_salt: String::new(),
        user_ip: "1.2.3.4".to_string(),
        merchant_oid: "ORD1".to_string(),
        email: "a@b.com".to_string(),
        payment_amount: 1000,
        currency: "TL".to_string(),
        user_basket: "[]".to_string(),
        no_installment: 1,
        max_installment: 0,
        paytr_token: String::new(),
        user_name: "John Doe".to_string(),
        user_address: "X".to_string(),
        user_phone: "5".to_string(),
        merchant_ok_url: "https://ok.example".to_string(),
        merchant_fail_url: "https://fail.example".to_string(),
        test_mode: "1".to_string(),
        debug_on: 0,
        timeout_limit: 30,
        lang: "tr".to_string(),
    }
}

fn sample_callback(hash: String) -> CallbackRequest {
    CallbackRequest {
        installment_count: 0,
        merchant_id: "M1".to_string(),
        merchant_oid: "ORD1".to_string(),
        status: "success".to_string(),
        total_amount: 1000,
        hash,
        fail_reason_code: 0,
        fail_reason_message: String::new(),
        test_mode: "1".to_string(),
        payment_type: "card".to_string(),
        currency: "TL".to_string(),
        payment_amount: 1000,
    }
}

#[test]
fn end_to_end_token_fixture() {
    let mut p = sample_payment();
    let r = p.generate_token("K".to_string(), "S".to_string());
    assert!(r.is_ok());
    let expected = hmac_b64("K", "M11.2.3.4ORD1a@b.com1000[]10TL1S");
    assert_eq!(p.paytr_token, expected);
    assert_eq!(p.merchant_key, "K");
    assert_eq!(p.merchant_salt, "S");
}

#[test]
fn sign_is_deterministic() {
    let mut p1 = sample_payment();
    let mut p2 = sample_payment();
    p1.generate_token("K".to_string(), "S".to_string()).unwrap();
    p2.generate_token("K".to_string(), "S".to_string()).unwrap();
    assert_eq!(p1.paytr_token, p2.paytr_token);
    let first = p1.paytr_token.clone();
    p1.generate_token("K".to_string(), "S".to_string()).unwrap();
    assert_eq!(p1.paytr_token, first);
}

#[test]
fn sign_rejects_empty_key() {
    let mut p = sample_payment();
    let r = p.generate_token(String::new(), "S".to_string());
    assert_eq!(r, Err(PaytrError::SigningError));
    assert_eq!(p.paytr_token, "");
}

#[test]
fn callback_fixture_verifies() {
    let expected = hmac_b64("K", "ORD1Ssuccess1000");
    let mut cb = sample_callback(expected);
    assert!(cb.is_valid("K".to_string(), "S".to_string()));
}

#[test]
fn callback_wrong_hash_fails() {
    let mut cb = sample_callback("WRONG".to_string());
    assert!(!cb.is_valid("K".to_string(), "S".to_string()));
}

#[test]
fn callback_single_mutations_fail() {
    let good = hmac_b64("K", "ORD1Ssuccess1000");

    let mut mutated_hash = good.clone().into_bytes();
    mutated_hash[0] = if mutated_hash[0] == b'A' { b'B' } else { b'A' };
    let mut cb = sample_callback(String::from_utf8(mutated_hash).unwrap());
    assert!(!cb.is_valid("K".to_string(), "S".to_string()));

    let mut cb = sample_callback(good.clone());
    cb.total_amount = 1001;
    assert!(!cb.is_valid("K".to_string(), "S".to_string()));

    let mut cb = sample_callback(good.clone());
    cb.status = "succesz".to_string();
    assert!(!cb.is_valid("K".to_string(), "S".to_string()));

    let mut cb = sample_callback(good.clone());
    cb.merchant_oid = "ORD2".to_string();
    assert!(!cb.is_valid("K".to_string(), "S".to_string()));

    let mut cb = sample_callback(good);
    assert!(cb.is_valid("K".to_string(), "S".to_string()));
}

#[test]
fn verify_is_idempotent() {
    let expected = hmac_b64("K", "ORD1Ssuccess1000");
    let mut cb = sample_callback(expected);
    let first = cb.is_valid("K".to_string(), "S".to_string());
    let second = cb.is_valid("K".to_string(), "S".to_string());
    assert_eq!(first, second);
    let mut bad = sample_callback("WRONG".to_string());
    let first = bad.is_valid("K".to_string(), "S".to_string());
    let second = bad.is_valid("K".to_string(), "S".to_string());
    assert_eq!(first, second);
}

#[test]
fn fulfillment_needs_valid_hash_and_success() {
    let good = hmac_b64("K", "ORD1Ssuccess1000");
    let mut cb = sample_callback(good);
    assert!(should_fulfill(&mut cb, "K".to_string(), "S".to_string()));

    let failed = hmac_b64("K", "ORD1Sfailed1000");
    let mut cb = sample_callback(failed);
    cb.status = "failed".to_string();
    assert!(!should_fulfill(&mut cb, "K".to_string(), "S".to_string()));

    let mut cb = sample_callback("WRONG".to_string());
    assert!(!should_fulfill(&mut cb, "K".to_string(), "S".to_string()));
}

#[test]
fn config_rejects_empty_credentials() {
    assert!(matches!(
        MerchantConfig::new(String::new(), "K".to_string(), "S".to_string()),
        Err(PaytrError::ConfigurationError)
    ));
    assert!(matches!(
        MerchantConfig::new("M1".to_string(), String::new(), "S".to_string()),
        Err(PaytrError::ConfigurationError)
    ));
    assert!(matches!(
        MerchantConfig::new("M1".to_string(), "K".to_string(), String::new()),
        Err(PaytrError::ConfigurationError)
    ));
    let ok = MerchantConfig::new("M1".to_string(), "K".to_string(), "S".to_string()).unwrap();
    assert_eq!(ok.merchant_id, "M1");
}

#[test]
fn prepared_payment_is_signed() {
    let config = MerchantConfig::new("M1".to_string(), "K".to_string(), "S".to_string()).unwrap();
    let req = Request {
        basket: vec![],
        username: "John".to_string(),
        email: "a@b.com".to_string(),
        user_address: "X".to_string(),
        user_phone: "5".to_string(),
        total_payment: 1000,
    };
    let p = paytr::payment::prepare_payment(
        &config,
        "ORD1".to_string(),
        "1.2.3.4".to_string(),
        "https://ok.example".to_string(),
        "https://fail.example".to_string(),
        req,
    );
    assert_eq!(p.user_basket, "W10=");
    let expected = hmac_b64("K", "M11.2.3.4ORD1a@b.com1000W10=10TL1S");
    assert_eq!(p.paytr_token, expected);
    assert_eq!(p.currency, "TL");
    assert_eq!(p.test_mode, "1");
    assert_eq!(p.lang, "tr");
    assert_eq!(p.no_installment, 1);
    assert_eq!(p.max_installment, 0);
}

#[test]
fn error_messages_are_stable() {
    assert_eq!(
        PaytrError::ConfigurationError.message(),
        "missing or empty merchant credential"
    );
    assert_eq!(PaytrError::SigningError.message(), "invalid signing key");
    assert_eq!(PaytrError::EncodingError.message(), "basket serialization failed");
    assert_eq!(PaytrError::NetworkError.message(), "gateway request failed");
}
