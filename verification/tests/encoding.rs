//! Basket encoding, decimal formatting and form-body fixtures, with the
//! base64 layer cross-checked against the base64 crate itself.

use base64::engine::{general_purpose, Engine as _};

use paytr::basket::{encode_basket, encode_basket_json, Cart};
use paytr::decode::decode_basket;
use hmac::{Hmac, Mac};
use sha2::Sha256;

use paytr::form::to_form_body;
use paytr::payment::Payment;
use paytr::response::{pick_user_ip, PaytrResponse};

fn item(name: &str, price: i32, amount: i32) -> Cart {
    Cart { name: name.to_string(), price, amount }
}

#[test]
fn empty_basket_encodes_to_empty_array() {
    let json = encode_basket_json(&vec![]);
    assert_eq!(json, b"[]".to_vec());
    assert_eq!(encode_basket(&vec![]), "W10=");
}

#[test]
fn basket_round_trip() {
    let basket = vec![item("A", 100, 2)];
    let encoded = encode_basket(&basket);

    // The transport layer alone already decodes to the canonical JSON.
    let json = general_purpose::STANDARD.decode(&encoded).unwrap();
    assert_eq!(json, b"[[\"A\",100,2]]".to_vec());

    // The encoded string is stable across repeated encodes.
    assert_eq!(encode_basket(&basket), encoded);

    // Decoding yields the original structure.
    let decoded = decode_basket(&encoded).unwrap();
    assert_eq!(decoded.len(), 1);
    assert_eq!(decoded[0].name, "A");
    assert_eq!(decoded[0].price, 100);
    assert_eq!(decoded[0].amount, 2);
    assert_eq!(encode_basket(&decoded), encoded);
}

#[test]
fn decode_rejects_foreign_strings() {
    assert!(decode_basket("not base64!").is_none());
    // Valid base64, but not a canonical basket.
    let stray = general_purpose::STANDARD.encode(b"[[\"A\",01,2]]");
    assert!(decode_basket(&stray).is_none());
    let not_json = general_purpose::STANDARD.encode(b"hello");
    assert!(decode_basket(&not_json).is_none());
}

#[test]
fn decode_round_trips_escapes_and_negatives() {
    let basket = vec![item("a\"b\\c", -7, 3), item("plain", 2147483647, -2147483648)];
    let encoded = encode_basket(&basket);
    let decoded = decode_basket(&encoded).unwrap();
    assert_eq!(decoded.len(), 2);
    assert_eq!(decoded[0].name, "a\"b\\c");
    assert_eq!(decoded[0].price, -7);
    assert_eq!(decoded[0].amount, 3);
    assert_eq!(decoded[1].name, "plain");
    assert_eq!(decoded[1].price, 2147483647);
    assert_eq!(decoded[1].amount, -2147483648);
    assert_eq!(encode_basket(&decoded), encoded);

    let empty = encode_basket(&vec![]);
    assert_eq!(decode_basket(&empty).unwrap().len(), 0);
}

#[test]
fn basket_order_changes_encoding_and_token() {
    let forward = vec![item("A", 100, 2), item("B", 50, 1)];
    let reversed = vec![item("B", 50, 1), item("A", 100, 2)];
    let enc_forward = encode_basket(&forward);
    let enc_reversed = encode_basket(&reversed);
    assert_ne!(enc_forward, enc_reversed);

    let mut p1 = sample_payment_with_basket(enc_forward);
    let mut p2 = sample_payment_with_basket(enc_reversed);
    p1.generate_token("K".to_string(), "S".to_string()).unwrap();
    p2.generate_token("K".to_string(), "S".to_string()).unwrap();
    assert_ne!(p1.paytr_token, p2.paytr_token);
}

fn sample_payment_with_basket(user_basket: String) -> Payment {
    Payment {
        merchant_id: "M1".to_string(),
        merchant_key: String::new(),
        merchant_salt: String::new(),
        user_ip: "1.2.3.4".to_string(),
        merchant_oid: "ORD1".to_string(),
        email: "a@b.com".to_string(),
        payment_amount: 1000,
        currency: "TL".to_string(),
        user_basket,
        no_installment: 1,
        max_installment: 0,
        paytr_token: String::new(),
        user_name: "John Doe".to_string(),
        user_address: "X".to_string(),
        user_phone: "5".to_string(),
        merchant_ok_url: "https://ok.example".to_string(),
        merchant_fail_url: "https://fail.example".to_string(),
        test_mode: "1".to_string(),
        debug_on: 0,
        timeout_limit: 30,
        lang: "tr".to_string(),
    }
}

#[test]
fn basket_json_escapes_specials() {
    let basket = vec![item("a\"b\\c", 1, 1)];
    let json = encode_basket_json(&basket);
    assert_eq!(json, b"[[\"a\\u0022b\\u005cc\",1,1]]".to_vec());
    // The whole encoding matches the base64 crate applied to the JSON.
    assert_eq!(encode_basket(&basket), general_purpose::STANDARD.encode(&json));
}

fn hmac_b64(key: &str, msg: &str) -> String {
    let mut mac = Hmac::<Sha256>::new_from_slice(key.as_bytes()).unwrap();
    mac.update(msg.as_bytes());
    general_purpose::STANDARD.encode(mac.finalize().into_bytes())
}

#[test]
fn amount_formatting_reaches_canonical_message() {
    for (amount, text) in [
        (0i64, "0"),
        (1000, "1000"),
        (-123, "-123"),
        (i64::MAX, "9223372036854775807"),
        (i64::MIN, "-9223372036854775808"),
    ] {
        let mut p = sample_payment_with_basket("[]".to_string());
        p.payment_amount = amount;
        p.generate_token("K".to_string(), "S".to_string()).unwrap();
        let message = format!("M11.2.3.4ORD1a@b.com{text}[]10TL1S");
        assert_eq!(p.paytr_token, hmac_b64("K", &message));
    }
}

#[test]
fn form_body_is_urlencoded_in_field_order() {
    let mut p = sample_payment_with_basket("W10=".to_string());
    p.merchant_key = "K".to_string();
    p.merchant_salt = "S".to_string();
    let body = to_form_body(&p);
    let expected = "merchant_id=M1&merchant_key=K&merchant_salt=S&user_ip=1.2.3.4\
&merchant_oid=ORD1&email=a%40b.com&payment_amount=1000&currency=TL\
&user_basket=W10%3D&no_installment=1&max_installment=0&paytr_token=\
&user_name=John+Doe&user_address=X&user_phone=5\
&merchant_ok_url=https%3A%2F%2Fok.example\
&merchant_fail_url=https%3A%2F%2Ffail.example\
&test_mode=1&debug_on=0&timeout_limit=30&lang=tr";
    assert_eq!(body, expected);
}

#[test]
fn non_ascii_values_are_utf8_encoded() {
    // In the basket, multi-byte characters pass through the JSON layer
    // as their UTF-8 bytes and survive the round trip.
    let basket = vec![item("caf\u{e9}", 450, 1)];
    let encoded = encode_basket(&basket);
    let json = general_purpose::STANDARD.decode(&encoded).unwrap();
    assert_eq!(json, b"[[\"caf\xc3\xa9\",450,1]]".to_vec());
    let decoded = decode_basket(&encoded).unwrap();
    assert_eq!(decoded[0].name, "caf\u{e9}");

    // In the form body, each UTF-8 byte is percent-encoded.
    let mut p = sample_payment_with_basket("W10=".to_string());
    p.user_name = "Zo\u{eb}".to_string();
    let body = to_form_body(&p);
    assert!(body.contains("&user_name=Zo%C3%AB&"));
}

#[test]
fn user_ip_prefers_real_ip_header() {
    assert_eq!(
        pick_user_ip(Some("1.1.1.1".to_string()), Some("2.2.2.2".to_string())),
        "1.1.1.1"
    );
    assert_eq!(pick_user_ip(None, Some("2.2.2.2".to_string())), "2.2.2.2");
    assert_eq!(pick_user_ip(None, None), "");
}

#[test]
fn gateway_response_reading() {
    let ok = PaytrResponse {
        status: Some("success".to_string()),
        token: Some("TOK".to_string()),
        reason: None,
    };
    assert!(ok.is_success());
    assert_eq!(ok.iframe_token(), "TOK");

    let failed = PaytrResponse {
        status: Some("failed".to_string()),
        token: None,
        reason: Some("bad request".to_string()),
    };
    assert!(!failed.is_success());
    assert_eq!(failed.iframe_token(), "");

    let missing = PaytrResponse { status: None, token: None, reason: None };
    assert!(!missing.is_success());
}
