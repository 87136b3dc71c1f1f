//! Client-side core of the PayTR hosted-payment integration: canonical basket
//! encoding, HMAC-SHA256 request signing, and callback-hash verification.

pub mod b64;
pub mod basket;
pub mod callback;
pub mod config;
pub mod decode;
pub mod errors;
pub mod form;
pub mod mac;
pub mod numfmt;
pub mod payment;
pub mod response;
pub mod strutil;
