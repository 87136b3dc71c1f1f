//! The message authentication code at the heart of the protocol:
//! HMAC-SHA256 over a canonical concatenation of request or callback
//! fields, keyed by the merchant key.

use vstd::prelude::*;
use hmac::{Hmac, Mac};
use sha2::Sha256;

verus! {

/// The HMAC-SHA256 digest of a message under a key, both taken as the text
/// they are hashed over (the implementation hashes their UTF-8 bytes).
/// The digest is a function of key and message alone; its value is not
/// spelled out here.
pub uninterp spec fn hmac_sha256(key: Seq<char>, msg: Seq<char>) -> Seq<u8>;

/// Relies on hmac::Hmac<sha2::Sha256>: `new_from_slice` accepts a key of any
/// length (including empty), and `finalize` yields the 32-byte HMAC-SHA256
/// digest, which depends on the key and message bytes alone.
#[verifier::external_body]
pub(crate) fn hmac_sha256_digest(key: &str, msg: &str) -> (r: Vec<u8>)
    ensures
        r@ == hmac_sha256(key@, msg@),
        r@.len() == 32,
{
    let mut mac = Hmac::<Sha256>::new_from_slice(key.as_bytes())
        .expect("HMAC can take key of any size");
    mac.update(msg.as_bytes());
    mac.finalize().into_bytes().to_vec()
}

} // verus!
