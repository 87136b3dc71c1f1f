//! Base64 (RFC 4648, standard alphabet, padded) as the gateway expects the
//! basket and the signing token. The encoding is stated exactly, so every
//! contract built on it pins the output byte for byte.

use vstd::prelude::*;
use base64::engine::{general_purpose, Engine as _};

verus! {

/// The character of the standard base64 alphabet for one 6-bit value.
pub open spec fn b64_char(v: int) -> char
    recommends
        0 <= v < 64,
{
    if v < 26 {
        ((65 + v) as u8) as char  // 'A'..='Z'
    } else if v < 52 {
        ((97 + (v - 26)) as u8) as char  // 'a'..='z'
    } else if v < 62 {
        ((48 + (v - 52)) as u8) as char  // '0'..='9'
    } else if v == 62 {
        '+'
    } else {
        '/'
    }
}

/// Standard base64 of a byte sequence: each group of three bytes becomes
/// four alphabet characters; a final group of one or two bytes is padded
/// with '='.
pub open spec fn b64_encode(s: Seq<u8>) -> Seq<char>
    decreases s.len(),
{
    if s.len() == 0 {
        seq![]
    } else if s.len() == 1 {
        let b0 = s[0] as int;
        seq![b64_char(b0 / 4), b64_char((b0 % 4) * 16), '=', '=']
    } else if s.len() == 2 {
        let b0 = s[0] as int;
        let b1 = s[1] as int;
        seq![b64_char(b0 / 4), b64_char((b0 % 4) * 16 + b1 / 16), b64_char((b1 % 16) * 4), '=']
    } else {
        let b0 = s[0] as int;
        let b1 = s[1] as int;
        let b2 = s[2] as int;
        seq![
            b64_char(b0 / 4),
            b64_char((b0 % 4) * 16 + b1 / 16),
            b64_char((b1 % 16) * 4 + b2 / 64),
            b64_char(b2 % 64),
        ] + b64_encode(s.skip(3))
    }
}

/// The 6-bit value of one standard-alphabet character, or -1 for any
/// character outside the alphabet ('=' included).
pub open spec fn b64_val(c: char) -> int {
    let u = c as u32;
    if 65 <= u < 91 {
        u - 65
    } else if 97 <= u < 123 {
        u - 97 + 26
    } else if 48 <= u < 58 {
        u - 48 + 52
    } else if u == 43 {
        62
    } else if u == 47 {
        63
    } else {
        -1
    }
}

/// Reading a character of the alphabet back gives the value it encodes,
/// and no alphabet character is the padding character.
pub proof fn lemma_b64_char_val(v: int)
    requires
        0 <= v < 64,
    ensures
        b64_val(b64_char(v)) == v,
        b64_char(v) != '=',
{
}

/// The inverse reading of an encoded sequence, four characters at a time;
/// a padded group is only accepted as the final one, and only with zero
/// trailing bits.
pub open spec fn b64_decode(t: Seq<char>) -> Option<Seq<u8>>
    decreases t.len(),
{
    if t.len() == 0 {
        Some(seq![])
    } else if t.len() < 4 {
        None::<Seq<u8>>
    } else {
        let v0 = b64_val(t[0]);
        let v1 = b64_val(t[1]);
        if v0 < 0 || v1 < 0 {
            None::<Seq<u8>>
        } else if t[2] == '=' && t[3] == '=' {
            if t.len() == 4 && v1 % 16 == 0 {
                Some(seq![(v0 * 4 + v1 / 16) as u8])
            } else {
                None::<Seq<u8>>
            }
        } else if t[3] == '=' {
            let v2 = b64_val(t[2]);
            if t.len() == 4 && v2 >= 0 && v2 % 4 == 0 {
                Some(seq![(v0 * 4 + v1 / 16) as u8, ((v1 % 16) * 16 + v2 / 4) as u8])
            } else {
                None::<Seq<u8>>
            }
        } else {
            let v2 = b64_val(t[2]);
            let v3 = b64_val(t[3]);
            if v2 >= 0 && v3 >= 0 {
                match b64_decode(t.skip(4)) {
                    Some(rest) => Some(
                        seq![
                            (v0 * 4 + v1 / 16) as u8,
                            ((v1 % 16) * 16 + v2 / 4) as u8,
                            ((v2 % 4) * 64 + v3) as u8,
                        ] + rest,
                    ),
                    None => None::<Seq<u8>>,
                }
            } else {
                None::<Seq<u8>>
            }
        }
    }
}

/// The encoding is reversible: reading an encoded sequence back yields
/// exactly the bytes it came from.
pub proof fn lemma_b64_roundtrip(s: Seq<u8>)
    ensures
        b64_decode(b64_encode(s)) == Some(s),
    decreases s.len(),
{
    if s.len() == 0 {
        assert(b64_decode(b64_encode(s)) =~~= Some(s));
    } else if s.len() == 1 {
        let b0 = s[0] as int;
        lemma_b64_char_val(b0 / 4);
        lemma_b64_char_val((b0 % 4) * 16);
        assert(((b0 % 4) * 16) % 16 == 0 && ((b0 % 4) * 16) / 16 == b0 % 4) by (nonlinear_arith);
        assert(b64_decode(b64_encode(s)) =~~= Some(s));
    } else if s.len() == 2 {
        let b0 = s[0] as int;
        let b1 = s[1] as int;
        lemma_b64_char_val(b0 / 4);
        lemma_b64_char_val((b0 % 4) * 16 + b1 / 16);
        lemma_b64_char_val((b1 % 16) * 4);
        assert(((b0 % 4) * 16 + b1 / 16) / 16 == b0 % 4 && ((b0 % 4) * 16 + b1 / 16) % 16 == b1
            / 16) by (nonlinear_arith)
            requires
                0 <= b0 < 256 && 0 <= b1 < 256,
        ;
        assert(((b1 % 16) * 4) % 4 == 0 && ((b1 % 16) * 4) / 4 == b1 % 16) by (nonlinear_arith);
        assert(b64_decode(b64_encode(s)) =~~= Some(s));
    } else {
        let b0 = s[0] as int;
        let b1 = s[1] as int;
        let b2 = s[2] as int;
        let v0 = b0 / 4;
        let v1 = (b0 % 4) * 16 + b1 / 16;
        let v2 = (b1 % 16) * 4 + b2 / 64;
        let v3 = b2 % 64;
        lemma_b64_char_val(v0);
        lemma_b64_char_val(v1);
        lemma_b64_char_val(v2);
        lemma_b64_char_val(v3);
        assert(v1 / 16 == b0 % 4 && v1 % 16 == b1 / 16) by (nonlinear_arith)
            requires
                0 <= b0 < 256 && 0 <= b1 < 256 && v1 == (b0 % 4) * 16 + b1 / 16,
        ;
        assert(v2 / 4 == b1 % 16 && v2 % 4 == b2 / 64) by (nonlinear_arith)
            requires
                0 <= b1 < 256 && 0 <= b2 < 256 && v2 == (b1 % 16) * 4 + b2 / 64,
        ;
        lemma_b64_roundtrip(s.skip(3));
        let t = b64_encode(s);
        assert(t.skip(4) =~= b64_encode(s.skip(3)));
        assert(s =~= seq![s[0], s[1], s[2]] + s.skip(3));
        assert(b64_decode(t) =~~= Some(s));
    }
}

/// The encoding is injective: distinct byte sequences have distinct
/// encodings, so nothing of the payload is conflated by the transport
/// encoding.
pub proof fn lemma_b64_encode_injective(s1: Seq<u8>, s2: Seq<u8>)
    requires
        b64_encode(s1) == b64_encode(s2),
    ensures
        s1 == s2,
{
    lemma_b64_roundtrip(s1);
    lemma_b64_roundtrip(s2);
}

/// Relies on base64's general_purpose::STANDARD engine: RFC 4648 standard
/// alphabet, output padded with '='.
#[verifier::external_body]
pub(crate) fn b64_encode_bytes(b: &Vec<u8>) -> (r: String)
    ensures
        r@ == b64_encode(b@),
{
    general_purpose::STANDARD.encode(b)
}

/// Relies on base64's general_purpose::STANDARD engine decode: it requires
/// canonical '=' padding and rejects non-zero trailing bits, so it succeeds
/// exactly on the strings the engine itself produces, and returns the bytes
/// whose encoding the input is.
#[verifier::external_body]
pub(crate) fn b64_decode_str(s: &str) -> (r: Option<Vec<u8>>)
    ensures
        match r {
            Some(b) => s@ == b64_encode(b@),
            None => forall|b: Seq<u8>| s@ != b64_encode(b),
        },
{
    match general_purpose::STANDARD.decode(s) {
        Ok(v) => Some(v),
        Err(_) => None,
    }
}

} // verus!
