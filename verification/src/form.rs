//! The `application/x-www-form-urlencoded` body of the outbound token
//! request. The body must carry every request field under the gateway's
//! documented field name, with the same value bytes the signature was
//! computed over.

use vstd::prelude::*;
use crate::numfmt::{dec_str, format_i64};
use crate::payment::Payment;
use crate::strutil::string_push;
use vstd::string::StringSliceAdditionalSpecFns;
use vstd::utf8::encode_utf8;

verus! {

/// The bytes a form value may carry unescaped: ASCII alphanumerics and
/// `* - . _`.
pub open spec fn form_unreserved(b: u8) -> bool {
    (48 <= b < 58) || (65 <= b < 91) || (97 <= b < 123) || b == 42 || b == 45 || b == 46 || b
        == 95
}

/// The character for one hexadecimal digit value, upper case.
pub open spec fn hex_upper(d: int) -> char
    recommends
        0 <= d < 16,
{
    if d < 10 {
        ((48 + d) as u8) as char
    } else {
        ((55 + d) as u8) as char
    }
}

/// How one value byte appears in the form body: space becomes `+`,
/// unreserved bytes stand for themselves, everything else is `%XX`.
pub open spec fn form_escape_byte(b: u8) -> Seq<char> {
    if b == 32 {
        seq!['+']
    } else if form_unreserved(b) {
        seq![b as char]
    } else {
        seq!['%', hex_upper(b as int / 16), hex_upper(b as int % 16)]
    }
}

/// A value's UTF-8 bytes, escaped for the form body.
pub open spec fn form_escape(s: Seq<u8>) -> Seq<char>
    decreases s.len(),
{
    if s.len() == 0 {
        seq![]
    } else {
        form_escape_byte(s[0]) + form_escape(s.skip(1))
    }
}

/// One `key=value` pair of the form body.
pub open spec fn form_pair(key: Seq<char>, value: Seq<char>) -> Seq<char> {
    key + seq!['='] + form_escape(encode_utf8(value))
}

/// The key/value pairs of the form body, in field declaration order,
/// values still unescaped.
pub open spec fn form_pairs(p: Payment) -> Seq<(Seq<char>, Seq<char>)> {
    seq![
        ("merchant_id"@, p.merchant_id@),
        ("merchant_key"@, p.merchant_key@),
        ("merchant_salt"@, p.merchant_salt@),
        ("user_ip"@, p.user_ip@),
        ("merchant_oid"@, p.merchant_oid@),
        ("email"@, p.email@),
        ("payment_amount"@, dec_str(p.payment_amount as int)),
        ("currency"@, p.currency@),
        ("user_basket"@, p.user_basket@),
        ("no_installment"@, dec_str(p.no_installment as int)),
        ("max_installment"@, dec_str(p.max_installment as int)),
        ("paytr_token"@, p.paytr_token@),
        ("user_name"@, p.user_name@),
        ("user_address"@, p.user_address@),
        ("user_phone"@, p.user_phone@),
        ("merchant_ok_url"@, p.merchant_ok_url@),
        ("merchant_fail_url"@, p.merchant_fail_url@),
        ("test_mode"@, p.test_mode@),
        ("debug_on"@, dec_str(p.debug_on as int)),
        ("timeout_limit"@, dec_str(p.timeout_limit as int)),
        ("lang"@, p.lang@),
    ]
}

/// `key=value` pairs joined with `&`.
pub open spec fn join_pairs(ps: Seq<(Seq<char>, Seq<char>)>) -> Seq<char>
    decreases ps.len(),
{
    if ps.len() == 0 {
        seq![]
    } else if ps.len() == 1 {
        form_pair(ps[0].0, ps[0].1)
    } else {
        form_pair(ps[0].0, ps[0].1) + seq!['&'] + join_pairs(ps.skip(1))
    }
}

/// The full form body: every field of the request, in declaration order,
/// joined with `&`.
pub open spec fn form_body(p: Payment) -> Seq<char> {
    join_pairs(form_pairs(p))
}

/// Appending one pair extends the joined body at its end.
pub proof fn lemma_join_pairs_push(ps: Seq<(Seq<char>, Seq<char>)>, kv: (Seq<char>, Seq<char>))
    ensures
        join_pairs(ps.push(kv)) == if ps.len() == 0 {
            form_pair(kv.0, kv.1)
        } else {
            join_pairs(ps) + seq!['&'] + form_pair(kv.0, kv.1)
        },
    decreases ps.len(),
{
    if ps.len() == 0 {
        assert(ps.push(kv) =~= seq![kv]);
        assert(join_pairs(seq![kv]) == form_pair(kv.0, kv.1));
    } else if ps.len() == 1 {
        assert(ps.push(kv).skip(1) =~= seq![kv]);
        assert(join_pairs(ps.push(kv)) == form_pair(ps[0].0, ps[0].1) + seq!['&'] + join_pairs(
            seq![kv],
        ));
    } else {
        assert(ps.push(kv).skip(1) =~= ps.skip(1).push(kv));
        lemma_join_pairs_push(ps.skip(1), kv);
        assert(form_pair(ps[0].0, ps[0].1) + seq!['&'] + (join_pairs(ps.skip(1)) + seq!['&']
            + form_pair(kv.0, kv.1)) =~= (form_pair(ps[0].0, ps[0].1) + seq!['&'] + join_pairs(
            ps.skip(1),
        )) + seq!['&'] + form_pair(kv.0, kv.1));
    }
}

/// The views of a vector of rendered pairs.
pub open spec fn pairs_view(s: Seq<(&str, String)>) -> Seq<(Seq<char>, Seq<char>)> {
    s.map(|i: int, kv: (&str, String)| (kv.0@, kv.1@))
}

/// Escaping a concatenation escapes the parts in place.
pub proof fn lemma_form_escape_concat(a: Seq<u8>, b: Seq<u8>)
    ensures
        form_escape(a + b) == form_escape(a) + form_escape(b),
    decreases a.len(),
{
    if a.len() == 0 {
        assert(a + b =~= b);
        assert(form_escape(a) + form_escape(b) =~= form_escape(b));
    } else {
        assert((a + b).skip(1) =~= a.skip(1) + b);
        lemma_form_escape_concat(a.skip(1), b);
        assert(form_escape_byte(a[0]) + (form_escape(a.skip(1)) + form_escape(b)) =~= (
        form_escape_byte(a[0]) + form_escape(a.skip(1))) + form_escape(b));
        assert((a + b)[0] == a[0]);
    }
}

/// Appends the escaped form of `v` to `out`.
fn push_form_escaped(out: &mut String, v: &str)
    ensures
        final(out)@ == old(out)@ + form_escape(v.spec_bytes()),
{
    let bytes = v.as_bytes_vec();
    let n = bytes.len();
    let mut i: usize = 0;
    while i < n
        invariant
            n == bytes@.len(),
            i <= n,
            bytes@ == v.spec_bytes(),
            out@ == old(out)@ + form_escape(bytes@.take(i as int)),
        decreases n - i,
    {
        let b = bytes[i];
        if b == 32 {
            string_push(out, '+');
        } else if (48 <= b && b < 58) || (65 <= b && b < 91) || (97 <= b && b < 123) || b == 42
            || b == 45 || b == 46 || b == 95 {
            string_push(out, b as char);
        } else {
            string_push(out, '%');
            let hi = b / 16;
            let lo = b % 16;
            string_push(out, (if hi < 10 { 48 + hi } else { 55 + hi }) as char);
            string_push(out, (if lo < 10 { 48 + lo } else { 55 + lo }) as char);
        }
        proof {
            let bb = bytes@[i as int];
            assert(bytes@.take(i + 1) =~= bytes@.take(i as int) + seq![bb]);
            lemma_form_escape_concat(bytes@.take(i as int), seq![bb]);
            assert(seq![bb].skip(1) =~= Seq::<u8>::empty());
            assert(form_escape(seq![bb]) == form_escape_byte(seq![bb][0]) + form_escape(
                seq![bb].skip(1),
            ));
            assert(form_escape(Seq::<u8>::empty()) == Seq::<char>::empty());
            assert(form_escape(seq![bb]) =~= form_escape_byte(bb));
            assert(out@ =~= old(out)@ + form_escape(bytes@.take(i + 1)));
        }
        i = i + 1;
    }
    proof {
        assert(bytes@.take(n as int) =~= bytes@);
    }
}

/// Appends one `key=value` pair to `out`.
fn push_pair(out: &mut String, key: &str, value: &str)
    ensures
        final(out)@ == old(out)@ + key@ + seq!['='] + form_escape(value.spec_bytes()),
{
    out.append(key);
    string_push(out, '=');
    push_form_escaped(out, value);
    proof {
        assert(final(out)@ =~= old(out)@ + key@ + seq!['='] + form_escape(value.spec_bytes()));
    }
}

/// Builds the POST body of the token request: every field of the request
/// under its gateway field name, URL-encoded, joined with `&`.
pub fn to_form_body(p: &Payment) -> (r: String)
    ensures
        r@ == form_body(*p),
{
    let mut pairs: Vec<(&str, String)> = Vec::new();
    pairs.push(("merchant_id", p.merchant_id.clone()));
    pairs.push(("merchant_key", p.merchant_key.clone()));
    pairs.push(("merchant_salt", p.merchant_salt.clone()));
    pairs.push(("user_ip", p.user_ip.clone()));
    pairs.push(("merchant_oid", p.merchant_oid.clone()));
    pairs.push(("email", p.email.clone()));
    pairs.push(("payment_amount", format_i64(p.payment_amount)));
    pairs.push(("currency", p.currency.clone()));
    pairs.push(("user_basket", p.user_basket.clone()));
    pairs.push(("no_installment", format_i64(p.no_installment)));
    pairs.push(("max_installment", format_i64(p.max_installment)));
    pairs.push(("paytr_token", p.paytr_token.clone()));
    pairs.push(("user_name", p.user_name.clone()));
    pairs.push(("user_address", p.user_address.clone()));
    pairs.push(("user_phone", p.user_phone.clone()));
    pairs.push(("merchant_ok_url", p.merchant_ok_url.clone()));
    pairs.push(("merchant_fail_url", p.merchant_fail_url.clone()));
    pairs.push(("test_mode", p.test_mode.clone()));
    pairs.push(("debug_on", format_i64(p.debug_on as i64)));
    pairs.push(("timeout_limit", format_i64(p.timeout_limit)));
    pairs.push(("lang", p.lang.clone()));
    proof {
        assert(pairs_view(pairs@) =~= form_pairs(*p));
    }
    let mut out = String::new();
    let n = pairs.len();
    let mut i: usize = 0;
    while i < n
        invariant
            n == pairs@.len(),
            i <= n,
            pairs_view(pairs@) == form_pairs(*p),
            out@ == join_pairs(pairs_view(pairs@).take(i as int)),
        decreases n - i,
    {
        if i > 0 {
            string_push(&mut out, '&');
        }
        push_pair(&mut out, pairs[i].0, pairs[i].1.as_str());
        proof {
            let kv = pairs_view(pairs@)[i as int];
            assert(pairs_view(pairs@).take(i + 1) =~= pairs_view(pairs@).take(i as int).push(kv));
            lemma_join_pairs_push(pairs_view(pairs@).take(i as int), kv);
            assert(out@ =~= join_pairs(pairs_view(pairs@).take(i + 1)));
        }
        i = i + 1;
    }
    proof {
        assert(pairs_view(pairs@).take(n as int) =~= pairs_view(pairs@));
    }
    out
}

} // verus!
