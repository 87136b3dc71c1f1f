//! Canonical basket encoding. A cart is serialized to a fixed-form JSON
//! array of `[name, unit price, quantity]` triples and then base64-encoded;
//! the resulting string is what the signed payload embeds, so the encoding
//! must be deterministic byte for byte and must keep the item order.

use vstd::prelude::*;
use crate::b64::{b64_encode, b64_encode_bytes, lemma_b64_encode_injective};
use crate::numfmt::{dec_str, format_i64, lemma_dec_str_injective, lemma_dec_str_range};
use vstd::string::StringSliceAdditionalSpecFns;
use vstd::utf8::{encode_utf8, is_ascii_chars, is_ascii_chars_encode_utf8};

verus! {

/// One item of the shopping basket, as the caller supplies it.
#[derive(Clone, Debug)]
pub struct Cart {
    /// Display name of the item.
    pub name: String,
    /// Unit price in the smallest currency unit.
    pub price: i32,
    /// Quantity of the item.
    pub amount: i32,
}

/// The mathematical content of one basket item.
#[verifier::ext_equal]
pub struct CartView {
    pub name: Seq<char>,
    pub price: int,
    pub amount: int,
}

impl View for Cart {
    type V = CartView;

    open spec fn view(&self) -> CartView {
        CartView { name: self.name@, price: self.price as int, amount: self.amount as int }
    }
}

/// The views of a sequence of cart items.
pub open spec fn carts_view(s: Seq<Cart>) -> Seq<CartView> {
    s.map(|i: int, c: Cart| c@)
}

/// The byte for one hexadecimal digit value, lower case.
pub open spec fn hex_digit(d: int) -> u8
    recommends
        0 <= d < 16,
{
    if d < 10 {
        (48 + d) as u8
    } else {
        (87 + d) as u8
    }
}

/// How one byte of a name appears inside a JSON string literal: a quote,
/// a backslash and every control byte become a `\u00XX` escape, every
/// other byte stands for itself.
pub open spec fn jstr_escape_byte(b: u8) -> Seq<u8> {
    if b == 34 || b == 92 || b < 32 {
        seq![92u8, 117u8, 48u8, 48u8, hex_digit(b as int / 16), hex_digit(b as int % 16)]
    } else {
        seq![b]
    }
}

/// A byte sequence escaped for use inside a JSON string literal.
pub open spec fn jstr_escape(s: Seq<u8>) -> Seq<u8>
    decreases s.len(),
{
    if s.len() == 0 {
        seq![]
    } else {
        jstr_escape_byte(s[0]) + jstr_escape(s.skip(1))
    }
}

/// The JSON triple `["name",price,amount]` of one item, as bytes.
pub open spec fn json_item(c: CartView) -> Seq<u8> {
    seq![91u8, 34u8] + jstr_escape(encode_utf8(c.name)) + seq![34u8, 44u8] + encode_utf8(
        dec_str(c.price),
    ) + seq![44u8] + encode_utf8(dec_str(c.amount)) + seq![93u8]
}

/// The comma-separated JSON triples of a sequence of items.
pub open spec fn json_items(items: Seq<CartView>) -> Seq<u8>
    decreases items.len(),
{
    if items.len() == 0 {
        seq![]
    } else if items.len() == 1 {
        json_item(items[0])
    } else {
        json_item(items[0]) + seq![44u8] + json_items(items.skip(1))
    }
}

/// The full JSON array for a basket, as bytes. An empty basket is the
/// two-byte array `[]`, not an error.
pub open spec fn json_basket(items: Seq<CartView>) -> Seq<u8> {
    seq![91u8] + json_items(items) + seq![93u8]
}

/// The encoded basket string: base64 of the canonical JSON bytes.
pub open spec fn basket_encoding(items: Seq<CartView>) -> Seq<char> {
    b64_encode(json_basket(items))
}

/// Escaping a concatenation escapes the parts in place.
pub proof fn lemma_jstr_escape_concat(a: Seq<u8>, b: Seq<u8>)
    ensures
        jstr_escape(a + b) == jstr_escape(a) + jstr_escape(b),
    decreases a.len(),
{
    if a.len() == 0 {
        assert(a + b =~= b);
        assert(jstr_escape(a) + jstr_escape(b) =~= jstr_escape(b));
    } else {
        assert((a + b).skip(1) =~= a.skip(1) + b);
        lemma_jstr_escape_concat(a.skip(1), b);
        assert(jstr_escape_byte(a[0]) + (jstr_escape(a.skip(1)) + jstr_escape(b)) =~= (
        jstr_escape_byte(a[0]) + jstr_escape(a.skip(1))) + jstr_escape(b));
        assert((a + b)[0] == a[0]);
    }
}

/// Appending one item extends the comma-separated encoding at its end.
pub proof fn lemma_json_items_push(s: Seq<CartView>, c: CartView)
    ensures
        json_items(s.push(c)) == if s.len() == 0 {
            json_item(c)
        } else {
            json_items(s) + seq![44u8] + json_item(c)
        },
    decreases s.len(),
{
    if s.len() == 0 {
        assert(s.push(c) =~= seq![c]);
        assert(json_items(seq![c]) == json_item(c));
    } else if s.len() == 1 {
        assert(s.push(c).skip(1) =~= seq![c]);
        assert(json_items(s.push(c)) == json_item(s[0]) + seq![44u8] + json_items(seq![c]));
    } else {
        assert(s.push(c).skip(1) =~= s.skip(1).push(c));
        lemma_json_items_push(s.skip(1), c);
        assert(json_item(s[0]) + seq![44u8] + (json_items(s.skip(1)) + seq![44u8] + json_item(c))
            =~= (json_item(s[0]) + seq![44u8] + json_items(s.skip(1))) + seq![44u8] + json_item(
        c));
    }
}

/// Two decompositions around the same separator byte agree when neither
/// left part contains the separator.
pub proof fn lemma_sep_split(x1: Seq<u8>, y1: Seq<u8>, x2: Seq<u8>, y2: Seq<u8>, sep: u8)
    requires
        x1 + seq![sep] + y1 == x2 + seq![sep] + y2,
        forall|i: int| 0 <= i < x1.len() ==> x1[i] != sep,
        forall|i: int| 0 <= i < x2.len() ==> x2[i] != sep,
    ensures
        x1 == x2,
        y1 == y2,
    decreases x1.len(),
{
    let l = x1 + seq![sep] + y1;
    if x1.len() == 0 {
        assert(l[0] == sep);
        if x2.len() > 0 {
            assert(l[0] == x2[0]);
        }
        assert(x1 =~= x2);
        assert(y1 =~= l.skip(1));
        assert(y2 =~= (x2 + seq![sep] + y2).skip(1));
    } else {
        if x2.len() == 0 {
            assert(l[0] == x2[0] || l[0] == sep) by {
                assert((x2 + seq![sep] + y2)[0] == sep);
            }
            assert(l[0] == x1[0]);
            assert(false);
        }
        assert(l[0] == x1[0]);
        assert((x2 + seq![sep] + y2)[0] == x2[0]);
        assert(x1.skip(1) + seq![sep] + y1 =~= l.skip(1));
        assert(x2.skip(1) + seq![sep] + y2 =~= (x2 + seq![sep] + y2).skip(1));
        lemma_sep_split(x1.skip(1), y1, x2.skip(1), y2, sep);
        assert(x1 =~= seq![x1[0]] + x1.skip(1));
        assert(x2 =~= seq![x2[0]] + x2.skip(1));
    }
}

/// The escaped form of a name never contains a quote byte, so the closing
/// quote of the JSON string literal is unambiguous.
pub proof fn lemma_jstr_escape_no_quote(s: Seq<u8>)
    ensures
        forall|i: int| 0 <= i < jstr_escape(s).len() ==> (#[trigger] jstr_escape(s)[i]) != 34,
    decreases s.len(),
{
    if s.len() == 0 {
    } else {
        lemma_jstr_escape_no_quote(s.skip(1));
        assert(forall|i: int|
            0 <= i < jstr_escape_byte(s[0]).len() ==> (#[trigger] jstr_escape_byte(s[0])[i])
                != 34);
        assert(forall|i: int|
            0 <= i < jstr_escape(s).len() ==> (#[trigger] jstr_escape(s)[i]) == if i
                < jstr_escape_byte(s[0]).len() {
                jstr_escape_byte(s[0])[i]
            } else {
                jstr_escape(s.skip(1))[i - jstr_escape_byte(s[0]).len()]
            });
    }
}

/// Escaping is injective: the original name bytes can be read back from
/// the escaped form.
pub proof fn lemma_jstr_escape_injective(s1: Seq<u8>, s2: Seq<u8>)
    requires
        jstr_escape(s1) == jstr_escape(s2),
    ensures
        s1 == s2,
    decreases s1.len(),
{
    let e = jstr_escape(s1);
    if s1.len() == 0 && s2.len() == 0 {
        assert(s1 =~= s2);
    } else if s1.len() == 0 {
        assert(jstr_escape(s2).len() >= jstr_escape_byte(s2[0]).len());
        assert(false);
    } else if s2.len() == 0 {
        assert(jstr_escape(s1).len() >= jstr_escape_byte(s1[0]).len());
        assert(false);
    } else {
        let b1 = s1[0];
        let b2 = s2[0];
        let esc1 = b1 == 34 || b1 == 92 || b1 < 32;
        let esc2 = b2 == 34 || b2 == 92 || b2 < 32;
        assert(e[0] == jstr_escape_byte(b1)[0]);
        assert(jstr_escape(s2)[0] == jstr_escape_byte(b2)[0]);
        if esc1 && !esc2 {
            assert(jstr_escape_byte(b1)[0] == 92 && jstr_escape_byte(b2)[0] == b2);
            assert(false);
        }
        if !esc1 && esc2 {
            assert(jstr_escape_byte(b1)[0] == b1 && jstr_escape_byte(b2)[0] == 92);
            assert(false);
        }
        if esc1 && esc2 {
            assert(e[4] == jstr_escape_byte(b1)[4] && e[5] == jstr_escape_byte(b1)[5]);
            assert(hex_digit(b1 as int / 16) == hex_digit(b2 as int / 16));
            assert(hex_digit(b1 as int % 16) == hex_digit(b2 as int % 16));
            assert(b1 as int / 16 == b2 as int / 16 && b1 as int % 16 == b2 as int % 16);
            assert(b1 == b2);
            assert(jstr_escape(s1.skip(1)) =~= e.skip(6));
            assert(jstr_escape(s2.skip(1)) =~= jstr_escape(s2).skip(6));
        } else {
            assert(b1 == b2);
            assert(jstr_escape(s1.skip(1)) =~= e.skip(1));
            assert(jstr_escape(s2.skip(1)) =~= jstr_escape(s2).skip(1));
        }
        lemma_jstr_escape_injective(s1.skip(1), s2.skip(1));
        assert(s1 =~= seq![b1] + s1.skip(1));
        assert(s2 =~= seq![b2] + s2.skip(1));
    }
}

/// The decimal bytes of an integer: never empty, and each byte is a
/// digit or the minus sign, so none collides with the quote, comma or
/// bracket bytes that delimit the JSON structure.
pub proof fn lemma_dec_bytes_range(n: int)
    ensures
        encode_utf8(dec_str(n)).len() >= 1,
        forall|i: int|
            0 <= i < encode_utf8(dec_str(n)).len() ==> ((#[trigger] encode_utf8(dec_str(n))[i])
                == 45 || 48 <= encode_utf8(dec_str(n))[i] <= 57),
{
    lemma_dec_str_range(n);
    assert forall|i: int| 0 <= i < dec_str(n).len() implies '\0' <= #[trigger] dec_str(n)[i]
        <= '\u{7f}' by {
        assert(dec_str(n)[i] as u32 == 45 || 48 <= dec_str(n)[i] as u32 <= 57);
        assert('\0' as u32 == 0);
        assert('\u{7f}' as u32 == 127);
        vstd::utf8::char_u32_cast(dec_str(n)[i], dec_str(n)[i] as u32);
        vstd::utf8::char_u32_cast('\0', 0);
        vstd::utf8::char_u32_cast('\u{7f}', 127);
    }
    assert(is_ascii_chars(dec_str(n)));
    is_ascii_chars_encode_utf8(dec_str(n));
}

/// A JSON triple followed by arbitrary bytes determines the triple and
/// the remainder: the encoding is self-delimiting.
#[verifier::rlimit(100)]
pub proof fn lemma_json_item_cancel(c1: CartView, r1: Seq<u8>, c2: CartView, r2: Seq<u8>)
    requires
        json_item(c1) + r1 == json_item(c2) + r2,
    ensures
        c1 == c2,
        r1 == r2,
{
    broadcast use vstd::utf8::encode_utf8_decode_utf8;

    let e1 = jstr_escape(encode_utf8(c1.name));
    let e2 = jstr_escape(encode_utf8(c2.name));
    let dp1 = encode_utf8(dec_str(c1.price));
    let dp2 = encode_utf8(dec_str(c2.price));
    let da1 = encode_utf8(dec_str(c1.amount));
    let da2 = encode_utf8(dec_str(c2.amount));
    let y1 = seq![44u8] + dp1 + seq![44u8] + da1 + seq![93u8] + r1;
    let y2 = seq![44u8] + dp2 + seq![44u8] + da2 + seq![93u8] + r2;
    assert((json_item(c1) + r1).skip(2) =~= e1 + seq![34u8] + y1);
    assert((json_item(c2) + r2).skip(2) =~= e2 + seq![34u8] + y2);
    lemma_jstr_escape_no_quote(encode_utf8(c1.name));
    lemma_jstr_escape_no_quote(encode_utf8(c2.name));
    lemma_sep_split(e1, y1, e2, y2, 34);
    lemma_jstr_escape_injective(encode_utf8(c1.name), encode_utf8(c2.name));
    vstd::utf8::encode_utf8_decode_utf8(c1.name);
    vstd::utf8::encode_utf8_decode_utf8(c2.name);
    assert(c1.name == c2.name);
    lemma_dec_bytes_range(c1.price);
    lemma_dec_bytes_range(c2.price);
    lemma_dec_bytes_range(c1.amount);
    lemma_dec_bytes_range(c2.amount);
    let z1 = da1 + seq![93u8] + r1;
    let z2 = da2 + seq![93u8] + r2;
    assert(y1.skip(1) =~= dp1 + seq![44u8] + z1);
    assert(y2.skip(1) =~= dp2 + seq![44u8] + z2);
    assert(dp1 + seq![44u8] + z1 == dp2 + seq![44u8] + z2);
    assert(forall|i: int| 0 <= i < dp1.len() ==> dp1[i] != 44);
    assert(forall|i: int| 0 <= i < dp2.len() ==> dp2[i] != 44);
    lemma_sep_split(dp1, z1, dp2, z2, 44);
    vstd::utf8::encode_utf8_decode_utf8(dec_str(c1.price));
    vstd::utf8::encode_utf8_decode_utf8(dec_str(c2.price));
    lemma_dec_str_injective(c1.price, c2.price);
    assert(forall|i: int| 0 <= i < da1.len() ==> da1[i] != 93);
    assert(forall|i: int| 0 <= i < da2.len() ==> da2[i] != 93);
    lemma_sep_split(da1, r1, da2, r2, 93);
    vstd::utf8::encode_utf8_decode_utf8(dec_str(c1.amount));
    vstd::utf8::encode_utf8_decode_utf8(dec_str(c2.amount));
    lemma_dec_str_injective(c1.amount, c2.amount);
    assert(c1 =~~= c2);
}

/// The comma-separated encoding is injective on item sequences.
pub proof fn lemma_json_items_injective(s1: Seq<CartView>, s2: Seq<CartView>)
    requires
        json_items(s1) == json_items(s2),
    ensures
        s1 == s2,
    decreases s1.len(),
{
    if s1.len() == 0 && s2.len() == 0 {
        assert(s1 =~= s2);
    } else if s1.len() == 0 {
        assert(json_items(s2).len() >= json_item(s2[0]).len());
        assert(json_item(s2[0]).len() >= 2);
        assert(false);
    } else if s2.len() == 0 {
        assert(json_items(s1).len() >= json_item(s1[0]).len());
        assert(json_item(s1[0]).len() >= 2);
        assert(false);
    } else {
        let t1 = if s1.len() == 1 {
            Seq::<u8>::empty()
        } else {
            seq![44u8] + json_items(s1.skip(1))
        };
        let t2 = if s2.len() == 1 {
            Seq::<u8>::empty()
        } else {
            seq![44u8] + json_items(s2.skip(1))
        };
        assert(json_items(s1) =~= json_item(s1[0]) + t1);
        assert(json_items(s2) =~= json_item(s2[0]) + t2);
        lemma_json_item_cancel(s1[0], t1, s2[0], t2);
        if s1.len() == 1 && s2.len() == 1 {
            assert(s1 =~= s2);
        } else if s1.len() == 1 {
            assert(t2.len() >= 1);
            assert(false);
        } else if s2.len() == 1 {
            assert(t1.len() >= 1);
            assert(false);
        } else {
            assert(json_items(s1.skip(1)) =~= t1.skip(1));
            assert(json_items(s2.skip(1)) =~= t2.skip(1));
            lemma_json_items_injective(s1.skip(1), s2.skip(1));
            assert(s1 =~= seq![s1[0]] + s1.skip(1));
            assert(s2 =~= seq![s2[0]] + s2.skip(1));
        }
    }
}

/// The canonical JSON bytes are injective on baskets.
pub proof fn lemma_json_basket_injective(s1: Seq<CartView>, s2: Seq<CartView>)
    requires
        json_basket(s1) == json_basket(s2),
    ensures
        s1 == s2,
{
    let a1 = json_items(s1);
    let a2 = json_items(s2);
    assert(json_basket(s1).len() == 2 + a1.len());
    assert(json_basket(s2).len() == 2 + a2.len());
    assert(a1.len() == a2.len());
    assert(a1 =~= json_basket(s1).subrange(1, 1 + a1.len() as int));
    assert(a2 =~= json_basket(s2).subrange(1, 1 + a2.len() as int));
    lemma_json_items_injective(s1, s2);
}

/// Changing the basket - its item order included - changes the encoded
/// basket string: the whole encoding pipeline is injective, so two
/// distinct item sequences can never share an encoded basket.
pub proof fn lemma_basket_encoding_injective(items1: Seq<CartView>, items2: Seq<CartView>)
    requires
        items1 != items2,
    ensures
        basket_encoding(items1) != basket_encoding(items2),
{
    if basket_encoding(items1) == basket_encoding(items2) {
        lemma_b64_encode_injective(json_basket(items1), json_basket(items2));
        lemma_json_basket_injective(items1, items2);
    }
}

/// Appends the escaped bytes of `s` to `out`.
fn push_json_string(out: &mut Vec<u8>, s: &str)
    ensures
        final(out)@ == old(out)@ + jstr_escape(s.spec_bytes()),
{
    let bytes = s.as_bytes_vec();
    let n = bytes.len();
    let mut i: usize = 0;
    while i < n
        invariant
            n == bytes@.len(),
            i <= n,
            bytes@ == s.spec_bytes(),
            out@ == old(out)@ + jstr_escape(bytes@.take(i as int)),
        decreases n - i,
    {
        let b = bytes[i];
        if b == 34 || b == 92 || b < 32 {
            out.push(92);
            out.push(117);
            out.push(48);
            out.push(48);
            let hi = b / 16;
            let lo = b % 16;
            out.push(if hi < 10 { 48 + hi } else { 87 + hi });
            out.push(if lo < 10 { 48 + lo } else { 87 + lo });
        } else {
            out.push(b);
        }
        proof {
            let bb = bytes@[i as int];
            assert(bytes@.take(i + 1) =~= bytes@.take(i as int) + seq![bb]);
            lemma_jstr_escape_concat(bytes@.take(i as int), seq![bb]);
            assert(seq![bb].skip(1) =~= Seq::<u8>::empty());
            assert(jstr_escape(seq![bb]) == jstr_escape_byte(seq![bb][0]) + jstr_escape(
                seq![bb].skip(1),
            ));
            assert(jstr_escape(Seq::<u8>::empty()) == Seq::<u8>::empty());
            assert(jstr_escape(seq![bb]) =~= jstr_escape_byte(bb));
            assert(out@ =~= old(out)@ + jstr_escape(bytes@.take(i + 1)));
        }
        i = i + 1;
    }
    proof {
        assert(bytes@.take(n as int) =~= bytes@);
    }
}

/// Appends the decimal digits of `v` to `out`.
fn push_dec_i64(out: &mut Vec<u8>, v: i64)
    ensures
        final(out)@ == old(out)@ + encode_utf8(dec_str(v as int)),
{
    let s = format_i64(v);
    let mut bytes = s.as_str().as_bytes_vec();
    out.append(&mut bytes);
}

/// Serializes a basket to its canonical JSON bytes: a deterministic array
/// of `["name",price,amount]` triples in the caller's order.
pub fn encode_basket_json(cart: &Vec<Cart>) -> (r: Vec<u8>)
    ensures
        r@ == json_basket(carts_view(cart@)),
{
    let mut out: Vec<u8> = Vec::new();
    out.push(91);
    let n = cart.len();
    let mut i: usize = 0;
    while i < n
        invariant
            n == cart@.len(),
            i <= n,
            out@ == seq![91u8] + json_items(carts_view(cart@.take(i as int))),
        decreases n - i,
    {
        if i > 0 {
            out.push(44);
        }
        let ghost out_before = out@;
        out.push(91);
        out.push(34);
        push_json_string(&mut out, cart[i].name.as_str());
        out.push(34);
        out.push(44);
        push_dec_i64(&mut out, cart[i].price as i64);
        out.push(44);
        push_dec_i64(&mut out, cart[i].amount as i64);
        out.push(93);
        proof {
            assert(out@ =~= out_before + json_item(cart@[i as int]@));
            assert(carts_view(cart@.take(i + 1)) =~= carts_view(cart@.take(i as int)).push(
                cart@[i as int]@,
            ));
            lemma_json_items_push(carts_view(cart@.take(i as int)), cart@[i as int]@);
            assert(out@ =~= seq![91u8] + json_items(carts_view(cart@.take(i + 1))));
        }
        i = i + 1;
    }
    out.push(93);
    proof {
        assert(cart@.take(n as int) =~= cart@);
        assert(out@ =~= json_basket(carts_view(cart@)));
    }
    out
}

/// Encodes a basket exactly as the gateway expects it embedded in the
/// signed payload: canonical JSON, then standard padded base64.
pub fn encode_basket(cart: &Vec<Cart>) -> (r: String)
    ensures
        r@ == basket_encoding(carts_view(cart@)),
{
    let json = encode_basket_json(cart);
    b64_encode_bytes(&json)
}

} // verus!
