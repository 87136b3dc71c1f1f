//! Decoding an encoded basket string back into its items. The reading is
//! stated as a spec-level parser, proved complete on everything the
//! encoder can produce; the executable decoder refines that parser and
//! re-encodes its result, so a decoded basket is exactly the one whose
//! canonical encoding the input is.

use vstd::prelude::*;
use crate::b64::{b64_encode, lemma_b64_encode_injective};
use crate::basket::{
    Cart,
    basket_encoding, carts_view, hex_digit, json_basket, json_item, json_items, jstr_escape,
    jstr_escape_byte, lemma_dec_bytes_range, lemma_jstr_escape_no_quote, CartView,
};
use crate::numfmt::{dec_digit, dec_digits, dec_str, lemma_dec_digits_range};
use vstd::utf8::{decode_utf8, encode_utf8, is_ascii_chars_encode_utf8, valid_utf8};

verus! {

/// The position of the first occurrence of a byte.
pub open spec fn find_byte(b: Seq<u8>, sep: u8) -> Option<int>
    decreases b.len(),
{
    if b.len() == 0 {
        None::<int>
    } else if b[0] == sep {
        Some(0int)
    } else {
        match find_byte(b.skip(1), sep) {
            Some(i) => Some(i + 1),
            None => None::<int>,
        }
    }
}

/// In a sequence that is `x`, the separator, then `y`, with no separator
/// inside `x`, the first separator stands exactly after `x`.
pub proof fn lemma_find_byte_concat(x: Seq<u8>, y: Seq<u8>, sep: u8)
    requires
        forall|i: int| 0 <= i < x.len() ==> x[i] != sep,
    ensures
        find_byte(x + seq![sep] + y, sep) == Some(x.len() as int),
    decreases x.len(),
{
    let b = x + seq![sep] + y;
    if x.len() == 0 {
        assert(b[0] == sep);
    } else {
        assert(b[0] == x[0]);
        assert(b.skip(1) =~= x.skip(1) + seq![sep] + y);
        lemma_find_byte_concat(x.skip(1), y, sep);
    }
}

/// The value of one lower-case hexadecimal digit byte, or -1.
pub open spec fn hex_val(b: u8) -> int {
    if 48 <= b < 58 {
        b - 48
    } else if 97 <= b < 103 {
        b - 87
    } else {
        -1
    }
}

/// The inverse of the JSON string-literal escaping: a `\u00XX` block
/// becomes its byte, any other byte stands for itself.
pub open spec fn unescape(b: Seq<u8>) -> Option<Seq<u8>>
    decreases b.len(),
{
    if b.len() == 0 {
        Some(Seq::<u8>::empty())
    } else if b[0] == 92 {
        if b.len() >= 6 && b[1] == 117 && b[2] == 48 && b[3] == 48 && hex_val(b[4]) >= 0
            && hex_val(b[5]) >= 0 {
            match unescape(b.skip(6)) {
                Some(t) => Some(seq![(hex_val(b[4]) * 16 + hex_val(b[5])) as u8] + t),
                None => None::<Seq<u8>>,
            }
        } else {
            None::<Seq<u8>>
        }
    } else {
        match unescape(b.skip(1)) {
            Some(t) => Some(seq![b[0]] + t),
            None => None::<Seq<u8>>,
        }
    }
}

/// Unescaping undoes escaping.
pub proof fn lemma_unescape_escape(x: Seq<u8>)
    ensures
        unescape(jstr_escape(x)) == Some(x),
    decreases x.len(),
{
    if x.len() == 0 {
        assert(unescape(jstr_escape(x)) =~~= Some(x));
    } else {
        let e = jstr_escape(x);
        lemma_unescape_escape(x.skip(1));
        let b0 = x[0];
        if b0 == 34 || b0 == 92 || b0 < 32 {
            assert(jstr_escape_byte(b0).len() == 6);
            assert(e.skip(6) =~= jstr_escape(x.skip(1)));
            assert(e[0] == 92 && e[1] == 117 && e[2] == 48 && e[3] == 48);
            assert(e[4] == hex_digit(b0 as int / 16) && e[5] == hex_digit(b0 as int % 16));
            assert(hex_val(hex_digit(b0 as int / 16)) == b0 as int / 16);
            assert(hex_val(hex_digit(b0 as int % 16)) == b0 as int % 16);
            assert((b0 as int / 16) * 16 + b0 as int % 16 == b0 as int);
            assert(unescape(e) =~~= Some(x));
        } else {
            assert(e[0] == b0 && b0 != 92);
            assert(e.skip(1) =~= jstr_escape(x.skip(1)));
            assert(unescape(e) =~~= Some(x));
        }
    }
}

/// Whether every byte is an ASCII digit.
pub open spec fn all_digits(b: Seq<u8>) -> bool {
    forall|i: int| 0 <= i < b.len() ==> 48 <= #[trigger] b[i] <= 57
}

/// The number the digit bytes spell, most significant first.
pub open spec fn digits_val(b: Seq<u8>) -> int
    decreases b.len(),
{
    if b.len() == 0 {
        0
    } else {
        digits_val(b.drop_last()) * 10 + (b.last() - 48)
    }
}

/// The value of a digit string never shrinks as digits are appended.
pub proof fn lemma_digits_val_mono(b: Seq<u8>, k: int)
    requires
        all_digits(b),
        0 <= k <= b.len(),
    ensures
        0 <= digits_val(b.take(k)) <= digits_val(b),
    decreases b.len() - k,
{
    if k == b.len() {
        assert(b.take(k) =~= b);
        lemma_digits_val_nonneg(b);
    } else {
        lemma_digits_val_mono(b, k + 1);
        assert(b.take(k + 1).drop_last() =~= b.take(k));
        assert(b.take(k + 1).last() == b[k]);
        lemma_digits_val_nonneg(b.take(k));
    }
}

/// A digit string's value is non-negative.
pub proof fn lemma_digits_val_nonneg(b: Seq<u8>)
    requires
        all_digits(b),
    ensures
        digits_val(b) >= 0,
    decreases b.len(),
{
    if b.len() > 0 {
        assert(all_digits(b.drop_last()));
        lemma_digits_val_nonneg(b.drop_last());
    }
}

/// The digit characters of a non-negative integer are ASCII.
pub proof fn lemma_dec_digits_ascii(n: int)
    requires
        n >= 0,
    ensures
        vstd::utf8::is_ascii_chars(dec_digits(n)),
{
    lemma_dec_digits_range(n);
    assert forall|i: int| 0 <= i < dec_digits(n).len() implies '\0' <= #[trigger] dec_digits(n)[i]
        <= '\u{7f}' by {
        assert(48 <= dec_digits(n)[i] as u32 <= 57);
        vstd::utf8::char_u32_cast(dec_digits(n)[i], dec_digits(n)[i] as u32);
        vstd::utf8::char_u32_cast('\0', 0);
        vstd::utf8::char_u32_cast('\u{7f}', 127);
    }
}

/// The characters of any decimal string are ASCII.
pub proof fn lemma_dec_str_ascii(n: int)
    ensures
        vstd::utf8::is_ascii_chars(dec_str(n)),
{
    crate::numfmt::lemma_dec_str_range(n);
    assert forall|i: int| 0 <= i < dec_str(n).len() implies '\0' <= #[trigger] dec_str(n)[i]
        <= '\u{7f}' by {
        assert(dec_str(n)[i] as u32 == 45 || 48 <= dec_str(n)[i] as u32 <= 57);
        vstd::utf8::char_u32_cast(dec_str(n)[i], dec_str(n)[i] as u32);
        vstd::utf8::char_u32_cast('\0', 0);
        vstd::utf8::char_u32_cast('\u{7f}', 127);
    }
}

/// The digit bytes the encoder writes for a non-negative integer spell
/// that integer back.
pub proof fn lemma_digits_val_of_dec_digits(n: int)
    requires
        n >= 0,
    ensures
        all_digits(encode_utf8(dec_digits(n))),
        digits_val(encode_utf8(dec_digits(n))) == n,
        encode_utf8(dec_digits(n)).len() >= 1,
    decreases n,
{
    lemma_dec_digits_range(n);
    lemma_dec_digits_ascii(n);
    is_ascii_chars_encode_utf8(dec_digits(n));
    let d = encode_utf8(dec_digits(n));
    if n < 10 {
        assert(dec_digits(n) == seq![dec_digit(n)]);
        assert(dec_digit(n) as u32 == 48 + n);
        assert(d.len() == 1);
        assert(d[0] == (48 + n) as u8);
        assert(d.drop_last() =~= Seq::<u8>::empty());
        assert(digits_val(Seq::<u8>::empty()) == 0);
        assert(d.last() == d[0]);
        assert(digits_val(d) == digits_val(d.drop_last()) * 10 + (d.last() - 48));
        assert(digits_val(d) == n);
    } else {
        lemma_digits_val_of_dec_digits(n / 10);
        assert(dec_digits(n) == dec_digits(n / 10).push(dec_digit(n % 10)));
        let dprev = encode_utf8(dec_digits(n / 10));
        lemma_dec_digits_ascii(n / 10);
        is_ascii_chars_encode_utf8(dec_digits(n / 10));
        assert(d.drop_last() =~= dprev);
        assert(dec_digit(n % 10) as u32 == 48 + n % 10);
        assert(d.last() == (48 + n % 10) as u8);
        assert(digits_val(d) == (n / 10) * 10 + n % 10);
    }
}

/// Reading a decimal byte string: an optional minus sign, then digits.
/// Canonical form is not enforced here; the decoder re-encodes and
/// compares, which rejects anything non-canonical.
pub open spec fn parse_dec(b: Seq<u8>) -> Option<int> {
    if b.len() >= 1 && b[0] == 45 {
        let d = b.skip(1);
        if d.len() >= 1 && all_digits(d) {
            Some(-digits_val(d))
        } else {
            None::<int>
        }
    } else if b.len() >= 1 && all_digits(b) {
        Some(digits_val(b))
    } else {
        None::<int>
    }
}

/// The decimal bytes the encoder writes spell their integer back.
pub proof fn lemma_parse_dec_of_dec_str(n: int)
    ensures
        parse_dec(encode_utf8(dec_str(n))) == Some(n),
{
    let b = encode_utf8(dec_str(n));
    lemma_dec_bytes_range(n);
    if n >= 0 {
        lemma_digits_val_of_dec_digits(n);
        assert(b =~= encode_utf8(dec_digits(n)));
        assert(b[0] != 45) by {
            assert(all_digits(b));
        }
    } else {
        lemma_digits_val_of_dec_digits(-n);
        assert(dec_str(n) == seq!['-'] + dec_digits(-n));
        lemma_dec_str_ascii(n);
        lemma_dec_digits_ascii(-n);
        is_ascii_chars_encode_utf8(dec_str(n));
        is_ascii_chars_encode_utf8(dec_digits(-n));
        assert(b[0] == 45) by {
            assert(dec_str(n)[0] == '-');
            assert('-' as u32 == 45);
        }
        assert(b.skip(1) =~= encode_utf8(dec_digits(-n)));
        assert(parse_dec(b) == Some(-digits_val(encode_utf8(dec_digits(-n)))));
    }
}

/// Reading one JSON triple from the front of a byte sequence: the triple
/// and how many bytes it took.
pub open spec fn spec_parse_item(b: Seq<u8>) -> Option<(CartView, int)> {
    if b.len() < 2 || b[0] != 91 || b[1] != 34 {
        None::<(CartView, int)>
    } else {
        match find_byte(b.skip(2), 34) {
            None => None::<(CartView, int)>,
            Some(q) => match unescape(b.skip(2).take(q)) {
                None => None::<(CartView, int)>,
                Some(nb) => if !valid_utf8(nb) {
                    None::<(CartView, int)>
                } else {
                    let t = b.skip(3 + q);
                    if t.len() < 1 || t[0] != 44 {
                        None::<(CartView, int)>
                    } else {
                        let t1 = t.skip(1);
                        match find_byte(t1, 44) {
                            None => None::<(CartView, int)>,
                            Some(c) => match parse_dec(t1.take(c)) {
                                None => None::<(CartView, int)>,
                                Some(price) => if !(-2147483648 <= price < 2147483648) {
                                    None::<(CartView, int)>
                                } else {
                                    let t2 = t1.skip(c + 1);
                                    match find_byte(t2, 93) {
                                        None => None::<(CartView, int)>,
                                        Some(e) => match parse_dec(t2.take(e)) {
                                            None => None::<(CartView, int)>,
                                            Some(amount) => if !(-2147483648 <= amount
                                                < 2147483648) {
                                                None::<(CartView, int)>
                                            } else {
                                                Some(
                                                    (
                                                        CartView {
                                                            name: decode_utf8(nb),
                                                            price,
                                                            amount,
                                                        },
                                                        q + c + e + 6,
                                                    ),
                                                )
                                            },
                                        },
                                    }
                                },
                            },
                        }
                    }
                },
            },
        }
    }
}

/// Reading a comma-separated sequence of triples that fills the whole
/// byte sequence.
pub open spec fn spec_parse_items(b: Seq<u8>) -> Option<Seq<CartView>>
    decreases b.len(),
{
    if b.len() == 0 {
        Some(Seq::<CartView>::empty())
    } else {
        match spec_parse_item(b) {
            None => None::<Seq<CartView>>,
            Some((c, used)) => if used == b.len() {
                Some(seq![c])
            } else if 0 <= used < b.len() && b[used] == 44 {
                match spec_parse_items(b.skip(used + 1)) {
                    Some(rest) => if rest.len() == 0 {
                        None::<Seq<CartView>>
                    } else {
                        Some(seq![c] + rest)
                    },
                    None => None::<Seq<CartView>>,
                }
            } else {
                None::<Seq<CartView>>
            },
        }
    }
}

/// Reading a whole basket: brackets around the item sequence.
pub open spec fn spec_parse_basket(b: Seq<u8>) -> Option<Seq<CartView>> {
    if b.len() < 2 || b[0] != 91 || b[b.len() - 1] != 93 {
        None::<Seq<CartView>>
    } else {
        spec_parse_items(b.subrange(1, b.len() - 1))
    }
}

/// Items whose prices and quantities fit the item type's integer fields.
pub open spec fn basket_representable(items: Seq<CartView>) -> bool {
    forall|i: int|
        0 <= i < items.len() ==> (-2147483648 <= (#[trigger] items[i]).price < 2147483648
            && -2147483648 <= items[i].amount < 2147483648)
}

/// The parser reads back exactly what the encoder wrote for one triple,
/// whatever follows it.
pub proof fn lemma_parse_item_complete(c: CartView, rest: Seq<u8>)
    requires
        -2147483648 <= c.price < 2147483648,
        -2147483648 <= c.amount < 2147483648,
    ensures
        spec_parse_item(json_item(c) + rest) == Some((c, json_item(c).len() as int)),
{
    broadcast use vstd::utf8::encode_utf8_decode_utf8;
    broadcast use vstd::utf8::encode_utf8_valid_utf8;

    let b = json_item(c) + rest;
    let esc = jstr_escape(encode_utf8(c.name));
    let dp = encode_utf8(dec_str(c.price));
    let da = encode_utf8(dec_str(c.amount));
    assert(b[0] == 91 && b[1] == 34);
    let tail34 = seq![44u8] + dp + seq![44u8] + da + seq![93u8] + rest;
    assert(b.skip(2) =~= esc + seq![34u8] + tail34);
    lemma_jstr_escape_no_quote(encode_utf8(c.name));
    lemma_find_byte_concat(esc, tail34, 34);
    let q = esc.len() as int;
    assert(b.skip(2).take(q) =~= esc);
    lemma_unescape_escape(encode_utf8(c.name));
    assert(unescape(esc) == Some(encode_utf8(c.name)));
    assert(valid_utf8(encode_utf8(c.name)));
    assert(decode_utf8(encode_utf8(c.name)) == c.name);
    let t = b.skip(3 + q);
    assert(t =~= tail34);
    assert(t[0] == 44);
    let t1 = t.skip(1);
    lemma_dec_bytes_range(c.price);
    lemma_dec_bytes_range(c.amount);
    let tail44 = da + seq![93u8] + rest;
    assert(t1 =~= dp + seq![44u8] + tail44);
    assert(forall|i: int| 0 <= i < dp.len() ==> dp[i] != 44);
    lemma_find_byte_concat(dp, tail44, 44);
    let cc = dp.len() as int;
    assert(t1.take(cc) =~= dp);
    lemma_parse_dec_of_dec_str(c.price);
    let t2 = t1.skip(cc + 1);
    assert(t2 =~= da + seq![93u8] + rest);
    assert(forall|i: int| 0 <= i < da.len() ==> da[i] != 93);
    lemma_find_byte_concat(da, rest, 93);
    let e = da.len() as int;
    assert(t2.take(e) =~= da);
    lemma_parse_dec_of_dec_str(c.amount);
    assert(json_item(c).len() == q + cc + e + 6);
    assert(spec_parse_item(b) is Some);
    let got = spec_parse_item(b)->Some_0;
    assert(got.0 =~~= c);
    assert(got.1 == json_item(c).len());
}

/// The parser reads back exactly the item sequence the encoder wrote.
pub proof fn lemma_parse_items_complete(items: Seq<CartView>)
    requires
        basket_representable(items),
    ensures
        spec_parse_items(json_items(items)) == Some(items),
    decreases items.len(),
{
    if items.len() == 0 {
        assert(spec_parse_items(json_items(items)) =~~= Some(items));
    } else if items.len() == 1 {
        assert(json_items(items) =~= json_item(items[0]) + Seq::<u8>::empty());
        lemma_parse_item_complete(items[0], Seq::<u8>::empty());
        assert(spec_parse_items(json_items(items)) =~~= Some(items)) by {
            assert(seq![items[0]] =~= items);
        }
    } else {
        let b = json_items(items);
        let t = seq![44u8] + json_items(items.skip(1));
        assert(b =~= json_item(items[0]) + t);
        lemma_parse_item_complete(items[0], t);
        let used = json_item(items[0]).len() as int;
        assert(b[used] == 44);
        assert(used < b.len()) by {
            assert(t.len() >= 1);
        }
        assert(b.skip(used + 1) =~= json_items(items.skip(1)));
        assert(basket_representable(items.skip(1)));
        lemma_parse_items_complete(items.skip(1));
        assert(json_items(items.skip(1)).len() > 0) by {
            assert(json_item(items.skip(1)[0]).len() >= 2);
            assert(items.skip(1).len() >= 1);
        }
        assert(items.skip(1).len() >= 1);
        assert(spec_parse_items(b) =~~= Some(items)) by {
            assert(seq![items[0]] + items.skip(1) =~= items);
        }
    }
}

/// The parser reads back exactly the basket the encoder wrote.
pub proof fn lemma_parse_basket_complete(items: Seq<CartView>)
    requires
        basket_representable(items),
    ensures
        spec_parse_basket(json_basket(items)) == Some(items),
{
    let b = json_basket(items);
    assert(b[0] == 91 && b[b.len() - 1] == 93);
    assert(b.subrange(1, b.len() - 1) =~= json_items(items));
    lemma_parse_items_complete(items);
}

/// Finds the first occurrence of a byte at or after position `i`.
fn find_byte_from(v: &[u8], i: usize, sep: u8) -> (r: Option<usize>)
    requires
        i <= v@.len(),
    ensures
        match r {
            Some(j) => i <= j < v@.len() && find_byte(v@.skip(i as int), sep) == Some(
                j - i as int,
            ),
            None => find_byte(v@.skip(i as int), sep) is None,
        },
    decreases v@.len() - i,
{
    if i >= v.len() {
        proof {
            assert(v@.skip(i as int).len() == 0);
        }
        None
    } else if *vstd::slice::slice_index_get(v, i) == sep {
        proof {
            assert(v@.skip(i as int)[0] == v@[i as int]);
        }
        Some(i)
    } else {
        let r = find_byte_from(v, i + 1, sep);
        proof {
            assert(v@.skip(i as int)[0] == v@[i as int]);
            assert(v@.skip(i as int).skip(1) =~= v@.skip(i + 1));
        }
        r
    }
}

/// The value of one lower-case hexadecimal digit byte, or -1.
fn hex_val_exec(b: u8) -> (r: i32)
    ensures
        r as int == hex_val(b),
{
    if 48 <= b && b < 58 {
        (b - 48) as i32
    } else if 97 <= b && b < 103 {
        (b - 87) as i32
    } else {
        -1
    }
}

/// Unescapes the bytes from position `i` on, mirroring the spec reading.
fn unescape_exec(v: &[u8], i: usize) -> (r: Option<Vec<u8>>)
    requires
        i <= v@.len(),
    ensures
        match r {
            Some(out) => unescape(v@.skip(i as int)) == Some(out@),
            None => unescape(v@.skip(i as int)) is None,
        },
    decreases v@.len() - i,
{
    let ghost s = v@.skip(i as int);
    if i >= v.len() {
        proof {
            assert(s =~= Seq::<u8>::empty());
        }
        Some(Vec::new())
    } else {
        let b0 = *vstd::slice::slice_index_get(v, i);
        proof {
            assert(s[0] == v@[i as int]);
        }
        if b0 == 92 {
            if v.len() - i < 6 {
                proof {
                    assert(s.len() < 6);
                }
                return None;
            }
            let b1 = *vstd::slice::slice_index_get(v, i + 1);
            let b2 = *vstd::slice::slice_index_get(v, i + 2);
            let b3 = *vstd::slice::slice_index_get(v, i + 3);
            let h1 = hex_val_exec(*vstd::slice::slice_index_get(v, i + 4));
            let h2 = hex_val_exec(*vstd::slice::slice_index_get(v, i + 5));
            proof {
                assert(s[1] == v@[i + 1] && s[2] == v@[i + 2] && s[3] == v@[i + 3] && s[4] == v@[i
                    + 4] && s[5] == v@[i + 5]);
            }
            if !(b1 == 117 && b2 == 48 && b3 == 48 && h1 >= 0 && h2 >= 0) {
                return None;
            }
            match unescape_exec(v, i + 6) {
                Some(mut t) => {
                    let byte = (h1 * 16 + h2) as u8;
                    let ghost t_before = t@;
                    t.insert(0, byte);
                    proof {
                        assert(s.skip(6) =~= v@.skip(i + 6));
                        assert(t@ =~= seq![byte] + t_before);
                        assert(unescape(s) == Some(t@));
                    }
                    Some(t)
                },
                None => {
                    proof {
                        assert(s.skip(6) =~= v@.skip(i + 6));
                    }
                    None
                },
            }
        } else {
            match unescape_exec(v, i + 1) {
                Some(mut t) => {
                    let ghost t_before = t@;
                    t.insert(0, b0);
                    proof {
                        assert(s.skip(1) =~= v@.skip(i + 1));
                        assert(t@ =~= seq![b0] + t_before);
                        assert(unescape(s) == Some(t@));
                    }
                    Some(t)
                },
                None => {
                    proof {
                        assert(s.skip(1) =~= v@.skip(i + 1));
                    }
                    None
                },
            }
        }
    }
}

/// Accumulates the value of a digit run, stopping once it can no longer
/// name an item field.
fn digits_val_exec(v: &[u8]) -> (r: Option<i64>)
    ensures
        match r {
            Some(a) => all_digits(v@) && digits_val(v@) == a as int && 0 <= a <= 2147483648,
            None => !all_digits(v@) || digits_val(v@) > 2147483648,
        },
{
    let n = v.len();
    let mut acc: i64 = 0;
    let mut k: usize = 0;
    while k < n
        invariant
            n == v@.len(),
            k <= n,
            all_digits(v@.take(k as int)),
            acc as int == digits_val(v@.take(k as int)),
            0 <= acc <= 2147483648,
        decreases n - k,
    {
        let b = *vstd::slice::slice_index_get(v, k);
        if b < 48 || b > 57 {
            proof {
                assert(v@[k as int] == b);
                assert(!all_digits(v@));
            }
            return None;
        }
        let new_acc = acc * 10 + (b - 48) as i64;
        proof {
            assert(v@.take(k + 1).drop_last() =~= v@.take(k as int));
            assert(v@.take(k + 1).last() == v@[k as int]);
            assert(all_digits(v@.take(k + 1)));
            assert(digits_val(v@.take(k + 1)) == new_acc as int);
        }
        if new_acc > 2147483648 {
            proof {
                if all_digits(v@) {
                    lemma_digits_val_mono(v@, k + 1);
                }
            }
            return None;
        }
        acc = new_acc;
        k = k + 1;
    }
    proof {
        assert(v@.take(n as int) =~= v@);
    }
    Some(acc)
}

/// Reads a decimal byte string into an item field, mirroring the spec
/// reading; values outside the field's range are rejected.
fn parse_dec_exec(v: &[u8]) -> (r: Option<i32>)
    ensures
        match r {
            Some(x) => parse_dec(v@) == Some(x as int),
            None => (match parse_dec(v@) {
                Some(y) => !(-2147483648 <= y < 2147483648),
                None => true,
            }),
        },
{
    let n = v.len();
    if n == 0 {
        return None;
    }
    let first = *vstd::slice::slice_index_get(v, 0);
    if first == 45 {
        if n == 1 {
            proof {
                assert(v@.skip(1).len() == 0);
            }
            return None;
        }
        let digits = vstd::slice::slice_subrange(v, 1, n);
        proof {
            assert(digits@ =~= v@.skip(1));
        }
        match digits_val_exec(digits) {
            Some(a) => Some((-a) as i32),
            None => None,
        }
    } else {
        match digits_val_exec(v) {
            Some(a) => {
                if a >= 2147483648 {
                    None
                } else {
                    Some(a as i32)
                }
            },
            None => None,
        }
    }
}

/// Reads one triple from position `i` on, mirroring the spec reading.
fn parse_item_exec(v: &Vec<u8>, i: usize) -> (r: Option<(Cart, usize)>)
    requires
        i <= v@.len(),
    ensures
        match r {
            Some(p) => i < p.1 <= v@.len() && spec_parse_item(v@.skip(i as int)) == Some(
                (p.0@, p.1 - i as int),
            ),
            None => spec_parse_item(v@.skip(i as int)) is None,
        },
{
    broadcast use vstd::utf8::encode_utf8_decode_utf8;
    broadcast use vstd::utf8::encode_utf8_valid_utf8;

    let ghost b = v@.skip(i as int);
    let s = v.as_slice();
    let n = v.len();
    if n < 2 || i > n - 2 {
        proof {
            assert(b.len() < 2);
        }
        return None;
    }
    let b0 = *vstd::slice::slice_index_get(s, i);
    let b1 = *vstd::slice::slice_index_get(s, i + 1);
    proof {
        assert(b[0] == v@[i as int] && b[1] == v@[i + 1]);
    }
    if b0 != 91 || b1 != 34 {
        return None;
    }
    proof {
        assert(b.skip(2) =~= v@.skip(i + 2));
    }
    let q_abs = match find_byte_from(s, i + 2, 34) {
        Some(j) => j,
        None => {
            return None;
        },
    };
    let esc = vstd::slice::slice_subrange(s, i + 2, q_abs);
    proof {
        assert(esc@ =~= b.skip(2).take(q_abs - (i + 2)));
        assert(esc@.skip(0) =~= esc@);
    }
    let nb = match unescape_exec(esc, 0) {
        Some(x) => x,
        None => {
            return None;
        },
    };
    let name = match crate::strutil::string_from_utf8(nb) {
        Some(x) => x,
        None => {
            return None;
        },
    };
    proof {
        assert(valid_utf8(encode_utf8(name@)));
        assert(decode_utf8(encode_utf8(name@)) == name@);
        assert(b.skip(3 + (q_abs - (i + 2))) =~= v@.skip(q_abs + 1));
    }
    if q_abs + 1 >= n {
        proof {
            assert(v@.skip(q_abs + 1).len() == 0);
        }
        return None;
    }
    let comma1 = *vstd::slice::slice_index_get(s, q_abs + 1);
    proof {
        assert(v@.skip(q_abs + 1)[0] == v@[q_abs + 1]);
    }
    if comma1 != 44 {
        return None;
    }
    proof {
        assert(v@.skip(q_abs + 1).skip(1) =~= v@.skip(q_abs + 2));
    }
    let c_abs = match find_byte_from(s, q_abs + 2, 44) {
        Some(j) => j,
        None => {
            return None;
        },
    };
    let dp = vstd::slice::slice_subrange(s, q_abs + 2, c_abs);
    proof {
        assert(dp@ =~= v@.skip(q_abs + 2).take(c_abs - (q_abs + 2)));
    }
    let price = match parse_dec_exec(dp) {
        Some(x) => x,
        None => {
            return None;
        },
    };
    proof {
        assert(v@.skip(q_abs + 2).skip((c_abs - (q_abs + 2)) + 1) =~= v@.skip(c_abs + 1));
    }
    let e_abs = match find_byte_from(s, c_abs + 1, 93) {
        Some(j) => j,
        None => {
            return None;
        },
    };
    let da = vstd::slice::slice_subrange(s, c_abs + 1, e_abs);
    proof {
        assert(da@ =~= v@.skip(c_abs + 1).take(e_abs - (c_abs + 1)));
    }
    let amount = match parse_dec_exec(da) {
        Some(x) => x,
        None => {
            return None;
        },
    };
    let cart = Cart { name, price, amount };
    let next = e_abs + 1;
    proof {
        let q = q_abs - (i + 2);
        let cc = c_abs - (q_abs + 2);
        let e = e_abs - (c_abs + 1);
        assert(spec_parse_item(b) is Some);
        let got = spec_parse_item(b)->Some_0;
        assert(got.0 =~~= cart@);
        assert(got.1 == q + cc + e + 6);
        assert(next - i == q + cc + e + 6);
    }
    Some((cart, next))
}

/// Reads the comma-separated triples from position `i` to the end,
/// mirroring the spec reading.
fn parse_items_exec(v: &Vec<u8>, i: usize) -> (r: Option<Vec<Cart>>)
    requires
        i <= v@.len(),
    ensures
        match r {
            Some(cart) => spec_parse_items(v@.skip(i as int)) == Some(carts_view(cart@)),
            None => spec_parse_items(v@.skip(i as int)) is None,
        },
    decreases v@.len() - i,
{
    let ghost b = v@.skip(i as int);
    let n = v.len();
    if i == n {
        proof {
            assert(b =~= Seq::<u8>::empty());
            assert(carts_view(Seq::<Cart>::empty()) =~= Seq::<CartView>::empty());
        }
        return Some(Vec::new());
    }
    match parse_item_exec(v, i) {
        None => None,
        Some((cart, next)) => {
            if next == n {
                let mut out: Vec<Cart> = Vec::new();
                out.push(cart);
                proof {
                    assert(carts_view(out@) =~= seq![cart@]);
                }
                Some(out)
            } else {
                let sep = v[next];
                proof {
                    assert(b[next - i as int] == v@[next as int]);
                }
                if sep != 44 {
                    return None;
                }
                proof {
                    assert(b.skip((next - i as int) + 1) =~= v@.skip(next + 1));
                }
                match parse_items_exec(v, next + 1) {
                    None => None,
                    Some(mut rest) => {
                        if rest.len() == 0 {
                            proof {
                                assert(carts_view(rest@).len() == 0);
                            }
                            return None;
                        }
                        let ghost rest_before = rest@;
                        rest.insert(0, cart);
                        proof {
                            assert(carts_view(rest@) =~= seq![cart@] + carts_view(rest_before));
                        }
                        Some(rest)
                    },
                }
            }
        },
    }
}

/// Reads a whole basket, mirroring the spec reading.
fn parse_basket_exec(v: &Vec<u8>) -> (r: Option<Vec<Cart>>)
    ensures
        match r {
            Some(cart) => spec_parse_basket(v@) == Some(carts_view(cart@)),
            None => spec_parse_basket(v@) is None,
        },
{
    let n = v.len();
    if n < 2 {
        return None;
    }
    if v[0] != 91 || v[n - 1] != 93 {
        return None;
    }
    let region = vstd::slice::slice_to_vec(vstd::slice::slice_subrange(v.as_slice(), 1, n - 1));
    proof {
        assert(region@ =~= v@.subrange(1, n - 1));
        assert(region@.skip(0) =~= region@);
    }
    parse_items_exec(&region, 0)
}

/// Whether two byte vectors hold the same bytes.
fn bytes_equal(a: &Vec<u8>, b: &Vec<u8>) -> (r: bool)
    ensures
        r <==> a@ == b@,
{
    if a.len() != b.len() {
        return false;
    }
    let n = a.len();
    let mut k: usize = 0;
    while k < n
        invariant
            n == a@.len() == b@.len(),
            k <= n,
            forall|j: int| 0 <= j < k ==> a@[j] == b@[j],
        decreases n - k,
    {
        if a[k] != b[k] {
            return false;
        }
        k = k + 1;
    }
    proof {
        assert(a@ =~= b@);
    }
    true
}

/// Decodes an encoded basket string: base64, then the canonical JSON
/// reading, then a re-encode comparison. The result, when there is one,
/// is exactly the basket whose canonical encoding the input is; a `None`
/// means no representable basket encodes to the input.
pub fn decode_basket(s: &str) -> (r: Option<Vec<Cart>>)
    ensures
        match r {
            Some(cart) => s@ == basket_encoding(carts_view(cart@)),
            None => forall|items: Seq<CartView>|
                basket_representable(items) ==> s@ != basket_encoding(items),
        },
{
    let bytes = match crate::b64::b64_decode_str(s) {
        Some(x) => x,
        None => {
            proof {
                assert forall|items: Seq<CartView>| basket_representable(items) implies s@
                    != basket_encoding(items) by {
                    assert(s@ != b64_encode(json_basket(items)));
                }
            }
            return None;
        },
    };
    let cart = match parse_basket_exec(&bytes) {
        Some(x) => x,
        None => {
            proof {
                assert forall|items: Seq<CartView>| basket_representable(items) implies s@
                    != basket_encoding(items) by {
                    if s@ == basket_encoding(items) {
                        lemma_b64_encode_injective(bytes@, json_basket(items));
                        lemma_parse_basket_complete(items);
                        assert(false);
                    }
                }
            }
            return None;
        },
    };
    let reencoded = crate::basket::encode_basket_json(&cart);
    if !bytes_equal(&reencoded, &bytes) {
        proof {
            assert forall|items: Seq<CartView>| basket_representable(items) implies s@
                != basket_encoding(items) by {
                if s@ == basket_encoding(items) {
                    lemma_b64_encode_injective(bytes@, json_basket(items));
                    lemma_parse_basket_complete(items);
                    assert(carts_view(cart@) == items);
                    assert(false);
                }
            }
        }
        return None;
    }
    proof {
        assert(bytes@ == json_basket(carts_view(cart@)));
    }
    Some(cart)
}

} // verus!
