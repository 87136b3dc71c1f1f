//! Decimal formatting of the integer fields that enter the signed
//! canonical concatenation.

use vstd::prelude::*;

verus! {

/// The character for one decimal digit value.
pub open spec fn dec_digit(d: int) -> char
    recommends
        0 <= d < 10,
{
    ((48 + d) as u8) as char
}

/// The decimal digits of a non-negative integer, most significant first,
/// with no leading zeros (a single '0' for zero).
pub open spec fn dec_digits(n: int) -> Seq<char>
    recommends
        n >= 0,
    decreases n,
{
    if n < 10 {
        seq![dec_digit(n)]
    } else {
        dec_digits(n / 10).push(dec_digit(n % 10))
    }
}

/// The decimal string of a signed integer: a leading '-' only for
/// negative values, plain base-10 ASCII digits, no leading zeros.
pub open spec fn dec_str(n: int) -> Seq<char> {
    if n < 0 {
        seq!['-'] + dec_digits(-n)
    } else {
        dec_digits(n)
    }
}

/// The digit string is never empty and holds ASCII digits only.
pub proof fn lemma_dec_digits_range(n: int)
    requires
        n >= 0,
    ensures
        dec_digits(n).len() >= 1,
        forall|i: int|
            0 <= i < dec_digits(n).len() ==> 48 <= (#[trigger] dec_digits(n)[i]) as u32 <= 57,
    decreases n,
{
    if n < 10 {
    } else {
        lemma_dec_digits_range(n / 10);
    }
}

/// Distinct non-negative integers have distinct digit strings.
pub proof fn lemma_dec_digits_injective(n1: int, n2: int)
    requires
        n1 >= 0,
        n2 >= 0,
        dec_digits(n1) == dec_digits(n2),
    ensures
        n1 == n2,
    decreases n1,
{
    lemma_dec_digits_range(n1);
    lemma_dec_digits_range(n2);
    if n1 < 10 && n2 < 10 {
        assert(dec_digits(n1) == seq![dec_digit(n1)]);
        assert(dec_digits(n2) == seq![dec_digit(n2)]);
        assert(dec_digits(n1)[0] == dec_digit(n1));
        assert(dec_digits(n2)[0] == dec_digit(n2));
        assert(dec_digit(n1) as u32 == 48 + n1);
        assert(dec_digit(n2) as u32 == 48 + n2);
    } else if n1 < 10 {
        lemma_dec_digits_range(n2 / 10);
        assert(dec_digits(n2).len() >= 2);
    } else if n2 < 10 {
        lemma_dec_digits_range(n1 / 10);
        assert(dec_digits(n1).len() >= 2);
    } else {
        assert(dec_digits(n1) == dec_digits(n1 / 10).push(dec_digit(n1 % 10)));
        assert(dec_digits(n2) == dec_digits(n2 / 10).push(dec_digit(n2 % 10)));
        assert(dec_digits(n1).last() == dec_digit(n1 % 10));
        assert(dec_digits(n2).last() == dec_digit(n2 % 10));
        assert(dec_digit(n1 % 10) as u32 == 48 + n1 % 10);
        assert(dec_digit(n2 % 10) as u32 == 48 + n2 % 10);
        assert(dec_digits(n1).drop_last() =~= dec_digits(n1 / 10));
        assert(dec_digits(n2).drop_last() =~= dec_digits(n2 / 10));
        lemma_dec_digits_injective(n1 / 10, n2 / 10);
        assert(n1 % 10 == n2 % 10);
    }
}

/// The decimal string is never empty, and every character is an ASCII
/// digit or the leading minus sign.
pub proof fn lemma_dec_str_range(n: int)
    ensures
        dec_str(n).len() >= 1,
        forall|i: int|
            0 <= i < dec_str(n).len() ==> ((#[trigger] dec_str(n)[i]) as u32 == 45 || 48 <= dec_str(
                n,
            )[i] as u32 <= 57),
{
    if n < 0 {
        lemma_dec_digits_range(-n);
    } else {
        lemma_dec_digits_range(n);
    }
}

/// Distinct integers have distinct decimal strings.
pub proof fn lemma_dec_str_injective(n1: int, n2: int)
    requires
        dec_str(n1) == dec_str(n2),
    ensures
        n1 == n2,
{
    if n1 >= 0 && n2 >= 0 {
        lemma_dec_digits_injective(n1, n2);
    } else if n1 < 0 && n2 < 0 {
        assert(dec_str(n1).skip(1) =~= dec_digits(-n1));
        assert(dec_str(n2).skip(1) =~= dec_digits(-n2));
        lemma_dec_digits_injective(-n1, -n2);
    } else if n1 < 0 {
        lemma_dec_digits_range(n2);
        assert(dec_str(n1)[0] == '-');
        assert(48 <= dec_str(n2)[0] as u32 <= 57);
        assert('-' as u32 == 45);
    } else {
        lemma_dec_digits_range(n1);
        assert(dec_str(n2)[0] == '-');
        assert(48 <= dec_str(n1)[0] as u32 <= 57);
        assert('-' as u32 == 45);
    }
}

/// Relies on itoa::Buffer::format: writes the same base-10 text as the
/// std `Display` impl of `i64` (optional '-', then digits, no leading zeros).
#[verifier::external_body]
pub(crate) fn format_i64(n: i64) -> (r: String)
    ensures
        r@ == dec_str(n as int),
{
    let mut buffer = itoa::Buffer::new();
    buffer.format(n).to_string()
}

} // verus!
