//! Arbitrary-precision integers.
//!
//! An [`Integer`] holds the little-endian two's complement bytes of a number;
//! the arithmetic itself is that of the `num-bigint` crate, reached through the
//! wrappers at the end of this file.
use num_bigint::BigInt;
use num_traits::{Signed, ToPrimitive, Zero};
use vstd::arithmetic::power::pow;
use vstd::arithmetic::power2::pow2;
use vstd::prelude::*;
use crate::text::{decimal, digits};

verus! {

/// The number that little-endian two's complement bytes stand for.
pub open spec fn signed_le(bytes: Seq<u8>) -> int
    decreases bytes.len(),
{
    if bytes.len() == 0 {
        0
    } else if bytes.len() == 1 {
        if bytes[0] < 128 {
            bytes[0] as int
        } else {
            bytes[0] - 256
        }
    } else {
        bytes[0] + 256 * signed_le(bytes.drop_first())
    }
}

/// The distance from zero.
pub open spec fn magnitude(n: int) -> nat {
    if n < 0 {
        (-n) as nat
    } else {
        n as nat
    }
}

/// Division that rounds toward zero.
pub open spec fn trunc_div(x: int, y: int) -> int {
    if (x < 0) != (y < 0) {
        -((magnitude(x) / magnitude(y)) as int)
    } else {
        (magnitude(x) / magnitude(y)) as int
    }
}

/// The remainder of [`trunc_div`], with the sign of the dividend.
pub open spec fn trunc_rem(x: int, y: int) -> int {
    if x < 0 {
        -((magnitude(x) % magnitude(y)) as int)
    } else {
        (magnitude(x) % magnitude(y)) as int
    }
}

/// Bit `i` of the infinite two's complement notation of `n`.
pub open spec fn bit(n: int, i: nat) -> bool {
    (n / (pow2(i) as int)) % 2 == 1
}

/// The number of bits of a magnitude.
pub open spec fn bit_length(n: nat) -> nat
    decreases n,
{
    if n == 0 {
        0
    } else {
        1 + bit_length(n / 2)
    }
}

/// The value of a digit character, up to base 36.
pub open spec fn digit_value(c: char) -> Option<nat> {
    if '0' <= c <= '9' {
        Some((c as int - '0' as int) as nat)
    } else if 'a' <= c <= 'z' {
        Some((c as int - 'a' as int + 10) as nat)
    } else if 'A' <= c <= 'Z' {
        Some((c as int - 'A' as int + 10) as nat)
    } else {
        None
    }
}

/// Whether every character is a digit below `radix` or an underscore.
pub open spec fn all_digits(text: Seq<char>, radix: int) -> bool {
    forall|i: int|
        0 <= i < text.len() ==> (#[trigger] text[i] == '_' || (digit_value(text[i]) matches Some(d)
            && d < radix))
}

/// The number written by digits in base `radix`, underscores skipped.
pub open spec fn digits_value(text: Seq<char>, radix: int) -> int
    decreases text.len(),
{
    if text.len() == 0 {
        0
    } else if text.last() == '_' {
        digits_value(text.drop_last(), radix)
    } else {
        digits_value(text.drop_last(), radix) * radix + digit_value(text.last()).unwrap()
    }
}

/// An unsigned numeral: an optional plus sign that no other follows, then
/// digits of which the first is no underscore.
pub open spec fn unsigned_numeral(text: Seq<char>, radix: int) -> Option<int> {
    let body = if text.len() > 0 && text[0] == '+' && !(text.len() > 1 && text[1] == '+') {
        text.skip(1)
    } else {
        text
    };
    if body.len() > 0 && body[0] != '_' && all_digits(body, radix) {
        Some(digits_value(body, radix))
    } else {
        None
    }
}

/// A numeral with an optional sign.
pub open spec fn numeral(text: Seq<char>, radix: int) -> Option<int> {
    if text.len() > 0 && text[0] == '-' {
        match unsigned_numeral(
            if text.len() > 1 && text[1] == '+' {
                text
            } else {
                text.skip(1)
            },
            radix,
        ) {
            Some(n) => Some(-n),
            None => None,
        }
    } else {
        unsigned_numeral(text, radix)
    }
}

/// An integer of any size.
#[derive(Debug)]
pub struct Integer {
    bytes: Vec<u8>,
}

impl View for Integer {
    type V = int;

    closed spec fn view(&self) -> int {
        signed_le(self.bytes@)
    }
}

impl Integer {
    pub fn from_i64(n: i64) -> (r: Integer)
        ensures
            r@ == n,
    {
        Integer { bytes: big_from_i128(n as i128) }
    }

    pub fn from_i128(n: i128) -> (r: Integer)
        ensures
            r@ == n,
    {
        Integer { bytes: big_from_i128(n) }
    }

    pub fn copy(&self) -> (r: Integer)
        ensures
            r@ == self@,
    {
        let bytes = self.bytes.clone();
        assert(bytes@ =~= self.bytes@);
        Integer { bytes }
    }

    pub fn to_i64(&self) -> (r: Option<i64>)
        ensures
            r is Some <==> i64::MIN <= self@ <= i64::MAX,
            r matches Some(n) ==> n == self@,
    {
        match big_to_i128(self.bytes.as_slice()) {
            Some(n) => if i64::MIN as i128 <= n && n <= i64::MAX as i128 {
                Some(n as i64)
            } else {
                None
            },
            None => None,
        }
    }

    pub fn to_i128(&self) -> (r: Option<i128>)
        ensures
            r is Some <==> i128::MIN <= self@ <= i128::MAX,
            r matches Some(n) ==> n == self@,
    {
        big_to_i128(self.bytes.as_slice())
    }

    pub fn is_zero(&self) -> (r: bool)
        ensures
            r == (self@ == 0),
    {
        big_is_zero(self.bytes.as_slice())
    }

    pub fn is_negative(&self) -> (r: bool)
        ensures
            r == (self@ < 0),
    {
        big_is_negative(self.bytes.as_slice())
    }

    pub fn equals(&self, other: &Integer) -> (r: bool)
        ensures
            r == (self@ == other@),
    {
        big_equal(self.bytes.as_slice(), other.bytes.as_slice())
    }

    pub fn less(&self, other: &Integer) -> (r: bool)
        ensures
            r == (self@ < other@),
    {
        big_less(self.bytes.as_slice(), other.bytes.as_slice())
    }

    pub fn plus(&self, other: &Integer) -> (r: Integer)
        ensures
            r@ == self@ + other@,
    {
        Integer { bytes: big_add(self.bytes.as_slice(), other.bytes.as_slice()) }
    }

    pub fn minus(&self, other: &Integer) -> (r: Integer)
        ensures
            r@ == self@ - other@,
    {
        Integer { bytes: big_sub(self.bytes.as_slice(), other.bytes.as_slice()) }
    }

    pub fn times(&self, other: &Integer) -> (r: Integer)
        ensures
            r@ == self@ * other@,
    {
        Integer { bytes: big_mul(self.bytes.as_slice(), other.bytes.as_slice()) }
    }

    /// The quotient, rounded toward zero.
    pub fn quotient(&self, other: &Integer) -> (r: Integer)
        requires
            other@ != 0,
        ensures
            r@ == trunc_div(self@, other@),
    {
        Integer { bytes: big_div(self.bytes.as_slice(), other.bytes.as_slice()) }
    }

    /// The remainder, with the sign of the dividend.
    pub fn remainder(&self, other: &Integer) -> (r: Integer)
        requires
            other@ != 0,
        ensures
            r@ == trunc_rem(self@, other@),
    {
        Integer { bytes: big_rem(self.bytes.as_slice(), other.bytes.as_slice()) }
    }

    pub fn negated(&self) -> (r: Integer)
        ensures
            r@ == -self@,
    {
        Integer { bytes: big_neg(self.bytes.as_slice()) }
    }

    /// The absolute value.
    pub fn absolute(&self) -> (r: Integer)
        ensures
            r@ == magnitude(self@),
    {
        Integer { bytes: big_abs(self.bytes.as_slice()) }
    }

    pub fn complement(&self) -> (r: Integer)
        ensures
            r@ == -self@ - 1,
    {
        Integer { bytes: big_not(self.bytes.as_slice()) }
    }

    pub fn bit_or(&self, other: &Integer) -> (r: Integer)
        ensures
            forall|i: nat| #[trigger] bit(r@, i) == (bit(self@, i) || bit(other@, i)),
    {
        Integer { bytes: big_or(self.bytes.as_slice(), other.bytes.as_slice()) }
    }

    pub fn bit_xor(&self, other: &Integer) -> (r: Integer)
        ensures
            forall|i: nat| #[trigger] bit(r@, i) == (bit(self@, i) != bit(other@, i)),
    {
        Integer { bytes: big_xor(self.bytes.as_slice(), other.bytes.as_slice()) }
    }

    pub fn bit_and(&self, other: &Integer) -> (r: Integer)
        ensures
            forall|i: nat| #[trigger] bit(r@, i) == (bit(self@, i) && bit(other@, i)),
    {
        Integer { bytes: big_and(self.bytes.as_slice(), other.bytes.as_slice()) }
    }

    pub fn shift_left(&self, count: usize) -> (r: Integer)
        ensures
            r@ == self@ * pow2(count as nat),
    {
        Integer { bytes: big_shl(self.bytes.as_slice(), count) }
    }

    /// Shifts right, rounding toward negative infinity.
    pub fn shift_right(&self, count: usize) -> (r: Integer)
        ensures
            r@ == self@ / (pow2(count as nat) as int),
    {
        Integer { bytes: big_shr(self.bytes.as_slice(), count) }
    }

    pub fn power(&self, exponent: u32) -> (r: Integer)
        ensures
            r@ == pow(self@, exponent as nat),
    {
        Integer { bytes: big_pow(self.bytes.as_slice(), exponent) }
    }

    /// The number of bits of the magnitude.
    pub fn bits(&self) -> (r: u64)
        ensures
            r == bit_length(magnitude(self@)),
    {
        big_bits(self.bytes.as_slice())
    }

    /// The decimal notation.
    pub fn to_decimal(&self) -> (r: String)
        ensures
            r@ == decimal(self@),
    {
        big_to_decimal(self.bytes.as_slice())
    }

    /// Reads a numeral in base `radix`.
    pub fn parse(text: &str, radix: u32) -> (r: Option<Integer>)
        requires
            2 <= radix <= 36,
        ensures
            r is Some <==> numeral(text@, radix as int) is Some,
            r matches Some(n) ==> numeral(text@, radix as int) == Some(n@),
    {
        match big_parse(text, radix) {
            Some(bytes) => Some(Integer { bytes }),
            None => None,
        }
    }
}

proof fn lemma_digits_value(n: nat)
    ensures
        digits(n).len() > 0,
        digits_value(digits(n), 10) == n,
        all_digits(digits(n), 10),
        '0' <= digits(n)[0] <= '9',
    decreases n,
{
    let text = digits(n);
    let last = (48 + n % 10) as char;
    assert('0' <= last <= '9' && digit_value(last) == Some((n % 10) as nat));
    if n < 10 {
        assert(text.drop_last() =~= Seq::empty());
        assert(text.last() == last);
        assert(digits_value(text.drop_last(), 10) == 0);
    } else {
        lemma_digits_value(n / 10);
        assert(text.drop_last() =~= digits(n / 10));
        assert(text.last() == last);
        assert forall|i: int| 0 <= i < text.len() implies (#[trigger] text[i] == '_' || (
        digit_value(text[i]) matches Some(d) && d < 10)) by {
            if i < text.len() - 1 {
                assert(text[i] == digits(n / 10)[i]);
            }
        }
        assert(text[0] == digits(n / 10)[0]);
    }
}

/// Decimal notation reads back as the integer that it was written for.
pub proof fn decimals_read_back(n: int)
    ensures
        numeral(decimal(n), 10) == Some(n),
{
    let text = decimal(n);
    if n < 0 {
        lemma_digits_value((-n) as nat);
        assert(text.skip(1) =~= digits((-n) as nat));
        assert(text[1] == digits((-n) as nat)[0]);
    } else {
        lemma_digits_value(n as nat);
    }
}

/// `BigInt::from`, an `i128` to the number it is, written out by
/// `BigInt::to_signed_bytes_le`.
#[verifier::external_body]
fn big_from_i128(n: i128) -> (r: Vec<u8>)
    ensures
        signed_le(r@) == n,
{
    BigInt::from(n).to_signed_bytes_le()
}

/// `ToPrimitive::to_i128`: the number itself where an `i128` can hold it, and
/// nothing otherwise.
#[verifier::external_body]
fn big_to_i128(x: &[u8]) -> (r: Option<i128>)
    ensures
        r is Some <==> i128::MIN <= signed_le(x@) <= i128::MAX,
        r matches Some(n) ==> n == signed_le(x@),
{
    BigInt::from_signed_bytes_le(x).to_i128()
}

/// `Zero::is_zero`: whether the number is zero.
#[verifier::external_body]
fn big_is_zero(x: &[u8]) -> (r: bool)
    ensures
        r == (signed_le(x@) == 0),
{
    BigInt::from_signed_bytes_le(x).is_zero()
}

/// `Signed::is_negative`: whether the number is below zero.
#[verifier::external_body]
fn big_is_negative(x: &[u8]) -> (r: bool)
    ensures
        r == (signed_le(x@) < 0),
{
    BigInt::from_signed_bytes_le(x).is_negative()
}

/// `==` on `BigInt`: whether the numbers are the same.
#[verifier::external_body]
fn big_equal(x: &[u8], y: &[u8]) -> (r: bool)
    ensures
        r == (signed_le(x@) == signed_le(y@)),
{
    BigInt::from_signed_bytes_le(x) == BigInt::from_signed_bytes_le(y)
}

/// `<` on `BigInt`: the order of the numbers.
#[verifier::external_body]
fn big_less(x: &[u8], y: &[u8]) -> (r: bool)
    ensures
        r == (signed_le(x@) < signed_le(y@)),
{
    BigInt::from_signed_bytes_le(x) < BigInt::from_signed_bytes_le(y)
}

/// `+` on `BigInt`: the sum.
#[verifier::external_body]
fn big_add(x: &[u8], y: &[u8]) -> (r: Vec<u8>)
    ensures
        signed_le(r@) == signed_le(x@) + signed_le(y@),
{
    (BigInt::from_signed_bytes_le(x) + BigInt::from_signed_bytes_le(y)).to_signed_bytes_le()
}

/// `-` on `BigInt`: the difference.
#[verifier::external_body]
fn big_sub(x: &[u8], y: &[u8]) -> (r: Vec<u8>)
    ensures
        signed_le(r@) == signed_le(x@) - signed_le(y@),
{
    (BigInt::from_signed_bytes_le(x) - BigInt::from_signed_bytes_le(y)).to_signed_bytes_le()
}

/// `*` on `BigInt`: the product.
#[verifier::external_body]
fn big_mul(x: &[u8], y: &[u8]) -> (r: Vec<u8>)
    ensures
        signed_le(r@) == signed_le(x@) * signed_le(y@),
{
    (BigInt::from_signed_bytes_le(x) * BigInt::from_signed_bytes_le(y)).to_signed_bytes_le()
}

/// `/` on `BigInt`: the quotient rounded toward zero; it panics on a zero
/// divisor.
#[verifier::external_body]
fn big_div(x: &[u8], y: &[u8]) -> (r: Vec<u8>)
    requires
        signed_le(y@) != 0,
    ensures
        signed_le(r@) == trunc_div(signed_le(x@), signed_le(y@)),
{
    (BigInt::from_signed_bytes_le(x) / BigInt::from_signed_bytes_le(y)).to_signed_bytes_le()
}

/// `%` on `BigInt`: the remainder with the dividend's sign; it panics on a zero
/// divisor.
#[verifier::external_body]
fn big_rem(x: &[u8], y: &[u8]) -> (r: Vec<u8>)
    requires
        signed_le(y@) != 0,
    ensures
        signed_le(r@) == trunc_rem(signed_le(x@), signed_le(y@)),
{
    (BigInt::from_signed_bytes_le(x) % BigInt::from_signed_bytes_le(y)).to_signed_bytes_le()
}

/// Unary `-` on `BigInt`.
#[verifier::external_body]
fn big_neg(x: &[u8]) -> (r: Vec<u8>)
    ensures
        signed_le(r@) == -signed_le(x@),
{
    (-BigInt::from_signed_bytes_le(x)).to_signed_bytes_le()
}

/// `Signed::abs`: the magnitude.
#[verifier::external_body]
fn big_abs(x: &[u8]) -> (r: Vec<u8>)
    ensures
        signed_le(r@) == magnitude(signed_le(x@)),
{
    BigInt::from_signed_bytes_le(x).abs().to_signed_bytes_le()
}

/// `!` on `BigInt`: in two's complement, one less than the negation.
#[verifier::external_body]
fn big_not(x: &[u8]) -> (r: Vec<u8>)
    ensures
        signed_le(r@) == -signed_le(x@) - 1,
{
    (!BigInt::from_signed_bytes_le(x)).to_signed_bytes_le()
}

/// `|` on `BigInt`, which acts on the two's complement bits.
#[verifier::external_body]
fn big_or(x: &[u8], y: &[u8]) -> (r: Vec<u8>)
    ensures
        forall|i: nat| #[trigger]
            bit(signed_le(r@), i) == (bit(signed_le(x@), i) || bit(signed_le(y@), i)),
{
    (BigInt::from_signed_bytes_le(x) | BigInt::from_signed_bytes_le(y)).to_signed_bytes_le()
}

/// `^` on `BigInt`, which acts on the two's complement bits.
#[verifier::external_body]
fn big_xor(x: &[u8], y: &[u8]) -> (r: Vec<u8>)
    ensures
        forall|i: nat| #[trigger]
            bit(signed_le(r@), i) == (bit(signed_le(x@), i) != bit(signed_le(y@), i)),
{
    (BigInt::from_signed_bytes_le(x) ^ BigInt::from_signed_bytes_le(y)).to_signed_bytes_le()
}

/// `&` on `BigInt`, which acts on the two's complement bits.
#[verifier::external_body]
fn big_and(x: &[u8], y: &[u8]) -> (r: Vec<u8>)
    ensures
        forall|i: nat| #[trigger]
            bit(signed_le(r@), i) == (bit(signed_le(x@), i) && bit(signed_le(y@), i)),
{
    (BigInt::from_signed_bytes_le(x) & BigInt::from_signed_bytes_le(y)).to_signed_bytes_le()
}

/// `<<` on `BigInt`: the product with a power of two.
#[verifier::external_body]
fn big_shl(x: &[u8], count: usize) -> (r: Vec<u8>)
    ensures
        signed_le(r@) == signed_le(x@) * pow2(count as nat),
{
    (BigInt::from_signed_bytes_le(x) << count).to_signed_bytes_le()
}

/// `>>` on `BigInt`: the quotient by a power of two, rounded down.
#[verifier::external_body]
fn big_shr(x: &[u8], count: usize) -> (r: Vec<u8>)
    ensures
        signed_le(r@) == signed_le(x@) / (pow2(count as nat) as int),
{
    (BigInt::from_signed_bytes_le(x) >> count).to_signed_bytes_le()
}

/// `BigInt::pow`.
#[verifier::external_body]
fn big_pow(x: &[u8], exponent: u32) -> (r: Vec<u8>)
    ensures
        signed_le(r@) == pow(signed_le(x@), exponent as nat),
{
    BigInt::from_signed_bytes_le(x).pow(exponent).to_signed_bytes_le()
}

/// `BigInt::bits`: the fewest bits that express the magnitude.
#[verifier::external_body]
fn big_bits(x: &[u8]) -> (r: u64)
    ensures
        r == bit_length(magnitude(signed_le(x@))),
{
    BigInt::from_signed_bytes_le(x).bits()
}

/// `ToString` on `BigInt`: the decimal notation.
#[verifier::external_body]
fn big_to_decimal(x: &[u8]) -> (r: String)
    ensures
        r@ == decimal(signed_le(x@)),
{
    BigInt::from_signed_bytes_le(x).to_string()
}

/// `BigInt::parse_bytes`: reads a signed numeral; it panics on a radix outside
/// 2 to 36.
#[verifier::external_body]
fn big_parse(text: &str, radix: u32) -> (r: Option<Vec<u8>>)
    requires
        2 <= radix <= 36,
    ensures
        r is Some <==> numeral(text@, radix as int) is Some,
        r matches Some(bytes) ==> numeral(text@, radix as int) == Some(signed_le(bytes@)),
{
    BigInt::parse_bytes(text.as_bytes(), radix).map(|n| n.to_signed_bytes_le())
}

} // verus!
