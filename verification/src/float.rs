//! Binary64 numbers as their bit patterns.
//!
//! A finite pattern stands for a multiple of the least positive one, so its
//! value is exact as an integer count of that unit.
use vstd::arithmetic::power2::{
    lemma2_to64, lemma_pow2_adds, lemma_pow2_pos, lemma_pow2_strictly_increases, lemma_pow2_unfold,
    pow2,
};
use vstd::prelude::*;
use crate::integer::{magnitude, trunc_div, Integer};

verus! {

/// The weight of the exponent field.
pub const EXPONENT_UNIT: u64 = 0x10_0000_0000_0000;

/// The weight of the sign.
pub const SIGN_UNIT: u64 = 0x8000_0000_0000_0000;

/// The pattern of positive infinity; patterns above it, up to the sign, are
/// no numbers.
pub const INFINITE: u64 = 0x7ff0_0000_0000_0000;

/// Whether the sign bit is set.
pub open spec fn negative(bits: u64) -> bool {
    bits >= SIGN_UNIT
}

/// The pattern without its sign.
pub open spec fn unsigned(bits: u64) -> u64 {
    if negative(bits) {
        (bits - SIGN_UNIT) as u64
    } else {
        bits
    }
}

/// The pattern of the other sign.
pub open spec fn opposite(bits: u64) -> u64 {
    if negative(bits) {
        (bits - SIGN_UNIT) as u64
    } else {
        (bits + SIGN_UNIT) as u64
    }
}

pub open spec fn is_nan(bits: u64) -> bool {
    unsigned(bits) > INFINITE
}

pub open spec fn is_infinite(bits: u64) -> bool {
    unsigned(bits) == INFINITE
}

pub open spec fn is_finite(bits: u64) -> bool {
    unsigned(bits) < INFINITE
}

/// How often the least positive number goes into the magnitude.
pub open spec fn units(bits: u64) -> nat {
    let exponent = unsigned(bits) / EXPONENT_UNIT;
    let fraction = unsigned(bits) % EXPONENT_UNIT;
    if exponent == 0 {
        fraction as nat
    } else {
        ((fraction + EXPONENT_UNIT) as nat) * pow2((exponent - 1) as nat)
    }
}

/// The value of a finite number, counted in the least positive number.
pub open spec fn fixed(bits: u64) -> int {
    if negative(bits) {
        -(units(bits) as int)
    } else {
        units(bits) as int
    }
}

/// The number one, counted in the least positive number.
pub open spec fn one() -> int {
    pow2(1074) as int
}

/// Whether a number is an integer.
pub open spec fn is_integral(bits: u64) -> bool {
    is_finite(bits) && fixed(bits) % one() == 0
}

/// The integer part of a finite number, rounded toward zero.
pub open spec fn whole(bits: u64) -> int {
    trunc_div(fixed(bits), one())
}

/// How two numbers compare.
#[derive(Clone, Copy, Debug, PartialEq, Eq, Structural)]
pub enum Relation {
    Less,
    Equal,
    Greater,
    Unordered,
}

impl Relation {
    pub open spec fn flipped(self) -> Relation {
        match self {
            Relation::Less => Relation::Greater,
            Relation::Greater => Relation::Less,
            other => other,
        }
    }

    /// The relation seen from the other side.
    pub fn flip(self) -> (r: Relation)
        ensures
            r == self.flipped(),
    {
        match self {
            Relation::Less => Relation::Greater,
            Relation::Greater => Relation::Less,
            Relation::Equal => Relation::Equal,
            Relation::Unordered => Relation::Unordered,
        }
    }
}

/// How two integers compare.
pub open spec fn relation_of(x: int, y: int) -> Relation {
    if x < y {
        Relation::Less
    } else if x == y {
        Relation::Equal
    } else {
        Relation::Greater
    }
}

/// How a number compares with an integer count of the least positive number.
pub open spec fn relation_to_fixed(bits: u64, n: int) -> Relation {
    if is_nan(bits) {
        Relation::Unordered
    } else if is_infinite(bits) {
        if negative(bits) {
            Relation::Less
        } else {
            Relation::Greater
        }
    } else {
        relation_of(fixed(bits), n)
    }
}

/// How two numbers compare: infinities are beyond all finite numbers, zeros of
/// either sign are one number, and what is no number compares with nothing.
pub open spec fn float_relation(x: u64, y: u64) -> Relation {
    if is_nan(x) || is_nan(y) {
        Relation::Unordered
    } else if is_infinite(x) && is_infinite(y) {
        if negative(x) == negative(y) {
            Relation::Equal
        } else if negative(x) {
            Relation::Less
        } else {
            Relation::Greater
        }
    } else if is_infinite(y) {
        if negative(y) {
            Relation::Greater
        } else {
            Relation::Less
        }
    } else {
        relation_to_fixed(x, fixed(y))
    }
}

/// How an integer compares with a number.
pub open spec fn integer_relation(n: int, bits: u64) -> Relation {
    relation_to_fixed(bits, n * one()).flipped()
}

/// The pattern without its sign.
pub fn without_sign(bits: u64) -> (r: u64)
    ensures
        r == unsigned(bits),
        r < SIGN_UNIT,
{
    if bits >= SIGN_UNIT {
        bits - SIGN_UNIT
    } else {
        bits
    }
}

pub fn nan(bits: u64) -> (r: bool)
    ensures
        r == is_nan(bits),
{
    without_sign(bits) > INFINITE
}

pub fn infinite(bits: u64) -> (r: bool)
    ensures
        r == is_infinite(bits),
{
    without_sign(bits) == INFINITE
}

pub fn finite(bits: u64) -> (r: bool)
    ensures
        r == is_finite(bits),
{
    without_sign(bits) < INFINITE
}

pub fn zero(bits: u64) -> (r: bool)
    ensures
        r == (is_finite(bits) && fixed(bits) == 0),
{
    let magnitude = without_sign(bits);
    proof {
        lemma_units_zero(bits);
    }
    magnitude == 0
}

proof fn lemma_units_zero(bits: u64)
    ensures
        units(bits) == 0 <==> unsigned(bits) == 0,
{
    let exponent = unsigned(bits) / EXPONENT_UNIT;
    let fraction = unsigned(bits) % EXPONENT_UNIT;
    if exponent != 0 {
        lemma_pow2_pos((exponent - 1) as nat);
        assert(((fraction + EXPONENT_UNIT) as nat) * pow2((exponent - 1) as nat) > 0)
            by (nonlinear_arith)
            requires
                pow2((exponent - 1) as nat) > 0,
                fraction + EXPONENT_UNIT > 0,
        ;
    }
}

/// Whether a number is less than zero.
pub fn below_zero(bits: u64) -> (r: bool)
    ensures
        r == (float_relation(bits, 0) == Relation::Less),
{
    let magnitude = without_sign(bits);
    proof {
        lemma_units_zero(bits);
        lemma_units_zero(0);
    }
    bits >= SIGN_UNIT && magnitude != 0 && magnitude <= INFINITE
}

/// The number with the other sign.
pub fn negated(bits: u64) -> (r: u64)
    ensures
        r == opposite(bits),
        unsigned(r) == unsigned(bits),
        negative(r) == !negative(bits),
        is_finite(bits) ==> fixed(r) == -fixed(bits),
{
    if bits >= SIGN_UNIT {
        bits - SIGN_UNIT
    } else {
        bits + SIGN_UNIT
    }
}

/// The value of a finite number, counted in the least positive number.
pub fn to_fixed(bits: u64) -> (r: Integer)
    requires
        is_finite(bits),
    ensures
        r@ == fixed(bits),
{
    let magnitude = without_sign(bits);
    let exponent = magnitude / EXPONENT_UNIT;
    let fraction = magnitude % EXPONENT_UNIT;
    let count = if exponent == 0 {
        Integer::from_i64(fraction as i64)
    } else {
        assert(exponent < 2047) by (nonlinear_arith)
            requires
                exponent == magnitude / 0x10_0000_0000_0000,
                magnitude < 0x7ff0_0000_0000_0000,
        ;
        Integer::from_i64((fraction + EXPONENT_UNIT) as i64).shift_left((exponent - 1) as usize)
    };
    if bits >= SIGN_UNIT {
        count.negated()
    } else {
        count
    }
}

/// The number one, counted in the least positive number.
pub fn fixed_one() -> (r: Integer)
    ensures
        r@ == one(),
        r@ > 0,
{
    proof {
        lemma_pow2_pos(1074);
    }
    Integer::from_i64(1).shift_left(1074)
}

proof fn lemma_negated_multiple(n: int, d: int)
    requires
        d > 0,
        n % d == 0,
    ensures
        (-n) % d == 0,
{
    vstd::arithmetic::div_mod::lemma_fundamental_div_mod(n, d);
    let q = n / d;
    assert(-n == (-q) * d) by (nonlinear_arith)
        requires
            n == d * q,
    ;
    vstd::arithmetic::div_mod::lemma_mod_multiples_basic(-q, d);
}

/// Whether a number is an integer.
pub fn integral(bits: u64) -> (r: bool)
    ensures
        r == is_integral(bits),
{
    if !finite(bits) {
        return false;
    }
    let value = to_fixed(bits);
    let unit = fixed_one();
    let rest = value.remainder(&unit);
    proof {
        let (n, d) = (value@, unit@);
        let m = magnitude(n) as int;
        assert((n % d == 0) == (m % d == 0)) by {
            if n < 0 {
                if m % d == 0 {
                    lemma_negated_multiple(m, d);
                }
                if n % d == 0 {
                    lemma_negated_multiple(n, d);
                }
            }
        }
    }
    rest.is_zero()
}

/// The integer part of a finite number, rounded toward zero.
pub fn truncated(bits: u64) -> (r: Integer)
    requires
        is_finite(bits),
    ensures
        r@ == whole(bits),
{
    to_fixed(bits).quotient(&fixed_one())
}

/// How two integers compare.
pub fn relate(x: &Integer, y: &Integer) -> (r: Relation)
    ensures
        r == relation_of(x@, y@),
{
    if x.less(y) {
        Relation::Less
    } else if x.equals(y) {
        Relation::Equal
    } else {
        Relation::Greater
    }
}

fn relate_to_fixed(bits: u64, n: &Integer) -> (r: Relation)
    ensures
        r == relation_to_fixed(bits, n@),
{
    if nan(bits) {
        Relation::Unordered
    } else if infinite(bits) {
        if bits >= SIGN_UNIT {
            Relation::Less
        } else {
            Relation::Greater
        }
    } else {
        relate(&to_fixed(bits), n)
    }
}

/// How two numbers compare.
pub fn relate_floats(x: u64, y: u64) -> (r: Relation)
    ensures
        r == float_relation(x, y),
{
    if nan(x) || nan(y) {
        Relation::Unordered
    } else if infinite(y) {
        let below = y >= SIGN_UNIT;
        if infinite(x) && (x >= SIGN_UNIT) == below {
            Relation::Equal
        } else if below {
            Relation::Greater
        } else {
            Relation::Less
        }
    } else {
        relate_to_fixed(x, &to_fixed(y))
    }
}

/// How an integer compares with a number.
pub fn relate_integer(n: &Integer, bits: u64) -> (r: Relation)
    ensures
        r == integer_relation(n@, bits),
{
    relate_to_fixed(bits, &n.times(&fixed_one())).flip()
}

/// The pattern of `count` times a power of two of least positive numbers.
pub open spec fn packed(count: int, scale: int) -> int {
    scale * EXPONENT_UNIT + count
}

/// A pattern packed from a count that fills its place has that value.
pub proof fn lemma_packed(count: int, scale: int)
    requires
        0 <= scale <= 2045,
        0 <= count <= 2 * EXPONENT_UNIT,
        scale == 0 || count >= EXPONENT_UNIT,
        packed(count, scale) < INFINITE,
    ensures
        0 <= packed(count, scale) < INFINITE,
        units(packed(count, scale) as u64) == count * pow2(scale as nat),
        !negative(packed(count, scale) as u64),
{
    let bits = packed(count, scale) as u64;
    let unit = EXPONENT_UNIT as int;
    lemma2_to64();
    lemma_pow2_adds(scale as nat, 1);
    if count < unit {
        assert(bits / EXPONENT_UNIT == 0);
    } else if count < 2 * unit {
        assert(bits as int == (scale + 1) * unit + (count - unit)) by (nonlinear_arith)
            requires
                bits as int == scale * unit + count,
        ;
        assert(bits as int / unit == scale + 1 && bits as int % unit == count - unit)
            by (nonlinear_arith)
            requires
                bits as int == (scale + 1) * unit + (count - unit),
                0 <= count - unit < unit,
        ;
    } else {
        assert(bits as int == (scale + 2) * unit) by (nonlinear_arith)
            requires
                bits as int == scale * unit + count,
                count == 2 * unit,
        ;
        assert(bits as int / unit == scale + 2 && bits as int % unit == 0) by (nonlinear_arith)
            requires
                bits as int == (scale + 2) * unit,
                unit > 0,
        ;
        let p = pow2(scale as nat) as int;
        assert(pow2((scale + 1) as nat) == 2 * p);
        assert(unit * (2 * p) == count * p) by (nonlinear_arith)
            requires
                count == 2 * unit,
        ;
    }
}

/// A greater pattern, up to the sign, is a greater magnitude.
pub proof fn magnitudes_follow_patterns(x: u64, y: u64)
    requires
        unsigned(x) < unsigned(y) < INFINITE,
    ensures
        units(x) < units(y),
{
    let (a, b) = (unsigned(x) as int, unsigned(y) as int);
    let unit = EXPONENT_UNIT as int;
    let (ea, fa) = (a / unit, a % unit);
    let (eb, fb) = (b / unit, b % unit);
    assert(a == ea * unit + fa && b == eb * unit + fb) by {
        vstd::arithmetic::div_mod::lemma_fundamental_div_mod(a, unit);
        vstd::arithmetic::div_mod::lemma_fundamental_div_mod(b, unit);
    }
    assert(0 <= fa < unit && 0 <= fb < unit);
    assert(ea <= eb) by (nonlinear_arith)
        requires
            a < b,
            a == ea * unit + fa,
            b == eb * unit + fb,
            0 <= fa < unit,
            0 <= fb < unit,
    ;
    assert(ea >= 0) by (nonlinear_arith)
        requires
            a >= 0,
            a == ea * unit + fa,
            fa < unit,
            unit > 0,
    ;
    if ea == eb {
        assert(fa < fb);
        if ea > 0 {
            lemma_pow2_pos((ea - 1) as nat);
            let scale = pow2((ea - 1) as nat) as int;
            assert((fa + unit) * scale < (fb + unit) * scale) by (nonlinear_arith)
                requires
                    fa < fb,
                    scale > 0,
            ;
        }
    } else if ea == 0 {
        lemma_pow2_pos((eb - 1) as nat);
        let scale = pow2((eb - 1) as nat) as int;
        assert((fb + unit) * scale >= unit) by (nonlinear_arith)
            requires
                fb >= 0,
                unit > 0,
                scale >= 1,
        ;
    } else {
        let low = pow2((ea - 1) as nat) as int;
        let high = pow2((eb - 1) as nat) as int;
        lemma_pow2_pos((ea - 1) as nat);
        lemma_pow2_unfold(ea as nat);
        assert(pow2(ea as nat) == 2 * low);
        if ea < eb - 1 {
            lemma_pow2_strictly_increases(ea as nat, (eb - 1) as nat);
        }
        assert(2 * low <= high);
        assert((fa + unit) * low < (fb + unit) * high) by (nonlinear_arith)
            requires
                fa < unit,
                fb >= 0,
                unit > 0,
                low > 0,
                2 * low <= high,
        ;
    }
}

/// Finite numbers of one value, other than zeros, have one pattern.
pub proof fn values_have_one_pattern(x: u64, y: u64)
    requires
        is_finite(x),
        is_finite(y),
        fixed(x) == fixed(y),
        fixed(x) != 0,
    ensures
        x == y,
{
    if unsigned(x) < unsigned(y) {
        magnitudes_follow_patterns(x, y);
    }
    if unsigned(y) < unsigned(x) {
        magnitudes_follow_patterns(y, x);
    }
}

} // verus!
