//! Correctly rounded integer ratio to binary64, without first rounding each
//! (possibly enormous) operand. Quotient and remainder decide ties to even.
use vstd::arithmetic::power2::{
    lemma2_to64, lemma2_to64_rest, lemma_pow2_adds, lemma_pow2_pos, lemma_pow2_strictly_increases,
    lemma_pow2_unfold, pow2,
};
use vstd::prelude::*;
use crate::diagnostic::{fault, outcome, Diagnostic, Fault, Result};
use crate::float::{
    is_finite, lemma_packed, negative, packed, units, unsigned, EXPONENT_UNIT, INFINITE, SIGN_UNIT,
};
use crate::integer::{bit_length, magnitude, Integer};

verus! {

/// The integer nearest to `n / d`; of two equally near ones the even one.
pub open spec fn half_even(n: int, d: int) -> int {
    let q = n / d;
    let r = n % d;
    if 2 * r > d || (2 * r == d && q % 2 == 1) {
        q + 1
    } else {
        q
    }
}

/// Whether `x / y` is at least two to the power of `e` and less than twice
/// that.
pub open spec fn in_binade(x: int, y: int, e: int) -> bool {
    if e >= 0 {
        y * pow2(e as nat) <= x < y * pow2((e + 1) as nat)
    } else {
        y <= x * pow2((-e) as nat) < 2 * y
    }
}

/// The power of two of the last place of a number in a binade, in least
/// positive numbers.
pub open spec fn last_place(e: int) -> int {
    if e < -1022 {
        0
    } else {
        e + 1022
    }
}

/// The count of last places nearest to `x / y` in a binade.
pub open spec fn rounded(x: int, y: int, e: int) -> int {
    let shift = 1074 - last_place(e);
    if shift >= 0 {
        half_even(x * pow2(shift as nat), y)
    } else {
        half_even(x, y * pow2((-shift) as nat))
    }
}

/// What division says of a result beyond the greatest number.
pub open spec fn too_large() -> Fault {
    fault("OverflowError", "integer division result too large for float")
}

/// Whether a result is the binary64 number nearest to `x / y`, ties to even:
/// its sign is that of the quotient, zero included, and its value is the
/// nearest multiple of the last place of the quotient's binade. A quotient
/// that rounds beyond the greatest number overflows.
pub open spec fn is_ratio(x: int, y: int, result: core::result::Result<u64, Fault>) -> bool {
    if y == 0 {
        result == Err::<u64, Fault>(fault("ZeroDivisionError", "division by zero"))
    } else if x == 0 {
        result matches Ok(bits) && unsigned(bits) == 0 && negative(bits) == (y < 0)
    } else {
        exists|e: int| #[trigger]
            in_binade(magnitude(x) as int, magnitude(y) as int, e) && {
                let count = rounded(magnitude(x) as int, magnitude(y) as int, e);
                if e > 1023 || packed(count, last_place(e)) >= INFINITE {
                    result == Err::<u64, Fault>(too_large())
                } else {
                    result matches Ok(bits) && is_finite(bits) && negative(bits) == ((x < 0) != (y
                        < 0)) && units(bits) == count * pow2(last_place(e) as nat)
                }
            }
    }
}

/// A magnitude lies between the powers of two of its bit length.
pub proof fn lemma_bit_length(n: nat)
    requires
        n > 0,
    ensures
        bit_length(n) > 0,
        pow2((bit_length(n) - 1) as nat) <= n,
        n < pow2(bit_length(n)),
    decreases n,
{
    lemma2_to64();
    if n == 1 {
        assert(bit_length(0) == 0);
        assert(bit_length(1) == 1);
    } else {
        lemma_bit_length(n / 2);
        let b = bit_length(n / 2);
        lemma_pow2_unfold(b);
        lemma_pow2_unfold((b + 1) as nat);
    }
}

/// The binade of a quotient, from the bit lengths of its terms.
proof fn lemma_binade(x: int, y: int, e: int)
    requires
        x > 0,
        y > 0,
        e == bit_length(x as nat) - bit_length(y as nat),
    ensures
        e >= 0 ==> y * pow2(e as nat) < 2 * x && x < y * pow2((e + 1) as nat) && pow2((e + 1) as nat)
            == 2 * pow2(e as nat),
        e < 0 ==> x * pow2((-e) as nat) < 2 * y && y < x * pow2((1 - e) as nat) && pow2(
            (1 - e) as nat,
        ) == 2 * pow2((-e) as nat),
{
    let bx = bit_length(x as nat);
    let by = bit_length(y as nat);
    lemma_bit_length(x as nat);
    lemma_bit_length(y as nat);
    let (px, qx) = (pow2(bx) as int, pow2((bx - 1) as nat) as int);
    let (py, qy) = (pow2(by) as int, pow2((by - 1) as nat) as int);
    lemma_pow2_unfold(bx);
    lemma_pow2_unfold(by);
    if e >= 0 {
        let p = pow2(e as nat) as int;
        lemma_pow2_pos(e as nat);
        lemma_pow2_unfold((e + 1) as nat);
        lemma_pow2_adds(e as nat, by);
        assert(e + by == bx);
        assert(y * p < py * p) by (nonlinear_arith)
            requires
                y < py,
                p > 0,
        ;
        assert(py * p == px) by (nonlinear_arith)
            requires
                px == p * py,
        ;
        assert(qy * (2 * p) <= y * (2 * p)) by (nonlinear_arith)
            requires
                qy <= y,
                p > 0,
        ;
        assert(qy * (2 * p) == px) by (nonlinear_arith)
            requires
                py == 2 * qy,
                py * p == px,
        ;
    } else {
        let s = -e;
        let p = pow2(s as nat) as int;
        lemma_pow2_pos(s as nat);
        lemma_pow2_unfold((s + 1) as nat);
        lemma_pow2_adds(s as nat, bx);
        assert(s + bx == by);
        assert(x * p < px * p) by (nonlinear_arith)
            requires
                x < px,
                p > 0,
        ;
        assert(px * p == py) by (nonlinear_arith)
            requires
                py == p * px,
        ;
        assert(qx * (2 * p) <= x * (2 * p)) by (nonlinear_arith)
            requires
                qx <= x,
                p > 0,
        ;
        assert(qx * (2 * p) == py) by (nonlinear_arith)
            requires
                px == 2 * qx,
                px * p == py,
        ;
    }
}

/// In its binade a quotient fills its last places.
proof fn lemma_filled(x: int, y: int, e: int, n: int, d: int)
    requires
        x > 0,
        y > 0,
        in_binade(x, y, e),
        -1075 <= e <= 1023,
        ({
            let shift = 1074 - last_place(e);
            if shift >= 0 {
                n == x * pow2(shift as nat) && d == y
            } else {
                n == x && d == y * pow2((-shift) as nat)
            }
        }),
    ensures
        d > 0,
        n >= 0,
        e >= -1022 ==> d * EXPONENT_UNIT <= n < d * (2 * EXPONENT_UNIT),
        e < -1022 ==> n < d * EXPONENT_UNIT,
{
    lemma2_to64();
    lemma2_to64_rest();
    let unit = EXPONENT_UNIT as int;
    assert(pow2(52) == unit);
    let shift = 1074 - last_place(e);
    if shift >= 0 {
        let p = pow2(shift as nat) as int;
        lemma_pow2_pos(shift as nat);
        assert(x * p >= 0) by (nonlinear_arith)
            requires
                x > 0,
                p > 0,
        ;
        if e >= 0 {
            let q = pow2(e as nat) as int;
            lemma_pow2_adds(e as nat, shift as nat);
            lemma_pow2_unfold((e + 1) as nat);
            assert(e + shift == 52);
            assert(y * unit <= x * p && x * p < y * (2 * unit)) by (nonlinear_arith)
                requires
                    y * q <= x,
                    x < y * (2 * q),
                    q * p == unit,
                    p > 0,
            ;
        } else if e >= -1022 {
            let s = -e;
            let q = pow2(s as nat) as int;
            lemma_pow2_adds(s as nat, 52);
            assert(s + 52 == shift);
            assert(y * unit <= x * p && x * p < y * (2 * unit)) by (nonlinear_arith)
                requires
                    y <= x * q,
                    x * q < 2 * y,
                    q * unit == p,
                    unit > 0,
            ;
        } else {
            let s = -e;
            let q = pow2(s as nat) as int;
            assert(shift == 1074);
            if s <= 1074 {
                let rest = (1074 - s) as nat;
                lemma_pow2_adds(s as nat, rest);
                lemma_pow2_pos(rest);
                if rest < 51 {
                    lemma_pow2_strictly_increases(rest, 51);
                }
                let r = pow2(rest) as int;
                assert(pow2(51) == 0x8_0000_0000_0000);
                assert(x * p < y * unit) by (nonlinear_arith)
                    requires
                        x * q < 2 * y,
                        q * r == p,
                        0 < r <= 0x8_0000_0000_0000,
                        unit == 0x10_0000_0000_0000,
                        y > 0,
                ;
            } else {
                lemma_pow2_unfold(1075);
                assert(q == 2 * p);
                assert(x * p < y * unit) by (nonlinear_arith)
                    requires
                        x * (2 * p) < 2 * y,
                        unit >= 1,
                        y > 0,
                ;
            }
        }
    } else {
        let t = (-shift) as nat;
        let p = pow2(t) as int;
        let q = pow2(e as nat) as int;
        lemma_pow2_pos(t);
        lemma_pow2_adds(t, 52);
        lemma_pow2_unfold((e + 1) as nat);
        assert(t + 52 == e);
        assert(y * p > 0 && (y * p) * unit <= x && x < (y * p) * (2 * unit)) by (nonlinear_arith)
            requires
                y * q <= x,
                x < y * (2 * q),
                p * unit == q,
                y > 0,
                p > 0,
        ;
    }
}

/// The quotient of what fills its last places fits its pattern.
proof fn lemma_quotient_bounds(n: int, d: int, unit: int)
    requires
        d > 0,
        n >= 0,
        unit > 0,
    ensures
        0 <= n / d,
        n < d * unit ==> n / d < unit,
        d * unit <= n ==> unit <= n / d,
{
    vstd::arithmetic::div_mod::lemma_fundamental_div_mod(n, d);
    vstd::arithmetic::div_mod::lemma_div_pos_is_pos(n, d);
    let q = n / d;
    let r = n % d;
    if n < d * unit {
        assert(q < unit) by (nonlinear_arith)
            requires
                n == d * q + r,
                0 <= r,
                n < d * unit,
                d > 0,
        ;
    }
    if d * unit <= n {
        assert(unit <= q) by (nonlinear_arith)
            requires
                n == d * q + r,
                r < d,
                d * unit <= n,
                d > 0,
        ;
    }
}

fn overflow() -> (r: Diagnostic)
    ensures
        r@ == too_large(),
{
    Diagnostic::new("OverflowError", "integer division result too large for float")
}

fn with_sign(bits: u64, below: bool) -> (r: u64)
    requires
        bits < SIGN_UNIT,
    ensures
        unsigned(r) == bits,
        negative(r) == below,
{
    if below {
        bits + SIGN_UNIT
    } else {
        bits
    }
}

/// The estimate from bit lengths, or one less, is the binade.
proof fn lemma_adjusted(x: int, y: int, e: int)
    requires
        x > 0,
        y > 0,
        e == bit_length(x as nat) - bit_length(y as nat),
    ensures
        e >= 0 && x < y * pow2(e as nat) ==> in_binade(x, y, e - 1),
        e >= 0 && x >= y * pow2(e as nat) ==> in_binade(x, y, e),
        e < 0 && x * pow2((-e) as nat) < y ==> in_binade(x, y, e - 1),
        e < 0 && x * pow2((-e) as nat) >= y ==> in_binade(x, y, e),
{
    lemma_binade(x, y, e);
    if e >= 0 && x < y * pow2(e as nat) {
        if e == 0 {
            lemma2_to64();
            assert(y * pow2(0) == y) by (nonlinear_arith)
                requires
                    pow2(0) == 1,
            ;
            assert(x * pow2(1) == 2 * x) by (nonlinear_arith)
                requires
                    pow2(1) == 2,
            ;
        } else {
            lemma_pow2_unfold(e as nat);
            let p = pow2((e - 1) as nat) as int;
            assert(y * p <= x) by (nonlinear_arith)
                requires
                    y * (2 * p) < 2 * x,
            ;
        }
    }
    if e < 0 && x * pow2((-e) as nat) < y {
        let p = pow2((-e) as nat) as int;
        assert(x * (2 * p) < 2 * y) by (nonlinear_arith)
            requires
                x * p < y,
        ;
        assert((-(e - 1)) as nat == (1 - e) as nat);
    }
}

/// The binade of a quotient, given the difference of its terms' bit lengths.
fn binade(x: &Integer, y: &Integer, estimate: i128) -> (e: i128)
    requires
        x@ > 0,
        y@ > 0,
        estimate == bit_length(x@ as nat) - bit_length(y@ as nat),
        -1077 <= estimate <= 1025,
    ensures
        in_binade(x@, y@, e as int),
        estimate - 1 <= e <= estimate,
{
    proof {
        lemma_adjusted(x@, y@, estimate as int);
    }
    if estimate >= 0 {
        if x.less(&y.shift_left(estimate as usize)) {
            estimate - 1
        } else {
            estimate
        }
    } else if x.shift_left((-estimate) as usize).less(y) {
        estimate - 1
    } else {
        estimate
    }
}

/// The count of last places nearest to a quotient in its binade.
fn count_places(x: &Integer, y: &Integer, e: i128) -> (count: u64)
    requires
        x@ > 0,
        y@ > 0,
        in_binade(x@, y@, e as int),
        -1075 <= e <= 1023,
    ensures
        count == rounded(x@, y@, e as int),
        count <= 2 * EXPONENT_UNIT,
        e >= -1022 ==> count >= EXPONENT_UNIT,
{
    let shift: i128 = if e < -1022 {
        1074
    } else {
        52 - e
    };
    let numerator = if shift >= 0 {
        x.shift_left(shift as usize)
    } else {
        x.copy()
    };
    let denominator = if shift >= 0 {
        y.copy()
    } else {
        y.shift_left((-shift) as usize)
    };
    proof {
        lemma_filled(x@, y@, e as int, numerator@, denominator@);
        lemma_quotient_bounds(numerator@, denominator@, EXPONENT_UNIT as int);
        lemma_quotient_bounds(numerator@, denominator@, 2 * EXPONENT_UNIT as int);
    }
    let quotient = numerator.quotient(&denominator);
    let rest = numerator.remainder(&denominator);
    assert(quotient@ == numerator@ / denominator@);
    assert(rest@ == numerator@ % denominator@);
    let twice = rest.plus(&rest);
    let floor: u64 = quotient.to_i64().unwrap() as u64;
    if denominator.less(&twice) || (twice.equals(&denominator) && floor % 2 == 1) {
        floor + 1
    } else {
        floor
    }
}

/// The binary64 number nearest to `x / y`.
pub fn ratio(x: &Integer, y: &Integer) -> (r: Result<u64>)
    ensures
        is_ratio(x@, y@, outcome(r)),
{
    if y.is_zero() {
        return Err(Diagnostic::new("ZeroDivisionError", "division by zero"));
    }
    let below = x.is_negative() != y.is_negative();
    if x.is_zero() {
        return Ok(with_sign(0, below));
    }
    let x_abs = x.absolute();
    let y_abs = y.absolute();
    let ghost (m, n) = (x_abs@, y_abs@);
    let estimate: i128 = x_abs.bits() as i128 - y_abs.bits() as i128;
    proof {
        lemma_binade(m, n, estimate as int);
    }
    if estimate > 1025 {
        proof {
            lemma_far(m, n, estimate as int);
        }
        return Err(overflow());
    }
    if estimate < -1077 {
        proof {
            lemma_tiny(m, n, estimate as int);
        }
        return Ok(with_sign(0, below));
    }
    let exponent = binade(&x_abs, &y_abs, estimate);
    let ghost e = exponent as int;
    if exponent > 1023 {
        return Err(overflow());
    }
    if exponent < -1075 {
        proof {
            lemma_vanishes(m, n, e);
        }
        return Ok(with_sign(0, below));
    }
    let count = count_places(&x_abs, &y_abs, exponent);
    let scale: u64 = if exponent < -1022 {
        0
    } else {
        (exponent + 1022) as u64
    };
    assert(scale * EXPONENT_UNIT + count <= 2045 * EXPONENT_UNIT + 2 * EXPONENT_UNIT)
        by (nonlinear_arith)
        requires
            scale <= 2045,
            count <= 2 * EXPONENT_UNIT,
            EXPONENT_UNIT == 0x10_0000_0000_0000,
    ;
    assert(scale * EXPONENT_UNIT >= 0) by (nonlinear_arith)
        requires
            scale >= 0,
            EXPONENT_UNIT >= 0,
    ;
    let bits = scale * EXPONENT_UNIT + count;
    if bits >= INFINITE {
        return Err(overflow());
    }
    proof {
        lemma_packed(count as int, scale as int);
    }
    let signed = with_sign(bits, below);
    assert(units(signed) == units(bits));
    Ok(signed)
}

/// A quotient of far longer terms is in a far binade.
proof fn lemma_far(x: int, y: int, e: int)
    requires
        x > 0,
        y > 0,
        e > 1025,
        y * pow2(e as nat) < 2 * x,
        x < y * pow2((e + 1) as nat),
    ensures
        exists|b: int| b > 1023 && #[trigger] in_binade(x, y, b),
{
    lemma_pow2_unfold(e as nat);
    if y * pow2(e as nat) <= x {
        assert(in_binade(x, y, e));
    } else {
        let p = pow2((e - 1) as nat) as int;
        assert(y * p <= x) by (nonlinear_arith)
            requires
                y * (2 * p) < 2 * x,
        ;
        assert(in_binade(x, y, e - 1));
    }
}

/// A quotient of far shorter terms rounds to nothing.
proof fn lemma_tiny(x: int, y: int, e: int)
    requires
        x > 0,
        y > 0,
        e < -1077,
        x * pow2((-e) as nat) < 2 * y,
        y < x * pow2((1 - e) as nat),
    ensures
        exists|b: int| #[trigger]
            in_binade(x, y, b) && rounded(x, y, b) == 0 && last_place(b) == 0 && b <= 1023
                && packed(0, 0) < INFINITE,
        units(0) == 0,
        units(SIGN_UNIT) == 0,
{
    lemma_pow2_unfold((1 - e) as nat);
    if y <= x * pow2((-e) as nat) {
        assert(in_binade(x, y, e));
        lemma_vanishes(x, y, e);
    } else {
        let p = pow2((-e) as nat) as int;
        assert(x * (2 * p) < 2 * y) by (nonlinear_arith)
            requires
                x * p < y,
        ;
        assert(in_binade(x, y, e - 1)) by {
            assert((-(e - 1)) as nat == (1 - e) as nat);
        }
        lemma_vanishes(x, y, e - 1);
    }
}

/// A quotient below half the least positive number rounds to nothing.
proof fn lemma_vanishes(x: int, y: int, e: int)
    requires
        x > 0,
        y > 0,
        e < -1075,
        in_binade(x, y, e),
    ensures
        rounded(x, y, e) == 0,
        last_place(e) == 0,
        units(0) == 0,
        units(SIGN_UNIT) == 0,
        0 * pow2(0) == 0,
{
    let s = -e;
    let p = pow2(1074) as int;
    let q = pow2(s as nat) as int;
    lemma_pow2_pos(1074);
    let rest = (s - 1074) as nat;
    lemma_pow2_adds(1074, rest);
    lemma2_to64();
    if rest > 2 {
        lemma_pow2_strictly_increases(2, rest);
    }
    let r = pow2(rest) as int;
    assert(4 <= r);
    assert(2 * (x * p) < y) by (nonlinear_arith)
        requires
            x * q < 2 * y,
            q == p * r,
            4 <= r,
            x > 0,
            p > 0,
    ;
    let n = x * p;
    assert(n > 0) by (nonlinear_arith)
        requires
            n == x * p,
            x > 0,
            p > 0,
    ;
    vstd::arithmetic::div_mod::lemma_basic_div(n, y);
    vstd::arithmetic::div_mod::lemma_small_mod(n as nat, y as nat);
}

} // verus!
