//! How division of integers is rounded.
use vstd::arithmetic::power2::{lemma_pow2_adds, lemma_pow2_pos, pow2};
use vstd::prelude::*;
use crate::diagnostic::Result;
use crate::float::{fixed, is_finite, negative, one};
use crate::integer::Integer;
use crate::number::{half_even, in_binade, last_place, ratio, rounded};

verus! {

/// Whether a number, counted in the least positive one, is the nearest to a
/// quotient of those that keep to a last place: at most half of it away, and
/// with an even count where it is exactly half; the last place is no coarser
/// than binary64 numbers need.
pub open spec fn is_nearest_quotient(value: int, x: int, y: int, count: int, place: nat) -> bool {
    let unit = pow2(place) as int;
    let off = 2 * (value * y - x * one());
    &&& value == count * unit
    &&& -(unit * y) <= off <= unit * y
    &&& off == unit * y || off == -(unit * y) ==> count % 2 == 0
    &&& place == 0 || x * one() >= pow2(place + 52) * y
}

proof fn lemma_half_even(n: int, d: int)
    requires
        d > 0,
    ensures
        -d <= 2 * (half_even(n, d) * d - n) <= d,
        2 * (half_even(n, d) * d - n) == d || 2 * (half_even(n, d) * d - n) == -d ==> half_even(
            n,
            d,
        ) % 2 == 0,
{
    let q = n / d;
    let r = n % d;
    vstd::arithmetic::div_mod::lemma_fundamental_div_mod(n, d);
    vstd::arithmetic::div_mod::lemma_mod_bound(n, d);
    assert(q * d == d * q) by (nonlinear_arith);
    assert((q + 1) * d == q * d + d) by (nonlinear_arith);
}

proof fn lemma_rounded(x: int, y: int, e: int)
    requires
        x > 0,
        y > 0,
        in_binade(x, y, e),
    ensures
        is_nearest_quotient(
            rounded(x, y, e) * pow2(last_place(e) as nat),
            x,
            y,
            rounded(x, y, e),
            last_place(e) as nat,
        ),
{
    let p = last_place(e) as nat;
    let shift = 1074 - p;
    let count = rounded(x, y, e);
    let unit = pow2(p) as int;
    lemma_pow2_pos(p);
    if shift >= 0 {
        let s = pow2(shift as nat) as int;
        lemma_pow2_adds(shift as nat, p);
        lemma_half_even(x * s, y);
        assert(s * unit == one());
        let off = count * y - x * s;
        assert((count * unit) * y - x * (s * unit) == off * unit) by (nonlinear_arith)
            requires
                off == count * y - x * s,
        ;
        assert(-(unit * y) <= 2 * (off * unit) <= unit * y) by (nonlinear_arith)
            requires
                unit > 0,
                -y <= 2 * off <= y,
        ;
        assert(2 * (off * unit) == unit * y ==> 2 * off == y) by (nonlinear_arith)
            requires
                unit > 0,
        ;
        assert(2 * (off * unit) == -(unit * y) ==> 2 * off == -y) by (nonlinear_arith)
            requires
                unit > 0,
        ;
    } else {
        let t = pow2((-shift) as nat) as int;
        lemma_pow2_adds((-shift) as nat, 1074);
        lemma_pow2_pos((-shift) as nat);
        lemma_pow2_pos(1074);
        assert(t * one() == unit);
        assert(y * t > 0) by (nonlinear_arith)
            requires
                y > 0,
                t > 0,
        ;
        lemma_half_even(x, y * t);
        let (w, off) = (one(), count * (y * t) - x);
        assert((count * (t * w)) * y - x * w == off * w) by (nonlinear_arith)
            requires
                off == count * (y * t) - x,
        ;
        assert(-((t * w) * y) <= 2 * (off * w) <= (t * w) * y) by (nonlinear_arith)
            requires
                w > 0,
                -(y * t) <= 2 * off <= y * t,
        ;
        assert(2 * (off * w) == (t * w) * y ==> 2 * off == y * t) by (nonlinear_arith)
            requires
                w > 0,
        ;
        assert(2 * (off * w) == -((t * w) * y) ==> 2 * off == -(y * t)) by (nonlinear_arith)
            requires
                w > 0,
        ;
    }
    if p > 0 {
        assert(p == e + 1022);
        if e >= 0 {
            lemma_pow2_adds(e as nat, 1074);
            let (a, b) = (pow2(e as nat) as int, one());
            lemma_pow2_pos(1074);
            assert(x * b >= (a * b) * y) by (nonlinear_arith)
                requires
                    y * a <= x,
                    b > 0,
            ;
            assert(pow2(p + 52) == a * b);
        } else {
            let k = (1074 + e) as nat;
            lemma_pow2_adds((-e) as nat, k);
            lemma_pow2_pos(k);
            let (a, b) = (pow2((-e) as nat) as int, pow2(k) as int);
            assert(x * (a * b) >= b * y) by (nonlinear_arith)
                requires
                    y <= x * a,
                    b > 0,
            ;
            assert(one() == a * b);
            assert(k == p + 52);
        }
    }
}

/// The distance of a number from zero.
pub open spec fn size(n: int) -> int {
    if n < 0 {
        -n
    } else {
        n
    }
}

/// Whether a number is the nearest to a quotient, on the same side of zero.
pub open spec fn is_quotient(bits: u64, x: int, y: int) -> bool {
    &&& (x < 0) == (y < 0) ==> fixed(bits) >= 0
    &&& (x < 0) != (y < 0) ==> fixed(bits) <= 0
    &&& exists|count: int, place: nat| #[trigger]
        is_nearest_quotient(size(fixed(bits)), size(x), size(y), count, place)
}

/// The quotient of two integers, as a binary64 number, is the nearest one that
/// there is, with the sign of the quotient; division by zero fails.
pub proof fn quotients_are_rounded_to_the_nearest(
    x: Integer,
    y: Integer,
    r: Result<u64>,
)
    requires
        call_ensures(ratio, (&x, &y), r),
    ensures
        y@ == 0 ==> r is Err && r->Err_0@.kind == "ZeroDivisionError"@,
        r is Ok && x@ == 0 ==> fixed(r->Ok_0) == 0,
        r is Ok && x@ != 0 ==> is_quotient(r->Ok_0, x@, y@),
        r is Err && y@ != 0 ==> r->Err_0@.kind == "OverflowError"@,
{
    if y@ != 0 && x@ != 0 {
        let (a, b) = (size(x@), size(y@));
        if let Ok(bits) = r {
            let e = choose|e: int| #[trigger]
                in_binade(a, b, e) && {
                    let count = rounded(a, b, e);
                    is_finite(bits) && negative(bits) == ((x@ < 0) != (y@ < 0))
                        && crate::float::units(bits) == count * pow2(last_place(e) as nat)
                };
            lemma_rounded(a, b, e);
            assert(size(fixed(bits)) == crate::float::units(bits));
        }
    } else if let Ok(bits) = r {
        if y@ != 0 {
            assert(crate::float::unsigned(bits) == 0);
            assert(crate::float::units(bits) == 0);
        }
    }
}

} // verus!
