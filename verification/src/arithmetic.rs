//! Arithmetic on values. Integers are exact and without a limit but the
//! greatest size of a result; what takes binary64 arithmetic is handed out as
//! a request and settled with its result.
use vstd::arithmetic::div_mod::{lemma_fundamental_div_mod, lemma_fundamental_div_mod_converse};
use vstd::arithmetic::power::pow;
use vstd::arithmetic::power2::pow2;
use vstd::prelude::*;
use crate::diagnostic::{fault, outcome, Diagnostic, Fault, Result};
use crate::edges::copy_values;
use crate::float::{
    below_zero, finite, fixed, float_relation, infinite, integral, is_finite, is_infinite,
    is_integral, negative, opposite, unsigned, zero, Relation, INFINITE,
};
use crate::heap::{counts_one, Heap, HeapView};
use crate::integer::{bit, bit_length, magnitude, trunc_div, trunc_rem, Integer};
use crate::namespaces::allocates;
use crate::number::{is_ratio, ratio};
use crate::object::{Object, ObjectView};
use crate::op::Op;
use crate::soundness::making::binary_operators_keep_sound;
use crate::storage::integer_made;
use crate::value::{Meaning, Value};

verus! {

/// The greatest size of an integer that a shift or a power makes.
pub const MAX_INTEGER_RESULT_BITS: u64 = 0x400_0000;

/// Operands that an operator does not take.
pub open spec fn unsupported() -> Fault {
    fault("TypeError", "unsupported operand types")
}

/// A division by zero.
pub open spec fn zero_division() -> Fault {
    fault("ZeroDivisionError", "division or modulo by zero")
}

/// A shift whose result would be too large.
pub open spec fn shift_too_large() -> Fault {
    fault("MemoryError", "shift count is too large")
}

/// A power whose result would be too large.
pub open spec fn power_too_large() -> Fault {
    fault("MemoryError", "exponent is too large")
}

pub fn type_error() -> (r: Diagnostic)
    ensures
        r@ == unsupported(),
{
    Diagnostic::new("TypeError", "unsupported operand types")
}

fn division_by_zero() -> (r: Diagnostic)
    ensures
        r@ == zero_division(),
{
    Diagnostic::new("ZeroDivisionError", "division or modulo by zero")
}

/// The quotient, rounded toward negative infinity.
pub open spec fn floor_div(x: int, y: int) -> int {
    if y > 0 {
        x / y
    } else {
        (-x) / (-y)
    }
}

/// What is left of a floor division.
pub open spec fn floor_mod(x: int, y: int) -> int {
    x - y * floor_div(x, y)
}

/// Floor division splits a number into whole divisors and a rest that has the
/// divisor's sign and is smaller than it.
pub proof fn floor_division_splits(x: int, y: int)
    requires
        y != 0,
    ensures
        x == y * floor_div(x, y) + floor_mod(x, y),
        y > 0 ==> 0 <= floor_mod(x, y) < y,
        y < 0 ==> y < floor_mod(x, y) <= 0,
{
    if y > 0 {
        lemma_fundamental_div_mod(x, y);
        assert(0 <= x % y < y) by (nonlinear_arith)
            requires
                y > 0,
        ;
    } else {
        lemma_fundamental_div_mod(-x, -y);
        assert(0 <= (-x) % (-y) < -y) by (nonlinear_arith)
            requires
                y < 0,
        ;
        let q = (-x) / (-y);
        assert((-y) * q == -(y * q)) by (nonlinear_arith);
    }
}

/// Truncated division, corrected where the rest has the wrong sign, is floor
/// division.
proof fn lemma_floor(x: int, y: int)
    requires
        y != 0,
    ensures
        ({
            let q = trunc_div(x, y);
            let r = trunc_rem(x, y);
            if r != 0 && (r < 0) != (y < 0) {
                q - 1 == floor_div(x, y) && r + y == floor_mod(x, y)
            } else {
                q == floor_div(x, y) && r == floor_mod(x, y)
            }
        }),
{
    let a = magnitude(x) as int;
    let b = magnitude(y) as int;
    lemma_fundamental_div_mod(a, b);
    let u = a / b;
    let v = a % b;
    assert(0 <= v < b) by (nonlinear_arith)
        requires
            v == a % b,
            b > 0,
    ;
    assert(a == b * u + v);
    let q = trunc_div(x, y);
    let r = trunc_rem(x, y);
    assert(x == y * q + r) by (nonlinear_arith)
        requires
            a == b * u + v,
            x == (if x < 0 { -a } else { a }),
            y == (if y < 0 { -b } else { b }),
            q == (if (x < 0) != (y < 0) { -u } else { u }),
            r == (if x < 0 { -v } else { v }),
    ;
    let (fq, fr) = if r != 0 && (r < 0) != (y < 0) {
        (q - 1, r + y)
    } else {
        (q, r)
    };
    assert(y * (q - 1) == y * q - y) by (nonlinear_arith);
    assert(x == y * fq + fr);
    if y > 0 {
        assert(y * fq == fq * y) by (nonlinear_arith);
        lemma_fundamental_div_mod_converse(x, y, fq, fr);
    } else {
        assert((-y) * fq == -(y * fq)) by (nonlinear_arith);
        assert(fq * (-y) == (-y) * fq) by (nonlinear_arith);
        lemma_fundamental_div_mod_converse(-x, -y, fq, -fr);
    }
}

/// A binary64 operation that the embedder performs.
#[derive(Clone, Copy, Debug, PartialEq, Eq, Structural)]
pub struct FloatRequest {
    /// One of the arithmetic operators from addition to power.
    pub op: Op,
    pub x: u64,
    pub y: u64,
}

/// What an operator makes of two integers.
#[derive(Debug)]
pub enum Quantity {
    Integer(Integer),
    /// A binary64 pattern.
    Float(u64),
    /// A power with these operands.
    Power { base: u64, exponent: u64 },
}

/// See [`Quantity`].
pub enum Amount {
    Integer(int),
    Float(u64),
    Power { base: u64, exponent: u64 },
}

impl View for Quantity {
    type V = Amount;

    open spec fn view(&self) -> Amount {
        match self {
            Quantity::Integer(n) => Amount::Integer(n@),
            Quantity::Float(bits) => Amount::Float(*bits),
            Quantity::Power { base, exponent } => Amount::Power {
                base: *base,
                exponent: *exponent,
            },
        }
    }
}

/// An outcome of integer arithmetic with its diagnostic reduced.
pub open spec fn amount(result: core::result::Result<Quantity, Diagnostic>) -> core::result::Result<
    Amount,
    Fault,
> {
    match result {
        Ok(quantity) => Ok(quantity@),
        Err(error) => Err(error@),
    }
}

/// Whether a pattern is the binary64 number nearest to an integer, infinite
/// where the integer is beyond the greatest number.
pub open spec fn is_nearest(n: int, bits: u64) -> bool {
    is_ratio(n, 1, Ok(bits)) || overflows(n) && unsigned(bits) == INFINITE && negative(bits) == (n
        < 0)
}

/// Whether an integer is beyond the greatest binary64 number.
pub open spec fn overflows(n: int) -> bool {
    exists|error: Fault| #[trigger] is_ratio(n, 1, Err(error))
}

/// The pattern of one, or of minus one.
pub open spec fn unit_pattern(n: int) -> u64 {
    if n < 0 {
        0xbff0_0000_0000_0000
    } else {
        0x3ff0_0000_0000_0000
    }
}

/// What a shift to the left is.
pub open spec fn left_shifted(x: int, y: int, result: core::result::Result<Amount, Fault>) -> bool {
    if y < 0 {
        result == Err::<Amount, Fault>(fault("ValueError", "negative shift count"))
    } else if x == 0 {
        result == Ok::<Amount, Fault>(Amount::Integer(0))
    } else if bit_length(magnitude(x)) + y > MAX_INTEGER_RESULT_BITS {
        result == Err::<Amount, Fault>(shift_too_large())
    } else {
        result == Ok::<Amount, Fault>(Amount::Integer(x * pow2(y as nat)))
    }
}

/// What a shift to the right is: the quotient by a power of two, rounded
/// toward negative infinity.
pub open spec fn right_shifted(x: int, y: int, result: core::result::Result<Amount, Fault>) -> bool {
    if y < 0 {
        result == Err::<Amount, Fault>(fault("ValueError", "negative shift count"))
    } else if y > usize::MAX {
        result == Ok::<Amount, Fault>(
            Amount::Integer(
                if x < 0 {
                    -1
                } else {
                    0
                },
            ),
        )
    } else {
        result == Ok::<Amount, Fault>(Amount::Integer(x / (pow2(y as nat) as int)))
    }
}

/// What a power is. With a negative exponent, immediate operands are rounded
/// first, units among them.
pub open spec fn powered(
    x: int,
    y: int,
    immediate: bool,
    result: core::result::Result<Amount, Fault>,
) -> bool {
    if y >= 0 {
        if x == 0 || x == 1 || x == -1 {
            result == Ok::<Amount, Fault>(
                Amount::Integer(
                    if y == 0 {
                        1
                    } else if x == -1 && y % 2 == 0 {
                        1
                    } else {
                        x
                    },
                ),
            )
        } else if y > u32::MAX || bit_length(magnitude(x)) * y > MAX_INTEGER_RESULT_BITS {
            result == Err::<Amount, Fault>(power_too_large())
        } else {
            result == Ok::<Amount, Fault>(Amount::Integer(pow(x, y as nat)))
        }
    } else if x == 0 {
        result == Err::<Amount, Fault>(zero_division())
    } else if !immediate && (x == 1 || x == -1) {
        result == Ok::<Amount, Fault>(
            Amount::Float(
                unit_pattern(
                    if y % 2 == 0 {
                        1
                    } else {
                        x
                    },
                ),
            ),
        )
    } else {
        result matches Ok(Amount::Power { base, exponent }) && is_nearest(x, base) && is_nearest(
            y,
            exponent,
        )
    }
}

/// What an operator makes of two integers, which both are immediate or not.
pub open spec fn calculated(
    op: Op,
    x: int,
    y: int,
    immediate: bool,
    result: core::result::Result<Amount, Fault>,
) -> bool {
    match op {
        Op::Add => result == Ok::<Amount, Fault>(Amount::Integer(x + y)),
        Op::Sub => result == Ok::<Amount, Fault>(Amount::Integer(x - y)),
        Op::Mul => result == Ok::<Amount, Fault>(Amount::Integer(x * y)),
        Op::BitOr => result matches Ok(Amount::Integer(n)) && forall|i: nat| #[trigger]
            bit(n, i) == (bit(x, i) || bit(y, i)),
        Op::BitXor => result matches Ok(Amount::Integer(n)) && forall|i: nat| #[trigger]
            bit(n, i) == (bit(x, i) != bit(y, i)),
        Op::BitAnd => result matches Ok(Amount::Integer(n)) && forall|i: nat| #[trigger]
            bit(n, i) == (bit(x, i) && bit(y, i)),
        Op::LeftShift => left_shifted(x, y, result),
        Op::RightShift => right_shifted(x, y, result),
        Op::Pow => powered(x, y, immediate, result),
        Op::FloorDiv => if y == 0 {
            result == Err::<Amount, Fault>(zero_division())
        } else {
            result == Ok::<Amount, Fault>(Amount::Integer(floor_div(x, y)))
        },
        Op::Mod => if y == 0 {
            result == Err::<Amount, Fault>(zero_division())
        } else {
            result == Ok::<Amount, Fault>(Amount::Integer(floor_mod(x, y)))
        },
        Op::Div => if y == 0 {
            result == Err::<Amount, Fault>(zero_division())
        } else {
            match result {
                Ok(Amount::Float(bits)) => is_ratio(x, y, Ok(bits)),
                Ok(_) => false,
                Err(error) => is_ratio(x, y, Err(error)),
            }
        },
        _ => result == Err::<Amount, Fault>(unsupported()),
    }
}

/// The pattern nearest to an integer, infinite beyond the greatest number.
fn nearest(n: &Integer) -> (r: u64)
    ensures
        is_nearest(n@, r),
{
    let one = Integer::from_i64(1);
    match ratio(n, &one) {
        Ok(bits) => bits,
        Err(error) => {
            assert(is_ratio(n@, 1, Err(error@)));
            if n.is_negative() {
                0xfff0_0000_0000_0000
            } else {
                0x7ff0_0000_0000_0000
            }
        },
    }
}

fn shift_left(x: &Integer, y: &Integer) -> (r: Result<Quantity>)
    ensures
        left_shifted(x@, y@, amount(r)),
{
    if y.is_negative() {
        return Err(Diagnostic::new("ValueError", "negative shift count"));
    }
    if x.is_zero() {
        return Ok(Quantity::Integer(Integer::from_i64(0)));
    }
    let shift = match y.to_i64() {
        Some(shift) => shift as u64,
        None => {
            return Err(Diagnostic::new("MemoryError", "shift count is too large"));
        },
    };
    if shift > MAX_INTEGER_RESULT_BITS || x.bits() > MAX_INTEGER_RESULT_BITS - shift {
        return Err(Diagnostic::new("MemoryError", "shift count is too large"));
    }
    Ok(Quantity::Integer(x.shift_left(shift as usize)))
}

fn shift_right(x: &Integer, y: &Integer) -> (r: Result<Quantity>)
    ensures
        right_shifted(x@, y@, amount(r)),
{
    if y.is_negative() {
        return Err(Diagnostic::new("ValueError", "negative shift count"));
    }
    let small = match y.to_i128() {
        Some(shift) => shift <= usize::MAX as i128,
        None => false,
    };
    if !small {
        return Ok(
            Quantity::Integer(
                Integer::from_i64(
                    if x.is_negative() {
                        -1
                    } else {
                        0
                    },
                ),
            ),
        );
    }
    let shift = y.to_i128().unwrap() as usize;
    Ok(Quantity::Integer(x.shift_right(shift)))
}

/// Whether an integer is odd.
fn odd(n: &Integer) -> (r: bool)
    ensures
        r == (n@ % 2 != 0),
{
    let two = Integer::from_i64(2);
    let rest = n.remainder(&two);
    proof {
        let m = magnitude(n@) as int;
        assert(trunc_rem(n@, 2) == 0 <==> m % 2 == 0);
        assert(n@ % 2 == 0 <==> m % 2 == 0);
    }
    !rest.is_zero()
}

fn power(x: &Integer, y: &Integer, immediate: bool) -> (r: Result<Quantity>)
    ensures
        powered(x@, y@, immediate, amount(r)),
{
    let one = Integer::from_i64(1);
    let minus_one = Integer::from_i64(-1);
    let unit = x.is_zero() || x.equals(&one) || x.equals(&minus_one);
    if y.is_negative() {
        if x.is_zero() {
            return Err(division_by_zero());
        }
        if unit && !immediate {
            let bits = if x.is_negative() && odd(y) {
                0xbff0_0000_0000_0000u64
            } else {
                0x3ff0_0000_0000_0000u64
            };
            return Ok(Quantity::Float(bits));
        }
        return Ok(Quantity::Power { base: nearest(x), exponent: nearest(y) });
    }
    if unit {
        if y.is_zero() || (x.is_negative() && !odd(y)) {
            return Ok(Quantity::Integer(one));
        }
        return Ok(Quantity::Integer(x.copy()));
    }
    let exponent = match y.to_i64() {
        Some(n) => if n <= u32::MAX as i64 {
            n as u32
        } else {
            return Err(Diagnostic::new("MemoryError", "exponent is too large"));
        },
        None => {
            return Err(Diagnostic::new("MemoryError", "exponent is too large"));
        },
    };
    let bits = x.bits() as u128;
    assert(bits * exponent <= u128::MAX) by (nonlinear_arith)
        requires
            bits <= u64::MAX,
            exponent <= u32::MAX,
    ;
    let size = bits * (exponent as u128);
    if size > MAX_INTEGER_RESULT_BITS as u128 {
        return Err(Diagnostic::new("MemoryError", "exponent is too large"));
    }
    Ok(Quantity::Integer(x.power(exponent)))
}

/// What an operator makes of two integers.
pub fn calculate(op: Op, x: &Integer, y: &Integer, immediate: bool) -> (r: Result<Quantity>)
    ensures
        calculated(op, x@, y@, immediate, amount(r)),
{
    match op {
        Op::Add => Ok(Quantity::Integer(x.plus(y))),
        Op::Sub => Ok(Quantity::Integer(x.minus(y))),
        Op::Mul => Ok(Quantity::Integer(x.times(y))),
        Op::BitOr => Ok(Quantity::Integer(x.bit_or(y))),
        Op::BitXor => Ok(Quantity::Integer(x.bit_xor(y))),
        Op::BitAnd => Ok(Quantity::Integer(x.bit_and(y))),
        Op::LeftShift => shift_left(x, y),
        Op::RightShift => shift_right(x, y),
        Op::Pow => power(x, y, immediate),
        Op::FloorDiv | Op::Mod => {
            if y.is_zero() {
                return Err(division_by_zero());
            }
            let mut q = x.quotient(y);
            let mut r = x.remainder(y);
            proof {
                lemma_floor(x@, y@);
            }
            if !r.is_zero() && r.is_negative() != y.is_negative() {
                q = q.minus(&Integer::from_i64(1));
                r = r.plus(y);
            }
            if op == Op::FloorDiv {
                Ok(Quantity::Integer(q))
            } else {
                Ok(Quantity::Integer(r))
            }
        },
        Op::Div => {
            if y.is_zero() {
                return Err(division_by_zero());
            }
            match ratio(x, y) {
                Ok(bits) => Ok(Quantity::Float(bits)),
                Err(error) => Err(error),
            }
        },
        _ => Err(type_error()),
    }
}

/// What arithmetic answers: a value, or a binary64 operation to perform.
#[derive(Clone, Copy, Debug)]
pub enum Computed {
    Value(Value),
    Float(FloatRequest),
}

/// Why a power of binary64 numbers is refused.
pub open spec fn refused_power(base: u64, exponent: u64) -> Option<Fault> {
    if is_finite(base) && fixed(base) == 0 && float_relation(exponent, 0) == Relation::Less {
        Some(zero_division())
    } else if float_relation(base, 0) == Relation::Less && !is_integral(exponent) {
        Some(fault("TypeError", "complex power results are not supported"))
    } else {
        None
    }
}

/// Whether a request was made.
pub open spec fn requested(
    before: HeapView,
    after: HeapView,
    result: core::result::Result<Computed, Diagnostic>,
    op: Op,
    x: u64,
    y: u64,
) -> bool {
    (result matches Ok(Computed::Float(request)) && request == (FloatRequest { op, x, y })) && after
        == before
}

/// Whether a fault was answered.
pub open spec fn failed<T>(
    before: HeapView,
    after: HeapView,
    result: core::result::Result<T, Diagnostic>,
    error: Fault,
) -> bool {
    (result matches Err(found) && found@ == error) && after == before
}

/// Whether a power was requested or refused.
pub open spec fn power_requested(
    before: HeapView,
    after: HeapView,
    result: core::result::Result<Computed, Diagnostic>,
    base: u64,
    exponent: u64,
) -> bool {
    match refused_power(base, exponent) {
        Some(error) => failed(before, after, result, error),
        None => requested(before, after, result, Op::Pow, base, exponent),
    }
}

/// A computed value as a result.
pub open spec fn as_value(result: core::result::Result<Computed, Diagnostic>) -> Option<
    core::result::Result<Value, Diagnostic>,
> {
    match result {
        Ok(Computed::Value(value)) => Some(Ok(value)),
        Ok(Computed::Float(_)) => None,
        Err(error) => Some(Err(error)),
    }
}

/// Whether integer arithmetic was settled.
pub open spec fn settled(
    before: HeapView,
    after: HeapView,
    result: core::result::Result<Computed, Diagnostic>,
    out: core::result::Result<Amount, Fault>,
) -> bool {
    match out {
        Err(error) => failed(before, after, result, error),
        Ok(Amount::Integer(n)) => as_value(result) matches Some(made) && integer_made(
            before,
            after,
            n,
            made,
        ),
        Ok(Amount::Float(bits)) => as_value(result) matches Some(made) && allocates(
            before,
            after,
            made,
            ObjectView::Float(bits),
        ),
        Ok(Amount::Power { base, exponent }) => power_requested(
            before,
            after,
            result,
            base,
            exponent,
        ),
    }
}

/// Whether an operator was settled on two binary64 numbers.
pub open spec fn float_settled(
    before: HeapView,
    after: HeapView,
    result: core::result::Result<Computed, Diagnostic>,
    op: Op,
    x: u64,
    y: u64,
) -> bool {
    match op {
        Op::Add => requested(before, after, result, op, x, y),
        Op::Sub => requested(before, after, result, op, x, y),
        Op::Mul => requested(before, after, result, op, x, y),
        Op::Pow => power_requested(before, after, result, x, y),
        Op::Div | Op::FloorDiv | Op::Mod => if is_finite(y) && fixed(y) == 0 {
            failed(before, after, result, zero_division())
        } else {
            requested(before, after, result, op, x, y)
        },
        _ => failed(before, after, result, unsupported()),
    }
}

impl HeapView {
    /// Whether a pattern is the number a value stands for, or a fault the
    /// reason why there is none.
    pub open spec fn is_float_of(self, value: Value, result: core::result::Result<u64, Fault>) -> bool {
        let v = self.native(value);
        match v.as_number() {
            Some(n) => is_ratio(n, 1, result),
            None => match self.found(v) {
                Err(error) => result == Err::<u64, Fault>(error),
                Ok(ObjectView::Int(n)) => match result {
                    Ok(bits) => is_ratio(n, 1, Ok(bits)),
                    Err(error) => error == fault(
                        "OverflowError",
                        "integer too large to convert to float",
                    ) && overflows(n),
                },
                Ok(ObjectView::Float(bits)) => result == Ok::<u64, Fault>(bits),
                Ok(_) => result == Err::<u64, Fault>(fault("TypeError", "expected number")),
            },
        }
    }

    /// Whether a value is a number.
    pub open spec fn numeric(self, value: Value) -> bool {
        self.is_integer(value) || self.is_float(value)
    }

    /// The concatenation of two sequences.
    pub open spec fn concatenated(self, a: Value, b: Value) -> Option<ObjectView> {
        match (self.at(self.native(a)), self.at(self.native(b))) {
            (Some(ObjectView::Str(x)), Some(ObjectView::Str(y))) => Some(ObjectView::Str(x + y)),
            (Some(ObjectView::List(x)), Some(ObjectView::List(y))) => Some(
                ObjectView::List(x + y),
            ),
            (Some(ObjectView::Tuple(x)), Some(ObjectView::Tuple(y))) => Some(
                ObjectView::Tuple(x + y),
            ),
            _ => None,
        }
    }
}

/// What two truth values make under a bitwise operator.
pub open spec fn bool_combined(op: Op, a: Value, b: Value) -> Option<Value> {
    match (a@, b@) {
        (Meaning::Bool(x), Meaning::Bool(y)) => match op {
            Op::BitOr => Some(Value::of_bool(x || y)),
            Op::BitXor => Some(Value::of_bool(x != y)),
            Op::BitAnd => Some(Value::of_bool(x && y)),
            _ => None,
        },
        _ => None,
    }
}

/// Whether two values are integers or truth values without an object.
pub open spec fn both_immediate(a: Value, b: Value) -> bool {
    a.as_number() is Some && b.as_number() is Some
}

/// What a binary operator does.
pub open spec fn binary_done(
    before: HeapView,
    after: HeapView,
    result: core::result::Result<Computed, Diagnostic>,
    op: Op,
    a: Value,
    b: Value,
) -> bool {
    if bool_combined(op, a, b) is Some {
        (result matches Ok(Computed::Value(value)) && bool_combined(op, a, b) == Some(value))
            && after == before
    } else if before.is_integer(a) && before.is_integer(b) {
        exists|out: core::result::Result<Amount, Fault>| #[trigger]
            calculated(
                op,
                before.integer(a)->Ok_0,
                before.integer(b)->Ok_0,
                both_immediate(a, b),
                out,
            ) && settled(before, after, result, out)
    } else if before.numeric(a) && before.numeric(b) {
        exists|x: core::result::Result<u64, Fault>| #[trigger]
            before.is_float_of(a, x) && match x {
                Err(error) => failed(before, after, result, error),
                Ok(x) => exists|y: core::result::Result<u64, Fault>| #[trigger]
                    before.is_float_of(b, y) && match y {
                        Err(error) => failed(before, after, result, error),
                        Ok(y) => float_settled(before, after, result, op, x, y),
                    },
            }
    } else if op == Op::Add && before.concatenated(a, b) is Some {
        as_value(result) matches Some(made) && allocates(
            before,
            after,
            made,
            before.concatenated(a, b).unwrap(),
        )
    } else {
        failed(before, after, result, unsupported())
    }
}

/// Why an operation on binary64 numbers fails with its result.
pub open spec fn refused_result(request: FloatRequest, bits: u64) -> Option<Fault> {
    if request.op == Op::Pow && is_infinite(bits) && is_finite(request.x) && is_finite(request.y) {
        Some(fault("OverflowError", "numeric result out of range"))
    } else {
        None
    }
}

fn request_power(base: u64, exponent: u64) -> (r: Result<Computed>)
    ensures
        match refused_power(base, exponent) {
            Some(error) => r matches Err(found) && found@ == error,
            None => r matches Ok(Computed::Float(request)) && request == (FloatRequest {
                op: Op::Pow,
                x: base,
                y: exponent,
            }),
        },
{
    if zero(base) && below_zero(exponent) {
        return Err(division_by_zero());
    }
    if below_zero(base) && !integral(exponent) {
        return Err(Diagnostic::new("TypeError", "complex power results are not supported"));
    }
    Ok(Computed::Float(FloatRequest { op: Op::Pow, x: base, y: exponent }))
}

fn request_float(op: Op, x: u64, y: u64) -> (r: Result<Computed>)
    ensures
        forall|heap: HeapView| #[trigger] float_settled(heap, heap, r, op, x, y),
{
    match op {
        Op::Add | Op::Sub | Op::Mul => Ok(Computed::Float(FloatRequest { op, x, y })),
        Op::Pow => request_power(x, y),
        Op::Div | Op::FloorDiv | Op::Mod => {
            if zero(y) {
                return Err(division_by_zero());
            }
            Ok(Computed::Float(FloatRequest { op, x, y }))
        },
        _ => Err(type_error()),
    }
}

impl Heap {
    /// The binary64 number a value stands for.
    pub fn float(&self, value: Value) -> (r: Result<u64>)
        requires
            self.wf(),
        ensures
            self@.is_float_of(value, outcome(r)),
    {
        let v = self.native_value(value);
        let one = Integer::from_i64(1);
        if let Some(n) = v.integer() {
            return ratio(&Integer::from_i64(n), &one);
        }
        match self.get(v)? {
            Object::Int(n) => match ratio(n, &one) {
                Ok(bits) => Ok(bits),
                Err(reason) => {
                    assert(is_ratio(n@, 1, Err(reason@)));
                    assert(overflows(n@));
                    Err(
                        Diagnostic::new("OverflowError", "integer too large to convert to float"),
                    )
                },
            },
            Object::Float(bits) => Ok(*bits),
            _ => Err(Diagnostic::new("TypeError", "expected number")),
        }
    }

    /// Whether a value is a number.
    pub fn numeric(&self, value: Value) -> (r: bool)
        requires
            self.wf(),
        ensures
            r == self@.numeric(value),
    {
        self.is_integer(value) || self.is_float(value)
    }

    fn concatenate(&self, a: Value, b: Value) -> (r: Option<Object>)
        requires
            self.wf(),
        ensures
            match r {
                Some(object) => self@.concatenated(a, b) == Some(object@) && object.wf(
                    &self@.shapes,
                ),
                None => self@.concatenated(a, b) is None,
            },
    {
        match (self.try_get(self.native_value(a)), self.try_get(self.native_value(b))) {
            (Some(Object::Str(x)), Some(Object::Str(y))) => {
                let mut text = x.clone();
                text.append(y.as_str());
                Some(Object::Str(text))
            },
            (Some(Object::List(x)), Some(Object::List(y))) => {
                let mut values = copy_values(x);
                crate::shapes::visit_all(y, &mut values);
                Some(Object::List(values))
            },
            (Some(Object::Tuple(x)), Some(Object::Tuple(y))) => {
                let mut values = copy_values(x);
                crate::shapes::visit_all(y, &mut values);
                Some(Object::Tuple(values))
            },
            _ => None,
        }
    }

    /// Settles integer arithmetic.
    fn settle_quantity(&mut self, out: Result<Quantity>) -> (r: Result<Computed>)
        requires
            old(self).wf(),
        ensures
            final(self).wf(),
            counts_one(*old(self), *final(self)),
            settled(old(self)@, final(self)@, r, amount(out)),
            old(self)@.sound() ==> final(self)@.sound(),
    {
        match out {
            Err(error) => Err(error),
            Ok(Quantity::Integer(n)) => match self.int_value(n) {
                Ok(value) => Ok(Computed::Value(value)),
                Err(error) => Err(error),
            },
            Ok(Quantity::Float(bits)) => match self.allocate(Object::Float(bits)) {
                Ok(value) => Ok(Computed::Value(value)),
                Err(error) => Err(error),
            },
            Ok(Quantity::Power { base, exponent }) => request_power(base, exponent),
        }
    }

    /// Applies a binary operator. Operations on binary64 numbers come out as
    /// requests.
    pub fn binary(&mut self, op: Op, a: Value, b: Value) -> (r: Result<Computed>)
        requires
            old(self).wf(),
        ensures
            final(self).wf(),
            counts_one(*old(self), *final(self)),
            binary_done(old(self)@, final(self)@, r, op, a, b),
            old(self)@.sound() ==> final(self)@.sound(),
    {
        let ghost before = self@;
        proof {
            self.lemma_view();
        }
        if let (Some(x), Some(y)) = (a.as_bool(), b.as_bool()) {
            match op {
                Op::BitOr => {
                    return Ok(Computed::Value(Value::bool(x || y)));
                },
                Op::BitXor => {
                    return Ok(Computed::Value(Value::bool(x != y)));
                },
                Op::BitAnd => {
                    return Ok(Computed::Value(Value::bool(x && y)));
                },
                _ => {},
            }
        }
        if self.is_integer(a) && self.is_integer(b) {
            let x = self.integer(a)?;
            let y = self.integer(b)?;
            let immediate = a.integer().is_some() && b.integer().is_some();
            let out = calculate(op, &x, &y, immediate);
            let ghost settled_as = amount(out);
            assert(bool_combined(op, a, b) is None);
            assert(before.integer(a) == Ok::<int, Fault>(x@));
            assert(before.integer(b) == Ok::<int, Fault>(y@));
            assert(calculated(
                op,
                before.integer(a)->Ok_0,
                before.integer(b)->Ok_0,
                both_immediate(a, b),
                settled_as,
            ));
            let r = self.settle_quantity(out);
            assert(settled(before, self@, r, settled_as));
            return r;
        }
        if self.numeric(a) && self.numeric(b) {
            let left = self.float(a);
            assert(before.is_float_of(a, outcome(left)));
            let x = match left {
                Ok(x) => x,
                Err(error) => {
                    return Err(error);
                },
            };
            let right = self.float(b);
            assert(before.is_float_of(b, outcome(right)));
            let y = match right {
                Ok(y) => y,
                Err(error) => {
                    return Err(error);
                },
            };
            let result = request_float(op, x, y);
            assert(float_settled(before, before, result, op, x, y));
            return result;
        }
        if op == Op::Add {
            if let Some(object) = self.concatenate(a, b) {
                let result = match self.allocate(object) {
                    Ok(value) => Ok(Computed::Value(value)),
                    Err(error) => Err(error),
                };
                proof {
                    if before.sound() {
                        binary_operators_keep_sound(before, self@, result, op, a, b);
                    }
                }
                return result;
            }
        }
        Err(type_error())
    }

    /// Settles a binary64 operation with its result.
    pub fn settle_float(&mut self, request: FloatRequest, bits: u64) -> (r: Result<Value>)
        requires
            old(self).wf(),
        ensures
            final(self).wf(),
            counts_one(*old(self), *final(self)),
            match refused_result(request, bits) {
                Some(error) => failed(old(self)@, final(self)@, r, error),
                None => allocates(old(self)@, final(self)@, r, ObjectView::Float(bits)),
            },
            old(self)@.sound() ==> final(self)@.sound(),
    {
        if request.op == Op::Pow && infinite(bits) && finite(request.x) && finite(request.y) {
            return Err(Diagnostic::new("OverflowError", "numeric result out of range"));
        }
        self.allocate(Object::Float(bits))
    }
}

/// What a sign or complement makes of an integer.
pub open spec fn unary_integer(op: Op, n: int) -> int {
    match op {
        Op::Neg => -n,
        Op::Invert => -n - 1,
        _ => n,
    }
}

/// What a unary operator does.
pub open spec fn unary_done(
    before: HeapView,
    after: HeapView,
    result: core::result::Result<Value, Diagnostic>,
    op: Op,
    value: Value,
) -> bool {
    let v = before.native(value);
    if op == Op::Not {
        match before.truth(value) {
            Err(error) => failed(before, after, result, error),
            Ok(truth) => outcome(result) == Ok::<Value, Fault>(Value::of_bool(!truth)) && after
                == before,
        }
    } else if before.is_integer(value) {
        integer_made(before, after, unary_integer(op, before.integer(value)->Ok_0), result)
    } else {
        match before.found(v) {
            Err(error) => failed(before, after, result, error),
            Ok(ObjectView::Float(bits)) => if op == Op::Neg {
                allocates(before, after, result, ObjectView::Float(opposite(bits)))
            } else {
                outcome(result) == Ok::<Value, Fault>(v) && after == before
            },
            Ok(_) => failed(before, after, result, unsupported()),
        }
    }
}

impl Heap {
    /// Applies a unary operator.
    pub fn unary(&mut self, op: Op, value: Value) -> (r: Result<Value>)
        requires
            old(self).wf(),
        ensures
            final(self).wf(),
            counts_one(*old(self), *final(self)),
            unary_done(old(self)@, final(self)@, r, op, value),
            old(self)@.sound() ==> final(self)@.sound(),
    {
        if op == Op::Not {
            let truth = self.truth(value)?;
            return Ok(Value::bool(!truth));
        }
        if self.is_integer(value) {
            let n = self.integer(value)?;
            let made = match op {
                Op::Neg => n.negated(),
                Op::Invert => n.complement(),
                _ => n,
            };
            return self.int_value(made);
        }
        let v = self.native_value(value);
        let bits = match self.get(v)? {
            Object::Float(bits) => *bits,
            _ => {
                return Err(type_error());
            },
        };
        if op == Op::Neg {
            let flipped = crate::float::negated(bits);
            return self.allocate(Object::Float(flipped));
        }
        Ok(v)
    }
}

} // verus!
