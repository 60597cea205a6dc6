//! Arithmetic.
use vstd::arithmetic::power::pow;
use vstd::arithmetic::power2::{lemma_pow2_adds, lemma_pow2_pos, lemma_pow2_unfold, pow2};
use vstd::prelude::*;
use crate::arithmetic::{floor_div, floor_division_splits, floor_mod, Amount, Computed, FloatRequest};
use crate::calls::state::UnaryProtocolKind;
use crate::diagnostic::{Fault, Result};
use crate::float::{fixed, is_finite, is_infinite, is_nan, negative, one, unsigned};
use crate::heap::{Heap, HeapView};
use crate::integer::{bit, bit_length, magnitude};
use crate::laws::{
    gives_new, gives_number, is_number, is_object, lemma_object_word, raises, stores, truth_words,
};
use crate::object::ObjectView;
use crate::op::Op;
use crate::value::{Meaning, Value};

verus! {

/// A result that needed no binary64 operation.
pub open spec fn plain(result: Result<Computed>) -> Option<Result<Value>> {
    match result {
        Ok(Computed::Value(value)) => Some(Ok(value)),
        Ok(Computed::Float(_)) => None,
        Err(error) => Some(Err(error)),
    }
}

/// Whether an operator gave an integer.
pub open spec fn makes(before: HeapView, after: HeapView, result: Result<Computed>, n: int) -> bool {
    plain(result) matches Some(made) && gives_number(before, after, made, n)
}

pub proof fn lemma_operands(heap: Heap, a: Value, b: Value, n: int, m: int)
    requires
        heap.wf(),
        is_number(heap@, a, n),
        is_number(heap@, b, m),
    ensures
        heap@.is_integer(a),
        heap@.is_integer(b),
        heap@.integer(a) == Ok::<int, Fault>(n),
        heap@.integer(b) == Ok::<int, Fault>(m),
{
    heap.lemma_view();
    crate::value::lemma_not_heap();
}

/// Sums, differences and products of integers are exact, whatever their size.
pub proof fn sums_and_products_are_exact(
    heap: &mut Heap,
    op: Op,
    a: Value,
    b: Value,
    n: int,
    m: int,
    r: Result<Computed>,
)
    requires
        old(heap).wf(),
        is_number(old(heap)@, a, n),
        is_number(old(heap)@, b, m),
        call_ensures(Heap::binary, (heap, op, a, b), r),
    ensures
        op == Op::Add ==> makes(old(heap)@, final(heap)@, r, n + m),
        op == Op::Sub ==> makes(old(heap)@, final(heap)@, r, n - m),
        op == Op::Mul ==> makes(old(heap)@, final(heap)@, r, n * m),
{
    old(heap).lemma_view();
    lemma_operands(*old(heap), a, b, n, m);
}

/// Floor division and remainder split a number: the rest is smaller than the
/// divisor and has its sign.
pub proof fn division_splits_numbers(
    heap: &mut Heap,
    op: Op,
    a: Value,
    b: Value,
    n: int,
    m: int,
    q: int,
    rest: int,
    r: Result<Computed>,
)
    requires
        old(heap).wf(),
        is_number(old(heap)@, a, n),
        is_number(old(heap)@, b, m),
        n == m * q + rest,
        m > 0 ==> 0 <= rest < m,
        m < 0 ==> m < rest <= 0,
        call_ensures(Heap::binary, (heap, op, a, b), r),
    ensures
        op == Op::FloorDiv && m != 0 ==> makes(old(heap)@, final(heap)@, r, q),
        op == Op::Mod && m != 0 ==> makes(old(heap)@, final(heap)@, r, rest),
        (op == Op::FloorDiv || op == Op::Mod || op == Op::Div) && m == 0 ==> raises(
            old(heap)@,
            final(heap)@,
            r,
            "ZeroDivisionError",
        ),
{
    old(heap).lemma_view();
    lemma_operands(*old(heap), a, b, n, m);
    if m != 0 {
        floor_division_splits(n, m);
        let (p, s) = (floor_div(n, m), floor_mod(n, m));
        assert(p == q && s == rest) by (nonlinear_arith)
            requires
                m != 0,
                m * q + rest == m * p + s,
                m > 0 ==> 0 <= rest < m,
                m < 0 ==> m < rest <= 0,
                m > 0 ==> 0 <= s < m,
                m < 0 ==> m < s <= 0,
        ;
    }
}

/// Bitwise operators act on each bit of the endless two's complement notation;
/// on two truth values they give a truth value.
pub proof fn bitwise_operators_act_on_each_bit(
    heap: &mut Heap,
    op: Op,
    a: Value,
    b: Value,
    n: int,
    m: int,
    r: Result<Computed>,
)
    requires
        old(heap).wf(),
        is_number(old(heap)@, a, n),
        is_number(old(heap)@, b, m),
        op == Op::BitOr || op == Op::BitXor || op == Op::BitAnd,
        call_ensures(Heap::binary, (heap, op, a, b), r),
    ensures
        a@ is Bool && b@ is Bool ==> (r matches Ok(Computed::Value(value)) && value@
            == Meaning::Bool(
            match op {
                Op::BitOr => n == 1 || m == 1,
                Op::BitXor => n != m,
                _ => n == 1 && m == 1,
            },
        )) && final(heap)@ == old(heap)@,
        !(a@ is Bool && b@ is Bool) ==> exists|x: int| #[trigger]
            makes(old(heap)@, final(heap)@, r, x) && forall|i: nat| #[trigger]
                bit(x, i) == match op {
                    Op::BitOr => bit(n, i) || bit(m, i),
                    Op::BitXor => bit(n, i) != bit(m, i),
                    _ => bit(n, i) && bit(m, i),
                },
{
    old(heap).lemma_view();
    truth_words();
    lemma_operands(*old(heap), a, b, n, m);
    if !(a@ is Bool && b@ is Bool) {
        let out = choose|out: core::result::Result<Amount, Fault>| #[trigger]
            crate::arithmetic::calculated(
                op,
                n,
                m,
                crate::arithmetic::both_immediate(a, b),
                out,
            ) && crate::arithmetic::settled(old(heap)@, final(heap)@, r, out);
        let x = out->Ok_0->Integer_0;
        assert(makes(old(heap)@, final(heap)@, r, x));
    }
}

proof fn lemma_short(n: nat, k: nat)
    requires
        n < pow2(k),
    ensures
        bit_length(n) <= k,
    decreases n,
{
    if n > 0 {
        if k == 0 {
            vstd::arithmetic::power2::lemma2_to64();
        } else {
            lemma_pow2_unfold(k);
            lemma_short(n / 2, (k - 1) as nat);
        }
    }
}

/// A shift to the left multiplies by a power of two, one to the right divides
/// by it and rounds down; a count below zero is refused.
pub proof fn shifts_scale_by_powers_of_two(
    heap: &mut Heap,
    op: Op,
    a: Value,
    b: Value,
    n: int,
    m: int,
    k: nat,
    r: Result<Computed>,
)
    requires
        old(heap).wf(),
        is_number(old(heap)@, a, n),
        is_number(old(heap)@, b, m),
        op == Op::LeftShift || op == Op::RightShift,
        call_ensures(Heap::binary, (heap, op, a, b), r),
    ensures
        m < 0 ==> raises(old(heap)@, final(heap)@, r, "ValueError"),
        m >= 0 && op == Op::LeftShift && -pow2(k) < n < pow2(k) && (n == 0 || k + m <= 0x400_0000)
            ==> makes(old(heap)@, final(heap)@, r, n * pow2(m as nat)),
        m >= 0 && op == Op::LeftShift ==> makes(old(heap)@, final(heap)@, r, n * pow2(m as nat))
            || raises(old(heap)@, final(heap)@, r, "MemoryError"),
        0 <= m <= usize::MAX && op == Op::RightShift ==> exists|q: int| #[trigger]
            makes(old(heap)@, final(heap)@, r, q) && q * pow2(m as nat) <= n && n < (q + 1) * pow2(
                m as nat,
            ),
{
    old(heap).lemma_view();
    lemma_operands(*old(heap), a, b, n, m);
    if m >= 0 {
        let p = pow2(m as nat) as int;
        lemma_pow2_pos(m as nat);
        assert(0 * p == 0);
        if -pow2(k) < n < pow2(k) {
            lemma_short(magnitude(n), k);
        }
        if op == Op::RightShift && m <= usize::MAX {
            let q = n / p;
            assert(q * p <= n && n < (q + 1) * p) by (nonlinear_arith)
                requires
                    p > 0,
                    q == n / p,
            ;
            assert(makes(old(heap)@, final(heap)@, r, q));
        }
    }
}

proof fn lemma_unit_powers(x: int, y: nat)
    requires
        x == 0 || x == 1 || x == -1,
    ensures
        pow(x, y) == if y == 0 {
            1
        } else if x == -1 && y % 2 == 0 {
            1
        } else {
            x
        },
    decreases y,
{
    reveal(pow);
    if y > 0 {
        lemma_unit_powers(x, (y - 1) as nat);
    }
}

/// An integer to the power of an integer that is not below zero is exact, or
/// refused for its size; it is owed up to the greatest size.
pub proof fn powers_are_exact(
    heap: &mut Heap,
    a: Value,
    b: Value,
    n: int,
    m: int,
    k: nat,
    r: Result<Computed>,
)
    requires
        old(heap).wf(),
        is_number(old(heap)@, a, n),
        is_number(old(heap)@, b, m),
        m >= 0,
        call_ensures(Heap::binary, (heap, Op::Pow, a, b), r),
    ensures
        makes(old(heap)@, final(heap)@, r, pow(n, m as nat)) || raises(
            old(heap)@,
            final(heap)@,
            r,
            "MemoryError",
        ),
        -1 <= n <= 1 ==> makes(old(heap)@, final(heap)@, r, pow(n, m as nat)),
        -pow2(k) < n < pow2(k) && m <= u32::MAX && k * m <= 0x400_0000 ==> makes(
            old(heap)@,
            final(heap)@,
            r,
            pow(n, m as nat),
        ),
{
    old(heap).lemma_view();
    lemma_operands(*old(heap), a, b, n, m);
    if -1 <= n <= 1 {
        lemma_unit_powers(n, m as nat);
    }
    if -pow2(k) < n < pow2(k) && m <= u32::MAX && k * m <= 0x400_0000 {
        lemma_short(magnitude(n), k);
        let l = bit_length(magnitude(n));
        assert(l * m <= k * m) by (nonlinear_arith)
            requires
                l <= k,
                m >= 0,
        ;
    }
}

/// Zero has no power below zero, and a negative power of another integer is a
/// binary64 number.
pub proof fn negative_powers_are_floats(
    heap: &mut Heap,
    a: Value,
    b: Value,
    n: int,
    m: int,
    r: Result<Computed>,
)
    requires
        old(heap).wf(),
        is_number(old(heap)@, a, n),
        is_number(old(heap)@, b, m),
        m < 0,
        call_ensures(Heap::binary, (heap, Op::Pow, a, b), r),
    ensures
        n == 0 ==> raises(old(heap)@, final(heap)@, r, "ZeroDivisionError"),
        n != 0 ==> match r {
            Ok(Computed::Float(request)) => request.op == Op::Pow,
            Ok(Computed::Value(value)) => final(heap)@.objects.dom().contains(value)
                && final(heap)@.objects[value] is Float,
            Err(error) => true,
        },
{
    old(heap).lemma_view();
    lemma_operands(*old(heap), a, b, n, m);
}

/// Two texts, two lists or two tuples are joined in their order into a new
/// one.
pub proof fn sequences_are_joined(
    heap: &mut Heap,
    a: Value,
    b: Value,
    x: ObjectView,
    y: ObjectView,
    r: Result<Computed>,
)
    requires
        old(heap).wf(),
        stores(old(heap)@, a, x),
        stores(old(heap)@, b, y),
        call_ensures(Heap::binary, (heap, Op::Add, a, b), r),
    ensures
        match (x, y) {
            (ObjectView::Str(s), ObjectView::Str(t)) => plain(r) matches Some(made) && gives_new(
                old(heap)@,
                final(heap)@,
                made,
                ObjectView::Str(s + t),
            ),
            (ObjectView::List(s), ObjectView::List(t)) => plain(r) matches Some(made) && gives_new(
                old(heap)@,
                final(heap)@,
                made,
                ObjectView::List(s + t),
            ),
            (ObjectView::Tuple(s), ObjectView::Tuple(t)) => plain(r) matches Some(made)
                && gives_new(old(heap)@, final(heap)@, made, ObjectView::Tuple(s + t)),
            (ObjectView::Str(_), ObjectView::List(_)) => raises(
                old(heap)@,
                final(heap)@,
                r,
                "TypeError",
            ),
            (ObjectView::List(_), ObjectView::Tuple(_)) => raises(
                old(heap)@,
                final(heap)@,
                r,
                "TypeError",
            ),
            (ObjectView::Str(_), ObjectView::Int(_)) => raises(
                old(heap)@,
                final(heap)@,
                r,
                "TypeError",
            ),
            _ => true,
        },
{
    old(heap).lemma_view();
    lemma_object_word(old(heap)@, a);
    lemma_object_word(old(heap)@, b);
    crate::value::lemma_not_heap();
}

/// Binary64 arithmetic is asked for with the operands in their order.
pub proof fn float_arithmetic_is_requested(
    heap: &mut Heap,
    op: Op,
    a: Value,
    b: Value,
    x: u64,
    y: u64,
    r: Result<Computed>,
)
    requires
        old(heap).wf(),
        is_object(old(heap)@, a, ObjectView::Float(x)),
        is_object(old(heap)@, b, ObjectView::Float(y)),
        call_ensures(Heap::binary, (heap, op, a, b), r),
    ensures
        op == Op::Add || op == Op::Sub || op == Op::Mul ==> r == Ok::<
            Computed,
            crate::diagnostic::Diagnostic,
        >(Computed::Float(FloatRequest { op, x, y })) && final(heap)@ == old(heap)@,
        op == Op::Div || op == Op::FloorDiv || op == Op::Mod ==> if is_finite(y) && fixed(y) == 0 {
            raises(old(heap)@, final(heap)@, r, "ZeroDivisionError")
        } else {
            r == Ok::<Computed, crate::diagnostic::Diagnostic>(
                Computed::Float(FloatRequest { op, x, y }),
            ) && final(heap)@ == old(heap)@
        },
        op == Op::BitOr || op == Op::BitAnd || op == Op::BitXor || op == Op::LeftShift || op
            == Op::RightShift ==> raises(old(heap)@, final(heap)@, r, "TypeError"),
{
    old(heap).lemma_view();
    lemma_object_word(old(heap)@, a);
    lemma_object_word(old(heap)@, b);
    crate::value::lemma_not_heap();
}

/// A binary64 result becomes a number, but for a power of finite numbers that
/// is out of range.
pub proof fn float_results_become_numbers(
    heap: &mut Heap,
    request: FloatRequest,
    bits: u64,
    r: Result<Value>,
)
    requires
        old(heap).wf(),
        call_ensures(Heap::settle_float, (heap, request, bits), r),
    ensures
        if request.op == Op::Pow && is_infinite(bits) && is_finite(request.x) && is_finite(
            request.y,
        ) {
            raises(old(heap)@, final(heap)@, r, "OverflowError")
        } else {
            gives_new(old(heap)@, final(heap)@, r, ObjectView::Float(bits))
        },
{
    old(heap).lemma_view();
}

/// Negation turns an integer round zero, complement takes it from minus one,
/// and the plus sign leaves it; `not` is the contrary of the truth.
pub proof fn unary_operators_act_on_integers(
    heap: &mut Heap,
    op: Op,
    a: Value,
    n: int,
    r: Result<Value>,
)
    requires
        old(heap).wf(),
        is_number(old(heap)@, a, n),
        call_ensures(Heap::unary, (heap, op, a), r),
    ensures
        op == Op::Neg ==> gives_number(old(heap)@, final(heap)@, r, 0 - n),
        op == Op::Pos ==> gives_number(old(heap)@, final(heap)@, r, n),
        op == Op::Invert ==> gives_number(old(heap)@, final(heap)@, r, -1 - n),
        op == Op::Not ==> r is Ok && r->Ok_0@ == Meaning::Bool(n == 0) && final(heap)@
            == old(heap)@,
{
    old(heap).lemma_view();
    truth_words();
    lemma_operands(*old(heap), a, a, n, n);
    crate::value::lemma_not_heap();
}

/// Negation of a binary64 number turns its value round zero.
pub proof fn negation_turns_floats_round(heap: &mut Heap, a: Value, x: u64, r: Result<Value>)
    requires
        old(heap).wf(),
        is_object(old(heap)@, a, ObjectView::Float(x)),
        call_ensures(Heap::unary, (heap, Op::Neg, a), r),
    ensures
        exists|y: u64| #[trigger]
            gives_new(old(heap)@, final(heap)@, r, ObjectView::Float(y)) && negative(y)
                == !negative(x) && fixed(y) == -fixed(x) && is_nan(y) == is_nan(x) && is_infinite(y)
                == is_infinite(x),
{
    old(heap).lemma_view();
    lemma_object_word(old(heap)@, a);
    crate::value::lemma_not_heap();
    let y = crate::float::opposite(x);
    assert(unsigned(y) == unsigned(x));
    assert(gives_new(old(heap)@, final(heap)@, r, ObjectView::Float(y)));
}

/// The absolute value of a number is its distance from zero.
pub proof fn absolute_values_are_distances(
    heap: &mut Heap,
    a: Value,
    n: int,
    x: u64,
    r: Result<Value>,
)
    requires
        old(heap).wf(),
        call_ensures(Heap::unary_fallback, (heap, UnaryProtocolKind::Abs, a), r),
    ensures
        is_number(old(heap)@, a, n) ==> gives_number(
            old(heap)@,
            final(heap)@,
            r,
            if n < 0 {
                -n
            } else {
                n
            },
        ),
        is_object(old(heap)@, a, ObjectView::Float(x)) ==> exists|y: u64| #[trigger]
            gives_new(old(heap)@, final(heap)@, r, ObjectView::Float(y)) && !negative(y) && (fixed(
                y,
            ) == fixed(x) || fixed(y) == -fixed(x)),
{
    old(heap).lemma_view();
    crate::value::lemma_not_heap();
    if is_number(old(heap)@, a, n) {
        lemma_operands(*old(heap), a, a, n, n);
        lemma_zero_word();
    }
    if is_object(old(heap)@, a, ObjectView::Float(x)) {
        lemma_object_word(old(heap)@, a);
        let y = unsigned(x);
        assert(unsigned(y) == y);
        assert(gives_new(old(heap)@, final(heap)@, r, ObjectView::Float(y)));
    }
}

pub proof fn lemma_zero_word()
    ensures
        Value::zero()@ == Meaning::Int(0),
        Value::zero().as_number() == Some(0int),
{
    assert(1u64 & 7 == 1 && (1u64 as i64) >> 3 == 0) by (bit_vector);
}

/// The pattern of the number one, and that a number whose exponent is one
/// greater is twice as great.
pub proof fn patterns_are_scaled_by_their_exponents(bits: u64)
    requires
        0x0010_0000_0000_0000 <= bits < 0x7fe0_0000_0000_0000,
    ensures
        fixed(0x3ff0_0000_0000_0000) == one(),
        fixed(0) == 0,
        fixed(1) == 1,
        fixed((bits + 0x0010_0000_0000_0000) as u64) == 2 * fixed(bits),
        is_finite(bits),
        is_infinite(0x7ff0_0000_0000_0000),
        is_nan(0x7ff8_0000_0000_0000),
{
    lemma_pow2_adds(52, 1022);
    vstd::arithmetic::power2::lemma2_to64();
    vstd::arithmetic::power2::lemma2_to64_rest();
    assert(pow2(52) == 0x0010_0000_0000_0000);
    let e = bits / 0x0010_0000_0000_0000;
    let f = bits % 0x0010_0000_0000_0000;
    let next = (bits + 0x0010_0000_0000_0000) as u64;
    assert(next / 0x0010_0000_0000_0000 == e + 1 && next % 0x0010_0000_0000_0000 == f);
    lemma_pow2_unfold(e as nat);
    let p = pow2((e - 1) as nat) as int;
    let g = f + 0x0010_0000_0000_0000;
    assert(g * (2 * p) == 2 * (g * p)) by (nonlinear_arith);
}

} // verus!
