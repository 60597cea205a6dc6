//! Truth, equality and order.
use vstd::prelude::*;
use crate::comparison::text_relation;
use crate::diagnostic::Result;
use crate::float::{fixed, is_finite, is_nan, one};
use crate::heap::Heap;
use crate::laws::{is_number, is_object, lemma_object_word, truth_words};
use crate::object::ObjectView;
use crate::op::Op;
use crate::value::{Meaning, Value};

verus! {

/// Whether a call answered with a truth value.
pub open spec fn says(result: Result<Value>, answer: bool) -> bool {
    result is Ok && result->Ok_0@ == Meaning::Bool(answer)
}

/// What an operator asks of two integers.
pub open spec fn holds(op: Op, n: int, m: int) -> bool {
    match op {
        Op::Eq => n == m,
        Op::Ne => n != m,
        Op::Lt => n < m,
        Op::Le => n <= m,
        Op::Gt => n > m,
        Op::Ge => n >= m,
        _ => false,
    }
}

pub open spec fn is_comparison(op: Op) -> bool {
    op == Op::Eq || op == Op::Ne || op == Op::Lt || op == Op::Le || op == Op::Gt || op == Op::Ge
}

/// Integers of any size and truth values compare as the numbers they are.
pub proof fn integers_compare_as_numbers(
    heap: Heap,
    op: Op,
    a: Value,
    b: Value,
    n: int,
    m: int,
    r: Result<Value>,
)
    requires
        heap.wf(),
        is_comparison(op),
        is_number(heap@, a, n),
        is_number(heap@, b, m),
        call_ensures(Heap::compare, (&heap, op, a, b), r),
    ensures
        says(r, holds(op, n, m)),
{
    truth_words();
    heap.lemma_view();
    crate::value::lemma_not_heap();
}

/// Finite binary64 numbers compare as the numbers they are; one that is no
/// number is unequal to everything and before or behind nothing.
pub proof fn floats_compare_as_numbers(
    heap: Heap,
    op: Op,
    a: Value,
    b: Value,
    x: u64,
    y: u64,
    r: Result<Value>,
)
    requires
        heap.wf(),
        is_comparison(op),
        is_object(heap@, a, ObjectView::Float(x)),
        is_object(heap@, b, ObjectView::Float(y)),
        call_ensures(Heap::compare, (&heap, op, a, b), r),
    ensures
        is_finite(x) && is_finite(y) ==> says(r, holds(op, fixed(x), fixed(y))),
        is_nan(x) || is_nan(y) ==> says(r, op == Op::Ne),
{
    truth_words();
    heap.lemma_view();
    lemma_object_word(heap@, a);
    lemma_object_word(heap@, b);
}

/// An integer and a finite binary64 number compare exactly, either way round.
pub proof fn integers_compare_with_floats(
    heap: Heap,
    op: Op,
    a: Value,
    b: Value,
    n: int,
    y: u64,
    r: Result<Value>,
    s: Result<Value>,
)
    requires
        heap.wf(),
        is_comparison(op),
        is_number(heap@, a, n),
        is_object(heap@, b, ObjectView::Float(y)),
        call_ensures(Heap::compare, (&heap, op, a, b), r),
        call_ensures(Heap::compare, (&heap, op, b, a), s),
    ensures
        is_finite(y) ==> says(r, holds(op, n * one(), fixed(y))),
        is_finite(y) ==> says(s, holds(op, fixed(y), n * one())),
        is_nan(y) ==> says(r, op == Op::Ne) && says(s, op == Op::Ne),
{
    truth_words();
    heap.lemma_view();
    crate::value::lemma_not_heap();
    lemma_object_word(heap@, b);
}

/// The four order operators agree with one another on all operands: they fail
/// alike, no two contrary ones hold, and a strict one gives the other.
pub proof fn order_operators_agree(
    heap: Heap,
    a: Value,
    b: Value,
    lt: Result<Value>,
    le: Result<Value>,
    gt: Result<Value>,
    ge: Result<Value>,
)
    requires
        heap.wf(),
        call_ensures(Heap::compare, (&heap, Op::Lt, a, b), lt),
        call_ensures(Heap::compare, (&heap, Op::Le, a, b), le),
        call_ensures(Heap::compare, (&heap, Op::Gt, a, b), gt),
        call_ensures(Heap::compare, (&heap, Op::Ge, a, b), ge),
    ensures
        (lt is Ok) == (le is Ok) && (lt is Ok) == (gt is Ok) && (lt is Ok) == (ge is Ok),
        lt is Ok ==> exists|x: bool, y: bool, u: bool, v: bool| #![auto]
            says(lt, x) && says(le, u) && says(gt, y) && says(ge, v) && !(x && y) && (x ==> u && !v)
                && (y ==> v && !u) && (u && v <==> u && !x) && (u && v <==> v && !y),
{
    truth_words();
    if lt is Ok {
        let (x, y) = (lt->Ok_0 == Value::of_bool(true), gt->Ok_0 == Value::of_bool(true));
        let (u, v) = (le->Ok_0 == Value::of_bool(true), ge->Ok_0 == Value::of_bool(true));
        assert(says(lt, x) && says(le, u) && says(gt, y) && says(ge, v));
    }
}

/// Equality and inequality are each other's contrary on all operands.
pub proof fn equality_and_inequality_are_contrary(
    heap: Heap,
    a: Value,
    b: Value,
    eq: Result<Value>,
    ne: Result<Value>,
)
    requires
        heap.wf(),
        call_ensures(Heap::compare, (&heap, Op::Eq, a, b), eq),
        call_ensures(Heap::compare, (&heap, Op::Ne, a, b), ne),
    ensures
        eq is Ok <==> ne is Ok,
        eq is Err ==> eq->Err_0@ == ne->Err_0@,
        says(eq, true) <==> says(ne, false),
        says(eq, false) <==> says(ne, true),
{
    truth_words();
}

/// A value that is no number is equal to itself.
pub proof fn objects_equal_themselves(heap: Heap, a: Value, r: Result<Value>)
    requires
        heap.wf(),
        !heap@.numeric(a),
        call_ensures(Heap::compare, (&heap, Op::Eq, a, a), r),
    ensures
        says(r, true),
{
    truth_words();
}

proof fn lemma_texts_alike(x: Seq<char>, y: Seq<char>, from: int, i: int)
    requires
        0 <= from <= i <= x.len(),
        i <= y.len(),
        forall|k: int| 0 <= k < i ==> x[k] == y[k],
    ensures
        text_relation(x, y, from) == text_relation(x, y, i),
    decreases i - from,
{
    if from < i {
        lemma_texts_alike(x, y, from + 1, i);
    }
}

/// Texts are ordered by the first characters that differ, else the shorter
/// one comes first; they are equal where they have the same characters.
pub proof fn texts_compare_by_their_characters(
    heap: Heap,
    op: Op,
    a: Value,
    b: Value,
    x: Seq<char>,
    y: Seq<char>,
    i: int,
    r: Result<Value>,
)
    requires
        heap.wf(),
        is_comparison(op),
        is_object(heap@, a, ObjectView::Str(x)),
        is_object(heap@, b, ObjectView::Str(y)),
        0 <= i <= x.len(),
        i <= y.len(),
        forall|k: int| 0 <= k < i ==> x[k] == y[k],
        i < x.len() && i < y.len() ==> x[i] != y[i],
        call_ensures(Heap::compare, (&heap, op, a, b), r),
    ensures
        i < x.len() && i < y.len() ==> says(r, holds(op, x[i] as int, y[i] as int)),
        i == x.len() || i == y.len() ==> says(r, holds(op, x.len() as int, y.len() as int)),
{
    truth_words();
    heap.lemma_view();
    lemma_object_word(heap@, a);
    lemma_object_word(heap@, b);
    lemma_texts_alike(x, y, 0, i);
    if x.len() == y.len() && i == x.len() {
        assert(x =~= y);
    }
    if i < x.len() && i < y.len() {
        assert(x != y);
    }
}

/// The immediate integers that items are.
pub open spec fn are_integers(items: Seq<Value>, numbers: Seq<int>) -> bool {
    items.len() == numbers.len() && forall|k: int|
        #![trigger items[k]]
        0 <= k < items.len() ==> items[k]@ == Meaning::Int(numbers[k])
}

proof fn lemma_same_integers(x: Value, y: Value, n: int)
    requires
        x@ == Meaning::Int(n),
        y@ == Meaning::Int(n),
    ensures
        x == y,
{
    let (a, b) = (x.0, y.0);
    assert(a == b) by (bit_vector)
        requires
            a & 7 == 1,
            b & 7 == 1,
            (a as i64) >> 3 == (b as i64) >> 3,
    ;
}

proof fn lemma_lists_alike(
    heap: Heap,
    x: Seq<Value>,
    y: Seq<Value>,
    n: Seq<int>,
    m: Seq<int>,
    depth: int,
    from: int,
    i: int,
)
    requires
        heap.wf(),
        depth <= 100,
        are_integers(x, n),
        are_integers(y, m),
        0 <= from <= i <= x.len(),
        i <= y.len(),
        forall|k: int| 0 <= k < i ==> n[k] == m[k],
    ensures
        heap@.all_equal(x, y, depth, from) == heap@.all_equal(x, y, depth, i),
        heap@.sequence_order(x, y, depth, from) == heap@.sequence_order(x, y, depth, i),
    decreases i - from,
{
    if from < i {
        assert(x[from]@ == Meaning::Int(n[from]) && y[from]@ == Meaning::Int(m[from]));
        lemma_same_integers(x[from], y[from], n[from]);
        lemma_lists_alike(heap, x, y, n, m, depth, from + 1, i);
    }
}

/// Lists of integers, and tuples of integers, are ordered by the first items
/// that differ, else the shorter one comes first; they are equal where they
/// have the same items.
pub proof fn sequences_compare_by_their_items(
    heap: Heap,
    op: Op,
    a: Value,
    b: Value,
    x: Seq<Value>,
    y: Seq<Value>,
    n: Seq<int>,
    m: Seq<int>,
    i: int,
    r: Result<Value>,
)
    requires
        heap.wf(),
        is_comparison(op),
        is_object(heap@, a, ObjectView::List(x)) && is_object(heap@, b, ObjectView::List(y)) || (
        is_object(heap@, a, ObjectView::Tuple(x)) && is_object(heap@, b, ObjectView::Tuple(y))),
        are_integers(x, n),
        are_integers(y, m),
        0 <= i <= n.len(),
        i <= m.len(),
        forall|k: int| 0 <= k < i ==> n[k] == m[k],
        i < n.len() && i < m.len() ==> n[i] != m[i],
        call_ensures(Heap::compare, (&heap, op, a, b), r),
    ensures
        i < n.len() && i < m.len() ==> says(r, holds(op, n[i], m[i])),
        i == n.len() || i == m.len() ==> says(r, holds(op, n.len() as int, m.len() as int)),
{
    truth_words();
    heap.lemma_view();
    lemma_object_word(heap@, a);
    lemma_object_word(heap@, b);
    crate::value::lemma_not_heap();
    lemma_lists_alike(heap, x, y, n, m, 1, 0, i);
    reveal_with_fuel(crate::heap::HeapView::equal, 2);
    reveal_with_fuel(crate::heap::HeapView::order, 2);
    reveal_with_fuel(crate::heap::HeapView::all_equal, 2);
    reveal_with_fuel(crate::heap::HeapView::sequence_order, 2);
    if i < n.len() && i < m.len() {
        assert(x[i]@ == Meaning::Int(n[i]) && y[i]@ == Meaning::Int(m[i]));
        assert(x[i] != y[i]);
        if x.len() != y.len() {
            assert(a != b);
        } else {
            assert(x != y);
        }
    }
}

/// Sequences of different lengths are unequal, whatever they hold; so are
/// objects of different types.
pub proof fn different_shapes_are_unequal(
    heap: Heap,
    a: Value,
    b: Value,
    r: Result<Value>,
)
    requires
        heap.wf(),
        ({
            ||| exists|x: Seq<Value>, y: Seq<Value>| #![auto]
                x.len() != y.len() && is_object(heap@, a, ObjectView::List(x)) && is_object(
                    heap@,
                    b,
                    ObjectView::List(y),
                )
            ||| exists|x: Seq<Value>, y: Seq<Value>| #![auto]
                x.len() != y.len() && is_object(heap@, a, ObjectView::Tuple(x)) && is_object(
                    heap@,
                    b,
                    ObjectView::Tuple(y),
                )
            ||| exists|x: Seq<Value>, y: Seq<Value>| #![auto]
                is_object(heap@, a, ObjectView::List(x)) && is_object(
                    heap@,
                    b,
                    ObjectView::Tuple(y),
                )
            ||| exists|x: Seq<char>, y: Seq<Value>| #![auto]
                is_object(heap@, a, ObjectView::Str(x)) && is_object(
                    heap@,
                    b,
                    ObjectView::List(y),
                )
        }),
        call_ensures(Heap::compare, (&heap, Op::Eq, a, b), r),
    ensures
        says(r, false),
{
    truth_words();
    heap.lemma_view();
    lemma_object_word(heap@, a);
    lemma_object_word(heap@, b);
}

/// Whether a range has a `k`th item.
pub open spec fn has_item(start: int, stop: int, step: int, k: int) -> bool {
    k >= 0 && if step > 0 {
        start + k * step < stop
    } else {
        start + k * step > stop
    }
}

/// Ranges are equal where they have the same items in the same order.
pub proof fn ranges_compare_by_their_items(
    heap: Heap,
    a: Value,
    b: Value,
    x: (i64, i64, i64),
    y: (i64, i64, i64),
    r: Result<Value>,
)
    requires
        heap.wf(),
        is_object(heap@, a, ObjectView::Range { start: x.0, stop: x.1, step: x.2 }),
        is_object(heap@, b, ObjectView::Range { start: y.0, stop: y.1, step: y.2 }),
        call_ensures(Heap::compare, (&heap, Op::Eq, a, b), r),
    ensures
        says(
            r,
            forall|k: int|
                #![trigger has_item(x.0 as int, x.1 as int, x.2 as int, k)]
                #![trigger has_item(y.0 as int, y.1 as int, y.2 as int, k)]
                has_item(x.0 as int, x.1 as int, x.2 as int, k) == has_item(
                    y.0 as int,
                    y.1 as int,
                    y.2 as int,
                    k,
                ) && (has_item(x.0 as int, x.1 as int, x.2 as int, k) ==> x.0 + k * x.2 == y.0 + k
                    * y.2),
        ),
{
    truth_words();
    heap.lemma_view();
    lemma_object_word(heap@, a);
    lemma_object_word(heap@, b);
    let (p, q) = ((x.0 as int, x.1 as int, x.2 as int), (y.0 as int, y.1 as int, y.2 as int));
    let (n, m) = (
        crate::hashing::range_count(p.0, p.1, p.2),
        crate::hashing::range_count(q.0, q.1, q.2),
    );
    assert(p.2 != 0 && q.2 != 0);
    let alike = forall|k: int|
        #![trigger has_item(x.0 as int, x.1 as int, x.2 as int, k)]
        #![trigger has_item(y.0 as int, y.1 as int, y.2 as int, k)]
        has_item(x.0 as int, x.1 as int, x.2 as int, k) == has_item(
            y.0 as int,
            y.1 as int,
            y.2 as int,
            k,
        ) && (has_item(x.0 as int, x.1 as int, x.2 as int, k) ==> x.0 + k * x.2 == y.0 + k * y.2);
    assert forall|k: int| has_item(p.0, p.1, p.2, k) == (0 <= k < n) by {
        lemma_range_items(p.0, p.1, p.2, k);
    }
    assert forall|k: int| has_item(q.0, q.1, q.2, k) == (0 <= k < m) by {
        lemma_range_items(q.0, q.1, q.2, k);
    }
    lemma_range_items(p.0, p.1, p.2, 0);
    lemma_range_items(q.0, q.1, q.2, 0);
    if alike {
        if n < m {
            assert(has_item(q.0, q.1, q.2, n));
            assert(!has_item(p.0, p.1, p.2, n));
        }
        if m < n {
            assert(has_item(p.0, p.1, p.2, m));
            assert(!has_item(q.0, q.1, q.2, m));
        }
        if n > 0 {
            assert(has_item(p.0, p.1, p.2, 0));
            assert(p.0 + 0 * p.2 == q.0 + 0 * q.2);
        }
        if n > 1 {
            assert(has_item(p.0, p.1, p.2, 1));
            assert(p.0 + 1 * p.2 == q.0 + 1 * q.2);
        }
    }
    if crate::comparison::same_range(x, y) {
        assert forall|k: int| has_item(p.0, p.1, p.2, k) implies p.0 + k * p.2 == q.0 + k * q.2 by {
            if n == 1 {
                assert(k == 0);
                assert(0 * p.2 == 0 && 0 * q.2 == 0);
            }
        }
    }
    if a == b {
        assert(x == y);
    }
}

pub proof fn lemma_range_items(start: int, stop: int, step: int, k: int)
    requires
        step != 0,
    ensures
        has_item(start, stop, step, k) == (0 <= k < crate::hashing::range_count(start, stop, step)),
        crate::hashing::range_count(start, stop, step) >= 0,
{
    if k >= 0 {
        crate::hashing::range_count_counts(start, stop, step, k);
    }
    crate::hashing::range_count_counts(start, stop, step, 0);
}

} // verus!
