//! Truth, equality and order, step by step.
use vstd::prelude::*;
use crate::calls::equality::{apply_truth, begin_equality_sequence, continue_sequence_order};
use crate::calls::state::{
    Continuation, DictOperationKind, EqualityAction, SequenceOrder, Step, TruthAction,
    TruthProtocol, PROTOCOL_NESTING_LIMIT,
};
use crate::diagnostic::Result;
use crate::float::{fixed, is_finite, is_nan};
use crate::heap::Heap;
use crate::laws::comparing::{has_item, holds};
use crate::laws::operators::has_method;
use crate::laws::{is_number, is_object, lemma_leads, lemma_object_word, stores, truth_words};
use crate::object::ObjectView;
use crate::op::Op;
use crate::value::{Meaning, Value};

verus! {

/// Numbers count as true where they are not zero, containers where they have
/// an item, nothing as false, and other objects as true.
pub proof fn truth_is_not_being_zero_or_empty(
    heap: Heap,
    value: Value,
    n: int,
    object: ObjectView,
    r: Result<bool>,
)
    requires
        heap.wf(),
        call_ensures(Heap::truth, (&heap, value), r),
    ensures
        is_number(heap@, value, n) ==> (r matches Ok(truth) && truth == (n != 0)),
        value@ is Nothing ==> (r matches Ok(truth) && !truth),
        value@ is NotImplemented ==> r is Err && r->Err_0@.kind == "TypeError"@,
        stores(heap@, value, object) ==> match object {
            ObjectView::Int(n) => r matches Ok(truth) && truth == (n != 0),
            ObjectView::Float(x) => r matches Ok(truth) && (is_finite(x) ==> truth == (fixed(x)
                != 0)) && (is_nan(x) ==> truth),
            ObjectView::Str(text) => r matches Ok(truth) && truth == (text.len() > 0),
            ObjectView::List(items) => r matches Ok(truth) && truth == (items.len() > 0),
            ObjectView::Tuple(items) => r matches Ok(truth) && truth == (items.len() > 0),
            ObjectView::Dict(dict) => r matches Ok(truth) && truth == (dict.entries.len() > 0),
            ObjectView::Range { start, stop, step } => r matches Ok(truth) && truth == has_item(
                start as int,
                stop as int,
                step as int,
                0,
            ),
            ObjectView::Function { .. } => r matches Ok(truth) && truth,
            ObjectView::Class(_) => r matches Ok(truth) && truth,
            _ => true,
        },
{
    heap.lemma_view();
    crate::value::lemma_not_heap();
    assert(4u64 & 7 == 4 && 6u64 & 7 == 6) by (bit_vector);
    if stores(heap@, value, object) {
        lemma_object_word(heap@, value);
        if let ObjectView::Range { start, stop, step } = object {
            assert(0 * (step as int) == 0);
        }
    }
}

/// A truth value ends in what it was wanted for: itself, its contrary, a jump
/// that is taken where it is as wanted, or an equality.
pub proof fn truth_is_applied(truth: bool, action: TruthAction, r: Step)
    requires
        call_ensures(apply_truth, (truth, action), r),
    ensures
        action is Not ==> (r matches Step::Done(value) && value@ == Meaning::Bool(!truth)),
        action is Return ==> (r matches Step::Done(value) && value@ == Meaning::Bool(truth)),
        action matches TruthAction::Jump { when, target, pc, original } ==> r == (Step::Branch {
            value: original,
            taken: if when {
                truth
            } else {
                !truth
            },
            target,
            pc,
        }),
        action matches TruthAction::Equality(next) ==> r == (Step::CompleteEquality {
            equal: truth,
            action: next,
        }),
{
    truth_words();
}

/// The truth of an instance is asked from `__bool__`, else from `__len__`.
pub proof fn instances_are_asked_for_their_truth(
    heap: Heap,
    value: Value,
    class: Value,
    asked: Option<Value>,
    length: Option<Value>,
    action: TruthAction,
    r: Result<Step>,
)
    requires
        heap.wf(),
        has_method(heap@, value, class, "__bool__"@, asked),
        has_method(heap@, value, class, "__len__"@, length),
        call_ensures(Heap::invoke_truth, (&heap, value, action), r),
    ensures
        asked matches Some(f) ==> (r matches Ok(Step::Call { callable, arguments, then })
            && callable == f && arguments@.receiver == Some(value) && arguments@.positional.len()
            == 0 && then == (Continuation::Truth { protocol: TruthProtocol::Bool, action })),
        asked is None ==> (length matches Some(f) ==> (r matches Ok(
            Step::Call { callable, arguments, then },
        ) && callable == f && arguments@.receiver == Some(value) && arguments@.positional.len()
            == 0 && then == (Continuation::Truth { protocol: TruthProtocol::Length, action }))),
{
    let all = seq![class] + heap@.objects[class]->Class_0.mro;
    lemma_leads(heap@, all, 0, "__bool__"@);
    lemma_leads(heap@, all, 0, "__len__"@);
}

/// What a truth method returned counts: a truth value as it is, a length where
/// it is not zero; a length below zero is refused.
pub proof fn truth_answers_count(
    heap: Heap,
    value: Value,
    protocol: TruthProtocol,
    action: TruthAction,
    n: int,
    r: Result<Step>,
)
    requires
        heap.wf(),
        call_ensures(Heap::finish_truth, (&heap, value, protocol, action), r),
    ensures
        protocol is Bool && value@ is Bool ==> (r matches Ok(
            Step::ApplyTruth { truth, action: next },
        ) && truth == value@->Bool_0 && next == action),
        protocol is Bool && !(value@ is Bool) ==> r is Err && r->Err_0@.kind == "TypeError"@,
        protocol is Length && is_number(heap@, value, n) && 0 <= n <= i64::MAX ==> (r matches Ok(
            Step::ApplyTruth { truth, action: next },
        ) && truth == (n != 0) && next == action),
        protocol is Length && is_number(heap@, value, n) && i64::MIN <= n < 0 ==> r is Err
            && r->Err_0@.kind == "ValueError"@,
{
    heap.lemma_view();
    crate::value::lemma_not_heap();
}

/// A length that a method returned is taken as it is.
pub proof fn lengths_are_checked(heap: Heap, value: Value, n: int, r: Result<i64>)
    requires
        heap.wf(),
        is_number(heap@, value, n),
        call_ensures(Heap::checked_length, (&heap, value), r),
    ensures
        0 <= n <= i64::MAX ==> (r matches Ok(length) && length == n),
        i64::MIN <= n < 0 ==> r is Err && r->Err_0@.kind == "ValueError"@,
        n < i64::MIN || n > i64::MAX ==> r is Err && r->Err_0@.kind == "OverflowError"@,
{
    heap.lemma_view();
    crate::value::lemma_not_heap();
}

/// Sequences are ordered by their items in turn; where one of them ends, by
/// their lengths.
pub proof fn order_goes_item_by_item(state: SequenceOrder, r: Step)
    requires
        state.op == Op::Lt || state.op == Op::Le || state.op == Op::Gt || state.op == Op::Ge,
        call_ensures(continue_sequence_order, (state,), r),
    ensures
        state.index < state.left@.len() && state.index < state.right@.len() ==> (r matches
            Step::Equality { left, right, action } && left == state.left@[state.index as int]
            && right == state.right@[state.index as int] && action
            == EqualityAction::SequenceOrder(state)),
        state.index >= state.left@.len() || state.index >= state.right@.len() ==> (r matches
            Step::Done(value) && value@ == Meaning::Bool(
            holds(state.op, state.left@.len() as int, state.right@.len() as int),
        )),
{
    truth_words();
}

/// A known equality goes where it was wanted: to the caller, to the next items
/// of two sequences as long as they are equal, to the order of the first items
/// that differ, or to the key that was looked for.
pub proof fn equality_goes_on(heap: Heap, equal: bool, action: EqualityAction, r: Result<Step>)
    requires
        heap.wf(),
        call_ensures(Heap::complete_equality, (&heap, equal, action), r),
    ensures
        action matches EqualityAction::Return { negate } ==> (r matches Ok(Step::Done(value))
            && value@ == Meaning::Bool(
            if negate {
                !equal
            } else {
                equal
            },
        )),
        action matches EqualityAction::Sequence { left, right, next, depth, outer } ==> {
            &&& !equal ==> (r matches Ok(Step::CompleteEquality { equal: answer, action: then })
                && !answer && then == *outer)
            &&& equal && next < left@.len() && next < right@.len() && next < usize::MAX ==> (r matches Ok(
                Step::Equality { left: a, right: b, action: then },
            ) && a == left@[next as int] && b == right@[next as int] && (then matches
                EqualityAction::Sequence {
                    left: x,
                    right: y,
                    next: n,
                    depth: d,
                    outer: o,
                } && x == left && y == right && n == next + 1 && d == depth && o == outer))
            &&& equal && (next >= left@.len() || next >= right@.len()) ==> (r matches Ok(
                Step::CompleteEquality { equal: answer, action: then },
            ) && answer && then == *outer)
        },
        action matches EqualityAction::SequenceOrder(state) ==> {
            &&& equal && state.index < usize::MAX ==> (r matches Ok(Step::SequenceOrder(next))
                && next.index == state.index + 1 && next.left == state.left && next.right
                == state.right && next.op == state.op && next.depth == state.depth)
            &&& !equal && state.depth < usize::MAX ==> (r matches Ok(
                Step::Order { left, right, op, depth },
            ) && left == state.left@[state.index as int] && right
                == state.right@[state.index as int] && op == state.op && depth == state.depth + 1)
        },
        action matches EqualityAction::DictCandidate { state, index } ==> {
            r is Ok ==> {
                &&& equal ==> r->Ok_0 == (Step::DictMatched { state: *state, matched: Some(index) })
                &&& !equal ==> r->Ok_0 == Step::DictCandidates(*state)
            }
        },
        action matches EqualityAction::DictEntries { left, right, entries, next, outer, .. } ==> {
            r is Ok ==> {
                &&& !equal ==> r->Ok_0 == (Step::CompleteEquality { equal: false, action: *outer })
                &&& equal && next >= entries@.len() ==> r->Ok_0 == (Step::CompleteEquality {
                    equal: true,
                    action: *outer,
                })
                &&& equal && next < entries@.len() ==> (r->Ok_0 matches Step::Dict(start)
                    && start.owner == right && start.key == entries@[next as int].0 && (
                start.kind matches DictOperationKind::CompareValue { expected, .. } && expected
                    == entries@[next as int].1))
            }
        },
{
    truth_words();
}

/// Sequences are unequal where their lengths differ, equal where they are
/// empty, and else compared from their first items on.
pub proof fn item_equality_begins(
    left: Vec<Value>,
    right: Vec<Value>,
    action: EqualityAction,
    r: Result<Step>,
)
    requires
        action.depth_of() < PROTOCOL_NESTING_LIMIT,
        call_ensures(begin_equality_sequence, (left, right, action), r),
    ensures
        left@.len() != right@.len() ==> (r matches Ok(
            Step::CompleteEquality { equal, action: then },
        ) && !equal && then == action),
        left@.len() == 0 && right@.len() == 0 ==> (r matches Ok(
            Step::CompleteEquality { equal, action: then },
        ) && equal && then == action),
        left@.len() == right@.len() && left@.len() > 0 ==> (r matches Ok(
            Step::Equality { left: a, right: b, action: then },
        ) && a == left@[0] && b == right@[0] && (then matches EqualityAction::Sequence {
            left: x,
            right: y,
            next,
            outer,
            ..
        } && x@ == left@ && y@ == right@ && next == 1 && *outer == action)),
{
}

/// Without methods, a value equals itself, texts are equal with the same
/// characters, sequences are compared by their items, dictionaries by their
/// entries, and values of different types are unequal.
pub proof fn equality_without_methods(
    heap: Heap,
    left: Value,
    right: Value,
    x: ObjectView,
    y: ObjectView,
    action: EqualityAction,
    r: Result<Step>,
)
    requires
        heap.wf(),
        is_object(heap@, left, x),
        is_object(heap@, right, y),
        action.depth_of() < PROTOCOL_NESTING_LIMIT,
        call_ensures(Heap::invoke_equality_fallback, (&heap, left, right, action), r),
    ensures
        left == right ==> (r matches Ok(Step::CompleteEquality { equal, action: then }) && equal
            && then == action),
        left != right ==> match (x, y) {
            (ObjectView::Str(s), ObjectView::Str(t)) => r matches Ok(
                Step::CompleteEquality { equal, action: then },
            ) && equal == (s == t) && then == action,
            (ObjectView::Int(n), ObjectView::Int(m)) => r matches Ok(
                Step::CompleteEquality { equal, action: then },
            ) && equal == (n == m) && then == action,
            (ObjectView::List(s), ObjectView::List(t)) => {
                &&& s.len() != t.len() ==> (r matches Ok(Step::CompleteEquality { equal, .. })
                    && !equal)
                &&& s.len() == t.len() && s.len() > 0 ==> (r matches Ok(
                    Step::Equality { left: a, right: b, .. },
                ) && a == s[0] && b == t[0])
            },
            (ObjectView::Tuple(s), ObjectView::Tuple(t)) => {
                &&& s.len() != t.len() ==> (r matches Ok(Step::CompleteEquality { equal, .. })
                    && !equal)
                &&& s.len() == t.len() && s.len() > 0 ==> (r matches Ok(
                    Step::Equality { left: a, right: b, .. },
                ) && a == s[0] && b == t[0])
            },
            (
                ObjectView::Slice { start: a, stop: b, step: c },
                ObjectView::Slice { start: d, stop: e, step: f },
            ) => r matches Ok(
                Step::Equality { left: u, right: v, action: EqualityAction::Sequence { left: s, right: t, .. } },
            ) && u == a && v == d && s@ == seq![a, b, c] && t@ == seq![d, e, f],
            (
                ObjectView::BoundMethod { function: f, receiver: a },
                ObjectView::BoundMethod { function: g, receiver: b },
            ) => r matches Ok(
                Step::Equality { left: u, right: v, action: EqualityAction::Sequence { left: s, right: t, .. } },
            ) && u == f && v == g && s@ == seq![f, a] && t@ == seq![g, b],
            (ObjectView::Dict(_), ObjectView::Dict(_)) => r matches Ok(
                Step::DictEqual { left: a, right: b, action: then },
            ) && a == left && b == right && then == action,
            (ObjectView::Str(_), ObjectView::List(_)) => r matches Ok(
                Step::CompleteEquality { equal, .. },
            ) && !equal,
            (ObjectView::List(_), ObjectView::Tuple(_)) => r matches Ok(
                Step::CompleteEquality { equal, .. },
            ) && !equal,
            (ObjectView::Class(_), ObjectView::Class(_)) => r matches Ok(
                Step::CompleteEquality { equal, .. },
            ) && !equal,
            _ => true,
        },
{
    heap.lemma_view();
    lemma_object_word(heap@, left);
    lemma_object_word(heap@, right);
    crate::value::lemma_not_heap();
}

/// Dictionaries with different counts of entries are unequal, empty ones are
/// equal, and others are compared by looking each key of the left one up in
/// the right one.
pub proof fn dictionary_equality_begins(
    heap: Heap,
    left: Value,
    right: Value,
    x: crate::dict::DictView,
    y: crate::dict::DictView,
    action: EqualityAction,
    r: Result<Step>,
)
    requires
        heap.wf(),
        is_object(heap@, left, ObjectView::Dict(x)),
        is_object(heap@, right, ObjectView::Dict(y)),
        action.depth_of() < PROTOCOL_NESTING_LIMIT,
        call_ensures(Heap::begin_dict_equality, (&heap, left, right, action), r),
    ensures
        x.entries.len() != y.entries.len() ==> (r matches Ok(
            Step::CompleteEquality { equal, action: then },
        ) && !equal && then == action),
        x.entries.len() == 0 && y.entries.len() == 0 ==> (r matches Ok(
            Step::CompleteEquality { equal, action: then },
        ) && equal && then == action),
        x.entries.len() == y.entries.len() && x.entries.len() > 0 ==> (r matches Ok(
            Step::Dict(start),
        ) && start.owner == right && start.key == x.entries[0].0 && (start.kind matches
            DictOperationKind::CompareValue { expected, .. } && expected == x.entries[0].1)),
{
}

/// Without methods, sequences are ordered from their first items on, and other
/// values at once.
pub proof fn order_without_methods_begins(
    heap: Heap,
    left: Value,
    right: Value,
    op: Op,
    depth: usize,
    r: Result<Step>,
)
    requires
        heap.wf(),
        depth <= PROTOCOL_NESTING_LIMIT,
        op == Op::Lt || op == Op::Le || op == Op::Gt || op == Op::Ge,
        call_ensures(Heap::order_without_methods, (&heap, left, right, op, depth), r),
    ensures
        forall|n: int, m: int| #[trigger]
            is_number(heap@, left, n) && #[trigger] is_number(heap@, right, m) ==> (r matches Ok(
                Step::Done(value),
            ) && value@ == Meaning::Bool(holds(op, n, m))),
        forall|x: Seq<Value>, y: Seq<Value>| #[trigger]
            is_object(heap@, left, ObjectView::List(x)) && #[trigger] is_object(
                heap@,
                right,
                ObjectView::List(y),
            ) ==> (r matches Ok(Step::SequenceOrder(state)) && state.left@ == x && state.right@ == y
                && state.index == 0 && state.op == op && state.depth == depth),
        forall|x: Seq<Value>, y: Seq<Value>| #[trigger]
            is_object(heap@, left, ObjectView::Tuple(x)) && #[trigger] is_object(
                heap@,
                right,
                ObjectView::Tuple(y),
            ) ==> (r matches Ok(Step::SequenceOrder(state)) && state.left@ == x && state.right@ == y
                && state.index == 0 && state.op == op && state.depth == depth),
{
    heap.lemma_view();
    truth_words();
    crate::value::lemma_not_heap();
}

} // verus!
