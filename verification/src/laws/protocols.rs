//! How operators and attributes go through their protocols.
use vstd::prelude::*;
use crate::calls::state::{
    AttributeMissing,
    BinaryCompletion,
    BinaryProtocol,
    Continuation,
    EqualityAction,
    Step,
    UnaryProtocolKind,
};
use crate::diagnostic::Result;
use crate::heap::{Heap, HeapView};
use crate::laws::assigning::is_layout;
use crate::laws::classes::{is_class, is_instance, line};
use crate::laws::comparing::{holds, is_comparison};
use crate::laws::numbers::{lemma_operands, lemma_zero_word};
use crate::laws::{is_number, leads_nowhere, leads_to, lemma_leads, truth_words};
use crate::object::ObjectView;
use crate::op::Op;
use crate::value::{Meaning, Value};

verus! {

/// The methods of the operands are called one after the other, each with the
/// other operand; the answer goes back to the protocol, which stands at the
/// next method.
pub proof fn methods_are_called_in_turn(heap: &mut Heap, state: BinaryProtocol, r: Result<Step>)
    requires
        old(heap).wf(),
        state.next < state.candidates@.len(),
        call_ensures(Heap::continue_binary_protocol, (heap, state), r),
    ensures
        final(heap)@ == old(heap)@,
        r matches Ok(Step::Call { callable, arguments, then: Continuation::Binary(rest) }) && {
            let candidate = state.candidates@[state.next as int];
            &&& callable == candidate.call.callable
            &&& arguments@.receiver == candidate.call.receiver
            &&& arguments@.positional == seq![candidate.argument]
            &&& arguments@.keywords.len() == 0
            &&& rest.candidates == state.candidates
            &&& rest.next == state.next + 1
            &&& rest.negate_result == candidate.negate
            &&& rest.op == state.op
            &&& rest.left == state.left
            &&& rest.right == state.right
            &&& rest.completion == state.completion
        },
{
    let candidate = state.candidates@[state.next as int];
    let rest = BinaryProtocol {
        next: (state.next + 1) as usize,
        negate_result: candidate.negate,
        ..state
    };
    assert(crate::calls::calls(
        r,
        candidate.call,
        seq![candidate.argument],
        Continuation::Binary(rest),
    ));
    assert(state.candidates@.len() == state.candidates.len());
}

/// Whether a step gives back an integer, or there was no room for it.
pub open spec fn ends_with(before: HeapView, after: HeapView, r: Result<Step>, n: int) -> bool {
    match r {
        Ok(Step::Done(value)) => is_number(after, value, n) && before.objects.submap_of(
            after.objects,
        ),
        Ok(_) => false,
        Err(error) => before.room == 0 && error@.kind == "MemoryError"@ && after == before,
    }
}

/// Where no method is left, the operands themselves decide: integers are
/// compared and computed with, an augmented operator as its plain one, and
/// equality falls back.
pub proof fn operands_decide_in_the_end(
    heap: &mut Heap,
    state: BinaryProtocol,
    n: int,
    m: int,
    r: Result<Step>,
)
    requires
        old(heap).wf(),
        state.next >= state.candidates@.len(),
        call_ensures(Heap::continue_binary_protocol, (heap, state), r),
    ensures
        state.completion matches BinaryCompletion::Equality(action) ==> final(heap)@ == old(heap)@
            && r == Ok::<Step, crate::diagnostic::Diagnostic>(
            Step::EqualityFallback { left: state.left, right: state.right, action },
        ),
        state.completion is Value && is_number(old(heap)@, state.left, n) && is_number(
            old(heap)@,
            state.right,
            m,
        ) ==> {
            &&& is_comparison(state.op) ==> final(heap)@ == old(heap)@ && (r matches Ok(
                Step::Done(answer),
            ) && answer@ == Meaning::Bool(holds(state.op, n, m)))
            &&& state.op == Op::Add || state.op == Op::InplaceAdd ==> ends_with(
                old(heap)@,
                final(heap)@,
                r,
                n + m,
            )
            &&& state.op == Op::Sub || state.op == Op::InplaceSub ==> ends_with(
                old(heap)@,
                final(heap)@,
                r,
                n - m,
            )
            &&& state.op == Op::Mul || state.op == Op::InplaceMul ==> ends_with(
                old(heap)@,
                final(heap)@,
                r,
                n * m,
            )
        },
{
    old(heap).lemma_view();
    truth_words();
    crate::value::lemma_not_heap();
    if is_number(old(heap)@, state.left, n) && is_number(old(heap)@, state.right, m) {
        lemma_operands(*old(heap), state.left, state.right, n, m);
    }
}

/// A value equals itself without being asked.
pub proof fn values_equal_themselves(
    heap: Heap,
    value: Value,
    classes: (Value, Value),
    action: EqualityAction,
    r: Result<Step>,
)
    requires
        heap.wf(),
        call_ensures(Heap::invoke_equality, (&heap, value, value, classes, action), r),
    ensures
        r == Ok::<Step, crate::diagnostic::Diagnostic>(
            Step::CompleteEquality { equal: true, action },
        ),
{
}

/// A unary operator takes the method's answer, or acts on the integer where
/// the method does not answer.
pub proof fn unary_answers_count(
    heap: &mut Heap,
    answer: Value,
    kind: UnaryProtocolKind,
    value: Value,
    n: int,
    r: Result<Step>,
)
    requires
        old(heap).wf(),
        call_ensures(Heap::finish_unary, (heap, answer, kind, value), r),
    ensures
        !(answer@ is NotImplemented) ==> final(heap)@ == old(heap)@ && r == Ok::<
            Step,
            crate::diagnostic::Diagnostic,
        >(Step::Done(answer)),
        answer@ is NotImplemented && is_number(old(heap)@, value, n) ==> {
            &&& kind is Neg ==> ends_with(old(heap)@, final(heap)@, r, 0 - n)
            &&& kind is Pos ==> ends_with(old(heap)@, final(heap)@, r, n)
            &&& kind is Invert ==> ends_with(old(heap)@, final(heap)@, r, -1 - n)
            &&& kind is Abs ==> ends_with(
                old(heap)@,
                final(heap)@,
                r,
                if n < 0 {
                    -n
                } else {
                    n
                },
            )
        },
{
    old(heap).lemma_view();
    truth_words();
    crate::value::lemma_not_heap();
    assert(6u64 & 7 == 6) by (bit_vector);
    lemma_zero_word();
    if is_number(old(heap)@, value, n) {
        lemma_operands(*old(heap), value, value, n, n);
        lemma_operands(*old(heap), value, Value::zero(), n, 0);
    }
}

/// Whether nothing of an instance's class has a say in a name.
pub open spec fn is_plain(heap: HeapView, owner: Value, class: Value, name: Seq<char>) -> bool {
    &&& is_instance(heap, owner, class)
    &&& is_class(heap, class)
    &&& leads_nowhere(heap, line(heap, class), 0, name)
    &&& !is_layout(name)
}

/// Reading an attribute that only the instance has gives it; where it is
/// missing, and the class does not stand in for it, the reading fails, gives
/// the default or says so, as was asked.
pub proof fn plain_attributes_are_read(
    heap: &mut Heap,
    owner: Value,
    class: Value,
    name: &str,
    missing: AttributeMissing,
    held: Option<Value>,
    r: Result<Step>,
)
    requires
        old(heap).wf(),
        is_plain(old(heap)@, owner, class, name@),
        leads_nowhere(old(heap)@, line(old(heap)@, class), 0, "__getattribute__"@),
        leads_nowhere(old(heap)@, line(old(heap)@, class), 0, "__getattr__"@),
        call_ensures(Heap::own_attribute, (old(heap), owner, name), held),
        call_ensures(Heap::invoke_attribute_get, (heap, owner, name, missing), r),
    ensures
        final(heap)@ == old(heap)@,
        match (held, missing) {
            (Some(value), AttributeMissing::HasAttr) => r matches Ok(Step::Done(answer)) && answer@
                == Meaning::Bool(true),
            (Some(value), _) => r matches Ok(Step::Done(answer)) && answer == value,
            (None, AttributeMissing::HasAttr) => r matches Ok(Step::Done(answer)) && answer@
                == Meaning::Bool(false),
            (None, AttributeMissing::Default(value)) => r matches Ok(Step::Done(answer)) && answer
                == value,
            (None, AttributeMissing::Raise) => r is Err && r->Err_0@.kind == "AttributeError"@,
        },
{
    old(heap).lemma_view();
    truth_words();
    crate::laws::assigning::lemma_layout(name@);
    let all = line(old(heap)@, class);
    lemma_leads(old(heap)@, all, 0, name@);
    lemma_leads(old(heap)@, all, 0, "__getattribute__"@);
    lemma_leads(old(heap)@, all, 0, "__getattr__"@);
}

/// A missing attribute of an instance whose class has `__getattr__` is asked
/// of that, by name.
pub proof fn missing_attributes_are_asked_for(
    heap: &mut Heap,
    owner: Value,
    class: Value,
    name: &str,
    missing: AttributeMissing,
    method: Value,
    r: Result<Step>,
)
    requires
        old(heap).wf(),
        is_plain(old(heap)@, owner, class, name@),
        leads_nowhere(old(heap)@, line(old(heap)@, class), 0, "__getattribute__"@),
        leads_to(old(heap)@, line(old(heap)@, class), 0, "__getattr__"@, method),
        old(heap)@.objects.dom().contains(method),
        old(heap)@.objects[method] is Function,
        old(heap)@.attribute(owner, name@) is None,
        call_ensures(Heap::invoke_attribute_get, (heap, owner, name, missing), r),
    ensures
        match r {
            Ok(Step::Call { callable, arguments, then }) => {
                &&& callable == method
                &&& arguments@.receiver == Some(owner)
                &&& arguments@.positional.len() == 1
                &&& final(heap)@.objects == old(heap)@.objects.insert(
                    arguments@.positional[0],
                    ObjectView::Str(name@),
                )
                &&& then is Attribute
            },
            Ok(_) => false,
            Err(error) => old(heap)@.room == 0 && error@.kind == "MemoryError"@,
        },
{
    old(heap).lemma_view();
    crate::laws::assigning::lemma_layout(name@);
    let all = line(old(heap)@, class);
    lemma_leads(old(heap)@, all, 0, name@);
    lemma_leads(old(heap)@, all, 0, "__getattribute__"@);
    lemma_leads(old(heap)@, all, 0, "__getattr__"@);
}

/// Setting an attribute that nothing manages stores it in the instance, and
/// deleting it takes it away again.
pub proof fn plain_attributes_are_set_and_deleted(
    heap: &mut Heap,
    other: &mut Heap,
    owner: Value,
    class: Value,
    name: &str,
    value: Value,
    r: Result<Step>,
    s: Result<Step>,
)
    requires
        old(heap).wf(),
        old(other).wf(),
        old(other)@ == old(heap)@,
        is_plain(old(heap)@, owner, class, name@),
        !old(heap)@.objects[class]->Class_0.root,
        leads_nowhere(old(heap)@, line(old(heap)@, class), 0, "__setattr__"@),
        leads_nowhere(old(heap)@, line(old(heap)@, class), 0, "__delattr__"@),
        call_ensures(Heap::invoke_attribute_set, (heap, owner, name, value), r),
        call_ensures(Heap::invoke_attribute_delete, (other, owner, name), s),
    ensures
        r is Ok,
        final(heap)@.attribute(owner, name@) == Some(value),
        old(heap)@.attribute(owner, name@) is Some ==> s is Ok && final(other)@.attribute(
            owner,
            name@,
        ) is None,
        old(heap)@.attribute(owner, name@) is None ==> s is Err && s->Err_0@.kind
            == "AttributeError"@ && final(other)@ == old(heap)@,
{
    old(heap).lemma_view();
    crate::laws::assigning::lemma_layout(name@);
    let all = line(old(heap)@, class);
    lemma_leads(old(heap)@, all, 0, name@);
    lemma_leads(old(heap)@, all, 0, "__setattr__"@);
    lemma_leads(old(heap)@, all, 0, "__delattr__"@);
}

} // verus!
