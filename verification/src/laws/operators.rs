//! The methods that operators ask for.
use vstd::prelude::*;
use crate::calls::operators::{answer_binary_protocol, method_names};
use crate::calls::state::{
    BinaryCandidate, BinaryCompletion, BinaryProtocol, Continuation, Step, TruthAction, UnaryProtocolKind,
};
use crate::diagnostic::{Fault, Result};
use crate::heap::{Heap, HeapView};
use crate::laws::comparing::{holds, is_comparison};
use crate::laws::{leads_nowhere, leads_to, lemma_leads, lemma_object_word};
use crate::lookup::DescriptorCall;
use crate::op::{base_binary_op, Op};
use crate::value::Value;

verus! {

/// The word in the names of an arithmetic operator's methods.
pub open spec fn word(op: Op) -> Option<Seq<char>> {
    match op {
        Op::Add | Op::InplaceAdd => Some("add"@),
        Op::Sub | Op::InplaceSub => Some("sub"@),
        Op::Mul | Op::InplaceMul => Some("mul"@),
        Op::Div | Op::InplaceDiv => Some("truediv"@),
        Op::FloorDiv | Op::InplaceFloorDiv => Some("floordiv"@),
        Op::Mod | Op::InplaceMod => Some("mod"@),
        Op::Pow | Op::InplacePow => Some("pow"@),
        Op::BitOr | Op::InplaceBitOr => Some("or"@),
        Op::BitXor | Op::InplaceBitXor => Some("xor"@),
        Op::BitAnd | Op::InplaceBitAnd => Some("and"@),
        Op::LeftShift | Op::InplaceLeftShift => Some("lshift"@),
        Op::RightShift | Op::InplaceRightShift => Some("rshift"@),
        _ => None,
    }
}

/// Whether an operator is an augmented assignment.
pub open spec fn is_augmented(op: Op) -> bool {
    match op {
        Op::InplaceAdd | Op::InplaceSub | Op::InplaceMul | Op::InplaceDiv | Op::InplaceFloorDiv | Op::InplaceMod | Op::InplacePow | Op::InplaceBitOr | Op::InplaceBitXor | Op::InplaceBitAnd | Op::InplaceLeftShift | Op::InplaceRightShift => true,
        _ => false,
    }
}

/// The names of the methods of an operator: of its augmented assignment, of
/// the left operand, and of the right one.
pub type MethodNames = Option<(Option<&'static str>, &'static str, &'static str)>;

/// The method of the left operand is named by the operator's word, the
/// reflected one with an `r` before it, and that of an augmented assignment
/// with an `i` before it.
pub proof fn arithmetic_methods_are_named_by_word(op: Op, x: Seq<char>, r: MethodNames)
    requires
        word(op) == Some(x),
        call_ensures(method_names, (op,), r),
    ensures
        match r {
            Some((own, direct, reflected)) => {
                &&& direct@ == "__"@ + x + "__"@
                &&& reflected@ == "__r"@ + x + "__"@
                &&& match own {
                    Some(name) => is_augmented(op) && name@ == "__i"@ + x + "__"@,
                    None => !is_augmented(op),
                }
            },
            None => false,
        },
{
    reveal_strlit("__");
    reveal_strlit("__r");
    reveal_strlit("__i");
    reveal_strlit("add");
    reveal_strlit("__add__");
    reveal_strlit("__radd__");
    reveal_strlit("__iadd__");
    reveal_strlit("sub");
    reveal_strlit("__sub__");
    reveal_strlit("__rsub__");
    reveal_strlit("__isub__");
    reveal_strlit("mul");
    reveal_strlit("__mul__");
    reveal_strlit("__rmul__");
    reveal_strlit("__imul__");
    reveal_strlit("truediv");
    reveal_strlit("__truediv__");
    reveal_strlit("__rtruediv__");
    reveal_strlit("__itruediv__");
    reveal_strlit("floordiv");
    reveal_strlit("__floordiv__");
    reveal_strlit("__rfloordiv__");
    reveal_strlit("__ifloordiv__");
    reveal_strlit("mod");
    reveal_strlit("__mod__");
    reveal_strlit("__rmod__");
    reveal_strlit("__imod__");
    reveal_strlit("pow");
    reveal_strlit("__pow__");
    reveal_strlit("__rpow__");
    reveal_strlit("__ipow__");
    reveal_strlit("or");
    reveal_strlit("__or__");
    reveal_strlit("__ror__");
    reveal_strlit("__ior__");
    reveal_strlit("xor");
    reveal_strlit("__xor__");
    reveal_strlit("__rxor__");
    reveal_strlit("__ixor__");
    reveal_strlit("and");
    reveal_strlit("__and__");
    reveal_strlit("__rand__");
    reveal_strlit("__iand__");
    reveal_strlit("lshift");
    reveal_strlit("__lshift__");
    reveal_strlit("__rlshift__");
    reveal_strlit("__ilshift__");
    reveal_strlit("rshift");
    reveal_strlit("__rshift__");
    reveal_strlit("__rrshift__");
    reveal_strlit("__irshift__");
}

/// What a comparison method of a name asks of two integers.
pub open spec fn method_holds(name: Seq<char>, n: int, m: int) -> Option<bool> {
    if name == "__eq__"@ {
        Some(n == m)
    } else if name == "__ne__"@ {
        Some(n != m)
    } else if name == "__lt__"@ {
        Some(n < m)
    } else if name == "__le__"@ {
        Some(n <= m)
    } else if name == "__gt__"@ {
        Some(n > m)
    } else if name == "__ge__"@ {
        Some(n >= m)
    } else {
        None
    }
}

/// A comparison asks the left operand for the method of its name, and the
/// right one for that which says the same with the operands swapped.
pub proof fn comparison_methods_are_mirrored(op: Op, n: int, m: int, r: MethodNames)
    requires
        is_comparison(op),
        call_ensures(method_names, (op,), r),
    ensures
        match r {
            Some((own, direct, reflected)) => {
                &&& own is None
                &&& method_holds(direct@, n, m) == Some(holds(op, n, m))
                &&& method_holds(reflected@, m, n) == Some(holds(op, n, m))
            },
            None => false,
        },
{
    reveal_strlit("__eq__");
    reveal_strlit("__ne__");
    reveal_strlit("__lt__");
    reveal_strlit("__le__");
    reveal_strlit("__gt__");
    reveal_strlit("__ge__");
    assert("__eq__"@[2] == 'e' && "__ne__"@[2] == 'n' && "__lt__"@[2] == 'l' && "__le__"@[2] == 'l'
        && "__gt__"@[2] == 'g' && "__ge__"@[2] == 'g');
    assert("__lt__"@[3] == 't' && "__le__"@[3] == 'e' && "__gt__"@[3] == 't' && "__ge__"@[3]
        == 'e');
}

/// The operators without methods of two operands have none.
pub proof fn other_operators_have_no_methods(
    op: Op,
    r: MethodNames,
)
    requires
        op == Op::Neg || op == Op::Pos || op == Op::Invert || op == Op::Not,
        call_ensures(method_names, (op,), r),
    ensures
        r is None,
{
}

/// An augmented assignment without a method of its own falls back to its
/// operator, and every other operator is its own.
pub proof fn augmented_operators_fall_back(op: Op, r: Op)
    requires
        call_ensures(base_binary_op, (op,), r),
    ensures
        op == Op::InplaceAdd ==> r == Op::Add,
        op == Op::InplaceSub ==> r == Op::Sub,
        op == Op::InplaceMul ==> r == Op::Mul,
        op == Op::InplaceDiv ==> r == Op::Div,
        op == Op::InplaceFloorDiv ==> r == Op::FloorDiv,
        op == Op::InplaceMod ==> r == Op::Mod,
        op == Op::InplacePow ==> r == Op::Pow,
        op == Op::InplaceBitOr ==> r == Op::BitOr,
        op == Op::InplaceBitXor ==> r == Op::BitXor,
        op == Op::InplaceBitAnd ==> r == Op::BitAnd,
        op == Op::InplaceLeftShift ==> r == Op::LeftShift,
        op == Op::InplaceRightShift ==> r == Op::RightShift,
        !is_augmented(op) ==> r == op,
{
}

/// Whether an object is an instance of a class whose line leads a name to a
/// function, or nowhere.
pub open spec fn has_method(
    heap: HeapView,
    value: Value,
    class: Value,
    name: Seq<char>,
    method: Option<Value>,
) -> bool {
    &&& heap.objects.dom().contains(value) && heap.objects[value] is Instance
    &&& heap.objects[value]->Instance_class == class
    &&& heap.objects.dom().contains(class) && heap.objects[class] is Class
    &&& match method {
        Some(f) => leads_to(heap, seq![class] + heap.objects[class]->Class_0.mro, 0, name, f)
            && heap.objects.dom().contains(f) && heap.objects[f] is Function,
        None => leads_nowhere(heap, seq![class] + heap.objects[class]->Class_0.mro, 0, name),
    }
}

proof fn lemma_method(
    heap: Heap,
    value: Value,
    class: Value,
    name: Seq<char>,
    method: Option<Value>,
)
    requires
        heap.wf(),
        has_method(heap@, value, class, name, method),
    ensures
        heap@.operator_method(value, name) == Ok::<Option<DescriptorCall>, Fault>(
            match method {
                Some(f) => Some(DescriptorCall { callable: f, receiver: Some(value) }),
                None => None,
            },
        ),
        heap@.protocol_capable(value),
{
    lemma_leads(heap@, seq![class] + heap@.objects[class]->Class_0.mro, 0, name);
}

/// An arithmetic operator on two instances asks the left one for its method
/// with the right one, then the right one for its reflected method with the
/// left one; the other way round where the right one's class descends from the
/// left one's. Where both are of one class, only the left one is asked.
pub proof fn operands_are_asked_in_turn(
    heap: Heap,
    op: Op,
    x: Seq<char>,
    operands: (Value, Value),
    classes: (Value, Value),
    direct: Value,
    reflected: Value,
    r: Result<Option<BinaryProtocol>>,
)
    requires
        heap.wf(),
        word(op) == Some(x),
        !is_augmented(op),
        has_method(heap@, operands.0, classes.0, "__"@ + x + "__"@, Some(direct)),
        has_method(heap@, operands.1, classes.1, "__r"@ + x + "__"@, Some(reflected)),
        call_ensures(Heap::binary_protocol, (&heap, op, operands, classes), r),
    ensures
        r matches Ok(Some(state)) && state.op == op && state.left == operands.0 && state.right
            == operands.1 && state.next == 0 && !state.negate_result && state.completion
            == BinaryCompletion::Value && ({
            let left = BinaryCandidate {
                call: DescriptorCall { callable: direct, receiver: Some(operands.0) },
                argument: operands.1,
                negate: false,
            };
            let right = BinaryCandidate {
                call: DescriptorCall { callable: reflected, receiver: Some(operands.1) },
                argument: operands.0,
                negate: false,
            };
            state.candidates@ == if classes.0 == classes.1 {
                seq![left]
            } else if heap@.objects[classes.1]->Class_0.mro.contains(classes.0) {
                seq![right, left]
            } else {
                seq![left, right]
            }
        }),
{
    let names = crate::calls::operators::operator_names(op);
    assert(names is Some);
    lemma_names(op, x);
    lemma_method(heap, operands.0, classes.0, "__"@ + x + "__"@, Some(direct));
    lemma_method(heap, operands.1, classes.1, "__r"@ + x + "__"@, Some(reflected));
}

proof fn lemma_names(op: Op, x: Seq<char>)
    requires
        word(op) == Some(x),
    ensures
        match crate::calls::operators::operator_names(op) {
            Some((own, direct, reflected)) => {
                &&& direct@ == "__"@ + x + "__"@
                &&& reflected@ == "__r"@ + x + "__"@
                &&& match own {
                    Some(name) => is_augmented(op) && name@ == "__i"@ + x + "__"@,
                    None => !is_augmented(op),
                }
            },
            None => false,
        },
{
    reveal_strlit("__");
    reveal_strlit("__r");
    reveal_strlit("__i");
    reveal_strlit("add");
    reveal_strlit("__add__");
    reveal_strlit("__radd__");
    reveal_strlit("__iadd__");
    reveal_strlit("sub");
    reveal_strlit("__sub__");
    reveal_strlit("__rsub__");
    reveal_strlit("__isub__");
    reveal_strlit("mul");
    reveal_strlit("__mul__");
    reveal_strlit("__rmul__");
    reveal_strlit("__imul__");
    reveal_strlit("truediv");
    reveal_strlit("__truediv__");
    reveal_strlit("__rtruediv__");
    reveal_strlit("__itruediv__");
    reveal_strlit("floordiv");
    reveal_strlit("__floordiv__");
    reveal_strlit("__rfloordiv__");
    reveal_strlit("__ifloordiv__");
    reveal_strlit("mod");
    reveal_strlit("__mod__");
    reveal_strlit("__rmod__");
    reveal_strlit("__imod__");
    reveal_strlit("pow");
    reveal_strlit("__pow__");
    reveal_strlit("__rpow__");
    reveal_strlit("__ipow__");
    reveal_strlit("or");
    reveal_strlit("__or__");
    reveal_strlit("__ror__");
    reveal_strlit("__ior__");
    reveal_strlit("xor");
    reveal_strlit("__xor__");
    reveal_strlit("__rxor__");
    reveal_strlit("__ixor__");
    reveal_strlit("and");
    reveal_strlit("__and__");
    reveal_strlit("__rand__");
    reveal_strlit("__iand__");
    reveal_strlit("lshift");
    reveal_strlit("__lshift__");
    reveal_strlit("__rlshift__");
    reveal_strlit("__ilshift__");
    reveal_strlit("rshift");
    reveal_strlit("__rshift__");
    reveal_strlit("__rrshift__");
    reveal_strlit("__irshift__");
}

/// An operator on an instance and a value without methods asks the instance,
/// whichever side it stands on.
pub proof fn lone_instances_are_asked(
    heap: Heap,
    op: Op,
    x: Seq<char>,
    instance: Value,
    plain: Value,
    classes: (Value, Value),
    method: Value,
    on_the_left: bool,
    r: Result<Option<BinaryProtocol>>,
)
    requires
        heap.wf(),
        word(op) == Some(x),
        !is_augmented(op),
        !(plain@ is Heap),
        classes.0 != classes.1,
        on_the_left ==> has_method(heap@, instance, classes.0, "__"@ + x + "__"@, Some(method)),
        on_the_left ==> call_ensures(
            Heap::binary_protocol,
            (&heap, op, (instance, plain), classes),
            r,
        ),
        !on_the_left ==> has_method(heap@, instance, classes.1, "__r"@ + x + "__"@, Some(method)),
        !on_the_left ==> call_ensures(
            Heap::binary_protocol,
            (&heap, op, (plain, instance), classes),
            r,
        ),
    ensures
        r matches Ok(Some(state)) && state.op == op && state.candidates@ == seq![
            BinaryCandidate {
                call: DescriptorCall { callable: method, receiver: Some(instance) },
                argument: plain,
                negate: false,
            },
        ],
{
    heap.lemma_view();
    lemma_names(op, x);
    assert(!heap@.objects.dom().contains(plain)) by {
        if heap@.objects.dom().contains(plain) {
            lemma_object_word(heap@, plain);
        }
    }
    if on_the_left {
        lemma_method(heap, instance, classes.0, "__"@ + x + "__"@, Some(method));
    } else {
        lemma_method(heap, instance, classes.1, "__r"@ + x + "__"@, Some(method));
    }
}

/// An augmented assignment asks the left operand for its own method first.
pub proof fn augmented_methods_come_first(
    heap: Heap,
    op: Op,
    x: Seq<char>,
    instance: Value,
    plain: Value,
    classes: (Value, Value),
    own: Value,
    direct: Value,
    r: Result<Option<BinaryProtocol>>,
)
    requires
        heap.wf(),
        word(op) == Some(x),
        is_augmented(op),
        !(plain@ is Heap),
        classes.0 != classes.1,
        has_method(heap@, instance, classes.0, "__i"@ + x + "__"@, Some(own)),
        has_method(heap@, instance, classes.0, "__"@ + x + "__"@, Some(direct)),
        call_ensures(Heap::binary_protocol, (&heap, op, (instance, plain), classes), r),
    ensures
        r matches Ok(Some(state)) && state.op == op && state.candidates@ == seq![
            BinaryCandidate {
                call: DescriptorCall { callable: own, receiver: Some(instance) },
                argument: plain,
                negate: false,
            },
            BinaryCandidate {
                call: DescriptorCall { callable: direct, receiver: Some(instance) },
                argument: plain,
                negate: false,
            },
        ],
{
    heap.lemma_view();
    lemma_names(op, x);
    assert(!heap@.objects.dom().contains(plain)) by {
        if heap@.objects.dom().contains(plain) {
            lemma_object_word(heap@, plain);
        }
    }
    lemma_method(heap, instance, classes.0, "__i"@ + x + "__"@, Some(own));
    lemma_method(heap, instance, classes.0, "__"@ + x + "__"@, Some(direct));
}

/// Inequality asks for the inequality method, then for the equality method,
/// whose answer counts the other way round.
pub proof fn inequality_falls_back_to_equality(
    heap: Heap,
    instance: Value,
    plain: Value,
    classes: (Value, Value),
    unequal: Option<Value>,
    equal: Value,
    r: Result<Option<BinaryProtocol>>,
)
    requires
        heap.wf(),
        !(plain@ is Heap),
        classes.0 != classes.1,
        has_method(heap@, instance, classes.0, "__ne__"@, unequal),
        has_method(heap@, instance, classes.0, "__eq__"@, Some(equal)),
        call_ensures(Heap::binary_protocol, (&heap, Op::Ne, (instance, plain), classes), r),
    ensures
        r matches Ok(Some(state)) && ({
            let last = BinaryCandidate {
                call: DescriptorCall { callable: equal, receiver: Some(instance) },
                argument: plain,
                negate: true,
            };
            state.candidates@ == match unequal {
                Some(f) => seq![
                    BinaryCandidate {
                        call: DescriptorCall { callable: f, receiver: Some(instance) },
                        argument: plain,
                        negate: false,
                    },
                    last,
                ],
                None => seq![last],
            }
        }),
{
    heap.lemma_view();
    assert(!heap@.objects.dom().contains(plain)) by {
        if heap@.objects.dom().contains(plain) {
            lemma_object_word(heap@, plain);
        }
    }
    lemma_method(heap, instance, classes.0, "__ne__"@, unequal);
    lemma_method(heap, instance, classes.0, "__eq__"@, Some(equal));
}

/// The method that a unary operator asks for.
pub open spec fn unary_word(kind: UnaryProtocolKind) -> Seq<char> {
    match kind {
        UnaryProtocolKind::Neg => "__neg__"@,
        UnaryProtocolKind::Pos => "__pos__"@,
        UnaryProtocolKind::Abs => "__abs__"@,
        UnaryProtocolKind::Invert => "__invert__"@,
    }
}

/// A unary operator on an instance calls the method of its name with no
/// further argument.
pub proof fn unary_methods_are_called(
    heap: &mut Heap,
    kind: UnaryProtocolKind,
    instance: Value,
    class: Value,
    method: Value,
    r: Result<Step>,
)
    requires
        old(heap).wf(),
        has_method(old(heap)@, instance, class, unary_word(kind), Some(method)),
        call_ensures(Heap::invoke_unary_protocol, (heap, instance, kind), r),
    ensures
        final(heap)@ == old(heap)@,
        r matches Ok(Step::Call { callable, arguments, then }) && callable == method
            && arguments@.receiver == Some(instance) && arguments@.positional.len() == 0
            && arguments@.keywords.len() == 0 && then
            == (Continuation::Unary { kind, value: instance }),
{
    lemma_method(*old(heap), instance, class, unary_word(kind), Some(method));
}

/// The answer of an operator's method is the operator's result, turned round
/// where it is asked to be; a method that does not answer leaves it to the
/// next one.
pub proof fn answers_are_taken(state: BinaryProtocol, value: Value, r: Step)
    requires
        call_ensures(answer_binary_protocol, (state, value), r),
    ensures
        value@ is NotImplemented ==> r == Step::Binary(state),
        !(value@ is NotImplemented) && state.completion is Value && !state.negate_result ==> r
            == Step::Done(value),
        !(value@ is NotImplemented) && state.completion is Value && state.negate_result ==> r
            == (Step::Truth { value, action: TruthAction::Not }),
        !(value@ is NotImplemented) && state.completion is Equality ==> r == (Step::Truth {
            value,
            action: TruthAction::Equality(state.completion->Equality_0),
        }),
{
    assert(6u64 & 7 == 6) by (bit_vector);
}

} // verus!
