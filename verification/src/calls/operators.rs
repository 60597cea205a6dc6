//! Binary and unary operators through protocols.
use vstd::prelude::*;
use crate::arithmetic::{binary_done, failed, unary_done};
use crate::calls::state::{
    BinaryCandidate, BinaryCompletion, BinaryProtocol, Continuation, EqualityAction, Step,
    TruthAction, UnaryProtocolKind,
};
use crate::calls::{call_step, calls, computed_of, computed_step, goes, refuses, value_of};
use crate::diagnostic::{Diagnostic, Result};
use crate::edges::contains;
use crate::float::unsigned;
use crate::heap::{Heap, HeapView};
use crate::iteration::inplace_added;
use crate::lookup::{DescriptorCall, Outcome};
use crate::namespaces::allocates;
use crate::object::{Object, ObjectView};
use crate::op::{base_binary_op, base_op, Op};
use crate::value::Value;

verus! {

/// The methods of an operator: of its augmented assignment, of the left
/// operand, and of the right one.
pub open spec fn operator_names(op: Op) -> Option<(Option<&'static str>, &'static str, &'static str)> {
    match op {
        Op::Add => Some((None, "__add__", "__radd__")),
        Op::InplaceAdd => Some((Some("__iadd__"), "__add__", "__radd__")),
        Op::Sub => Some((None, "__sub__", "__rsub__")),
        Op::InplaceSub => Some((Some("__isub__"), "__sub__", "__rsub__")),
        Op::Mul => Some((None, "__mul__", "__rmul__")),
        Op::InplaceMul => Some((Some("__imul__"), "__mul__", "__rmul__")),
        Op::Div => Some((None, "__truediv__", "__rtruediv__")),
        Op::InplaceDiv => Some((Some("__itruediv__"), "__truediv__", "__rtruediv__")),
        Op::FloorDiv => Some((None, "__floordiv__", "__rfloordiv__")),
        Op::InplaceFloorDiv => Some((Some("__ifloordiv__"), "__floordiv__", "__rfloordiv__")),
        Op::Mod => Some((None, "__mod__", "__rmod__")),
        Op::InplaceMod => Some((Some("__imod__"), "__mod__", "__rmod__")),
        Op::Pow => Some((None, "__pow__", "__rpow__")),
        Op::InplacePow => Some((Some("__ipow__"), "__pow__", "__rpow__")),
        Op::BitOr => Some((None, "__or__", "__ror__")),
        Op::InplaceBitOr => Some((Some("__ior__"), "__or__", "__ror__")),
        Op::BitXor => Some((None, "__xor__", "__rxor__")),
        Op::InplaceBitXor => Some((Some("__ixor__"), "__xor__", "__rxor__")),
        Op::BitAnd => Some((None, "__and__", "__rand__")),
        Op::InplaceBitAnd => Some((Some("__iand__"), "__and__", "__rand__")),
        Op::LeftShift => Some((None, "__lshift__", "__rlshift__")),
        Op::InplaceLeftShift => Some((Some("__ilshift__"), "__lshift__", "__rlshift__")),
        Op::RightShift => Some((None, "__rshift__", "__rrshift__")),
        Op::InplaceRightShift => Some((Some("__irshift__"), "__rshift__", "__rrshift__")),
        Op::Eq => Some((None, "__eq__", "__eq__")),
        Op::Ne => Some((None, "__ne__", "__ne__")),
        Op::Lt => Some((None, "__lt__", "__gt__")),
        Op::Le => Some((None, "__le__", "__ge__")),
        Op::Gt => Some((None, "__gt__", "__lt__")),
        Op::Ge => Some((None, "__ge__", "__le__")),
        _ => None,
    }
}

/// See [`operator_names`].
pub fn method_names(op: Op) -> (r: Option<(Option<&'static str>, &'static str, &'static str)>)
    ensures
        r == operator_names(op),
{
    match op {
        Op::Add => Some((None, "__add__", "__radd__")),
        Op::InplaceAdd => Some((Some("__iadd__"), "__add__", "__radd__")),
        Op::Sub => Some((None, "__sub__", "__rsub__")),
        Op::InplaceSub => Some((Some("__isub__"), "__sub__", "__rsub__")),
        Op::Mul => Some((None, "__mul__", "__rmul__")),
        Op::InplaceMul => Some((Some("__imul__"), "__mul__", "__rmul__")),
        Op::Div => Some((None, "__truediv__", "__rtruediv__")),
        Op::InplaceDiv => Some((Some("__itruediv__"), "__truediv__", "__rtruediv__")),
        Op::FloorDiv => Some((None, "__floordiv__", "__rfloordiv__")),
        Op::InplaceFloorDiv => Some((Some("__ifloordiv__"), "__floordiv__", "__rfloordiv__")),
        Op::Mod => Some((None, "__mod__", "__rmod__")),
        Op::InplaceMod => Some((Some("__imod__"), "__mod__", "__rmod__")),
        Op::Pow => Some((None, "__pow__", "__rpow__")),
        Op::InplacePow => Some((Some("__ipow__"), "__pow__", "__rpow__")),
        Op::BitOr => Some((None, "__or__", "__ror__")),
        Op::InplaceBitOr => Some((Some("__ior__"), "__or__", "__ror__")),
        Op::BitXor => Some((None, "__xor__", "__rxor__")),
        Op::InplaceBitXor => Some((Some("__ixor__"), "__xor__", "__rxor__")),
        Op::BitAnd => Some((None, "__and__", "__rand__")),
        Op::InplaceBitAnd => Some((Some("__iand__"), "__and__", "__rand__")),
        Op::LeftShift => Some((None, "__lshift__", "__rlshift__")),
        Op::InplaceLeftShift => Some((Some("__ilshift__"), "__lshift__", "__rlshift__")),
        Op::RightShift => Some((None, "__rshift__", "__rrshift__")),
        Op::InplaceRightShift => Some((Some("__irshift__"), "__rshift__", "__rrshift__")),
        Op::Eq => Some((None, "__eq__", "__eq__")),
        Op::Ne => Some((None, "__ne__", "__ne__")),
        Op::Lt => Some((None, "__lt__", "__gt__")),
        Op::Le => Some((None, "__le__", "__ge__")),
        Op::Gt => Some((None, "__gt__", "__lt__")),
        Op::Ge => Some((None, "__ge__", "__le__")),
        _ => None,
    }
}

/// The candidate that a method makes, if it is there.
pub open spec fn asked(call: Option<DescriptorCall>, argument: Value, negate: bool) -> Seq<
    BinaryCandidate,
> {
    match call {
        Some(call) => seq![BinaryCandidate { call, argument, negate }],
        None => Seq::empty(),
    }
}

/// The candidates that the methods of both operands make: the right one first
/// where its class descends from the other's.
pub open spec fn both_asked(
    left: Value,
    right: Value,
    left_call: Option<DescriptorCall>,
    right_call: Option<DescriptorCall>,
    right_first: bool,
    negate: bool,
) -> Seq<BinaryCandidate> {
    if right_first {
        asked(right_call, left, negate) + asked(left_call, right, negate)
    } else {
        asked(left_call, right, negate) + asked(right_call, left, negate)
    }
}

/// Appends the candidate that a method makes.
fn ask(
    candidates: &mut Vec<BinaryCandidate>,
    call: Option<DescriptorCall>,
    argument: Value,
    negate: bool,
)
    ensures
        final(candidates)@ == old(candidates)@ + asked(call, argument, negate),
{
    if let Some(call) = call {
        candidates.push(BinaryCandidate { call, argument, negate });
    }
    assert(candidates@ =~= old(candidates)@ + asked(call, argument, negate));
}

/// Appends the candidates that the methods of both operands make.
fn ask_both(
    candidates: &mut Vec<BinaryCandidate>,
    operands: (Value, Value),
    calls: (Option<DescriptorCall>, Option<DescriptorCall>),
    right_first: bool,
    negate: bool,
)
    ensures
        final(candidates)@ == old(candidates)@ + both_asked(
            operands.0,
            operands.1,
            calls.0,
            calls.1,
            right_first,
            negate,
        ),
{
    if right_first {
        ask(candidates, calls.1, operands.0, negate);
        ask(candidates, calls.0, operands.1, negate);
    } else {
        ask(candidates, calls.0, operands.1, negate);
        ask(candidates, calls.1, operands.0, negate);
    }
    assert(candidates@ =~= old(candidates)@ + both_asked(
        operands.0,
        operands.1,
        calls.0,
        calls.1,
        right_first,
        negate,
    ));
}

impl HeapView {
    /// The reflected method, which is not asked where both operands have one
    /// class.
    pub open spec fn reflected_method(self, right: Value, name: Seq<char>, alike: bool) -> Outcome<
        Option<DescriptorCall>,
    > {
        if alike {
            Ok(None)
        } else {
            self.operator_method(right, name)
        }
    }

    /// Whether a class descends from another that it is not.
    pub open spec fn descends(self, class: Value, ancestor: Value) -> bool {
        class != ancestor && (self.class_at(class) matches Ok(held) && held.mro.contains(ancestor))
    }

    /// The method of an augmented assignment.
    pub open spec fn inplace_method(self, left: Value, name: Option<&'static str>) -> Outcome<
        Option<DescriptorCall>,
    > {
        match name {
            Some(name) => self.operator_method(left, name@),
            None => Ok(None),
        }
    }

    /// The methods that are asked in turn for an operator.
    pub open spec fn binary_candidates(
        self,
        op: Op,
        left: Value,
        right: Value,
        left_class: Value,
        right_class: Value,
    ) -> Outcome<Seq<BinaryCandidate>> {
        let alike = left_class == right_class;
        let first = self.descends(right_class, left_class);
        if !self.protocol_capable(left) && !self.protocol_capable(right) {
            Ok(Seq::empty())
        } else {
            match operator_names(op) {
                None => Ok(Seq::empty()),
                Some((inplace, direct, reflected)) => match self.inplace_method(left, inplace) {
                    Err(error) => Err(error),
                    Ok(own) => match self.operator_method(left, direct@) {
                        Err(error) => Err(error),
                        Ok(left_call) => match self.reflected_method(right, reflected@, alike) {
                            Err(error) => Err(error),
                            Ok(right_call) => {
                                let asked = asked(own, right, false) + both_asked(
                                    left,
                                    right,
                                    left_call,
                                    right_call,
                                    first,
                                    false,
                                );
                                if op == Op::Ne {
                                    self.unequal_candidates(asked, left, right, first, alike)
                                } else {
                                    Ok(asked)
                                }
                            },
                        },
                    },
                },
            }
        }
    }

    /// The equality methods, whose answers are negated, behind other methods.
    pub open spec fn unequal_candidates(
        self,
        asked: Seq<BinaryCandidate>,
        left: Value,
        right: Value,
        first: bool,
        alike: bool,
    ) -> Outcome<Seq<BinaryCandidate>> {
        match self.operator_method(left, "__eq__"@) {
            Err(error) => Err(error),
            Ok(left_call) => match self.reflected_method(right, "__eq__"@, alike) {
                Err(error) => Err(error),
                Ok(right_call) => Ok(
                    asked + both_asked(left, right, left_call, right_call, first, true),
                ),
            },
        }
    }
}

/// What an operator does where no method answered.
pub open spec fn operator_done(
    before: HeapView,
    after: HeapView,
    result: core::result::Result<Step, Diagnostic>,
    op: Op,
    left: Value,
    right: Value,
) -> bool {
    match op {
        Op::InplaceAdd => computed_of(result) matches Some(computed) && if before.at(
            before.native(left),
        ) matches Some(ObjectView::List(_)) {
            inplace_added(before, after, computed, left, right)
        } else {
            binary_done(before, after, computed, Op::Add, left, right)
        },
        Op::Eq | Op::Ne | Op::Lt | Op::Le | Op::Gt | Op::Ge => after == before
            && match before.compared(op, left, right) {
            Err(error) => refuses(result, error),
            Ok(answer) => goes(result, Step::Done(Value::of_bool(answer))),
        },
        _ => computed_of(result) matches Some(computed) && binary_done(
            before,
            after,
            computed,
            base_op(op),
            left,
            right,
        ),
    }
}

/// The method of a unary operator.
pub open spec fn unary_name(kind: UnaryProtocolKind) -> &'static str {
    match kind {
        UnaryProtocolKind::Neg => "__neg__",
        UnaryProtocolKind::Pos => "__pos__",
        UnaryProtocolKind::Abs => "__abs__",
        UnaryProtocolKind::Invert => "__invert__",
    }
}

/// What a unary operator does where no method answered.
pub open spec fn unary_fallen(
    before: HeapView,
    after: HeapView,
    result: core::result::Result<Value, Diagnostic>,
    kind: UnaryProtocolKind,
    value: Value,
) -> bool {
    match kind {
        UnaryProtocolKind::Neg => unary_done(before, after, result, Op::Neg, value),
        UnaryProtocolKind::Pos => unary_done(before, after, result, Op::Pos, value),
        UnaryProtocolKind::Invert => unary_done(before, after, result, Op::Invert, value),
        UnaryProtocolKind::Abs => match before.at(before.native(value)) {
            Some(ObjectView::Float(bits)) => allocates(
                before,
                after,
                result,
                ObjectView::Float(unsigned(bits)),
            ),
            _ => match before.compared(Op::Lt, value, Value::zero()) {
                Err(error) => failed(before, after, result, error),
                Ok(below) => unary_done(
                    before,
                    after,
                    result,
                    if below {
                        Op::Neg
                    } else {
                        Op::Pos
                    },
                    value,
                ),
            },
        },
    }
}

/// Takes the answer of a method of an operator.
pub fn finish_binary_protocol_value(value: Value, negate: bool, completion: BinaryCompletion) -> (r:
    Step)
    ensures
        r == match completion {
            BinaryCompletion::Value => if negate {
                Step::Truth { value, action: TruthAction::Not }
            } else {
                Step::Done(value)
            },
            BinaryCompletion::Equality(action) => Step::Truth {
                value,
                action: TruthAction::Equality(action),
            },
        },
{
    match completion {
        BinaryCompletion::Value => if negate {
            Step::Truth { value, action: TruthAction::Not }
        } else {
            Step::Done(value)
        },
        BinaryCompletion::Equality(action) => Step::Truth {
            value,
            action: TruthAction::Equality(action),
        },
    }
}

/// Takes what a method of an operator returned: the answer, or that the next
/// one is to be asked.
pub fn answer_binary_protocol(state: BinaryProtocol, value: Value) -> (r: Step)
    ensures
        r == if value == Value::not_implemented() {
            Step::Binary(state)
        } else {
            match state.completion {
                BinaryCompletion::Value => if state.negate_result {
                    Step::Truth { value, action: TruthAction::Not }
                } else {
                    Step::Done(value)
                },
                BinaryCompletion::Equality(action) => Step::Truth {
                    value,
                    action: TruthAction::Equality(action),
                },
            }
        },
{
    if value == Value::not_implemented() {
        return Step::Binary(state);
    }
    finish_binary_protocol_value(value, state.negate_result, state.completion)
}

/// What comes next where methods are asked for an operator.
pub open spec fn protocol_continued(
    before: HeapView,
    after: HeapView,
    result: core::result::Result<Step, Diagnostic>,
    state: BinaryProtocol,
) -> bool {
    if state.next < state.candidates@.len() {
        let candidate = state.candidates@[state.next as int];
        &&& after == before
        &&& calls(
            result,
            candidate.call,
            seq![candidate.argument],
            Continuation::Binary(
                (BinaryProtocol {
                    next: (state.next + 1) as usize,
                    negate_result: candidate.negate,
                    ..state
                }),
            ),
        )
    } else {
        match state.completion {
            BinaryCompletion::Equality(action) => goes(
                result,
                Step::EqualityFallback { left: state.left, right: state.right, action },
            ) && after == before,
            BinaryCompletion::Value => operator_done(
                before,
                after,
                result,
                state.op,
                state.left,
                state.right,
            ),
        }
    }
}

impl Heap {
    /// The methods to ask for an operator, given the classes of its operands.
    pub fn binary_protocol(
        &self,
        op: Op,
        operands: (Value, Value),
        classes: (Value, Value),
    ) -> (r: Result<Option<BinaryProtocol>>)
        requires
            self.wf(),
        ensures
            match self@.binary_candidates(op, operands.0, operands.1, classes.0, classes.1) {
                Err(error) => refuses(r, error),
                Ok(candidates) => if candidates.len() == 0 {
                    r matches Ok(None)
                } else {
                    r matches Ok(Some(state)) && state.op == op && state.left == operands.0
                        && state.right == operands.1 && state.candidates@ == candidates
                        && state.next == 0 && !state.negate_result && state.completion
                        == BinaryCompletion::Value
                },
            },
    {
        let (left, right) = operands;
        let (left_class, right_class) = classes;
        if !self.operator_protocol_capable(left) && !self.operator_protocol_capable(right) {
            return Ok(None);
        }
        let (inplace, direct, reflected) = match method_names(op) {
            Some(names) => names,
            None => {
                return Ok(None);
            },
        };
        let mut candidates: Vec<BinaryCandidate> = Vec::new();
        assert(candidates@ =~= Seq::<BinaryCandidate>::empty());
        let own = match inplace {
            Some(name) => self.operator_method_call(left, name)?,
            None => None,
        };
        ask(&mut candidates, own, right, false);
        let left_call = self.operator_method_call(left, direct)?;
        let alike = left_class == right_class;
        let right_call = if alike {
            None
        } else {
            self.operator_method_call(right, reflected)?
        };
        let first = !alike && match self.class(right_class) {
            Ok(class) => contains(&class.mro, left_class),
            Err(_) => false,
        };
        ask_both(&mut candidates, operands, (left_call, right_call), first, false);
        assert(candidates@ =~= asked(own, right, false) + both_asked(
            left,
            right,
            left_call,
            right_call,
            first,
            false,
        ));
        if op == Op::Ne {
            let left_equal = self.operator_method_call(left, "__eq__")?;
            let right_equal = if alike {
                None
            } else {
                self.operator_method_call(right, "__eq__")?
            };
            ask_both(&mut candidates, operands, (left_equal, right_equal), first, true);
        }
        if candidates.len() == 0 {
            return Ok(None);
        }
        Ok(
            Some(
                BinaryProtocol {
                    op,
                    left,
                    right,
                    candidates,
                    next: 0,
                    negate_result: false,
                    completion: BinaryCompletion::Value,
                },
            ),
        )
    }

    /// Asks the next method of an operator, or applies the operator itself.
    pub fn continue_binary_protocol(&mut self, state: BinaryProtocol) -> (r: Result<Step>)
        requires
            old(self).wf(),
        ensures
            final(self).wf(),
            protocol_continued(old(self)@, final(self)@, r, state),
            old(self)@.sound() ==> final(self)@.sound(),
    {
        if state.next < state.candidates.len() {
            let mut state = state;
            let candidate = state.candidates[state.next];
            state.next = state.next + 1;
            state.negate_result = candidate.negate;
            let mut positional: Vec<Value> = Vec::new();
            positional.push(candidate.argument);
            assert(positional@ =~= seq![candidate.argument]);
            return Ok(call_step(candidate.call, positional, Continuation::Binary(state)));
        }
        match state.completion {
            BinaryCompletion::Equality(action) => Ok(
                Step::EqualityFallback { left: state.left, right: state.right, action },
            ),
            BinaryCompletion::Value => match state.op {
                Op::InplaceAdd => match self.inplace_add(state.left, state.right) {
                    Ok(computed) => Ok(computed_step(computed)),
                    Err(error) => Err(error),
                },
                Op::Eq | Op::Ne | Op::Lt | Op::Le | Op::Gt | Op::Ge => match self.compare(
                    state.op,
                    state.left,
                    state.right,
                ) {
                    Ok(answer) => Ok(Step::Done(answer)),
                    Err(error) => Err(error),
                },
                _ => match self.binary(base_binary_op(state.op), state.left, state.right) {
                    Ok(computed) => Ok(computed_step(computed)),
                    Err(error) => Err(error),
                },
            },
        }
    }

    /// Compares two values, by their methods first.
    pub fn invoke_equality(
        &self,
        left: Value,
        right: Value,
        classes: (Value, Value),
        action: EqualityAction,
    ) -> (r: Result<Step>)
        requires
            self.wf(),
        ensures
            if left == right {
                goes(r, Step::CompleteEquality { equal: true, action })
            } else {
                match self@.binary_candidates(Op::Eq, left, right, classes.0, classes.1) {
                    Err(error) => refuses(r, error),
                    Ok(candidates) => if candidates.len() == 0 {
                        goes(r, Step::EqualityFallback { left, right, action })
                    } else {
                        r matches Ok(Step::Binary(state)) && state.op == Op::Eq && state.left
                            == left && state.right == right && state.candidates@ == candidates
                            && state.next == 0 && !state.negate_result && state.completion
                            == BinaryCompletion::Equality(action)
                    },
                }
            },
    {
        if left == right {
            return Ok(Step::CompleteEquality { equal: true, action });
        }
        match self.binary_protocol(Op::Eq, (left, right), classes)? {
            Some(protocol) => {
                let mut protocol = protocol;
                protocol.completion = BinaryCompletion::Equality(action);
                Ok(Step::Binary(protocol))
            },
            None => Ok(Step::EqualityFallback { left, right, action }),
        }
    }

    /// Orders two values, by their methods first.
    pub fn invoke_order_comparison(
        &self,
        operands: (Value, Value),
        classes: (Value, Value),
        op: Op,
        depth: usize,
    ) -> (r: Result<Step>)
        requires
            self.wf(),
        ensures
            match self@.binary_candidates(op, operands.0, operands.1, classes.0, classes.1) {
                Err(error) => refuses(r, error),
                Ok(candidates) => if candidates.len() == 0 {
                    crate::calls::equality::ordered(self@, r, operands.0, operands.1, op, depth)
                } else {
                    r matches Ok(Step::Binary(state)) && state.op == op && state.left
                        == operands.0 && state.right == operands.1 && state.candidates@
                        == candidates && state.next == 0 && !state.negate_result
                        && state.completion == BinaryCompletion::Value
                },
            },
    {
        match self.binary_protocol(op, operands, classes)? {
            Some(protocol) => Ok(Step::Binary(protocol)),
            None => self.order_without_methods(operands.0, operands.1, op, depth),
        }
    }

    /// Applies a unary operator, by the operand's method first.
    pub fn invoke_unary_protocol(&mut self, value: Value, kind: UnaryProtocolKind) -> (r: Result<Step>)
        requires
            old(self).wf(),
        ensures
            final(self).wf(),
            unary_asked(old(self)@, final(self)@, r, value, kind),
            old(self)@.sound() ==> final(self)@.sound(),
    {
        if self.operator_protocol_capable(value) {
            let name = match kind {
                UnaryProtocolKind::Neg => "__neg__",
                UnaryProtocolKind::Pos => "__pos__",
                UnaryProtocolKind::Abs => "__abs__",
                UnaryProtocolKind::Invert => "__invert__",
            };
            if let Some(call) = self.operator_method_call(value, name)? {
                let none: Vec<Value> = Vec::new();
                assert(none@ =~= Seq::<Value>::empty());
                return Ok(call_step(call, none, Continuation::Unary { kind, value }));
            }
        }
        match self.unary_fallback(kind, value) {
            Ok(made) => Ok(Step::Done(made)),
            Err(error) => Err(error),
        }
    }

    /// Takes what a method of a unary operator returned.
    pub fn finish_unary(&mut self, result: Value, kind: UnaryProtocolKind, value: Value) -> (r: Result<
        Step,
    >)
        requires
            old(self).wf(),
        ensures
            final(self).wf(),
            if result == Value::not_implemented() {
                value_of(r) matches Some(made) && unary_fallen(
                    old(self)@,
                    final(self)@,
                    made,
                    kind,
                    value,
                )
            } else {
                goes(r, Step::Done(result)) && final(self)@ == old(self)@
            },
            old(self)@.sound() ==> final(self)@.sound(),
    {
        if result == Value::not_implemented() {
            return match self.unary_fallback(kind, value) {
                Ok(made) => Ok(Step::Done(made)),
                Err(error) => Err(error),
            };
        }
        Ok(Step::Done(result))
    }

    /// Applies a unary operator to the storage of a value.
    pub fn unary_fallback(&mut self, kind: UnaryProtocolKind, value: Value) -> (r: Result<Value>)
        requires
            old(self).wf(),
        ensures
            final(self).wf(),
            unary_fallen(old(self)@, final(self)@, r, kind, value),
            old(self)@.sound() ==> final(self)@.sound(),
    {
        match kind {
            UnaryProtocolKind::Neg => self.unary(Op::Neg, value),
            UnaryProtocolKind::Pos => self.unary(Op::Pos, value),
            UnaryProtocolKind::Invert => self.unary(Op::Invert, value),
            UnaryProtocolKind::Abs => {
                if let Some(Object::Float(bits)) = self.try_get(self.native_value(value)) {
                    let made = crate::float::without_sign(*bits);
                    return self.allocate(Object::Float(made));
                }
                if self.compare(Op::Lt, value, Value::zero())? == Value::bool(true) {
                    return self.unary(Op::Neg, value);
                }
                self.unary(Op::Pos, value)
            },
        }
    }
}

/// What a unary operator does, by the operand's method first.
pub open spec fn unary_asked(
    before: HeapView,
    after: HeapView,
    result: core::result::Result<Step, Diagnostic>,
    value: Value,
    kind: UnaryProtocolKind,
) -> bool {
    match before.unary_method(value, kind) {
        Err(error) => refuses(result, error) && after == before,
        Ok(Some(call)) => calls(
            result,
            call,
            Seq::empty(),
            Continuation::Unary { kind, value },
        ) && after == before,
        Ok(None) => value_of(result) matches Some(made) && unary_fallen(
            before,
            after,
            made,
            kind,
            value,
        ),
    }
}

impl HeapView {
    /// The method of a unary operator.
    pub open spec fn unary_method(self, value: Value, kind: UnaryProtocolKind) -> Outcome<
        Option<DescriptorCall>,
    > {
        if self.protocol_capable(value) {
            self.operator_method(value, unary_name(kind)@)
        } else {
            Ok(None)
        }
    }
}

} // verus!
