//! Calls and protocols. What takes a call into guest or native code is handed
//! out as a step; its result comes back with the continuation it was given.
use vstd::prelude::*;
use crate::arithmetic::Computed;
use crate::calls::arguments::{ArgsView, ExpandedArgs};
use crate::calls::state::{Continuation, Step};
use crate::diagnostic::{Diagnostic, Fault, Result};
use crate::heap::{Heap, HeapView};
use crate::lookup::{DescriptorCall, Outcome};
use crate::object::ObjectView;
use crate::value::Value;

pub mod access;
pub mod arguments;
pub mod builtins;
pub mod collect;
pub mod construct;
pub mod conversion;
pub mod dicts;
pub mod equality;
pub mod expansion;
pub mod frames;
pub mod hashes;
pub mod initialize;
pub mod known;
pub mod literal;
pub mod operators;
pub mod perform;
pub mod print;
pub mod resume;
pub mod state;
pub mod target;
pub mod walk;

verus! {

/// Whether a step comes next.
pub open spec fn goes(result: core::result::Result<Step, Diagnostic>, step: Step) -> bool {
    result matches Ok(next) && next == step
}

/// Whether a call comes next.
pub open spec fn calls(
    result: core::result::Result<Step, Diagnostic>,
    call: DescriptorCall,
    positional: Seq<Value>,
    then: Continuation,
) -> bool {
    result matches Ok(Step::Call { callable, arguments, then: next }) && callable == call.callable
        && arguments@ == ArgsView::of(call.receiver, positional) && next == then
}

/// Whether a fault was answered.
pub open spec fn refuses<T>(result: core::result::Result<T, Diagnostic>, error: Fault) -> bool {
    result matches Err(found) && found@ == error
}

/// What a step that ends a protocol leaves: a value or a fault.
pub open spec fn value_of(result: core::result::Result<Step, Diagnostic>) -> Option<
    core::result::Result<Value, Diagnostic>,
> {
    match result {
        Ok(Step::Done(value)) => Some(Ok(value)),
        Ok(_) => None,
        Err(error) => Some(Err(error)),
    }
}

/// What a step that ends an arithmetic operation leaves: a value, a binary64
/// operation to perform, or a fault.
pub open spec fn computed_of(result: core::result::Result<Step, Diagnostic>) -> Option<
    core::result::Result<Computed, Diagnostic>,
> {
    match result {
        Ok(Step::Done(value)) => Some(Ok(Computed::Value(value))),
        Ok(Step::Float(request)) => Some(Ok(Computed::Float(request))),
        Ok(_) => None,
        Err(error) => Some(Err(error)),
    }
}

/// What was computed, as a step.
pub(crate) fn computed_step(computed: Computed) -> (r: Step)
    ensures
        r == match computed {
            Computed::Value(value) => Step::Done(value),
            Computed::Float(request) => Step::Float(request),
        },
{
    match computed {
        Computed::Value(value) => Step::Done(value),
        Computed::Float(request) => Step::Float(request),
    }
}

/// A call that goes to a continuation.
pub(crate) fn call_step(call: DescriptorCall, positional: Vec<Value>, then: Continuation) -> (r: Step)
    ensures
        r matches Step::Call { callable, arguments, then: next } && callable == call.callable
            && arguments@ == ArgsView::of(call.receiver, positional@) && next == then,
{
    Step::Call {
        callable: call.callable,
        arguments: ExpandedArgs::inline(call.receiver, positional),
        then,
    }
}

impl HeapView {
    /// The method that answers an operator: of the metaclass for a class, of
    /// the class for an instance.
    pub open spec fn operator_method(self, value: Value, name: Seq<char>) -> Outcome<
        Option<DescriptorCall>,
    > {
        if self.at(value) matches Some(ObjectView::Class(_)) {
            self.metaclass_method_call(value, name)
        } else {
            self.special_method_call(value, name)
        }
    }

    /// Whether a value may answer operators with methods.
    pub open spec fn protocol_capable(self, value: Value) -> bool {
        self.class_of(value) is Some || (self.at(value) matches Some(ObjectView::Class(_)))
    }
}

impl Heap {
    pub fn operator_method_call(&self, value: Value, name: &str) -> (r: Result<
        Option<DescriptorCall>,
    >)
        requires
            self.wf(),
        ensures
            crate::diagnostic::outcome(r) == self@.operator_method(value, name@),
    {
        if self.is_class(value) {
            self.metaclass_method_call(value, name)
        } else {
            self.special_method_call(value, name)
        }
    }

    pub fn operator_protocol_capable(&self, value: Value) -> (r: bool)
        requires
            self.wf(),
        ensures
            r == self@.protocol_capable(value),
    {
        self.class_of(value).is_some() || self.is_class(value)
    }
}

} // verus!
