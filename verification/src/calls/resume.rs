//! What the result of a call leads to.
use vstd::prelude::*;
use crate::calls::access::{finish_attribute_success, get_view, missed, succeeded};
use crate::calls::collect::item_taken;
use crate::calls::conversion::{
    index_finished, index_in_range, index_ready, numeric_finished,
};
use crate::calls::dicts::{finish_dict_pair, pair_done, pair_item};
use crate::calls::hashes::hashed;
use crate::calls::known::continuation_known;
use crate::calls::operators::{answer_binary_protocol, unary_fallen};
use crate::calls::state::{
    ArgumentExpansion, BinaryCompletion, BinaryProtocol, Continuation, DictConstruction,
    DictPairConstruction, IndexContinuation, IterableCollection, Step, TruthAction, TruthProtocol,
};
use crate::calls::walk::is_kind;
use crate::calls::{goes, refuses, value_of};
use crate::diagnostic::{fault, Diagnostic, Fault, Result};
use crate::hashing::integer_hash;
use crate::heap::{Heap, HeapView};
use crate::storage::integer_made;
use crate::text::same;
use crate::value::{Meaning, Value};

verus! {

/// Whether a continuation can take a result.
pub open spec fn ready(then: Continuation) -> bool {
    match then {
        Continuation::Index(continuation) => index_ready(continuation),
        Continuation::DictPairItem(state) => state.outer.index < usize::MAX,
        _ => true,
    }
}

/// See [`ready`].
pub fn can_resume(then: &Continuation) -> (r: bool)
    ensures
        r == ready(*then),
{
    match then {
        Continuation::Index(continuation) => index_in_range(continuation),
        Continuation::DictPairItem(state) => state.outer.index < usize::MAX,
        _ => true,
    }
}

/// What a failed call leads to: the end of an iteration that says so, the
/// fallback of an attribute that is missing, or the failure.
pub open spec fn failed_call(
    before: HeapView,
    after: HeapView,
    result: core::result::Result<Step, Diagnostic>,
    then: Continuation,
    error: Fault,
) -> bool {
    let stopped = is_kind(error, "StopIteration");
    match then {
        Continuation::DictItem(state) if stopped => after == before && goes(
            result,
            Step::DictDone(state.start),
        ),
        Continuation::DictPairItem(state) if stopped => after == before && pair_done(
            result,
            state,
        ),
        Continuation::CollectItem(state) if stopped => after == before && goes(
            result,
            Step::Collected { kind: state.kind, items: state.items },
        ),
        Continuation::ExpandItem(state) if stopped => after == before && goes(
            result,
            Step::Expanded(state.resume_pc),
        ),
        Continuation::Attribute(Some(get)) if is_kind(error, "AttributeError") => missed(
            before,
            after,
            result,
            get@,
            error,
        ),
        _ => after == before && refuses(result, error),
    }
}

/// What the truth of a method's result leads to.
pub open spec fn truth_taken(
    heap: HeapView,
    result: core::result::Result<Step, Diagnostic>,
    value: Value,
    protocol: TruthProtocol,
    action: TruthAction,
) -> bool {
    match protocol {
        TruthProtocol::Bool => match value@ {
            Meaning::Bool(truth) => goes(result, Step::ApplyTruth { truth, action }),
            _ => refuses(result, fault("TypeError", "__bool__ should return bool")),
        },
        TruthProtocol::Length => if !heap.is_integer(value) {
            goes(
                result,
                Step::Index { source: value, continuation: IndexContinuation::Truth(action) },
            )
        } else {
            match heap.length_result(value) {
                Err(error) => refuses(result, error),
                Ok(n) => goes(result, Step::ApplyTruth { truth: n != 0, action }),
            }
        },
    }
}

/// What the length that a method returned leads to.
pub open spec fn length_taken(
    before: HeapView,
    after: HeapView,
    result: core::result::Result<Step, Diagnostic>,
    value: Value,
) -> bool {
    if before.is_integer(value) || value@ is Bool {
        match before.length_result(value) {
            Err(error) => after == before && refuses(result, error),
            Ok(n) => value_of(result) matches Some(made) && integer_made(before, after, n, made),
        }
    } else {
        after == before && goes(
            result,
            Step::Index { source: value, continuation: IndexContinuation::Length },
        )
    }
}

/// What a method of an operator returned, as a step.
pub open spec fn binary_answer(state: BinaryProtocol, value: Value) -> Step {
    if value == Value::not_implemented() {
        Step::Binary(state)
    } else {
        match state.completion {
            BinaryCompletion::Value => if state.negate_result {
                Step::Truth { value, action: TruthAction::Not }
            } else {
                Step::Done(value)
            },
            BinaryCompletion::Equality(action) => Step::Truth {
                value,
                action: TruthAction::Equality(action),
            },
        }
    }
}

/// What the value of a call leads to.
pub open spec fn returned(
    before: HeapView,
    after: HeapView,
    result: core::result::Result<Step, Diagnostic>,
    then: Continuation,
    value: Value,
) -> bool {
    match then {
        Continuation::Length => length_taken(before, after, result, value),
        Continuation::Truth { protocol, action } => after == before && truth_taken(
            before,
            result,
            value,
            protocol,
            action,
        ),
        Continuation::Index(continuation) => index_finished(
            before,
            after,
            result,
            value,
            continuation,
        ),
        Continuation::Numeric(state) => numeric_finished(before, after, result, value, state),
        Continuation::Unary { kind, value: operand } => if value == Value::not_implemented() {
            value_of(result) matches Some(made) && unary_fallen(
                before,
                after,
                made,
                kind,
                operand,
            )
        } else {
            after == before && goes(result, Step::Done(value))
        },
        Continuation::Hash(action) => after == before && if !before.is_integer(value) {
            refuses(result, fault("TypeError", "__hash__ method must return an integer"))
        } else {
            match before.integer(value) {
                Err(error) => refuses(result, error),
                Ok(n) => hashed(result, integer_hash(n), action),
            }
        },
        Continuation::DictPairIterator(outer) => after == before && (result matches Ok(
            Step::DictPairItems(state),
        ) && state.outer == outer && state.iterator == value && state.items@ == Seq::<
            Value,
        >::empty()),
        Continuation::DictPairItem(state) => after == before && pair_item(result, state, value),
        Continuation::Collect(kind) => after == before && (result matches Ok(
            Step::CollectItems(state),
        ) && state.kind == kind && state.iterator == value && state.items@ == Seq::<
            Value,
        >::empty()),
        Continuation::CollectItem(state) => item_taken(before, after, result, state, value),
        _ => after == before && goes(
            result,
            match then {
                Continuation::Binary(state) => binary_answer(state, value),
                Continuation::Attribute(get) => Step::Done(succeeded(value, get_view(get))),
                Continuation::Setter => Step::Done(Value::none()),
                Continuation::New { class, arguments } => Step::New {
                    class,
                    instance: value,
                    arguments,
                },
                Continuation::Initializer(instance) => Step::Done(instance),
                Continuation::DictIterable(start) => Step::DictItems(
                    DictConstruction { start, iterator: value, index: 0 },
                ),
                Continuation::DictItem(state) => Step::DictPair { outer: state, item: value },
                Continuation::DictPair(outer) => Step::DictPairIterator {
                    outer,
                    iterator: value,
                },
                Continuation::Expand(resume_pc) => Step::Expand(
                    ArgumentExpansion { iterator: value, resume_pc },
                ),
                Continuation::ExpandItem(state) => Step::ExpandItem { item: value, state },
                _ => Step::Done(value),
            },
        ),
    }
}

/// What the result of a call leads to.
pub open spec fn resumed(
    before: HeapView,
    after: HeapView,
    result: core::result::Result<Step, Diagnostic>,
    then: Continuation,
    outcome: core::result::Result<Value, Diagnostic>,
) -> bool {
    match outcome {
        Ok(value) => returned(before, after, result, then, value),
        Err(error) => failed_call(before, after, result, then, error@),
    }
}

impl Heap {
    /// Goes on with the result of a call.
    pub fn resume(&mut self, then: Continuation, outcome: Result<Value>) -> (r: Result<Step>)
        requires
            old(self).wf(),
            ready(then),
        ensures
            final(self).wf(),
            resumed(old(self)@, final(self)@, r, then, outcome),
            old(self)@.sound() && (outcome matches Ok(value) ==> old(self)@.known(value))
                && continuation_known(old(self)@, then) ==> final(self)@.sound(),
    {
        match outcome {
            Ok(value) => self.take_result(then, value),
            Err(error) => self.take_failure(then, error),
        }
    }

    fn take_failure(&mut self, then: Continuation, error: Diagnostic) -> (r: Result<Step>)
        requires
            old(self).wf(),
            ready(then),
        ensures
            final(self).wf(),
            failed_call(old(self)@, final(self)@, r, then, error@),
            old(self)@.sound() ==> final(self)@.sound(),
    {
        let stopped = same(error.kind, "StopIteration");
        match then {
            Continuation::DictItem(state) => {
                if stopped {
                    return Ok(Step::DictDone(state.start));
                }
                Err(error)
            },
            Continuation::DictPairItem(state) => {
                if stopped {
                    return finish_dict_pair(state);
                }
                Err(error)
            },
            Continuation::CollectItem(state) => {
                if stopped {
                    return Ok(Step::Collected { kind: state.kind, items: state.items });
                }
                Err(error)
            },
            Continuation::ExpandItem(state) => {
                if stopped {
                    return Ok(Step::Expanded(state.resume_pc));
                }
                Err(error)
            },
            Continuation::Attribute(Some(get)) => {
                if same(error.kind, "AttributeError") {
                    return self.continue_attribute_missing(get, error);
                }
                Err(error)
            },
            _ => Err(error),
        }
    }

    fn take_result(&mut self, then: Continuation, value: Value) -> (r: Result<Step>)
        requires
            old(self).wf(),
            ready(then),
        ensures
            final(self).wf(),
            returned(old(self)@, final(self)@, r, then, value),
            old(self)@.sound() && old(self)@.known(value) && continuation_known(old(self)@, then)
                ==> final(self)@.sound(),
    {
        match then {
            Continuation::Value => Ok(Step::Done(value)),
            Continuation::Length => self.finish_length(value),
            Continuation::Truth { protocol, action } => self.finish_truth(value, protocol, action),
            Continuation::Index(continuation) => self.finish_index_conversion(value, continuation),
            Continuation::Numeric(state) => self.finish_numeric_conversion(value, state),
            Continuation::Binary(state) => Ok(answer_binary_protocol(state, value)),
            Continuation::Unary { kind, value: operand } => self.finish_unary(
                value,
                kind,
                operand,
            ),
            Continuation::Hash(action) => self.finish_hash_result(value, action),
            Continuation::Attribute(get) => Ok(Step::Done(finish_attribute_success(value, &get))),
            Continuation::Setter => Ok(Step::Done(Value::none())),
            Continuation::New { class, arguments } => Ok(
                Step::New { class, instance: value, arguments },
            ),
            Continuation::Initializer(instance) => Ok(Step::Done(instance)),
            Continuation::DictIterable(start) => Ok(
                Step::DictItems(DictConstruction { start, iterator: value, index: 0 }),
            ),
            Continuation::DictItem(state) => Ok(Step::DictPair { outer: state, item: value }),
            Continuation::DictPair(outer) => Ok(Step::DictPairIterator { outer, iterator: value }),
            Continuation::DictPairIterator(outer) => Ok(
                Step::DictPairItems(
                    DictPairConstruction { outer, iterator: value, items: Vec::new() },
                ),
            ),
            Continuation::DictPairItem(state) => {
                let mut state = state;
                state.items.push(value);
                Ok(Step::DictPairItems(state))
            },
            Continuation::Collect(kind) => Ok(
                Step::CollectItems(IterableCollection { kind, iterator: value, items: Vec::new() }),
            ),
            Continuation::CollectItem(state) => self.take_item(state, value),
            Continuation::Expand(resume_pc) => Ok(
                Step::Expand(ArgumentExpansion { iterator: value, resume_pc }),
            ),
            Continuation::ExpandItem(state) => Ok(Step::ExpandItem { item: value, state }),
        }
    }
}

} // verus!
