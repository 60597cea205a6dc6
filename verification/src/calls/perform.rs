//! Steps that the heap alone decides.
use vstd::prelude::*;
use crate::calls::access::{attribute_assigned, attribute_dropped, attribute_got};
use crate::calls::access::{default_delete, default_set, looked_up};
use crate::calls::builtins::type_called;
use crate::calls::collect::{collection_begun, collection_continued, collection_done};
use crate::calls::conversion::{
    builtin_finished, index_asked, index_in_range, index_ready, numeric_asked, range_continued,
    slice_continued,
};
use crate::calls::dicts::{
    construction_begun, construction_continued, construction_finished, continue_dict_merge,
    matched_done, merge_continued, operation_continued, pair_begun, pair_continued, pair_opened,
};
use crate::calls::equality::{
    apply_truth, continue_sequence_order, dict_equality_begun, equality_completed, fallback_taken,
    sequence_ordered, truth_applied, truth_asked,
};
use crate::calls::goes;
use crate::calls::hashes::{hash_asked, hash_completed, native_hash_asked};
use crate::calls::initialize::native_initialized;
use crate::calls::known::step_known;
use crate::calls::operators::protocol_continued;
use crate::calls::state::{
    EqualityAction, HashAction, RuntimeTypeKind, SequenceOrder, Step,
};
use crate::diagnostic::{Diagnostic, Result};
use crate::heap::{Heap, HeapView};
use crate::object::Builtin;

verus! {

/// Whether a step is left to the embedder, or is a result.
pub open spec fn is_settled(step: Step) -> bool {
    match step {
        Step::Done(_) => true,
        Step::Branch { .. } => true,
        Step::Unpack { .. } => true,
        Step::Call { .. } => true,
        Step::Invoke { .. } => true,
        Step::Frame { .. } => true,
        Step::Native { .. } => true,
        Step::Class { .. } => true,
        Step::Print { .. } => true,
        Step::Float(_) => true,
        Step::Equality { .. } => true,
        Step::Order { .. } => true,
        Step::New { .. } => true,
        Step::ClassOf { .. } => true,
        Step::ParseFloat { .. } => true,
        Step::Text { .. } => true,
        Step::Exception { .. } => true,
        Step::NativeNew { .. } => true,
        Step::DynamicType { .. } => true,
        Step::TypeNew { .. } => true,
        Step::InstanceCheck { .. } => true,
        Step::ObjectNew { .. } => true,
        Step::ObjectInit { .. } => true,
        Step::Super => true,
        Step::Expand(_) => true,
        Step::ExpandItem { .. } => true,
        Step::Expanded(_) => true,
        _ => false,
    }
}

/// Whether an ordering of sequences stands at items that both have.
pub open spec fn at_items(state: SequenceOrder) -> bool {
    state.index < state.left@.len() && state.index < state.right@.len() && state.depth < usize::MAX
}

/// Whether a step can be performed: its counts are in range.
pub open spec fn performable(step: Step) -> bool {
    match step {
        Step::EqualityFallback { action, .. } => action.depth_of() < usize::MAX,
        Step::CompleteEquality { action, .. } => action matches EqualityAction::SequenceOrder(
            state,
        ) ==> at_items(state),
        Step::DictEqual { action, .. } => action.depth_of() < usize::MAX,
        Step::DictPairItems(state) => state.outer.index < usize::MAX,
        Step::Index { continuation, .. } => index_ready(continuation),
        Step::Range(state) => 1 <= state.values@.len() <= 3,
        Step::Slice(state) => state.next <= 3,
        Step::Numeric { target, .. } => target == RuntimeTypeKind::Int || target
            == RuntimeTypeKind::Float,
        Step::NativeInit { builtin, .. } => builtin == Builtin::ListInit || builtin
            == Builtin::DictInit,
        _ => true,
    }
}

/// What a step on truth, equality, order or operators leads to.
pub open spec fn judged(
    before: HeapView,
    after: HeapView,
    result: core::result::Result<Step, Diagnostic>,
    step: Step,
) -> bool {
    match step {
        Step::Truth { value, action } => after == before && truth_asked(
            before,
            result,
            value,
            action,
        ),
        Step::ApplyTruth { truth, action } => after == before && goes(
            result,
            truth_applied(truth, action),
        ),
        Step::EqualityFallback { left, right, action } => after == before && fallback_taken(
            before,
            result,
            left,
            right,
            action,
        ),
        Step::CompleteEquality { equal, action } => after == before && equality_completed(
            before,
            result,
            equal,
            action,
        ),
        Step::DictEqual { left, right, action } => after == before && dict_equality_begun(
            before,
            result,
            left,
            right,
            action,
        ),
        Step::SequenceOrder(state) => after == before && goes(result, sequence_ordered(state)),
        Step::Binary(state) => protocol_continued(before, after, result, state),
        Step::Hash { value, depth, action } => after == before && hash_asked(
            before,
            result,
            value,
            depth,
            action,
        ),
        Step::NativeHash { value, depth, action } => after == before && native_hash_asked(
            before,
            result,
            value,
            depth,
            action,
        ),
        Step::CompleteHash { hash, action } => hash_completed(before, after, result, hash, action),
        _ => false,
    }
}

/// What a step on dictionaries leads to.
pub open spec fn looked(
    before: HeapView,
    after: HeapView,
    result: core::result::Result<Step, Diagnostic>,
    step: Step,
) -> bool {
    match step {
        Step::Dict(start) => after == before && hash_asked(
            before,
            result,
            start.key,
            0,
            HashAction::Dict(start),
        ),
        Step::DictCandidates(state) => after == before && operation_continued(
            before,
            result,
            state,
        ),
        Step::DictMatched { state, matched } => matched_done(before, after, result, state, matched),
        Step::DictMerge(state) => after == before && goes(result, merge_continued(state)),
        Step::DictFrom { start, source } => construction_begun(
            before,
            after,
            result,
            start,
            source,
        ),
        Step::DictItems(state) => construction_continued(before, after, result, state),
        Step::DictPair { outer, item } => pair_begun(before, after, result, outer, item),
        Step::DictPairIterator { outer, iterator } => pair_opened(
            before,
            after,
            result,
            outer,
            iterator,
        ),
        Step::DictPairItems(state) => pair_continued(before, after, result, state),
        Step::DictDone(start) => construction_finished(before, after, result, start),
        _ => false,
    }
}

/// What a step on conversions, collections, attributes or constructors leads
/// to.
pub open spec fn built(
    before: HeapView,
    after: HeapView,
    result: core::result::Result<Step, Diagnostic>,
    step: Step,
) -> bool {
    match step {
        Step::Collect { kind, source } => collection_begun(before, after, result, kind, source),
        Step::CollectItems(state) => collection_continued(before, after, result, state),
        Step::Collected { kind, items } => collection_done(before, after, result, kind, items@),
        Step::Index { source, continuation } => index_asked(
            before,
            after,
            result,
            source,
            continuation,
        ),
        Step::Range(state) => range_continued(before, after, result, state),
        Step::Slice(state) => slice_continued(before, after, result, state),
        Step::Numeric { source, target, finish } => after == before && numeric_asked(
            before,
            result,
            source,
            target,
            finish,
        ),
        Step::BuiltinValue { value, finish } => builtin_finished(
            before,
            after,
            result,
            value,
            finish,
        ),
        Step::Attribute { owner, name, missing } => attribute_got(
            before,
            after,
            result,
            owner,
            name@,
            missing,
        ),
        Step::SetAttribute { owner, name, value } => attribute_assigned(
            before,
            after,
            result,
            owner,
            name@,
            value,
        ),
        Step::DeleteAttribute { owner, name } => attribute_dropped(
            before,
            after,
            result,
            owner,
            name@,
        ),
        Step::DefaultAttribute { owner, name } => looked_up(
            before,
            after,
            result,
            before.default_lookup(owner, name@),
            owner,
            None,
        ),
        Step::DefaultSet { owner, name, value } => default_set(
            before,
            after,
            result,
            owner,
            name@,
            value,
        ),
        Step::DefaultDelete { owner, name } => default_delete(before, after, result, owner, name@),
        Step::BuiltinType { class, kind, arguments, finish } => type_called(
            before,
            after,
            result,
            class,
            kind,
            arguments@,
            finish,
        ),
        Step::NativeInit { builtin, arguments, result: made } => native_initialized(
            before,
            after,
            result,
            builtin,
            arguments@,
            made,
        ),
        _ => false,
    }
}

/// What performing a step leads to.
pub open spec fn performed(
    before: HeapView,
    after: HeapView,
    result: core::result::Result<Step, Diagnostic>,
    step: Step,
) -> bool {
    if is_settled(step) {
        after == before && goes(result, step)
    } else {
        judged(before, after, result, step) || looked(before, after, result, step) || built(
            before,
            after,
            result,
            step,
        )
    }
}

/// See [`is_settled`].
pub fn settled(step: &Step) -> (r: bool)
    ensures
        r == is_settled(*step),
{
    match step {
        Step::Done(_) => true,
        Step::Branch { .. } => true,
        Step::Unpack { .. } => true,
        Step::Call { .. } => true,
        Step::Invoke { .. } => true,
        Step::Frame { .. } => true,
        Step::Native { .. } => true,
        Step::Class { .. } => true,
        Step::Print { .. } => true,
        Step::Float(_) => true,
        Step::Equality { .. } => true,
        Step::Order { .. } => true,
        Step::New { .. } => true,
        Step::ClassOf { .. } => true,
        Step::ParseFloat { .. } => true,
        Step::Text { .. } => true,
        Step::Exception { .. } => true,
        Step::NativeNew { .. } => true,
        Step::DynamicType { .. } => true,
        Step::TypeNew { .. } => true,
        Step::InstanceCheck { .. } => true,
        Step::ObjectNew { .. } => true,
        Step::ObjectInit { .. } => true,
        Step::Super => true,
        Step::Expand(_) => true,
        Step::ExpandItem { .. } => true,
        Step::Expanded(_) => true,
        _ => false,
    }
}

/// See [`performable`].
pub fn can_perform(step: &Step) -> (r: bool)
    ensures
        r == performable(*step),
{
    match step {
        Step::EqualityFallback { action, .. } => action.comparison_depth() < usize::MAX,
        Step::CompleteEquality { action, .. } => match action {
            EqualityAction::SequenceOrder(state) => state.index < state.left.len() && state.index
                < state.right.len() && state.depth < usize::MAX,
            _ => true,
        },
        Step::DictEqual { action, .. } => action.comparison_depth() < usize::MAX,
        Step::DictPairItems(state) => state.outer.index < usize::MAX,
        Step::Index { continuation, .. } => index_in_range(continuation),
        Step::Range(state) => 1 <= state.values.len() && state.values.len() <= 3,
        Step::Slice(state) => state.next <= 3,
        Step::Numeric { target, .. } => *target == RuntimeTypeKind::Int || *target
            == RuntimeTypeKind::Float,
        Step::NativeInit { builtin, .. } => *builtin == Builtin::ListInit || *builtin
            == Builtin::DictInit,
        _ => true,
    }
}

impl Heap {
    /// Performs a step that needs nothing but the heap. A settled step is
    /// handed back.
    pub fn perform(&mut self, step: Step) -> (r: Result<Step>)
        requires
            old(self).wf(),
            performable(step),
        ensures
            final(self).wf(),
            performed(old(self)@, final(self)@, r, step),
            old(self)@.sound() && step_known(old(self)@, step) ==> final(self)@.sound(),
    {
        match step {
            Step::Truth { value, action } => self.invoke_truth(value, action),
            Step::ApplyTruth { truth, action } => Ok(apply_truth(truth, action)),
            Step::EqualityFallback { left, right, action } => self.invoke_equality_fallback(
                left,
                right,
                action,
            ),
            Step::CompleteEquality { equal, action } => self.complete_equality(equal, action),
            Step::DictEqual { left, right, action } => self.begin_dict_equality(
                left,
                right,
                action,
            ),
            Step::SequenceOrder(state) => Ok(continue_sequence_order(state)),
            Step::Binary(state) => self.continue_binary_protocol(state),
            Step::Hash { value, depth, action } => self.invoke_hash_protocol(value, depth, action),
            Step::NativeHash { value, depth, action } => self.invoke_native_hash(
                value,
                depth,
                action,
            ),
            Step::CompleteHash { hash, action } => self.complete_hash(hash, action),
            Step::Dict(start) => {
                let key = start.key;
                self.invoke_hash_protocol(key, 0, HashAction::Dict(start))
            },
            Step::DictCandidates(state) => self.continue_dict_operation(state),
            Step::DictMatched { state, matched } => self.finish_dict_operation(state, matched),
            Step::DictMerge(state) => Ok(continue_dict_merge(state)),
            Step::DictFrom { start, source } => self.invoke_dict_construction(start, source),
            Step::DictItems(state) => self.continue_dict_construction(state),
            Step::DictPair { outer, item } => self.invoke_dict_pair(outer, item),
            Step::DictPairIterator { outer, iterator } => self.invoke_dict_pair_iterator(
                outer,
                iterator,
            ),
            Step::DictPairItems(state) => self.continue_dict_pair(state),
            Step::DictDone(start) => self.finish_dict_construction(start),
            Step::Collect { kind, source } => self.invoke_iterable_collection(kind, source),
            Step::CollectItems(state) => self.continue_iterable_collection(state),
            Step::Collected { kind, items } => self.finish_iterable_collection(kind, items),
            Step::Index { source, continuation } => self.invoke_index_conversion(
                source,
                continuation,
            ),
            Step::Range(state) => self.continue_range_construction(state),
            Step::Slice(state) => self.continue_slice_conversion(state),
            Step::Numeric { source, target, finish } => self.invoke_numeric_conversion(
                source,
                target,
                finish,
            ),
            Step::BuiltinValue { value, finish } => self.finish_builtin_value(value, finish),
            Step::Attribute { owner, name, missing } => self.invoke_attribute_get(
                owner,
                name.as_str(),
                missing,
            ),
            Step::SetAttribute { owner, name, value } => self.invoke_attribute_set(
                owner,
                name.as_str(),
                value,
            ),
            Step::DeleteAttribute { owner, name } => self.invoke_attribute_delete(
                owner,
                name.as_str(),
            ),
            Step::DefaultAttribute { owner, name } => self.invoke_default_attribute_get(
                owner,
                name.as_str(),
                None,
            ),
            Step::DefaultSet { owner, name, value } => self.invoke_default_attribute_set(
                owner,
                name.as_str(),
                value,
            ),
            Step::DefaultDelete { owner, name } => self.invoke_default_attribute_delete(
                owner,
                name.as_str(),
            ),
            Step::BuiltinType { class, kind, arguments, finish } => self.invoke_builtin_type(
                class,
                kind,
                arguments,
                finish,
            ),
            Step::NativeInit { builtin, arguments, result } => self.invoke_native_initializer(
                builtin,
                &arguments,
                result,
            ),
            other => Ok(other),
        }
    }
}

} // verus!
