//! What the result of a call, or its failure, leads to.
use vstd::prelude::*;
use crate::calls::state::{
    AttributeMissing,
    AttributePhase,
    Continuation,
    IterableCollectionKind,
    Step,
    TruthAction,
};
use crate::diagnostic::{Diagnostic, Result};
use crate::heap::Heap;
use crate::laws::classes::{is_class, is_instance, line};
use crate::laws::{gives_new, is_number, leads_nowhere, lemma_leads, truth_words};
use crate::object::ObjectView;
use crate::value::{Meaning, Value};

verus! {

/// The end of an iterator completes what was being collected from it; any
/// other failure of a call passes on as it is.
pub proof fn iterators_end_by_stopping(
    heap: &mut Heap,
    then: Continuation,
    error: Diagnostic,
    r: Result<Step>,
)
    requires
        old(heap).wf(),
        !(then is Attribute),
        call_ensures(Heap::resume, (heap, then, Err(error)), r),
    ensures
        final(heap)@ == old(heap)@,
        error@.kind == "StopIteration"@ ==> {
            &&& then matches Continuation::CollectItem(state) ==> (r matches Ok(
                Step::Collected { kind, items },
            ) && kind == state.kind && items@ == state.items@)
            &&& then matches Continuation::ExpandItem(state) ==> (r matches Ok(Step::Expanded(pc))
                && pc == state.resume_pc)
            &&& then matches Continuation::DictItem(state) ==> (r matches Ok(Step::DictDone(start))
                && start == state.start)
        },
        error@.kind != "StopIteration"@ || !(then is CollectItem || then is ExpandItem
            || then is DictItem || then is DictPairItem) ==> (r matches Err(found) && found@
            == error@),
{
}

/// A call to read an attribute that fails for want of it ends as was asked:
/// with the failure, with the default, or with a no; another failure passes on.
pub proof fn failed_readings_end_as_asked(
    heap: &mut Heap,
    get: crate::calls::state::AttributeGet,
    class: Value,
    error: Diagnostic,
    r: Result<Step>,
)
    requires
        old(heap).wf(),
        get.phase == AttributePhase::Fallback || (is_instance(old(heap)@, get.owner, class)
            && is_class(old(heap)@, class) && leads_nowhere(
            old(heap)@,
            line(old(heap)@, class),
            0,
            "__getattr__"@,
        )),
        call_ensures(Heap::resume, (heap, Continuation::Attribute(Some(get)), Err(error)), r),
    ensures
        final(heap)@ == old(heap)@,
        error@.kind != "AttributeError"@ || get.missing is Raise ==> (r matches Err(found)
            && found@ == error@),
        error@.kind == "AttributeError"@ && get.missing is HasAttr ==> (r matches Ok(
            Step::Done(answer),
        ) && answer@ == Meaning::Bool(false)),
        error@.kind == "AttributeError"@ ==> (get.missing matches AttributeMissing::Default(value)
            ==> (r matches Ok(Step::Done(answer)) && answer == value)),
{
    old(heap).lemma_view();
    truth_words();
    if is_class(old(heap)@, class) {
        lemma_leads(old(heap)@, line(old(heap)@, class), 0, "__getattr__"@);
    }
}

/// The value of a call goes to what waits for it: it is the result, the
/// instance to initialize, the iterator to run through or the next item; a
/// setter gives nothing, an initializer the instance.
pub proof fn values_go_where_they_are_wanted(
    heap: &mut Heap,
    then: Continuation,
    value: Value,
    r: Result<Step>,
)
    requires
        old(heap).wf(),
        call_ensures(Heap::resume, (heap, then, Ok(value)), r),
    ensures
        then is Value || then is Setter || then is Initializer || then is New || then is Collect
            || then is Expand || then is ExpandItem ==> final(heap)@ == old(heap)@,
        then is Value ==> (r matches Ok(Step::Done(result)) && result == value),
        then is Setter ==> (r matches Ok(Step::Done(result)) && result@ is Nothing),
        then matches Continuation::Initializer(instance) ==> (r matches Ok(Step::Done(result))
            && result == instance),
        then matches Continuation::New { class, arguments } ==> (r matches Ok(
            Step::New { class: of, instance, arguments: rest },
        ) && of == class && instance == value && rest == arguments),
        then matches Continuation::Collect(kind) ==> (r matches Ok(Step::CollectItems(state))
            && state.kind == kind && state.iterator == value && state.items@.len() == 0),
        then matches Continuation::CollectItem(state) ==> !(state.kind is ListInit) ==> final(heap)@
            == old(heap)@ && (r matches Ok(Step::CollectItems(next)) && next.items@
            == state.items@.push(value) && next.iterator == state.iterator && next.kind
            == state.kind),
        then matches Continuation::Expand(pc) ==> (r matches Ok(Step::Expand(state))
            && state.iterator == value && state.resume_pc == pc),
        then matches Continuation::ExpandItem(state) ==> (r matches Ok(
            Step::ExpandItem { item, state: next },
        ) && item == value && next == state),
{
    crate::laws::subscripts::lemma_none_word();
}

/// Performing goes on by the kind of step: the truth of a number is whether it
/// is not zero, a collection becomes a list or tuple of its items, a value of
/// a builtin type is the result, and a result is handed back.
pub proof fn steps_are_performed(heap: &mut Heap, step: Step, n: int, r: Result<Step>)
    requires
        old(heap).wf(),
        call_ensures(Heap::perform, (heap, step), r),
    ensures
        step is Done || step is Call || step is Frame || step is Unpack || step is Branch ==> r
            == Ok::<Step, Diagnostic>(step) && final(heap)@ == old(heap)@,
        step matches Step::Truth { value, action: TruthAction::Return } ==> is_number(
            old(heap)@,
            value,
            n,
        ) ==> final(heap)@ == old(heap)@ && (r matches Ok(
            Step::ApplyTruth { truth, action: TruthAction::Return },
        ) && truth == (n != 0)),
        step matches Step::ApplyTruth { truth, action: TruthAction::Return } ==> final(heap)@
            == old(heap)@ && (r matches Ok(Step::Done(answer)) && answer@ == Meaning::Bool(truth)),
        step matches Step::BuiltinValue { value, finish: None } ==> final(heap)@ == old(heap)@ && (
        r matches Ok(Step::Done(answer)) && answer == value),
        step matches Step::Collected { kind: IterableCollectionKind::List, items } ==> match r {
            Ok(Step::BuiltinValue { value, finish }) => gives_new(
                old(heap)@,
                final(heap)@,
                Ok(value),
                ObjectView::List(items@),
            ) && finish is None,
            Ok(_) => false,
            Err(_) => old(heap)@.room == 0,
        },
        step matches Step::Collected { kind: IterableCollectionKind::Tuple, items } ==> match r {
            Ok(Step::BuiltinValue { value, finish }) => gives_new(
                old(heap)@,
                final(heap)@,
                Ok(value),
                ObjectView::Tuple(items@),
            ) && finish is None,
            Ok(_) => false,
            Err(_) => old(heap)@.room == 0,
        },
{
    old(heap).lemma_view();
    truth_words();
    crate::value::lemma_not_heap();
}

} // verus!
