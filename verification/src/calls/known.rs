//! Which values a step may come to store.
use vstd::prelude::*;
use crate::calls::arguments::ArgsView;
use crate::calls::state::{
    Continuation, DictOperationKind, DictOperationStart, IndexContinuation, SliceConversion, Step,
};
use crate::heap::HeapView;
use crate::mapping::entries_known;
use crate::namespaces::all_known;
use crate::object::ObjectView;
use crate::value::Value;

verus! {

/// Whether what an index continuation stores is known.
pub open spec fn index_known(heap: HeapView, continuation: IndexContinuation) -> bool {
    continuation matches IndexContinuation::SetItem { value, .. } ==> heap.known(value)
}

/// Whether the bounds and step of a slice are known.
pub open spec fn slice_known(heap: HeapView, state: SliceConversion) -> bool {
    heap.known(state.start) && heap.known(state.stop) && heap.known(state.step)
}

/// Whether the key of a dictionary operation and the value it stores are
/// known.
pub open spec fn operation_known(heap: HeapView, start: DictOperationStart) -> bool {
    heap.known(start.key) && match start.kind {
        DictOperationKind::Store(value) => heap.known(value),
        DictOperationKind::StoreAndContinue { value, .. } => heap.known(value),
        DictOperationKind::StoreAndMerge { value, .. } => heap.known(value),
        _ => true,
    }
}

/// Whether arguments are known.
pub open spec fn arguments_known(heap: HeapView, arguments: ArgsView) -> bool {
    all_known(heap, arguments.all()) && forall|i: int|
        0 <= i < arguments.keywords.len() ==> heap.known(#[trigger] arguments.keywords[i].1)
}

/// Whether what a continuation may store beside the result it gets is known.
pub open spec fn continuation_known(heap: HeapView, then: Continuation) -> bool {
    then matches Continuation::Index(continuation) ==> index_known(heap, continuation)
}

/// Known arguments stand among all of them.
pub proof fn lemma_positional_known(heap: HeapView, arguments: ArgsView)
    requires
        arguments_known(heap, arguments),
    ensures
        all_known(heap, arguments.positional),
        arguments.receiver matches Some(receiver) ==> heap.known(receiver),
        forall|i: int|
            0 <= i < arguments.all().len() ==> heap.known(#[trigger] arguments.all()[i]),
{
    let all = arguments.all();
    let ahead = crate::edges::optional(arguments.receiver).len() as int;
    assert forall|i: int| 0 <= i < all.len() implies heap.known(#[trigger] all[i]) by {
        assert(all.contains(all[i]));
    }
    assert forall|e: Value| #[trigger] arguments.positional.contains(e) implies heap.known(e) by {
        let i = choose|i: int|
            0 <= i < arguments.positional.len() && arguments.positional[i] == e;
        assert(all[ahead + i] == e);
    }
    if let Some(receiver) = arguments.receiver {
        assert(all[0] == receiver);
    }
}

/// A receiver and arguments that are known, apart, are known together.
pub proof fn lemma_bound_known(heap: HeapView, arguments: ArgsView, receiver: Option<Value>)
    requires
        arguments_known(heap, arguments),
        receiver matches Some(value) ==> heap.known(value),
    ensures
        arguments_known(heap, (ArgsView { receiver, ..arguments })),
{
    lemma_positional_known(heap, arguments);
    let bound = ArgsView { receiver, ..arguments };
    let ahead = crate::edges::optional(receiver).len() as int;
    assert forall|e: Value| #[trigger] bound.all().contains(e) implies heap.known(e) by {
        let i = choose|i: int| 0 <= i < bound.all().len() && bound.all()[i] == e;
        if i >= ahead {
            assert(arguments.positional[i - ahead] == e);
            assert(arguments.positional.contains(e));
        }
    }
    assert forall|i: int| 0 <= i < bound.keywords.len() implies heap.known(
        #[trigger] bound.keywords[i].1,
    ) by {
        assert(heap.known(arguments.keywords[i].1));
    }
}

/// A property of what is known holds nothing else.
pub proof fn lemma_property_known(
    heap: HeapView,
    getter: Option<Value>,
    setter: Option<Value>,
    deleter: Option<Value>,
)
    requires
        getter matches Some(value) ==> heap.known(value),
        setter matches Some(value) ==> heap.known(value),
        deleter matches Some(value) ==> heap.known(value),
    ensures
        all_known(heap, (ObjectView::Property { getter, setter, deleter }).edges()),
{
}

/// Whether what performing a step may store is known: handles that were given
/// out, or no handles.
pub open spec fn step_known(heap: HeapView, step: Step) -> bool {
    match step {
        Step::DictMatched { state, .. } => operation_known(heap, state.start),
        Step::DictDone(start) => entries_known(heap, start.keywords@),
        Step::Collected { items, .. } => all_known(heap, items@),
        Step::Index { continuation, .. } => index_known(heap, continuation),
        Step::Slice(state) => slice_known(heap, state),
        Step::BuiltinValue { value, .. } => heap.known(value),
        Step::SetAttribute { value, .. } => heap.known(value),
        Step::DefaultSet { value, .. } => heap.known(value),
        _ => true,
    }
}

} // verus!
