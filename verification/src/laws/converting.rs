//! Conversions.
use vstd::prelude::*;
use crate::calls::literal::parse_int_literal;
use crate::calls::state::{
    Continuation, IndexContinuation, NativeSubclassFinish, NumericConversion, RangeConstruction,
    RuntimeTypeKind, SliceConversion, Step,
};
use crate::diagnostic::Result;
use crate::heap::{Heap, HeapView};
use crate::integer::Integer;
use crate::laws::operators::has_method;
use crate::laws::subscripts::{
    is_bound, is_slice, lemma_none_word, lemma_number, lemma_slice,
};
use crate::laws::{gives_new, is_number, is_object, lemma_leads, lemma_object_word, raises};
use crate::object::ObjectView;
use crate::sequence::{picked, slice_indices};
use crate::value::{Meaning, Value};

verus! {

/// A step that gave a value or failed, as a result.
pub open spec fn finished(result: Result<Step>) -> Option<Result<Value>> {
    match result {
        Ok(Step::Done(value)) => Some(Ok(value)),
        Ok(_) => None,
        Err(error) => Some(Err(error)),
    }
}

/// A range of one bound begins at zero, one of two goes from the first to the
/// second, and a third is its step, which may not be zero.
pub proof fn ranges_are_made_of_their_bounds(
    heap: &mut Heap,
    state: RangeConstruction,
    a: int,
    b: int,
    c: int,
    r: Result<Step>,
)
    requires
        old(heap).wf(),
        1 <= state.values@.len() <= 3,
        state.next >= state.values@.len(),
        is_number(old(heap)@, state.values@[0], a),
        state.values@.len() >= 2 ==> is_number(old(heap)@, state.values@[1], b),
        state.values@.len() == 3 ==> is_number(old(heap)@, state.values@[2], c),
        i64::MIN <= a <= i64::MAX,
        i64::MIN <= b <= i64::MAX,
        i64::MIN <= c <= i64::MAX,
        call_ensures(Heap::continue_range_construction, (heap, state), r),
    ensures
        state.values@.len() == 1 ==> (finished(r) matches Some(made) && gives_new(
            old(heap)@,
            final(heap)@,
            made,
            ObjectView::Range { start: 0, stop: a as i64, step: 1 },
        )),
        state.values@.len() == 2 ==> (finished(r) matches Some(made) && gives_new(
            old(heap)@,
            final(heap)@,
            made,
            ObjectView::Range { start: a as i64, stop: b as i64, step: 1 },
        )),
        state.values@.len() == 3 && c != 0 ==> (finished(r) matches Some(made) && gives_new(
            old(heap)@,
            final(heap)@,
            made,
            ObjectView::Range { start: a as i64, stop: b as i64, step: c as i64 },
        )),
        state.values@.len() == 3 && c == 0 ==> raises(old(heap)@, final(heap)@, r, "ValueError"),
{
    old(heap).lemma_view();
    lemma_number(*old(heap), state.values@[0], a);
    if state.values@.len() >= 2 {
        lemma_number(*old(heap), state.values@[1], b);
    }
    if state.values@.len() == 3 {
        lemma_number(*old(heap), state.values@[2], c);
    }
}

/// The bounds of a range are made indices in turn.
pub proof fn range_bounds_are_converted_in_turn(
    heap: &mut Heap,
    state: RangeConstruction,
    r: Result<Step>,
)
    requires
        old(heap).wf(),
        1 <= state.values@.len() <= 3,
        state.next < state.values@.len(),
        call_ensures(Heap::continue_range_construction, (heap, state), r),
    ensures
        final(heap)@ == old(heap)@,
        r matches Ok(Step::Index { source, continuation }) && source
            == state.values@[state.next as int] && continuation == IndexContinuation::Range(state),
{
}

/// A slice whose bounds are converted takes from its owner what they say.
pub proof fn slices_are_read(
    heap: &mut Heap,
    state: SliceConversion,
    items: Seq<Value>,
    start: Option<int>,
    stop: Option<int>,
    step: Option<int>,
    by: int,
    r: Result<Step>,
)
    requires
        old(heap).wf(),
        state.next == 3,
        is_object(old(heap)@, state.owner, ObjectView::List(items)),
        is_bound(old(heap)@, state.start, start),
        is_bound(old(heap)@, state.stop, stop),
        is_bound(old(heap)@, state.step, step),
        step is Some ==> by == step->0,
        step is None ==> by == 1,
        by != 0,
        old(heap)@.room > 1,
        call_ensures(Heap::continue_slice_conversion, (heap, state), r),
    ensures
        r matches Ok(Step::Done(value)) && !old(heap)@.objects.dom().contains(value) && exists|
            taken: Seq<Value>,
        | #![auto]
            is_slice(items, start, stop, by, taken) && is_object(
                final(heap)@,
                value,
                ObjectView::List(taken),
            ),
{
    let (before, after) = (old(heap)@, final(heap)@);
    old(heap).lemma_view();
    crate::value::lemma_not_heap();
    lemma_none_word();
    if let Some(n) = start {
        lemma_number(*old(heap), state.start, n);
    }
    if let Some(n) = stop {
        lemma_number(*old(heap), state.stop, n);
    }
    if let Some(n) = step {
        lemma_number(*old(heap), state.step, n);
    }
    lemma_slice(items, start, stop, by);
    let object = ObjectView::Slice { start: state.start, stop: state.stop, step: state.step };
    let (between, made) = choose|
        between: HeapView,
        made: core::result::Result<Value, crate::diagnostic::Diagnostic>,
    |
        #![trigger crate::namespaces::allocates(
            before,
            between,
            made,
            ObjectView::Slice { start: state.start, stop: state.stop, step: state.step },
        )]
        crate::namespaces::allocates(
            before,
            between,
            made,
            ObjectView::Slice { start: state.start, stop: state.stop, step: state.step },
        ) && match made {
            Err(error) => after == between && crate::calls::refuses(r, error@),
            Ok(slice) => crate::calls::value_of(r) matches Some(item) && crate::sequence::yields(
                between,
                after,
                item,
                between.item(state.owner, slice),
            ),
        };
    assert(made is Ok);
    let slice = made->Ok_0;
    assert(between.at(slice) == Some(object));
    assert(between.at(state.owner) == before.at(state.owner));
    assert(between.slice_component(state.start) == before.slice_component(state.start));
    assert(between.slice_component(state.stop) == before.slice_component(state.stop));
    assert(between.slice_component(state.step) == before.slice_component(state.step));
    let taken = picked(items, slice_indices(items.len() as int, start, stop, by));
    assert(is_object(after, r->Ok_0->Done_0, ObjectView::List(taken)));
}

/// The bounds of a slice that are there are made indices in turn, those that
/// are absent are passed over.
pub proof fn slice_bounds_are_converted_in_turn(
    heap: &mut Heap,
    state: SliceConversion,
    r: Result<Step>,
)
    requires
        old(heap).wf(),
        state.next <= 3,
        call_ensures(Heap::continue_slice_conversion, (heap, state), r),
    ensures
        state.next == 0 && !(state.start@ is Nothing) ==> (r matches Ok(
            Step::Index { source, continuation },
        ) && source == state.start && (continuation matches IndexContinuation::Slice(next)
            && next.next == 0 && next.owner == state.owner)),
        (state.next == 1 || state.next == 0 && state.start@ is Nothing) && !(state.stop@ is Nothing)
            ==> (r matches Ok(Step::Index { source, continuation }) && source == state.stop && (
        continuation matches IndexContinuation::Slice(next) && next.next == 1 && next.owner
            == state.owner && next.start == state.start)),
        state.next == 2 && !(state.step@ is Nothing) ==> (r matches Ok(
            Step::Index { source, continuation },
        ) && source == state.step && (continuation matches IndexContinuation::Slice(next)
            && next.next == 2 && next.start == state.start && next.stop == state.stop)),
{
    lemma_none_word();
    reveal_with_fuel(SliceConversion::pending, 4);
}

/// What a converted index is put to: a bound of a range or slice, or the item
/// of a list.
pub proof fn indices_are_put_to_use(
    heap: &mut Heap,
    value: Value,
    n: int,
    continuation: IndexContinuation,
    r: Result<Step>,
)
    requires
        old(heap).wf(),
        value@ == Meaning::Int(n),
        call_ensures(Heap::finish_index_conversion, (heap, value, continuation), r),
    ensures
        continuation matches IndexContinuation::Range(state) ==> state.next < usize::MAX ==> (
        r matches Ok(Step::Range(next)) && next.next == state.next + 1 && next.values@
            == state.values@.update(state.next as int, value)),
        continuation matches IndexContinuation::Slice(state) ==> state.next < 3 ==> (r matches Ok(
            Step::Slice(next),
        ) && next.next == state.next + 1 && next.owner == state.owner && next.start == (if state.next
            == 0 {
            value
        } else {
            state.start
        }) && next.stop == (if state.next == 1 {
            value
        } else {
            state.stop
        }) && next.step == (if state.next == 2 {
            value
        } else {
            state.step
        })),
        continuation matches IndexContinuation::GetItem { owner } ==> forall|items: Seq<Value>|
            #[trigger]
            is_object(old(heap)@, owner, ObjectView::List(items)) && -items.len() <= n
                < items.len() ==> (r matches Ok(Step::Done(found)) && found == items[if n < 0 {
                n + items.len()
            } else {
                n
            }]),
        continuation matches IndexContinuation::SetItem { owner, value: item } ==> forall|
            items: Seq<Value>,
        | #[trigger]
            is_object(old(heap)@, owner, ObjectView::List(items)) && -items.len() <= n
                < items.len() ==> r is Ok && final(heap)@.objects == old(heap)@.objects.insert(
                owner,
                ObjectView::List(
                    items.update(
                        if n < 0 {
                            n + items.len()
                        } else {
                            n
                        },
                        item,
                    ),
                ),
            ),
        continuation matches IndexContinuation::DelItem { owner } ==> forall|items: Seq<Value>|
            #[trigger]
            is_object(old(heap)@, owner, ObjectView::List(items)) && -items.len() <= n
                < items.len() ==> r is Ok && final(heap)@.objects == old(heap)@.objects.insert(
                owner,
                ObjectView::List(
                    items.remove(
                        if n < 0 {
                            n + items.len()
                        } else {
                            n
                        },
                    ),
                ),
            ),
        continuation matches IndexContinuation::Truth(action) ==> 0 <= n ==> (r matches Ok(
            Step::ApplyTruth { truth, action: then },
        ) && truth == (n != 0) && then == action),
{
    old(heap).lemma_view();
    crate::value::lemma_not_heap();
    lemma_number(*old(heap), value, n);
}

/// An integer is its own index, a truth value is one or zero, and an instance
/// is asked for its `__index__`.
pub proof fn indices_are_integers(
    heap: &mut Heap,
    value: Value,
    class: Value,
    method: Value,
    message: &str,
    continuation: IndexContinuation,
    r: Result<Value>,
    s: Result<Step>,
)
    requires
        old(heap).wf(),
        call_ensures(Heap::normalize_index_result, (old(heap), value, message), r),
        call_ensures(Heap::invoke_index_conversion, (heap, value, continuation), s),
    ensures
        value@ is Int ==> (r matches Ok(index) && index == value),
        value@ is Bool ==> (r matches Ok(index) && index@ == Meaning::Int(
            if value@->Bool_0 {
                1
            } else {
                0
            },
        )),
        old(heap)@.objects.dom().contains(value) && old(heap)@.objects[value] is Str ==> r is Err
            && r->Err_0@.kind == "TypeError"@,
        has_method(old(heap)@, value, class, "__index__"@, Some(method))
            && old(heap)@.objects[value]->Instance_native is None ==> (s matches Ok(
            Step::Call { callable, arguments, then },
        ) && callable == method && arguments@.receiver == Some(value) && arguments@.positional.len()
            == 0 && then == Continuation::Index(continuation)),
{
    old(heap).lemma_view();
    crate::value::lemma_not_heap();
    assert(1u64 & 7 == 1 && 9u64 & 7 == 1 && (1u64 as i64) >> 3 == 0 && (9u64 as i64) >> 3 == 1)
        by (bit_vector);
    if old(heap)@.objects.dom().contains(value) {
        lemma_object_word(old(heap)@, value);
    }
    if has_method(old(heap)@, value, class, "__index__"@, Some(method)) {
        lemma_leads(
            old(heap)@,
            seq![class] + old(heap)@.objects[class]->Class_0.mro,
            0,
            "__index__"@,
        );
    }
}

/// An instance is made an integer by `__int__`, a binary64 number by
/// `__float__`, and else by `__index__`.
pub proof fn numbers_are_asked_from_instances(
    heap: Heap,
    source: Value,
    class: Value,
    own: Option<Value>,
    index: Value,
    target: RuntimeTypeKind,
    finish: Option<NativeSubclassFinish>,
    r: Result<Step>,
)
    requires
        heap.wf(),
        target == RuntimeTypeKind::Int || target == RuntimeTypeKind::Float,
        has_method(
            heap@,
            source,
            class,
            if target == RuntimeTypeKind::Int {
                "__int__"@
            } else {
                "__float__"@
            },
            own,
        ),
        has_method(heap@, source, class, "__index__"@, Some(index)),
        call_ensures(Heap::invoke_numeric_conversion, (&heap, source, target, finish), r),
    ensures
        r matches Ok(Step::Call { callable, arguments, then }) && arguments@.receiver == Some(source)
            && arguments@.positional.len() == 0 && callable == (match own {
            Some(f) => f,
            None => index,
        }),
{
    let all = seq![class] + heap@.objects[class]->Class_0.mro;
    lemma_leads(heap@, all, 0, "__int__"@);
    lemma_leads(heap@, all, 0, "__float__"@);
    lemma_leads(heap@, all, 0, "__index__"@);
}

/// What a conversion method returned is taken where it is of the type asked
/// for, and refused otherwise.
pub proof fn converted_numbers_are_checked(
    heap: &mut Heap,
    value: Value,
    state: NumericConversion,
    r: Result<Step>,
)
    requires
        old(heap).wf(),
        call_ensures(Heap::finish_numeric_conversion, (heap, value, state), r),
    ensures
        state.kind is Int && value@ is Int ==> r == Ok::<Step, crate::diagnostic::Diagnostic>(
            Step::BuiltinValue { value, finish: state.finish },
        ),
        state.kind is Int && old(heap)@.objects.dom().contains(value)
            && old(heap)@.objects[value] is Float ==> raises(
            old(heap)@,
            final(heap)@,
            r,
            "TypeError",
        ),
        state.kind is Float && old(heap)@.objects.dom().contains(value)
            && old(heap)@.objects[value] is Float ==> r == Ok::<
            Step,
            crate::diagnostic::Diagnostic,
        >(Step::BuiltinValue { value, finish: state.finish }),
        state.kind is Float && value@ is Int ==> raises(
            old(heap)@,
            final(heap)@,
            r,
            "TypeError",
        ),
{
    old(heap).lemma_view();
    crate::value::lemma_not_heap();
    if old(heap)@.objects.dom().contains(value) {
        lemma_object_word(old(heap)@, value);
    }
}

/// A text is made an integer as it spells one in the base.
pub proof fn texts_are_read_in_their_base(
    heap: &mut Heap,
    base: Value,
    b: int,
    text: &str,
    continuation: IndexContinuation,
    parsed: Option<Integer>,
    r: Result<Step>,
)
    requires
        old(heap).wf(),
        base@ == Meaning::Int(b),
        b == 0 || 2 <= b <= 36,
        continuation is IntBase,
        is_object(
            old(heap)@,
            continuation->IntBase_0.argument,
            ObjectView::Str(text@),
        ),
        call_ensures(parse_int_literal, (text, b as u32), parsed),
        call_ensures(Heap::finish_index_conversion, (heap, base, continuation), r),
    ensures
        parsed is None ==> raises(old(heap)@, final(heap)@, r, "ValueError"),
        parsed matches Some(n) ==> match r {
            Ok(Step::BuiltinValue { value, finish }) => is_number(final(heap)@, value, n@) && finish
                == continuation->IntBase_0.finish,
            Ok(_) => false,
            Err(error) => old(heap)@.room == 0,
        },
{
    old(heap).lemma_view();
    crate::value::lemma_not_heap();
    lemma_number(*old(heap), base, b);
    lemma_object_word(old(heap)@, continuation->IntBase_0.argument);
}

} // verus!
