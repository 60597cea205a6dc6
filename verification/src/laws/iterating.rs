//! Iterators.
use vstd::prelude::*;
use crate::arithmetic::Computed;
use crate::diagnostic::Result;
use crate::dict::DictView;
use crate::heap::{Heap, HeapView};
use crate::laws::comparing::has_item;
use crate::laws::{gives, gives_new, is_number, is_object, raises};
use crate::object::ObjectView;
use crate::value::Value;

verus! {

/// An iterator begins before the first item of what it runs over; an iterator
/// runs over itself; and what has no items has no iterator.
pub proof fn iterators_begin_at_the_start(
    heap: &mut Heap,
    value: Value,
    object: ObjectView,
    r: Result<Value>,
)
    requires
        old(heap).wf(),
        is_object(old(heap)@, value, object),
        call_ensures(Heap::iterator, (heap, value), r),
    ensures
        match object {
            ObjectView::List(_) => gives_new(
                old(heap)@,
                final(heap)@,
                r,
                ObjectView::Iterator { source: value, index: 0 },
            ),
            ObjectView::Tuple(_) => gives_new(
                old(heap)@,
                final(heap)@,
                r,
                ObjectView::Iterator { source: value, index: 0 },
            ),
            ObjectView::Str(_) => gives_new(
                old(heap)@,
                final(heap)@,
                r,
                ObjectView::Iterator { source: value, index: 0 },
            ),
            ObjectView::Dict(dict) => gives_new(
                old(heap)@,
                final(heap)@,
                r,
                ObjectView::DictIterator { source: value, index: 0, version: dict.version },
            ),
            ObjectView::Range { start, stop, step } => gives_new(
                old(heap)@,
                final(heap)@,
                r,
                ObjectView::RangeIterator {
                    next: start as i128,
                    stop: stop as i128,
                    step: step as i128,
                },
            ),
            ObjectView::Iterator { .. } => gives(old(heap)@, final(heap)@, r, value),
            ObjectView::RangeIterator { .. } => gives(old(heap)@, final(heap)@, r, value),
            ObjectView::DictIterator { .. } => gives(old(heap)@, final(heap)@, r, value),
            ObjectView::Int(_) => raises(old(heap)@, final(heap)@, r, "TypeError"),
            ObjectView::Float(_) => raises(old(heap)@, final(heap)@, r, "TypeError"),
            ObjectView::Function { .. } => raises(old(heap)@, final(heap)@, r, "TypeError"),
            _ => true,
        },
{
    old(heap).lemma_view();
}

/// Whether an iterator gave an item that was there, and moved on.
pub open spec fn steps(
    before: HeapView,
    after: HeapView,
    result: Result<Option<Value>>,
    iterator: Value,
    item: Value,
    moved: ObjectView,
) -> bool {
    result == Ok::<Option<Value>, crate::diagnostic::Diagnostic>(Some(item)) && after.objects
        == before.objects.insert(iterator, moved)
}

/// Whether an iterator came to its end.
pub open spec fn ends(before: HeapView, after: HeapView, result: Result<Option<Value>>) -> bool {
    result == Ok::<Option<Value>, crate::diagnostic::Diagnostic>(None) && after == before
}

/// A list or tuple is run through from its first item to its last, each item
/// once.
pub proof fn sequences_are_run_through(
    heap: &mut Heap,
    iterator: Value,
    source: Value,
    index: usize,
    items: Seq<Value>,
    r: Result<Option<Value>>,
)
    requires
        old(heap).wf(),
        is_object(old(heap)@, iterator, ObjectView::Iterator { source, index }),
        is_object(old(heap)@, source, ObjectView::List(items)) || is_object(
            old(heap)@,
            source,
            ObjectView::Tuple(items),
        ),
        index < usize::MAX,
        call_ensures(Heap::next, (heap, iterator), r),
    ensures
        index < items.len() ==> steps(
            old(heap)@,
            final(heap)@,
            r,
            iterator,
            items[index as int],
            ObjectView::Iterator { source, index: (index + 1) as usize },
        ),
        index >= items.len() ==> ends(old(heap)@, final(heap)@, r),
{
}

/// A text is run through character by character.
pub proof fn texts_are_run_through(
    heap: &mut Heap,
    iterator: Value,
    source: Value,
    index: usize,
    text: Seq<char>,
    r: Result<Option<Value>>,
)
    requires
        old(heap).wf(),
        is_object(old(heap)@, iterator, ObjectView::Iterator { source, index }),
        is_object(old(heap)@, source, ObjectView::Str(text)),
        index < usize::MAX,
        old(heap)@.room > 0,
        call_ensures(Heap::next, (heap, iterator), r),
    ensures
        index < text.len() ==> (r matches Ok(Some(value)) && !old(heap)@.objects.dom().contains(
            value,
        ) && is_object(final(heap)@, value, ObjectView::Str(seq![text[index as int]]))
            && is_object(
            final(heap)@,
            iterator,
            ObjectView::Iterator { source, index: (index + 1) as usize },
        )),
        index >= text.len() ==> ends(old(heap)@, final(heap)@, r),
{
    old(heap).lemma_view();
}

/// The iterator of a range gives its items in their order: after `k` of them
/// the next is the `k`th, if the range has one.
pub proof fn ranges_are_run_through(
    heap: &mut Heap,
    iterator: Value,
    start: i64,
    stop: i64,
    step: i64,
    k: int,
    next: i128,
    r: Result<Option<Value>>,
)
    requires
        old(heap).wf(),
        step != 0,
        k >= 0,
        next == start + k * step,
        is_object(
            old(heap)@,
            iterator,
            ObjectView::RangeIterator { next, stop: stop as i128, step: step as i128 },
        ),
        next + step <= i128::MAX,
        next + step >= i128::MIN,
        old(heap)@.room > 0,
        call_ensures(Heap::next, (heap, iterator), r),
    ensures
        has_item(start as int, stop as int, step as int, k) ==> (r matches Ok(Some(value))
            && is_number(final(heap)@, value, start + k * step) && is_object(
            final(heap)@,
            iterator,
            ObjectView::RangeIterator {
                next: (start + (k + 1) * step) as i128,
                stop: stop as i128,
                step: step as i128,
            },
        )),
        !has_item(start as int, stop as int, step as int, k) ==> ends(
            old(heap)@,
            final(heap)@,
            r,
        ),
{
    old(heap).lemma_view();
    assert((k + 1) * step == k * step + step) by (nonlinear_arith);
}

/// A dictionary is run through key by key in the order of its entries; one
/// that was changed meanwhile is not run through any further.
pub proof fn dictionaries_are_run_through(
    heap: &mut Heap,
    iterator: Value,
    source: Value,
    index: usize,
    version: u64,
    dict: DictView,
    r: Result<Option<Value>>,
)
    requires
        old(heap).wf(),
        is_object(old(heap)@, iterator, ObjectView::DictIterator { source, index, version }),
        is_object(old(heap)@, source, ObjectView::Dict(dict)),
        index < usize::MAX,
        call_ensures(Heap::next, (heap, iterator), r),
    ensures
        dict.version != version ==> raises(old(heap)@, final(heap)@, r, "RuntimeError"),
        dict.version == version && index < dict.entries.len() ==> steps(
            old(heap)@,
            final(heap)@,
            r,
            iterator,
            dict.entries[index as int].0,
            ObjectView::DictIterator { source, index: (index + 1) as usize, version },
        ),
        dict.version == version && index >= dict.entries.len() ==> ends(
            old(heap)@,
            final(heap)@,
            r,
        ),
{
}

/// What is no iterator gives no item.
pub proof fn only_iterators_give_items(
    heap: &mut Heap,
    value: Value,
    object: ObjectView,
    r: Result<Option<Value>>,
    answer: bool,
)
    requires
        old(heap).wf(),
        is_object(old(heap)@, value, object),
        call_ensures(Heap::is_iterator, (old(heap), value), answer),
        call_ensures(Heap::next, (heap, value), r),
    ensures
        answer == (object is Iterator || object is RangeIterator || object is DictIterator
            || object is MappingProxyIterator),
        !answer ==> raises(old(heap)@, final(heap)@, r, "TypeError"),
{
}

/// A list added to in place is the same list, with the other's items behind
/// its own; added to itself it is doubled.
pub proof fn lists_grow_in_place(
    heap: &mut Heap,
    list: Value,
    other: Value,
    items: Seq<Value>,
    added: Seq<Value>,
    r: Result<Computed>,
)
    requires
        old(heap).wf(),
        is_object(old(heap)@, list, ObjectView::List(items)),
        is_object(old(heap)@, other, ObjectView::List(added)) || is_object(
            old(heap)@,
            other,
            ObjectView::Tuple(added),
        ),
        added.len() < usize::MAX,
        old(heap)@.room > 0,
        call_ensures(Heap::inplace_add, (heap, list, other), r),
    ensures
        r matches Ok(Computed::Value(value)) && value == list,
        is_object(final(heap)@, list, ObjectView::List(items + added)),
        other != list ==> final(heap)@.objects[other] == old(heap)@.objects[other],
{
    old(heap).lemma_view();
    if other != list {
        assert(old(heap)@.live(other));
        assert(final(heap)@.at(other) == old(heap)@.at(other));
    }
}

} // verus!
