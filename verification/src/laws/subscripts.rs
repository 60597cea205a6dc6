//! Subscripts, slices and lengths.
use vstd::prelude::*;
use crate::diagnostic::Result;
use crate::hashing::range_count;
use crate::heap::{Heap, HeapView};
use crate::laws::comparing::{has_item, lemma_range_items};
use crate::laws::{
    gives, gives_new, gives_number, is_number, is_object, lemma_object_word, raises, stores,
};
use crate::object::ObjectView;
use crate::sequence::{picked, slice_indices, slices_pick_positions};
use crate::value::Value;

verus! {

pub proof fn lemma_number(heap: Heap, value: Value, n: int)
    requires
        heap.wf(),
        is_number(heap@, value, n),
    ensures
        heap@.integer(value) == Ok::<int, crate::diagnostic::Fault>(n),
        !(heap@.at(value) matches Some(ObjectView::Slice { .. })),
{
    heap.lemma_view();
    crate::value::lemma_not_heap();
}

proof fn lemma_stored(heap: Heap, value: Value, object: ObjectView) -> (held: Value)
    requires
        heap.wf(),
        stores(heap@, value, object),
        !(object is Instance),
    ensures
        is_object(heap@, held, object),
        heap@.native(value) == held,
        heap@.native(held) == held,
        value.as_number() is None,
{
    heap.lemma_view();
    lemma_object_word(heap@, value);
    if is_object(heap@, value, object) {
        value
    } else {
        let (class, attributes, held) = choose|
            class: Value,
            attributes: crate::shapes::AttributesView,
            held: Value,
        | #![auto]
            is_object(
                heap@,
                value,
                ObjectView::Instance { class, attributes, native: Some(held) },
            ) && is_object(heap@, held, object);
        held
    }
}

/// An index of a list or tuple counts from the start, a negative one from the
/// end; one that no item has is refused.
pub proof fn items_are_found_from_either_end(
    heap: &mut Heap,
    owner: Value,
    index: Value,
    items: Seq<Value>,
    n: int,
    r: Result<Value>,
)
    requires
        old(heap).wf(),
        stores(old(heap)@, owner, ObjectView::List(items)) || stores(
            old(heap)@,
            owner,
            ObjectView::Tuple(items),
        ),
        is_number(old(heap)@, index, n),
        items.len() <= usize::MAX,
        call_ensures(Heap::item, (heap, owner, index), r),
    ensures
        0 <= n < items.len() ==> gives(old(heap)@, final(heap)@, r, items[n]),
        -items.len() <= n < 0 ==> gives(old(heap)@, final(heap)@, r, items[items.len() + n]),
        n < -items.len() || n >= items.len() ==> raises(
            old(heap)@,
            final(heap)@,
            r,
            "IndexError",
        ),
{
    lemma_number(*old(heap), index, n);
    if stores(old(heap)@, owner, ObjectView::List(items)) {
        lemma_stored(*old(heap), owner, ObjectView::List(items));
    } else {
        lemma_stored(*old(heap), owner, ObjectView::Tuple(items));
    }
}

/// The same of a text, whose items are texts of one character.
pub proof fn characters_are_found_from_either_end(
    heap: &mut Heap,
    owner: Value,
    index: Value,
    text: Seq<char>,
    n: int,
    r: Result<Value>,
)
    requires
        old(heap).wf(),
        stores(old(heap)@, owner, ObjectView::Str(text)),
        is_number(old(heap)@, index, n),
        text.len() <= usize::MAX,
        call_ensures(Heap::item, (heap, owner, index), r),
    ensures
        0 <= n < text.len() ==> gives_new(
            old(heap)@,
            final(heap)@,
            r,
            ObjectView::Str(seq![text[n]]),
        ),
        -text.len() <= n < 0 ==> gives_new(
            old(heap)@,
            final(heap)@,
            r,
            ObjectView::Str(seq![text[text.len() + n]]),
        ),
        n < -text.len() || n >= text.len() ==> raises(
            old(heap)@,
            final(heap)@,
            r,
            "IndexError",
        ),
{
    old(heap).lemma_view();
    lemma_number(*old(heap), index, n);
    lemma_stored(*old(heap), owner, ObjectView::Str(text));
}

/// The same of a range of `len` items, which are integers.
pub proof fn range_items_are_found_from_either_end(
    heap: &mut Heap,
    owner: Value,
    index: Value,
    start: i64,
    stop: i64,
    step: i64,
    len: int,
    n: int,
    r: Result<Value>,
)
    requires
        old(heap).wf(),
        stores(old(heap)@, owner, ObjectView::Range { start, stop, step }),
        is_number(old(heap)@, index, n),
        0 <= len,
        len > 0 ==> has_item(start as int, stop as int, step as int, len - 1),
        !has_item(start as int, stop as int, step as int, len),
        call_ensures(Heap::item, (heap, owner, index), r),
    ensures
        0 <= n < len ==> gives_number(old(heap)@, final(heap)@, r, start + n * step),
        -len <= n < 0 ==> gives_number(old(heap)@, final(heap)@, r, start + (len + n) * step),
        n < -len || n >= len ==> raises(old(heap)@, final(heap)@, r, "IndexError"),
{
    old(heap).lemma_view();
    lemma_number(*old(heap), index, n);
    let held = lemma_stored(*old(heap), owner, ObjectView::Range { start, stop, step });
    assert(step != 0);
    lemma_range_items(start as int, stop as int, step as int, len);
    lemma_range_items(start as int, stop as int, step as int, len - 1);
    assert(len == range_count(start as int, stop as int, step as int));
    lemma_range_short(start as int, stop as int, step as int);
}

proof fn lemma_range_short(start: int, stop: int, step: int)
    requires
        step != 0,
        i64::MIN <= start <= i64::MAX,
        i64::MIN <= stop <= i64::MAX,
    ensures
        0 <= range_count(start, stop, step) <= u64::MAX,
{
    let k = range_count(start, stop, step) - 1;
    lemma_range_items(start, stop, step, k);
    if k >= 0 {
        if step > 0 {
            assert(k <= k * step) by (nonlinear_arith)
                requires
                    step > 0,
                    k >= 0,
            ;
        } else {
            assert(k * step <= -k) by (nonlinear_arith)
                requires
                    step < 0,
                    k >= 0,
            ;
        }
    }
}

/// A subscript that counts from the end finds what the one that counts from
/// the start does.
pub proof fn negative_subscripts_agree(
    heap: &mut Heap,
    other: &mut Heap,
    owner: Value,
    back: Value,
    forth: Value,
    items: Seq<Value>,
    n: int,
    r: Result<Value>,
    s: Result<Value>,
)
    requires
        old(heap).wf(),
        *old(other) == *old(heap),
        stores(old(heap)@, owner, ObjectView::List(items)) || stores(
            old(heap)@,
            owner,
            ObjectView::Tuple(items),
        ),
        items.len() <= usize::MAX,
        -items.len() <= n < 0,
        is_number(old(heap)@, back, n),
        is_number(old(heap)@, forth, items.len() + n),
        call_ensures(Heap::item, (heap, owner, back), r),
        call_ensures(Heap::item, (other, owner, forth), s),
    ensures
        r is Ok && s is Ok && r->Ok_0 == s->Ok_0,
{
    lemma_number(*old(heap), back, n);
    lemma_number(*old(heap), forth, items.len() + n);
    if stores(old(heap)@, owner, ObjectView::List(items)) {
        lemma_stored(*old(heap), owner, ObjectView::List(items));
    } else {
        lemma_stored(*old(heap), owner, ObjectView::Tuple(items));
    }
}

/// What is set at an index of a list is what is there afterwards, and nothing
/// else is changed.
pub proof fn list_items_are_set(
    heap: &mut Heap,
    owner: Value,
    index: Value,
    value: Value,
    items: Seq<Value>,
    n: int,
    r: Result<()>,
)
    requires
        old(heap).wf(),
        is_object(old(heap)@, owner, ObjectView::List(items)),
        is_number(old(heap)@, index, n),
        call_ensures(Heap::set_item, (heap, owner, index, value), r),
    ensures
        0 <= n < items.len() ==> r is Ok && final(heap)@.objects == old(heap)@.objects.insert(
            owner,
            ObjectView::List(items.update(n, value)),
        ),
        -items.len() <= n < 0 ==> r is Ok && final(heap)@.objects == old(heap)@.objects.insert(
            owner,
            ObjectView::List(items.update(items.len() + n, value)),
        ),
        n < -items.len() || n >= items.len() ==> raises(
            old(heap)@,
            final(heap)@,
            r,
            "IndexError",
        ),
{
    old(heap).lemma_view();
    lemma_number(*old(heap), index, n);
}

/// A deleted item of a list is gone, and those behind it move up.
pub proof fn list_items_are_deleted(
    heap: &mut Heap,
    owner: Value,
    index: Value,
    items: Seq<Value>,
    n: int,
    r: Result<()>,
)
    requires
        old(heap).wf(),
        is_object(old(heap)@, owner, ObjectView::List(items)),
        is_number(old(heap)@, index, n),
        call_ensures(Heap::delete_item, (heap, owner, index), r),
    ensures
        0 <= n < items.len() ==> r is Ok && final(heap)@.objects == old(heap)@.objects.insert(
            owner,
            ObjectView::List(items.take(n) + items.skip(n + 1)),
        ),
        -items.len() <= n < 0 ==> r is Ok && final(heap)@.objects == old(heap)@.objects.insert(
            owner,
            ObjectView::List(items.take(items.len() + n) + items.skip(items.len() + n + 1)),
        ),
        n < -items.len() || n >= items.len() ==> raises(
            old(heap)@,
            final(heap)@,
            r,
            "IndexError",
        ),
{
    old(heap).lemma_view();
    lemma_number(*old(heap), index, n);
    if 0 <= n < items.len() {
        assert(items.remove(n) =~= items.take(n) + items.skip(n + 1));
    }
    if -items.len() <= n < 0 {
        let i = items.len() + n;
        assert(items.remove(i) =~= items.take(i) + items.skip(i + 1));
    }
}

/// Whether a slice bound or step is absent or an integer.
pub open spec fn is_bound(heap: HeapView, value: Value, bound: Option<int>) -> bool {
    match bound {
        None => value@ is Nothing,
        Some(n) => i128::MIN <= n <= i128::MAX && is_number(heap, value, n),
    }
}

/// The position that a slice bound means: counted from the end if negative.
pub open spec fn counted(len: int, bound: int) -> int {
    if bound < 0 {
        len + bound
    } else {
        bound
    }
}

/// Whether the `k`th item taken is the one so many steps from a position on,
/// before the stop.
pub open spec fn at_step<T>(
    items: Seq<T>,
    first: int,
    stop: int,
    step: int,
    taken: Seq<T>,
    k: int,
) -> bool {
    let i = first + k * step;
    0 <= i < items.len() && taken[k] == items[i] && if step > 0 {
        i < stop
    } else {
        i > stop
    }
}

/// Whether some items are every `step`th of others, from a position on and as
/// long as there are any before the stop.
pub open spec fn every_step<T>(items: Seq<T>, first: int, stop: int, step: int, taken: Seq<T>) -> bool {
    &&& forall|k: int|
        0 <= k < taken.len() ==> #[trigger] at_step(items, first, stop, step, taken, k)
    &&& {
        let next = first + taken.len() * step;
        if step > 0 {
            next >= stop || next >= items.len()
        } else {
            next <= stop || next < 0
        }
    }
}

/// Whether some items are those that a slice takes from others: every
/// `step`th, from the start bound or the end of the sequence that it lies
/// behind, up to the stop bound.
pub open spec fn is_slice<T>(
    items: Seq<T>,
    start: Option<int>,
    stop: Option<int>,
    step: int,
    taken: Seq<T>,
) -> bool {
    let len = items.len() as int;
    let a = match start {
        Some(n) => counted(len, n),
        None => if step > 0 {
            0
        } else {
            len - 1
        },
    };
    let b = match stop {
        Some(n) => counted(len, n),
        None => if step > 0 {
            len
        } else {
            -1
        },
    };
    let first = if step > 0 && a < 0 {
        0
    } else if step < 0 && a >= len {
        len - 1
    } else {
        a
    };
    every_step(items, first, b, step, taken)
}

pub proof fn lemma_slice<T>(items: Seq<T>, start: Option<int>, stop: Option<int>, step: int)
    requires
        step != 0,
    ensures
        is_slice(
            items,
            start,
            stop,
            step,
            picked(items, slice_indices(items.len() as int, start, stop, step)),
        ),
{
    let len = items.len() as int;
    let indices = slice_indices(len, start, stop, step);
    let taken = picked(items, indices);
    let first = crate::sequence::slice_first(len, start, step);
    let end = crate::sequence::slice_end(len, stop, step);
    lemma_range_items(first, end, step, indices.len() as int);
    assert forall|k: int| 0 <= k < taken.len() implies 0 <= first + k * step < len && (if step > 0 {
        first + k * step < end
    } else {
        first + k * step > end
    }) && #[trigger] taken[k] == items[first + k * step] by {
        lemma_range_items(first, end, step, k);
        slices_pick_positions(len, start, stop, step, k);
    }
    let a = match start {
        Some(n) => counted(len, n),
        None => if step > 0 {
            0
        } else {
            len - 1
        },
    };
    let b = match stop {
        Some(n) => counted(len, n),
        None => if step > 0 {
            len
        } else {
            -1
        },
    };
    let mine = if step > 0 && a < 0 {
        0
    } else if step < 0 && a >= len {
        len - 1
    } else {
        a
    };
    let passed = taken.len() * step;
    assert(!has_item(first, end, step, taken.len() as int));
    if taken.len() > 0 {
        assert(0 * step == 0);
        assert(taken[0] == items[first + 0 * step]);
        assert(first == mine);
        assert(step > 0 ==> end <= b);
        assert(step < 0 ==> end >= b);
        if step > 0 {
            assert(first + passed >= end);
        } else {
            assert(first + passed <= end);
        }
    } else {
        assert(passed == 0) by (nonlinear_arith)
            requires
                passed == taken.len() * step,
                taken.len() == 0,
        ;
    }
    assert forall|k: int| 0 <= k < taken.len() implies #[trigger] at_step(
        items,
        mine,
        b,
        step,
        taken,
        k,
    ) by {
        assert(taken[k] == items[first + k * step]);
    }
    assert(mine + taken.len() * step == mine + passed);
    if step > 0 {
        assert(mine + passed >= b || mine + passed >= len);
    } else {
        assert(mine + passed <= b || mine + passed < 0);
    }
    assert(every_step(items, mine, b, step, taken));
}

/// A slice of a list, tuple or text takes every `step`th item between its
/// bounds, forwards or backwards, and is of the type of what it is taken from.
pub proof fn slices_take_every_step(
    heap: &mut Heap,
    owner: Value,
    index: Value,
    bounds: (Value, Value, Value),
    start: Option<int>,
    stop: Option<int>,
    step: Option<int>,
    by: int,
    object: ObjectView,
    r: Result<Value>,
)
    requires
        old(heap).wf(),
        stores(old(heap)@, owner, object),
        object is List || object is Tuple || object is Str,
        is_object(
            old(heap)@,
            index,
            ObjectView::Slice { start: bounds.0, stop: bounds.1, step: bounds.2 },
        ),
        is_bound(old(heap)@, bounds.0, start),
        is_bound(old(heap)@, bounds.1, stop),
        is_bound(old(heap)@, bounds.2, step),
        step is Some ==> by == step->0,
        step is None ==> by == 1,
        call_ensures(Heap::item, (heap, owner, index), r),
    ensures
        by == 0 ==> raises(old(heap)@, final(heap)@, r, "ValueError"),
        by != 0 ==> ({
            match object {
                ObjectView::List(items) => exists|taken: Seq<Value>| #![auto]
                    is_slice(items, start, stop, by, taken) && gives_new(
                        old(heap)@,
                        final(heap)@,
                        r,
                        ObjectView::List(taken),
                    ),
                ObjectView::Tuple(items) => exists|taken: Seq<Value>| #![auto]
                    is_slice(items, start, stop, by, taken) && gives_new(
                        old(heap)@,
                        final(heap)@,
                        r,
                        ObjectView::Tuple(taken),
                    ),
                ObjectView::Str(text) => exists|taken: Seq<char>| #![auto]
                    is_slice(text, start, stop, by, taken) && gives_new(
                        old(heap)@,
                        final(heap)@,
                        r,
                        ObjectView::Str(taken),
                    ),
                _ => false,
            }
        }),
{
    old(heap).lemma_view();
    crate::value::lemma_not_heap();
    lemma_none_word();
    lemma_stored(*old(heap), owner, object);
    if let Some(n) = start {
        lemma_number(*old(heap), bounds.0, n);
    }
    if let Some(n) = stop {
        lemma_number(*old(heap), bounds.1, n);
    }
    if let Some(n) = step {
        lemma_number(*old(heap), bounds.2, n);
    }
    if by != 0 {
        match object {
            ObjectView::List(items) => {
                lemma_slice(items, start, stop, by);
                let taken = picked(items, slice_indices(items.len() as int, start, stop, by));
                assert(gives_new(old(heap)@, final(heap)@, r, ObjectView::List(taken)));
            },
            ObjectView::Tuple(items) => {
                lemma_slice(items, start, stop, by);
                let taken = picked(items, slice_indices(items.len() as int, start, stop, by));
                assert(gives_new(old(heap)@, final(heap)@, r, ObjectView::Tuple(taken)));
            },
            ObjectView::Str(text) => {
                lemma_slice(text, start, stop, by);
                let taken = picked(text, slice_indices(text.len() as int, start, stop, by));
                assert(gives_new(old(heap)@, final(heap)@, r, ObjectView::Str(taken)));
            },
            _ => {},
        }
    }
}

pub proof fn lemma_none_word()
    ensures
        forall|v: Value| (#[trigger] v@) is Nothing <==> v == Value::none(),
{
    assert(4u64 & 7 == 4) by (bit_vector);
}

/// The length of a sequence is the number of its items, that of a dictionary
/// the number of its entries.
pub proof fn lengths_count_items(heap: &mut Heap, value: Value, object: ObjectView, r: Result<Value>)
    requires
        old(heap).wf(),
        stores(old(heap)@, value, object),
        call_ensures(Heap::length, (heap, value), r),
    ensures
        match object {
            ObjectView::List(items) => gives_number(
                old(heap)@,
                final(heap)@,
                r,
                items.len() as int,
            ),
            ObjectView::Tuple(items) => gives_number(
                old(heap)@,
                final(heap)@,
                r,
                items.len() as int,
            ),
            ObjectView::Str(text) => gives_number(old(heap)@, final(heap)@, r, text.len() as int),
            ObjectView::Dict(dict) => gives_number(
                old(heap)@,
                final(heap)@,
                r,
                dict.entries.len() as int,
            ),
            ObjectView::Buffer(buffer) => gives_number(
                old(heap)@,
                final(heap)@,
                r,
                buffer.data.len() as int,
            ),
            ObjectView::Range { start, stop, step } => exists|len: int| #![auto]
                gives_number(old(heap)@, final(heap)@, r, len) && len >= 0 && (len > 0 ==> has_item(
                    start as int,
                    stop as int,
                    step as int,
                    len - 1,
                )) && !has_item(start as int, stop as int, step as int, len),
            ObjectView::Int(_) => raises(old(heap)@, final(heap)@, r, "TypeError"),
            ObjectView::Float(_) => raises(old(heap)@, final(heap)@, r, "TypeError"),
            _ => true,
        },
{
    old(heap).lemma_view();
    if !(object is Instance) {
        lemma_stored(*old(heap), value, object);
        if let ObjectView::Range { start, stop, step } = object {
            assert(step != 0);
            let len = range_count(start as int, stop as int, step as int);
            lemma_range_items(start as int, stop as int, step as int, len);
            lemma_range_items(start as int, stop as int, step as int, len - 1);
            assert(gives_number(old(heap)@, final(heap)@, r, len));
        }
    }
}

} // verus!
