//! What the operations are for: relations between what is given to them and
//! what they give back.
use vstd::prelude::*;
use crate::diagnostic::Result;
use crate::heap::HeapView;
use crate::object::ObjectView;
use crate::value::{Meaning, Value};

pub mod ancestry;
pub mod asking;
pub mod assigning;
pub mod boundary;
pub mod calling;
pub mod classes;
pub mod collecting;
pub mod comparing;
pub mod constructing;
pub mod converting;
pub mod descriptors;
pub mod dicts;
pub mod frames;
pub mod initializing;
pub mod iterating;
pub mod literals;
pub mod making;
pub mod namespaces;
pub mod natives;
pub mod numbers;
pub mod operators;
pub mod protocols;
pub mod proxies;
pub mod resources;
pub mod resuming;
pub mod rounding;
pub mod storing;
pub mod subscripts;
pub mod texts;
pub mod tracing;

verus! {

/// Whether a value is an integer: immediate, a truth value, or an object.
pub open spec fn is_number(heap: HeapView, value: Value, n: int) -> bool {
    match value@ {
        Meaning::Int(m) => n == m,
        Meaning::Bool(true) => n == 1,
        Meaning::Bool(false) => n == 0,
        Meaning::Heap { .. } => heap.objects.dom().contains(value) && heap.objects[value]
            == ObjectView::Int(n),
        _ => false,
    }
}

/// Whether a value is a live object.
pub open spec fn is_object(heap: HeapView, value: Value, object: ObjectView) -> bool {
    heap.objects.dom().contains(value) && heap.objects[value] == object
}

/// Whether a value is a live object, or an instance that stores one.
pub open spec fn stores(heap: HeapView, value: Value, object: ObjectView) -> bool {
    ||| is_object(heap, value, object)
    ||| exists|class: Value, attributes: crate::shapes::AttributesView, held: Value| #![auto]
        is_object(
            heap,
            value,
            ObjectView::Instance { class, attributes, native: Some(held) },
        ) && is_object(heap, held, object)
}

/// Whether a call gave back a new object, leaving those that were there, or
/// there was no room for one.
pub open spec fn gives_new(
    before: HeapView,
    after: HeapView,
    result: Result<Value>,
    object: ObjectView,
) -> bool {
    match result {
        Ok(value) => !before.objects.dom().contains(value) && after.objects
            == before.objects.insert(value, object),
        Err(error) => before.room == 0 && error@.kind == "MemoryError"@ && after == before,
    }
}

/// Whether a call gave back an integer, or there was no room for it.
pub open spec fn gives_number(
    before: HeapView,
    after: HeapView,
    result: Result<Value>,
    n: int,
) -> bool {
    match result {
        Ok(value) => is_number(after, value, n) && before.objects.submap_of(after.objects),
        Err(error) => before.room == 0 && error@.kind == "MemoryError"@ && after == before,
    }
}

/// Whether a call gave back a value that was there, and changed nothing.
pub open spec fn gives(before: HeapView, after: HeapView, result: Result<Value>, value: Value) -> bool {
    result == Ok::<Value, crate::diagnostic::Diagnostic>(value) && after == before
}

/// Whether a call failed with an exception of a kind, and changed nothing.
pub open spec fn raises<T>(before: HeapView, after: HeapView, result: Result<T>, kind: &str) -> bool {
    result is Err && result->Err_0@.kind == kind@ && after == before
}

/// Whether a class itself has an attribute.
pub open spec fn defines(heap: HeapView, class: Value, name: Seq<char>, value: Value) -> bool {
    heap.objects.dom().contains(class) && heap.objects[class] is Class && exists|i: int|
        first_named(heap.objects[class]->Class_0.attributes, name, i)
            && heap.objects[class]->Class_0.attributes[i].1 == value
}

/// Whether an entry is the first of its name.
pub open spec fn first_named<T>(entries: Seq<(Seq<char>, T)>, name: Seq<char>, i: int) -> bool {
    0 <= i < entries.len() && entries[i].0 == name && forall|j: int|
        0 <= j < i ==> (#[trigger] entries[j]).0 != name
}

/// Whether a class is live and has no attribute of its own of a name.
pub open spec fn lacks(heap: HeapView, class: Value, name: Seq<char>) -> bool {
    heap.objects.dom().contains(class) && heap.objects[class] is Class && forall|i: int|
        0 <= i < heap.objects[class]->Class_0.attributes.len() ==> (
        #[trigger] heap.objects[class]->Class_0.attributes[i]).0 != name
}

/// Whether the first class of a line, from a position on, that has an
/// attribute of a name has this one.
pub open spec fn leads_to(
    heap: HeapView,
    line: Seq<Value>,
    from: int,
    name: Seq<char>,
    value: Value,
) -> bool {
    exists|i: int|
        from <= i < line.len() && #[trigger] defines(heap, line[i], name, value) && forall|j: int|
            from <= j < i ==> #[trigger] lacks(heap, line[j], name)
}

/// Whether no class of a line, from a position on, has an attribute of a name.
pub open spec fn leads_nowhere(heap: HeapView, line: Seq<Value>, from: int, name: Seq<char>) -> bool {
    forall|j: int| from <= j < line.len() ==> #[trigger] lacks(heap, line[j], name)
}

/// What the words of the truth values stand for.
pub proof fn truth_words()
    ensures
        forall|b: bool| #[trigger] Value::of_bool(b)@ == Meaning::Bool(b),
{
    assert(2u64 & 7 == 2 && 3u64 & 7 == 3) by (bit_vector);
}

/// A live object is behind a word that is no integer and no truth value.
pub proof fn lemma_object_word(heap: HeapView, value: Value)
    requires
        heap.wf(),
        heap.objects.dom().contains(value),
    ensures
        value@ is Heap,
        value.as_number() is None,
        value != Value::none(),
        value != Value::unbound(),
        value != Value::not_implemented(),
{
    crate::value::lemma_not_heap();
    assert(4u64 & 7 == 4 && 5u64 & 7 == 5 && 6u64 & 7 == 6) by (bit_vector);
    assert(value.is_heap());
}

pub proof fn lemma_own(heap: HeapView, class: Value, name: Seq<char>)
    requires
        heap.objects.dom().contains(class),
        heap.objects[class] is Class,
    ensures
        match heap.objects[class]->Class_0.own(name) {
            Some(value) => defines(heap, class, name, value) && forall|other: Value| #[trigger]
                defines(heap, class, name, other) ==> other == value,
            None => lacks(heap, class, name),
        },
        lacks(heap, class, name) ==> heap.objects[class]->Class_0.own(name) is None,
        forall|value: Value| #[trigger]
            defines(heap, class, name, value) ==> heap.objects[class]->Class_0.own(name) == Some(
                value,
            ),
{
    let attributes = heap.objects[class]->Class_0.attributes;
    crate::text::lemma_name_position(attributes, name);
    if let Some(i) = crate::text::name_position(attributes, name) {
        assert(first_named(attributes, name, i));
    }
}

/// A class attribute is found in the first class of the line that has it.
pub proof fn lemma_leads(heap: HeapView, line: Seq<Value>, from: int, name: Seq<char>)
    requires
        0 <= from,
    ensures
        forall|value: Value| #[trigger]
            leads_to(heap, line, from, name, value) ==> heap.lookup_from(line, name, from) == Ok::<
                Option<Value>,
                crate::diagnostic::Fault,
            >(Some(value)),
        leads_nowhere(heap, line, from, name) ==> heap.lookup_from(line, name, from) == Ok::<
            Option<Value>,
            crate::diagnostic::Fault,
        >(None),
    decreases line.len() - from,
{
    if from < line.len() {
        lemma_leads(heap, line, from + 1, name);
        if heap.objects.dom().contains(line[from]) && heap.objects[line[from]] is Class {
            lemma_own(heap, line[from], name);
        }
        assert forall|value: Value| #[trigger] leads_to(heap, line, from, name, value) implies
            heap.lookup_from(line, name, from) == Ok::<Option<Value>, crate::diagnostic::Fault>(
            Some(value),
        ) by {
            let i = choose|i: int|
                from <= i < line.len() && #[trigger] defines(heap, line[i], name, value)
                    && forall|j: int| from <= j < i ==> #[trigger] lacks(heap, line[j], name);
            if i > from {
                assert(lacks(heap, line[from], name));
                assert(leads_to(heap, line, from + 1, name, value));
            }
        }
        if leads_nowhere(heap, line, from, name) {
            assert(lacks(heap, line[from], name));
            assert(leads_nowhere(heap, line, from + 1, name));
        }
    }
}

} // verus!
