//! Reads that may make an object keep the heap sound.
use vstd::prelude::*;
use crate::attributes::{answers, reads, Answer, Reading};
use crate::class::ClassView;
use crate::diagnostic::Diagnostic;
use crate::edges::optional;
use crate::heap::HeapView;
use crate::lookup::{Access, DescriptorAccess};
use crate::object::ObjectView;
use crate::sequence::{picked, slice_indices, slices_pick_positions, yields, Yield};
use crate::soundness::making::{integers_keep_sound, making_keeps_sound};
use crate::soundness::{class_holds, lemma_class_holds};
use crate::text::{lemma_name_position, name_position};
use crate::value::{lemma_not_heap, Value};

verus! {

/// Whether an answer holds nothing but what the heap knows.
pub open spec fn answer_known(heap: HeapView, answer: Answer) -> bool {
    match answer {
        Answer::Value(value) => heap.known(value),
        Answer::New(object) => forall|e: Value| #[trigger]
            object.edges().contains(e) ==> heap.known(e),
        Answer::Fault(_) => true,
    }
}

/// What an object holds is known.
proof fn lemma_edge_known(heap: HeapView, owner: Value, e: Value)
    requires
        heap.sound(),
        heap.live(owner),
        heap.objects[owner].edges().contains(e),
    ensures
        heap.known(e),
{
}

/// What a class or its ancestors hold under a name is known.
proof fn lemma_lookup_known(heap: HeapView, lineage: Seq<Value>, name: Seq<char>, from: int)
    requires
        heap.sound(),
    ensures
        heap.lookup_from(lineage, name, from) matches Ok(Some(value)) ==> heap.known(value),
    decreases lineage.len() - from,
{
    if 0 <= from < lineage.len() {
        if let Ok(class) = heap.class_at(lineage[from]) {
            if let Some(value) = class.own(name) {
                lemma_class_holds(class);
                lemma_name_position(class.attributes, name);
                assert(class_holds(class, value));
                lemma_edge_known(heap, lineage[from], value);
            } else {
                lemma_lookup_known(heap, lineage, name, from + 1);
            }
        }
    }
}

proof fn lemma_class_lookup_known(heap: HeapView, class: Value, name: Seq<char>)
    requires
        heap.sound(),
    ensures
        heap.class_lookup(class, name) matches Ok(Some(value)) ==> heap.known(value),
{
    if let Ok(held) = heap.class_at(class) {
        lemma_lookup_known(heap, seq![class] + held.mro, name, 0);
    }
}

proof fn lemma_bind_known(
    heap: HeapView,
    value: Value,
    instance: Option<Value>,
    owner_class: Value,
)
    requires
        heap.sound(),
        heap.known(value),
        instance matches Some(receiver) ==> heap.known(receiver),
        heap.known(owner_class),
    ensures
        answer_known(heap, heap.bind(value, instance, owner_class)),
{
    match heap.at(value) {
        Some(ObjectView::StaticMethod(function)) => {
            assert(heap.objects[value].edges()[0] == function);
            lemma_edge_known(heap, value, function);
        },
        Some(ObjectView::ClassMethod(function)) => {
            assert(heap.objects[value].edges()[0] == function);
            lemma_edge_known(heap, value, function);
        },
        _ => {},
    }
}

proof fn lemma_inherited_known(
    heap: HeapView,
    class: Value,
    name: Seq<char>,
    instance: Option<Value>,
)
    requires
        heap.sound(),
        instance matches Some(receiver) ==> heap.known(receiver),
        heap.known(class),
    ensures
        answer_known(heap, heap.inherited(class, name, instance)),
{
    lemma_class_lookup_known(heap, class, name);
    if let Ok(Some(value)) = heap.class_lookup(class, name) {
        lemma_bind_known(heap, value, instance, class);
    }
}

proof fn lemma_instance_known(heap: HeapView, owner: Value, class: Value, name: Seq<char>)
    requires
        heap.wf(),
        heap.sound(),
        heap.live(owner),
        heap.class_of(owner) == Some(class),
    ensures
        heap.known(class),
        answer_known(heap, heap.instance_attr(owner, class, name)),
{
    let object = heap.objects[owner];
    assert(object.edges()[0] == class);
    lemma_edge_known(heap, owner, class);
    lemma_inherited_known(heap, class, name, Some(owner));
    if let Some(value) = heap.attribute(owner, name) {
        let held = object.attributes_of().unwrap();
        crate::soundness::lemma_attribute_edges(object, held);
        match held {
            crate::shapes::AttributesView::Slots { shape, values } => {
                crate::shapes::lemma_last_slot(heap.shapes.layout(shape), name);
            },
            crate::shapes::AttributesView::Dictionary(values) => {
                lemma_name_position(values, name);
                assert(held.edges()[name_position(values, name).unwrap()] == value);
            },
        }
        assert(held.edges().contains(value));
        lemma_edge_known(heap, owner, value);
    }
}

/// What a class attribute of a name answers is known.
proof fn lemma_class_attr_known(heap: HeapView, owner: Value, class: ClassView, name: Seq<char>)
    requires
        heap.wf(),
        heap.sound(),
        heap.at(owner) == Some(ObjectView::Class(class)),
    ensures
        answer_known(heap, heap.class_attr(owner, class, name)),
{
    lemma_inherited_known(heap, owner, name, None);
    lemma_class_holds(class);
    assert forall|e: Value| class_holds(class, e) implies #[trigger] heap.known(e) by {
        assert(class.edges().contains(e));
        lemma_edge_known(heap, owner, e);
    }
    let line = seq![owner] + class.mro;
    assert forall|e: Value| #[trigger] line.contains(e) implies heap.known(e) by {
        let i = choose|i: int| 0 <= i < line.len() && line[i] == e;
        if i > 0 {
            assert(class.mro[i - 1] == e);
            assert(class_holds(class, e));
        }
    }
    assert forall|e: Value| #[trigger] class.bases.contains(e) implies heap.known(e) by {
        assert(class_holds(class, e));
    }
    assert(class_holds(class, class.metaclass));
}

/// What an attribute of a name answers is known.
proof fn lemma_attr_known(heap: HeapView, owner: Value, name: Seq<char>)
    requires
        heap.wf(),
        heap.sound(),
    ensures
        answer_known(heap, heap.attr(owner, name)),
{
    lemma_not_heap();
    if heap.live(owner) {
        let object = heap.objects[owner];
        let edges = object.edges();
        assert forall|i: int| 0 <= i < edges.len() implies heap.known(#[trigger] edges[i]) by {
            lemma_edge_known(heap, owner, edges[i]);
        }
        match object {
            ObjectView::Module(members) => {
                lemma_name_position(members, name);
                if let Some(i) = name_position(members, name) {
                    assert(edges[i] == members[i].1);
                }
            },
            ObjectView::Class(class) => {
                lemma_class_attr_known(heap, owner, class, name);
            },
            ObjectView::Instance { class, .. } => {
                lemma_instance_known(heap, owner, class, name);
            },
            ObjectView::Exception { class, arguments, attributes, cause, context, traceback, .. } => {
                lemma_instance_known(heap, owner, class, name);
                let head = seq![class] + attributes.edges();
                let first = head + arguments;
                let second = first + optional(cause);
                let third = second + optional(context);
                assert(edges =~= third + optional(traceback));
                assert forall|e: Value| #[trigger] arguments.contains(e) implies heap.known(e) by {
                    let i = choose|i: int| 0 <= i < arguments.len() && arguments[i] == e;
                    assert(edges[head.len() + i] == e);
                }
                if let Some(e) = cause {
                    assert(edges[first.len() as int] == e);
                }
                if let Some(e) = context {
                    assert(edges[second.len() as int] == e);
                }
                if let Some(e) = traceback {
                    assert(edges[third.len() as int] == e);
                }
            },
            ObjectView::BoundMethod { function, receiver } => {
                assert(edges[0] == function && edges[1] == receiver);
            },
            ObjectView::StaticMethod(function) => {
                assert(edges[0] == function);
            },
            ObjectView::ClassMethod(function) => {
                assert(edges[0] == function);
            },
            ObjectView::Property { getter, setter, deleter } => {
                if let Some(e) = getter {
                    assert(edges[0] == e);
                }
                if let Some(e) = setter {
                    assert(edges[optional(getter).len() as int] == e);
                }
                if let Some(e) = deleter {
                    assert(edges[(optional(getter) + optional(setter)).len() as int] == e);
                }
            },
            _ => {},
        }
    }
}

/// A protocol method is called on a receiver that is known.
pub proof fn special_calls_are_known(heap: HeapView, instance: Value, name: Seq<char>)
    requires
        heap.wf(),
        heap.sound(),
    ensures
        heap.special_method_call(instance, name) matches Ok(Some(call)) ==> (
        call.receiver matches Some(receiver) ==> heap.known(receiver)),
{
    lemma_class_known(heap, instance);
}

/// Giving an answer of what the heap knows keeps it sound, and gives a value
/// that is known.
pub proof fn answers_keep_sound(
    before: HeapView,
    after: HeapView,
    result: core::result::Result<Value, Diagnostic>,
    answer: Answer,
)
    requires
        before.wf(),
        before.sound(),
        answer_known(before, answer),
        answers(before, after, result, answer),
    ensures
        after.sound(),
        result matches Ok(value) ==> after.known(value),
{
    if let Answer::New(object) = answer {
        making_keeps_sound(before, after, result, object);
    }
}

/// Reading an attribute keeps the heap sound, and gives a value that is known.
pub proof fn attribute_reads_keep_sound(
    before: HeapView,
    after: HeapView,
    result: core::result::Result<Value, Diagnostic>,
    owner: Value,
    name: Seq<char>,
)
    requires
        before.wf(),
        before.sound(),
        answers(before, after, result, before.attr(owner, name)),
    ensures
        after.sound(),
        result matches Ok(value) ==> after.known(value),
{
    lemma_attr_known(before, owner, name);
    answers_keep_sound(before, after, result, before.attr(owner, name));
}

/// Making a `super` object keeps the heap sound.
pub proof fn super_objects_keep_sound(
    before: HeapView,
    after: HeapView,
    result: core::result::Result<Value, Diagnostic>,
    start_class: Value,
    receiver: Value,
)
    requires
        before.wf(),
        before.sound(),
        answers(before, after, result, before.super_value(start_class, receiver)),
    ensures
        after.sound(),
        result matches Ok(value) ==> after.known(value),
{
    answers_keep_sound(before, after, result, before.super_value(start_class, receiver));
}

/// Whether a reading gives or makes nothing but of what the heap knows.
pub open spec fn reading_known(heap: HeapView, reading: Reading) -> bool {
    match reading {
        Reading::New(object) => answer_known(heap, Answer::New(object)),
        Reading::Access(Access::Value(value)) => heap.known(value),
        _ => true,
    }
}

/// Whether a value that was read is known.
pub open spec fn read_known(
    heap: HeapView,
    result: core::result::Result<Option<DescriptorAccess>, Diagnostic>,
) -> bool {
    result matches Ok(Some(DescriptorAccess::Value(value))) ==> heap.known(value)
}

proof fn lemma_reads_sound(
    before: HeapView,
    after: HeapView,
    result: core::result::Result<Option<DescriptorAccess>, Diagnostic>,
    reading: Reading,
)
    requires
        before.wf(),
        before.sound(),
        reading_known(before, reading),
        reads(before, after, result, reading),
    ensures
        after.sound(),
        read_known(after, result),
{
    if let Reading::New(object) = reading {
        match result {
            Ok(Some(DescriptorAccess::Value(value))) => {
                making_keeps_sound(before, after, Ok(value), object);
            },
            Ok(_) => {},
            Err(error) => {
                making_keeps_sound(before, after, Err(error), object);
            },
        }
    }
}

/// The class of what is live is known.
proof fn lemma_class_known(heap: HeapView, value: Value)
    requires
        heap.sound(),
    ensures
        heap.class_of(value) matches Some(class) ==> heap.known(class),
{
    if let Some(class) = heap.class_of(value) {
        assert(heap.objects[value].edges()[0] == class);
        lemma_edge_known(heap, value, class);
    }
}

/// What a `super` object gives or makes is known.
pub proof fn lemma_super_known(heap: HeapView, owner: Value, name: Seq<char>)
    requires
        heap.wf(),
        heap.sound(),
    ensures
        reading_known(heap, heap.super_getter(owner, name)),
{
    if let Some(ObjectView::Super { start_class, receiver }) = heap.at(owner) {
        let edges = heap.objects[owner].edges();
        assert(edges[0] == start_class && edges[1] == receiver);
        lemma_edge_known(heap, owner, start_class);
        lemma_edge_known(heap, owner, receiver);
        lemma_class_known(heap, receiver);
        if heap.found(receiver) is Ok {
            if let Some(owner_class) = heap.super_class(receiver) {
                if let Ok(class) = heap.class_at(owner_class) {
                    let line = seq![owner_class] + class.mro;
                    if line.contains(start_class) {
                        let from = line.index_of_first(start_class).unwrap() + 1;
                        lemma_lookup_known(heap, line, name, from);
                        let instance = if heap.class_of(receiver) is Some {
                            Some(receiver)
                        } else {
                            None
                        };
                        if let Ok(Some(descriptor)) = heap.lookup_from(line, name, from) {
                            lemma_bind_known(heap, descriptor, instance, owner_class);
                        }
                    }
                }
            }
        }
    }
}

/// Reading a name through a `super` object keeps the heap sound.
pub proof fn super_reads_keep_sound(
    before: HeapView,
    after: HeapView,
    result: core::result::Result<Option<DescriptorAccess>, Diagnostic>,
    owner: Value,
    name: Seq<char>,
)
    requires
        before.wf(),
        before.sound(),
        reads(before, after, result, before.super_getter(owner, name)),
    ensures
        after.sound(),
        read_known(after, result),
{
    lemma_super_known(before, owner, name);
    lemma_reads_sound(before, after, result, before.super_getter(owner, name));
}

/// Reading a name through the metaclass of a class keeps the heap sound.
pub proof fn metaclass_reads_keep_sound(
    before: HeapView,
    after: HeapView,
    result: core::result::Result<Option<DescriptorAccess>, Diagnostic>,
    owner: Value,
    name: Seq<char>,
    data_only: bool,
)
    requires
        before.wf(),
        before.sound(),
        reads(before, after, result, before.metaclass_getter(owner, name, data_only)),
    ensures
        after.sound(),
        read_known(after, result),
{
    if let Some(metaclass) = before.metaclass_of(owner) {
        let class = before.objects[owner]->Class_0;
        lemma_class_holds(class);
        assert(class_holds(class, metaclass));
        lemma_edge_known(before, owner, metaclass);
        lemma_class_lookup_known(before, metaclass, name);
        if let Ok(Some(descriptor)) = before.class_lookup(metaclass, name) {
            lemma_bind_known(before, descriptor, Some(owner), metaclass);
        }
    }
    lemma_reads_sound(before, after, result, before.metaclass_getter(owner, name, data_only));
}

/// What a descriptor gives without a call is known.
pub proof fn descriptor_reads_are_known(heap: HeapView, owner: Value, name: Seq<char>)
    requires
        heap.wf(),
        heap.sound(),
    ensures
        heap.descriptor_getter(owner, name) matches Ok(Some(Access::Value(value))) ==> heap.known(
            value,
        ),
{
    if let Some(class) = heap.class_of(owner) {
        lemma_class_lookup_known(heap, class, name);
    } else {
        lemma_class_lookup_known(heap, owner, name);
    }
}

/// Taking a length keeps the heap sound.
pub proof fn lengths_keep_sound(
    before: HeapView,
    after: HeapView,
    result: core::result::Result<Value, Diagnostic>,
    value: Value,
)
    requires
        before.wf(),
        before.sound(),
        yields(before, after, result, before.length(value)),
    ensures
        after.sound(),
{
    if let Yield::Integer(n) = before.length(value) {
        integers_keep_sound(before, after, n, result);
    }
}

/// Taking an item or a slice keeps the heap sound.
pub proof fn items_keep_sound(
    before: HeapView,
    after: HeapView,
    result: core::result::Result<Value, Diagnostic>,
    owner: Value,
    index: Value,
)
    requires
        before.wf(),
        before.sound(),
        yields(before, after, result, before.item(owner, index)),
    ensures
        after.sound(),
{
    let v = before.native(owner);
    match before.item(owner, index) {
        Yield::Integer(n) => {
            integers_keep_sound(before, after, n, result);
        },
        Yield::New(object) => {
            if let Some(ObjectView::Slice { start, stop, step }) = before.at(index) {
                if let Yield::New(ObjectView::Str(_)) = before.sliced(
                    before.native(v),
                    start,
                    stop,
                    step,
                ) {
                } else {
                    let source = before.native(v);
                    let items = before.objects[source].edges();
                    let (first, end, stride) = (
                        before.slice_component(start)->Ok_0,
                        before.slice_component(stop)->Ok_0,
                        before.slice_component(step)->Ok_0,
                    );
                    let by = match stride {
                        Some(n) => n,
                        None => 1,
                    };
                    let indices = slice_indices(items.len() as int, first, end, by);
                    assert(object.edges() == picked(items, indices));
                    assert forall|e: Value| #[trigger]
                        object.edges().contains(e) implies before.known(e) by {
                        let k = choose|k: int| 0 <= k < indices.len() && items[indices[k]] == e;
                        slices_pick_positions(items.len() as int, first, end, by, k);
                        lemma_edge_known(before, source, e);
                    }
                }
            }
            making_keeps_sound(before, after, result, object);
        },
        _ => {},
    }
}

} // verus!
