//! What collection keeps.
use vstd::prelude::*;
use crate::class::ClassView;
use crate::handles::{Handle, HandleKind, HandleTable};
use crate::heap::gc::{root_set, CollectionStats};
use crate::heap::{Heap, HeapView};
use crate::object::{Object, ObjectView};
use crate::shapes::AttributesView;
use crate::value::Value;

verus! {

/// Whether attributes hold a value.
pub open spec fn attributes_hold(attributes: AttributesView, value: Value) -> bool {
    match attributes {
        AttributesView::Slots { values, .. } => values.contains(value),
        AttributesView::Dictionary(pairs) => exists|i: int|
            0 <= i < pairs.len() && (#[trigger] pairs[i]).1 == value,
    }
}

/// Whether pairs hold a value, on either side.
pub open spec fn pairs_hold(pairs: Seq<(Value, Value)>, value: Value) -> bool {
    exists|i: int|
        0 <= i < pairs.len() && ((#[trigger] pairs[i]).0 == value || pairs[i].1 == value)
}

/// Whether a class holds a value.
pub open spec fn class_holds(class: ClassView, value: Value) -> bool {
    ||| class.metaclass == value
    ||| class.namespace_mapping == Some(value)
    ||| attributes_hold(AttributesView::Dictionary(class.attributes), value)
    ||| pairs_hold(class.extra_attributes, value)
    ||| class.bases.contains(value)
    ||| class.mro.contains(value)
}

/// Whether an object holds a value: everything that can be got from it.
pub open spec fn holds_value(object: ObjectView, value: Value) -> bool {
    match object {
        ObjectView::Class(class) => class_holds(class, value),
        ObjectView::Namespace(class) => class_holds(class, value),
        ObjectView::MappingProxy { class } => class == value,
        ObjectView::MappingProxyIterator { class, .. } => class == value,
        ObjectView::Instance { class, attributes, native } => class == value || attributes_hold(
            attributes,
            value,
        ) || native == Some(value),
        ObjectView::Exception {
            class,
            arguments,
            attributes,
            cause,
            context,
            traceback,
            ..
        } => class == value || arguments.contains(value) || attributes_hold(attributes, value)
            || cause == Some(value) || context == Some(value) || traceback == Some(value),
        ObjectView::BoundMethod { function, receiver } => function == value || receiver == value,
        ObjectView::StaticMethod(function) => function == value,
        ObjectView::ClassMethod(function) => function == value,
        ObjectView::Property { getter, setter, deleter } => getter == Some(value) || setter == Some(
            value,
        ) || deleter == Some(value),
        ObjectView::PropertySetter(property) => property == value,
        ObjectView::PropertyDeleter(property) => property == value,
        ObjectView::Super { start_class, receiver } => start_class == value || receiver == value,
        ObjectView::Tuple(items) => items.contains(value),
        ObjectView::List(items) => items.contains(value),
        ObjectView::Slice { start, stop, step } => start == value || stop == value || step == value,
        ObjectView::Module(members) => attributes_hold(AttributesView::Dictionary(members), value),
        ObjectView::Iterator { source, .. } => source == value,
        ObjectView::DictIterator { source, .. } => source == value,
        ObjectView::Function { captures, defaults, .. } => captures.contains(value)
            || defaults.contains(value),
        ObjectView::Dict(dict) => pairs_hold(dict.entries, value),
        ObjectView::Cell(held) => held == value,
        ObjectView::Foreign(foreign) => foreign.references.contains(value),
        _ => false,
    }
}

proof fn lemma_part(front: Seq<Value>, part: Seq<Value>, back: Seq<Value>, value: Value)
    requires
        part.contains(value),
    ensures
        (front + part + back).contains(value),
        (front + part).contains(value),
        (part + back).contains(value),
{
    let i = choose|i: int| 0 <= i < part.len() && part[i] == value;
    assert((front + part + back)[front.len() + i] == value);
    assert((front + part)[front.len() + i] == value);
    assert((part + back)[i] == value);
}

proof fn lemma_attributes(attributes: AttributesView, value: Value)
    requires
        attributes_hold(attributes, value),
    ensures
        attributes.edges().contains(value),
{
    if let AttributesView::Dictionary(pairs) = attributes {
        let i = choose|i: int| 0 <= i < pairs.len() && (#[trigger] pairs[i]).1 == value;
        assert(attributes.edges()[i] == value);
    }
}

proof fn lemma_pairs(pairs: Seq<(Value, Value)>, value: Value)
    requires
        pairs_hold(pairs, value),
    ensures
        crate::edges::pair_values(pairs).contains(value),
{
    let i = choose|i: int|
        0 <= i < pairs.len() && ((#[trigger] pairs[i]).0 == value || pairs[i].1 == value);
    let all = crate::edges::pair_values(pairs);
    assert(all[2 * i] == pairs[i].0 && all[2 * i + 1] == pairs[i].1) by {
        assert((2 * i) / 2 == i && (2 * i + 1) / 2 == i && (2 * i) % 2 == 0 && (2 * i + 1) % 2
            == 1);
    }
}

proof fn lemma_class(class: ClassView, value: Value)
    requires
        class_holds(class, value),
    ensures
        class.edges().contains(value),
{
    let a = seq![class.metaclass];
    let b = crate::edges::optional(class.namespace_mapping);
    let c = AttributesView::Dictionary(class.attributes).edges();
    let d = crate::edges::pair_values(class.extra_attributes);
    let (e, f) = (class.bases, class.mro);
    assert(class.edges() =~= a + b + c + d + e + f);
    if class.metaclass == value {
        assert(class.edges()[0] == value);
    } else if class.namespace_mapping == Some(value) {
        assert(b[0] == value);
        lemma_part(a, b, c + d + e + f, value);
        assert(a + b + (c + d + e + f) =~= class.edges());
    } else if attributes_hold(AttributesView::Dictionary(class.attributes), value) {
        lemma_attributes(AttributesView::Dictionary(class.attributes), value);
        lemma_part(a + b, c, d + e + f, value);
        assert(a + b + c + (d + e + f) =~= class.edges());
    } else if pairs_hold(class.extra_attributes, value) {
        lemma_pairs(class.extra_attributes, value);
        lemma_part(a + b + c, d, e + f, value);
        assert(a + b + c + d + (e + f) =~= class.edges());
    } else if class.bases.contains(value) {
        lemma_part(a + b + c + d, e, f, value);
    } else {
        lemma_part(a + b + c + d + e, f, Seq::empty(), value);
    }
}

/// Everything that an object holds is an edge of it.
pub proof fn lemma_holds(object: ObjectView, value: Value)
    requires
        holds_value(object, value),
    ensures
        object.edges().contains(value),
{
    match object {
        ObjectView::Class(class) => lemma_class(class, value),
        ObjectView::Namespace(class) => lemma_class(class, value),
        ObjectView::Instance { class, attributes, native } => {
            let a = seq![class];
            let b = attributes.edges();
            let c = crate::edges::optional(native);
            if class == value {
                assert(object.edges()[0] == value);
            } else if attributes_hold(attributes, value) {
                lemma_attributes(attributes, value);
                lemma_part(a, b, c, value);
            } else {
                assert(c[0] == value);
                lemma_part(a + b, c, Seq::empty(), value);
            }
        },
        ObjectView::Exception {
            class,
            arguments,
            attributes,
            cause,
            context,
            traceback,
            ..
        } => {
            let a = seq![class];
            let b = attributes.edges();
            let c = arguments;
            let d = crate::edges::optional(cause);
            let e = crate::edges::optional(context);
            let f = crate::edges::optional(traceback);
            assert(object.edges() =~= a + b + c + d + e + f);
            if class == value {
                assert(object.edges()[0] == value);
            } else if attributes_hold(attributes, value) {
                lemma_attributes(attributes, value);
                lemma_part(a, b, c + d + e + f, value);
                assert(a + b + (c + d + e + f) =~= object.edges());
            } else if arguments.contains(value) {
                lemma_part(a + b, c, d + e + f, value);
                assert(a + b + c + (d + e + f) =~= object.edges());
            } else if cause == Some(value) {
                assert(d[0] == value);
                lemma_part(a + b + c, d, e + f, value);
                assert(a + b + c + d + (e + f) =~= object.edges());
            } else if context == Some(value) {
                assert(e[0] == value);
                lemma_part(a + b + c + d, e, f, value);
            } else {
                assert(f[0] == value);
                lemma_part(a + b + c + d + e, f, Seq::empty(), value);
            }
        },
        ObjectView::Property { getter, setter, deleter } => {
            let a = crate::edges::optional(getter);
            let b = crate::edges::optional(setter);
            let c = crate::edges::optional(deleter);
            if getter == Some(value) {
                assert(a[0] == value);
                lemma_part(Seq::empty(), a, b + c, value);
                assert(a + (b + c) =~= object.edges());
            } else if setter == Some(value) {
                assert(b[0] == value);
                lemma_part(a, b, c, value);
            } else {
                assert(c[0] == value);
                lemma_part(a + b, c, Seq::empty(), value);
            }
        },
        ObjectView::Module(members) => lemma_attributes(
            AttributesView::Dictionary(members),
            value,
        ),
        ObjectView::Function { captures, defaults, .. } => {
            if captures.contains(value) {
                lemma_part(Seq::empty(), captures, defaults, value);
            } else {
                lemma_part(captures, defaults, Seq::empty(), value);
            }
        },
        ObjectView::Dict(dict) => lemma_pairs(dict.entries, value),
        ObjectView::BoundMethod { function, receiver } => {
            assert(object.edges()[0] == function && object.edges()[1] == receiver);
        },
        ObjectView::Super { start_class, receiver } => {
            assert(object.edges()[0] == start_class && object.edges()[1] == receiver);
        },
        ObjectView::Slice { start, stop, step } => {
            assert(object.edges()[0] == start && object.edges()[1] == stop && object.edges()[2]
                == step);
        },
        ObjectView::MappingProxy { class } => {
            assert(object.edges()[0] == class);
        },
        ObjectView::MappingProxyIterator { class, .. } => {
            assert(object.edges()[0] == class);
        },
        ObjectView::StaticMethod(function) => {
            assert(object.edges()[0] == function);
        },
        ObjectView::ClassMethod(function) => {
            assert(object.edges()[0] == function);
        },
        ObjectView::PropertySetter(property) => {
            assert(object.edges()[0] == property);
        },
        ObjectView::PropertyDeleter(property) => {
            assert(object.edges()[0] == property);
        },
        ObjectView::Iterator { source, .. } => {
            assert(object.edges()[0] == source);
        },
        ObjectView::DictIterator { source, .. } => {
            assert(object.edges()[0] == source);
        },
        ObjectView::Cell(held) => {
            assert(object.edges()[0] == held);
        },
        _ => {},
    }
}

/// Tracing an object visits everything that it holds.
pub proof fn tracing_visits_everything(object: Object, visited: &mut Vec<Value>, value: Value)
    requires
        call_ensures(Object::trace, (&object, visited), ()),
    ensures
        old(visited)@.is_prefix_of(final(visited)@),
        holds_value(object@, value) ==> final(visited)@.contains(value),
{
    if holds_value(object@, value) {
        lemma_holds(object@, value);
        lemma_part(old(visited)@, object@.edges(), Seq::empty(), value);
    }
}

/// Whether an object is the same but for the record that a class keeps of the
/// classes that depend on it.
pub open spec fn is_same(before: ObjectView, after: ObjectView) -> bool {
    match (before, after) {
        (ObjectView::Class(old_class), ObjectView::Class(new_class)) => new_class == (ClassView {
            dependents: new_class.dependents,
            ..old_class
        }),
        _ => before == after,
    }
}

proof fn lemma_start(
    heap: HeapView,
    starts: Set<Value>,
    traced: Set<Value>,
    value: Value,
)
    requires
        starts.contains(value),
    ensures
        heap.reached(starts, traced, value),
{
    assert forall|set: Set<Value>| #[trigger]
        heap.spans(starts, traced, set) implies set.contains(value) by {}
}

proof fn lemma_step(
    heap: HeapView,
    starts: Set<Value>,
    traced: Set<Value>,
    value: Value,
    held: Value,
)
    requires
        heap.reached(starts, traced, value),
        traced.contains(value),
        heap.live(value),
        holds_value(heap.objects[value], held),
        held.is_heap(),
    ensures
        heap.reached(starts, traced, held),
{
    lemma_holds(heap.objects[value], held);
    assert forall|set: Set<Value>| #[trigger]
        heap.spans(starts, traced, set) implies set.contains(held) by {
        assert(set.contains(value));
    }
}

/// A collection keeps the roots, and with each object that it keeps what that
/// object holds; what it keeps is the same, and nothing new is there. What is
/// neither a root nor held by anything kept is gone.
pub proof fn collection_keeps_what_is_held(
    heap: &mut Heap,
    roots: Vec<Value>,
    value: Value,
    held: Value,
    stats: CollectionStats,
)
    requires
        old(heap).wf(),
        call_ensures(Heap::collect, (heap, &roots), Ok(stats)),
    ensures
        roots@.contains(value) && value.is_heap() ==> final(heap)@.objects.dom().contains(value),
        final(heap)@.objects.dom().contains(value) ==> old(heap)@.objects.dom().contains(value)
            && is_same(old(heap)@.objects[value], final(heap)@.objects[value]),
        final(heap)@.objects.dom().contains(value) && holds_value(
            old(heap)@.objects[value],
            held,
        ) && held.is_heap() ==> final(heap)@.objects.dom().contains(held),
        final(heap)@.objects.dom().contains(value) && !roots@.contains(value) ==> exists|owner:
            Value| #[trigger]
            final(heap)@.objects.dom().contains(owner) && owner != value
                && old(heap)@.objects[owner].edges().contains(value),
{
    old(heap).lemma_view();
    let before = old(heap)@;
    let after = final(heap)@;
    let starts = root_set(roots@);
    let traced = before.objects.dom();
    if roots@.contains(value) && value.is_heap() {
        lemma_start(before, starts, traced, value);
        assert(before.reachable(roots@, value));
    }
    if after.objects.dom().contains(value) {
        assert(before.reachable(roots@, value));
        if holds_value(before.objects[value], held) && held.is_heap() {
            lemma_step(before, starts, traced, value, held);
            assert(before.reachable(roots@, held));
        }
        if !roots@.contains(value) {
            let rest = Set::new(|v: Value| before.reachable(roots@, v) && v != value);
            if !(exists|owner: Value| #[trigger]
                after.objects.dom().contains(owner) && owner != value
                    && before.objects[owner].edges().contains(value)) {
                assert(before.spans(starts, traced, rest)) by {
                    assert forall|v: Value| #[trigger] starts.contains(v) implies rest.contains(
                        v,
                    ) by {
                        lemma_start(before, starts, traced, v);
                    }
                    assert forall|v: Value, e: Value|
                        rest.contains(v) && traced.contains(v) && before.live(v)
                            && #[trigger] before.objects[v].edges().contains(e)
                            && e.is_heap() implies rest.contains(e) by {
                        assert(before.reachable(roots@, v));
                        assert(after.objects.dom().contains(v));
                        assert forall|set: Set<Value>| #[trigger]
                            before.spans(starts, traced, set) implies set.contains(e) by {
                            assert(set.contains(v));
                        }
                        assert(before.reachable(roots@, e));
                    }
                }
                assert(rest.contains(value));
            }
        }
    }
}

/// A young collection keeps the roots and everything old, and with each young
/// object that it keeps what that object holds; what it keeps is the same.
pub proof fn young_collection_keeps_what_is_held(
    heap: &mut Heap,
    roots: Vec<Value>,
    value: Value,
    held: Value,
    stats: CollectionStats,
)
    requires
        old(heap).wf(),
        call_ensures(Heap::collect_young, (heap, &roots), Ok(stats)),
    ensures
        roots@.contains(value) && value.is_heap() ==> final(heap)@.objects.dom().contains(value),
        old(heap)@.objects.dom().contains(value) && !old(heap)@.young.contains(value)
            ==> final(heap)@.objects.dom().contains(value),
        final(heap)@.objects.dom().contains(value) ==> old(heap)@.objects.dom().contains(value)
            && is_same(old(heap)@.objects[value], final(heap)@.objects[value]),
        final(heap)@.objects.dom().contains(value) && (old(heap)@.young.contains(value)
            || old(heap)@.remembered.contains(value)) && holds_value(old(heap)@.objects[value], held)
            && held.is_heap() ==> final(heap)@.objects.dom().contains(held),
        final(heap)@.young.is_empty(),
{
    old(heap).lemma_view();
    let before = old(heap)@;
    let after = final(heap)@;
    let starts = before.minor_starts(roots@);
    let traced = before.young;
    if roots@.contains(value) && value.is_heap() {
        lemma_start(before, starts, traced, value);
        assert(before.nursery_reachable(roots@, value));
    }
    if after.objects.dom().contains(value) && holds_value(before.objects[value], held)
        && held.is_heap() {
        if before.young.contains(value) {
            assert(before.nursery_reachable(roots@, value));
            lemma_step(before, starts, traced, value, held);
            assert(before.nursery_reachable(roots@, held));
        } else if before.remembered.contains(value) {
            lemma_holds(before.objects[value], held);
            lemma_start(before, starts, traced, held);
            assert(before.nursery_reachable(roots@, held));
        }
    }
}

/// Every good handle but a foreign reference keeps its value alive.
pub proof fn handles_are_roots(
    table: HandleTable,
    visited: &mut Vec<Value>,
    handle: Handle,
    value: Value,
    kind: HandleKind,
)
    requires
        crate::handles::held(table@, handle) == Some((value, kind)),
        kind == HandleKind::Local || kind == HandleKind::Persistent || kind
            == HandleKind::BufferOwner,
        call_ensures(HandleTable::roots, (&table, visited), ()),
    ensures
        final(visited)@.contains(value),
{
    lemma_rooted(table@, handle.slot(), value);
    lemma_part(old(visited)@, crate::handles::rooted(table@), Seq::empty(), value);
}

proof fn lemma_rooted(entries: Seq<crate::handles::Entry>, slot: int, value: Value)
    requires
        0 <= slot < entries.len(),
        entries[slot].value == Some(value),
        entries[slot].kind != HandleKind::ForeignReference,
    ensures
        crate::handles::rooted(entries).contains(value),
    decreases entries.len(),
{
    let all = crate::handles::rooted(entries);
    if slot == entries.len() - 1 {
        assert(all[all.len() - 1] == value);
    } else {
        let rest = crate::handles::rooted(entries.drop_last());
        lemma_rooted(entries.drop_last(), slot, value);
        let i = choose|i: int| 0 <= i < rest.len() && rest[i] == value;
        assert(all[i] == value);
    }
}

} // verus!
