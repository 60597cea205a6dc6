//! Classes seen as mappings, and mappings made classes.
use vstd::prelude::*;
use crate::class::{ClassKey, ClassView};
use crate::diagnostic::Result;
use crate::heap::{Heap, HeapView};
use crate::laws::classes::{is_class, line};
use crate::laws::{first_named, gives, is_object, leads_nowhere, leads_to, lemma_leads};
use crate::lookup::DescriptorAccess;
use crate::object::ObjectView;
use crate::value::Value;

verus! {

/// The view of a class as a mapping gives the attribute that the class has
/// under a name.
pub proof fn proxies_give_class_attributes(
    heap: &mut Heap,
    proxy: Value,
    class: Value,
    key: Value,
    name: Seq<char>,
    i: int,
    r: Result<Value>,
)
    requires
        old(heap).wf(),
        is_object(old(heap)@, proxy, ObjectView::MappingProxy { class }),
        is_class(old(heap)@, class),
        is_object(old(heap)@, key, ObjectView::Str(name)),
        first_named(old(heap)@.objects[class]->Class_0.attributes, name, i),
        call_ensures(Heap::item, (heap, proxy, key), r),
    ensures
        gives(
            old(heap)@,
            final(heap)@,
            r,
            old(heap)@.objects[class]->Class_0.attributes[i].1,
        ),
{
    old(heap).lemma_view();
    let attributes = old(heap)@.objects[class]->Class_0.attributes;
    crate::text::lemma_name_position_is(attributes, name, i);
    crate::laws::lemma_object_word(old(heap)@, proxy);
    crate::laws::lemma_object_word(old(heap)@, key);
}

/// The view of a class as a mapping is run through name by name, in order; it
/// fails where the class got or lost a name meanwhile.
pub proof fn proxies_are_run_through(
    heap: &mut Heap,
    iterator: Value,
    class: Value,
    index: usize,
    size: usize,
    name: Seq<char>,
    i: int,
    r: Result<Option<Value>>,
)
    requires
        old(heap).wf(),
        is_object(old(heap)@, iterator, ObjectView::MappingProxyIterator { class, index, size }),
        is_class(old(heap)@, class),
        index < usize::MAX,
        call_ensures(Heap::next, (heap, iterator), r),
    ensures
        ({
            let held = old(heap)@.objects[class]->Class_0;
            &&& held.dictionary_order.len() != size ==> r is Err && r->Err_0@.kind
                == "RuntimeError"@ && final(heap)@ == old(heap)@
            &&& held.dictionary_order.len() == size && index < size
                && held.dictionary_order[index as int] == ClassKey::Text(name) && first_named(
                held.attributes,
                name,
                i,
            ) && old(heap)@.room > 0 ==> (r matches Ok(Some(item)) && is_object(
                final(heap)@,
                item,
                ObjectView::Str(name),
            ) && is_object(
                final(heap)@,
                iterator,
                ObjectView::MappingProxyIterator { class, index: (index + 1) as usize, size },
            ))
            &&& held.dictionary_order.len() == size && index >= size ==> (r matches Ok(found)
                && found is None)
        }),
{
    old(heap).lemma_view();
    let held = old(heap)@.objects[class]->Class_0;
    if first_named(held.attributes, name, i) {
        crate::text::lemma_name_position_is(held.attributes, name, i);
    }
    crate::laws::lemma_object_word(old(heap)@, iterator);
}

/// A plain attribute of the metaclass is read through the class, bound to it;
/// it gives way to the class's own where only data descriptors are asked for.
pub proof fn metaclass_attributes_are_read_through_classes(
    heap: &mut Heap,
    owner: Value,
    metaclass: Value,
    name: &str,
    function: Value,
    data_only: bool,
    r: Result<Option<DescriptorAccess>>,
)
    requires
        old(heap).wf(),
        is_class(old(heap)@, owner),
        is_class(old(heap)@, metaclass),
        old(heap)@.objects[owner]->Class_0.metaclass == metaclass,
        call_ensures(Heap::metaclass_getter, (heap, owner, name, data_only), r),
    ensures
        leads_nowhere(old(heap)@, line(old(heap)@, metaclass), 0, name@) ==> final(heap)@
            == old(heap)@ && (r matches Ok(found) && found is None),
        leads_to(old(heap)@, line(old(heap)@, metaclass), 0, name@, function)
            && old(heap)@.objects.dom().contains(function)
            && old(heap)@.objects[function] is Function ==> {
            &&& data_only ==> final(heap)@ == old(heap)@ && (r matches Ok(found) && found is None)
            &&& !data_only && old(heap)@.room > 0 ==> (r matches Ok(Some(access)) && (
            access@ matches crate::lookup::Access::Value(method) && is_object(
                final(heap)@,
                method,
                ObjectView::BoundMethod { function, receiver: owner },
            )))
        },
{
    old(heap).lemma_view();
    crate::laws::lemma_object_word(old(heap)@, owner);
    crate::laws::lemma_object_word(old(heap)@, metaclass);
    lemma_leads(old(heap)@, line(old(heap)@, metaclass), 0, name@);
}

proof fn lemma_text_entries(heap: HeapView, entries: Seq<(Value, Value)>, names: Seq<Seq<char>>)
    requires
        names.len() == entries.len(),
        forall|i: int|
            0 <= i < entries.len() ==> heap.at((#[trigger] entries[i]).0) == Some(
                ObjectView::Str(names[i]),
            ),
    ensures
        heap.text_entries(entries) == Seq::new(
            entries.len(),
            |i: int| (names[i], entries[i].1),
        ),
        heap.other_entries(entries) == Seq::<(Value, Value)>::empty(),
    decreases entries.len(),
{
    let wanted = Seq::new(entries.len(), |i: int| (names[i], entries[i].1));
    if entries.len() > 0 {
        let front = entries.drop_last();
        let fewer = names.drop_last();
        assert forall|i: int| 0 <= i < front.len() implies heap.at((#[trigger] front[i]).0) == Some(
            ObjectView::Str(fewer[i]),
        ) by {
            assert(front[i] == entries[i]);
        }
        lemma_text_entries(heap, front, fewer);
        let last = entries[entries.len() - 1];
        assert(last == entries.last());
        assert(heap.text_entries(entries) =~= wanted);
    } else {
        assert(heap.text_entries(entries) =~= wanted);
    }
}

/// A class made from a namespace over a dictionary with text keys has their
/// values as its attributes, under those names and in that order.
pub proof fn mappings_become_class_attributes(
    heap: &mut Heap,
    namespace: Value,
    body: ClassView,
    mapping: Value,
    dict: crate::dict::DictView,
    names: Seq<Seq<char>>,
    i: int,
)
    requires
        old(heap).wf(),
        is_object(old(heap)@, namespace, ObjectView::Namespace(body)),
        body.namespace_mapping == Some(mapping),
        is_object(old(heap)@, mapping, ObjectView::Dict(dict)),
        names.len() == dict.entries.len(),
        forall|i: int|
            0 <= i < dict.entries.len() ==> is_object(
                old(heap)@,
                (#[trigger] dict.entries[i]).0,
                ObjectView::Str(names[i]),
            ) && names[i] != "__new__"@,
        call_ensures(Heap::finish_class, (heap, namespace), Ok(())),
    ensures
        is_class(final(heap)@, namespace),
        ({
            let class = final(heap)@.objects[namespace]->Class_0;
            &&& class.name == body.name
            &&& class.bases == body.bases
            &&& class.attributes.len() == dict.entries.len()
            &&& 0 <= i < dict.entries.len() ==> class.attributes[i] == (
                names[i],
                dict.entries[i].1,
            ) && class.dictionary_order[i] == ClassKey::Text(names[i])
            &&& class.extra_attributes.len() == 0
        }),
{
    old(heap).lemma_view();
    let before = old(heap)@;
    let entries = dict.entries;
    assert forall|i: int| 0 <= i < entries.len() implies before.at((#[trigger] entries[i]).0)
        == Some(ObjectView::Str(names[i])) by {
        assert(before.live(entries[i].0));
    }
    lemma_text_entries(before, entries, names);
    crate::completion::lemma_barriers(before, namespace, entries);
    let plain = before.materialized(namespace, body, entries);
    let filled = before.filled(body, entries);
    assert(plain.live(namespace));
    assert(plain.objects[namespace] == ObjectView::Namespace(filled));
    crate::text::lemma_name_position(filled.attributes, "__new__"@);
    if let Some(k) = crate::text::name_position(filled.attributes, "__new__"@) {
        assert(filled.attributes[k].0 == names[k]);
        let _ = entries[k];
    }
    assert(filled.own("__new__"@) is None);
    crate::completion::completion_makes_a_class(plain, namespace);
    let ancestors = plain.planned(filled)->Ok_0;
    let classed = plain.classed(namespace, filled, ancestors);
    crate::completion::lemma_with_dependent(classed, namespace, ancestors, 0);
    assert(classed.live(namespace));
    assert(crate::completion::same_but_dependents(
        classed.objects[namespace],
        final(heap)@.objects[namespace],
    ));
    if 0 <= i < entries.len() {
        assert(before.entry_keys(entries)[i] == before.class_key(entries[i].0));
    }
}

} // verus!
