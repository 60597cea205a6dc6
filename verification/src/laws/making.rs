//! Instances, and what classes list.
use vstd::prelude::*;
use crate::class::{Class, ClassDictionaryKey, ClassKey};
use crate::diagnostic::Result;
use crate::heap::Heap;
use crate::laws::classes::is_class;
use crate::laws::{first_named, gives_new};
use crate::object::ObjectView;
use crate::shapes::AttributesView;
use crate::value::Value;

verus! {

/// A new instance is of its class, has no attributes of its own, and stands
/// over the storage that it is given, if any.
pub proof fn instances_begin_empty(
    heap: &mut Heap,
    other: &mut Heap,
    class: Value,
    native: Value,
    name: &str,
    r: Result<Value>,
    s: Result<Value>,
    held: Option<Value>,
)
    requires
        old(heap).wf(),
        old(other)@ == old(heap)@,
        is_class(old(heap)@, class),
        call_ensures(Heap::instance, (heap, class), r),
        call_ensures(Heap::native_instance, (other, class, native), s),
        r is Ok ==> call_ensures(Heap::own_attribute, (final(heap), r->Ok_0, name), held),
    ensures
        exists|attributes: AttributesView| #[trigger]
            gives_new(
                old(heap)@,
                final(heap)@,
                r,
                ObjectView::Instance { class, attributes, native: None },
            ),
        exists|attributes: AttributesView| #[trigger]
            gives_new(
                old(heap)@,
                final(other)@,
                s,
                ObjectView::Instance { class, attributes, native: Some(native) },
            ),
        r is Ok ==> held is None,
{
    old(heap).lemma_view();
    final(heap).lemma_view();
    let attributes = AttributesView::empty();
    if let Ok(value) = r {
        let after = final(heap)@;
        assert(after.live(value));
        assert(after.objects[value].wf(&after.shapes));
        assert(after.shapes.layout(crate::shapes::ShapeId(0)).len() == 0);
    }
    assert(gives_new(
        old(heap)@,
        final(heap)@,
        r,
        ObjectView::Instance { class, attributes, native: None },
    ));
    assert(gives_new(
        old(heap)@,
        final(other)@,
        s,
        ObjectView::Instance { class, attributes, native: Some(native) },
    ));
}

/// A class lists its names in order, each with the attribute that it defines.
pub proof fn classes_list_their_attributes(
    class: Class,
    index: usize,
    name: Seq<char>,
    i: int,
    n: usize,
    r: Option<(ClassDictionaryKey, Value)>,
)
    requires
        call_ensures(Class::dictionary_len, (&class,), n),
        call_ensures(Class::dictionary_entry, (&class, index), r),
    ensures
        n == class@.dictionary_order.len(),
        index >= n ==> r is None,
        index < n && class@.dictionary_order[index as int] == ClassKey::Text(name) && first_named(
            class@.attributes,
            name,
            i,
        ) ==> (match r {
            Some((key, value)) => key@ == ClassKey::Text(name) && value == class@.attributes[i].1,
            None => false,
        }),
{
    crate::text::lemma_name_position(class@.attributes, name);
    if first_named(class@.attributes, name, i) {
        crate::text::lemma_name_position_is(class@.attributes, name, i);
    }
}

} // verus!
