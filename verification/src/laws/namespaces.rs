//! The namespaces in which class bodies run, and what classes are made of.
use vstd::prelude::*;
use crate::class::ClassView;
use crate::diagnostic::Result;
use crate::heap::{Heap, HeapView};
use crate::laws::{is_object, raises};
use crate::object::ObjectView;
use crate::value::Value;

verus! {

/// A namespace gives back what was bound to a name in it, and under other
/// names what it gave before.
pub proof fn namespaces_keep_bindings(
    heap: &mut Heap,
    namespace: Value,
    class: ClassView,
    name: &str,
    value: Value,
    other: &str,
    r: Result<()>,
    had: Result<Option<Value>>,
    has: Result<Option<Value>>,
)
    requires
        old(heap).wf(),
        is_object(old(heap)@, namespace, ObjectView::Namespace(class)),
        class.namespace_mapping is None,
        call_ensures(Heap::namespace_set, (heap, namespace, name, value), r),
        call_ensures(Heap::namespace_get, (old(heap), namespace, other), had),
        call_ensures(Heap::namespace_get, (final(heap), namespace, other), has),
    ensures
        r is Ok,
        has is Ok,
        had is Ok,
        has->Ok_0 == (if other@ == name@ {
            Some(value)
        } else {
            had->Ok_0
        }),
        forall|v: Value|
            v != namespace ==> #[trigger] final(heap)@.objects[v] == old(heap)@.objects[v],
{
    old(heap).lemma_view();
    let after = class.bound(name@, value);
    lemma_bound(class, name@, value, other@);
}

proof fn lemma_bound(class: ClassView, name: Seq<char>, value: Value, other: Seq<char>)
    ensures
        class.bound(name, value).own(other) == if other == name {
            Some(value)
        } else {
            class.own(other)
        },
{
    let after = class.bound(name, value);
    crate::text::lemma_name_position(class.attributes, name);
    crate::text::lemma_name_position(class.attributes, other);
    crate::text::lemma_name_position(after.attributes, other);
    match crate::text::name_position(class.attributes, other) {
        Some(i) => {
            crate::text::lemma_name_position_is(after.attributes, other, i);
        },
        None => {
            if other == name {
                crate::text::lemma_name_position_is(
                    after.attributes,
                    other,
                    class.attributes.len() as int,
                );
            } else if let Some(k) = crate::text::name_position(after.attributes, other) {
                if k < class.attributes.len() {
                    assert(class.attributes[k].0 == after.attributes[k].0);
                }
            }
        },
    }
}

/// A name deleted from a namespace is not found in it, other names are found
/// as before, and an unknown name cannot be deleted.
pub proof fn namespaces_lose_bindings(
    heap: &mut Heap,
    namespace: Value,
    class: ClassView,
    name: &str,
    other: &str,
    r: Result<()>,
    held: Result<Option<Value>>,
    had: Result<Option<Value>>,
    has: Result<Option<Value>>,
)
    requires
        old(heap).wf(),
        is_object(old(heap)@, namespace, ObjectView::Namespace(class)),
        class.namespace_mapping is None,
        crate::shapes::distinct_names(class.attributes),
        call_ensures(Heap::namespace_delete, (heap, namespace, name), r),
        call_ensures(Heap::namespace_get, (old(heap), namespace, name), held),
        call_ensures(Heap::namespace_get, (old(heap), namespace, other), had),
        call_ensures(Heap::namespace_get, (final(heap), namespace, other), has),
    ensures
        held is Ok,
        had is Ok,
        has is Ok,
        held->Ok_0 is None ==> raises(old(heap)@, final(heap)@, r, "NameError"),
        held->Ok_0 is Some ==> r is Ok && has->Ok_0 == (if other@ == name@ {
            None
        } else {
            had->Ok_0
        }),
        forall|v: Value|
            v != namespace ==> #[trigger] final(heap)@.objects[v] == old(heap)@.objects[v],
{
    old(heap).lemma_view();
    crate::text::lemma_name_position(class.attributes, name@);
    if let Some(i) = crate::text::name_position(class.attributes, name@) {
        let after = class.without(i, name@);
        crate::text::lemma_name_position(class.attributes, other@);
        crate::text::lemma_name_position(after.attributes, other@);
        if let Some(k) = crate::text::name_position(after.attributes, other@) {
            let j = if k < i {
                k
            } else {
                k + 1
            };
            assert(after.attributes[k] == class.attributes[j]);
            if other@ != name@ {
                assert forall|m: int| 0 <= m < j implies (#[trigger] class.attributes[m]).0
                    != other@ by {
                    if m < i {
                        assert(after.attributes[m] == class.attributes[m]);
                    } else if m > i {
                        assert(after.attributes[m - 1] == class.attributes[m]);
                    }
                }
                crate::text::lemma_name_position_is(class.attributes, other@, j);
            }
        } else if let Some(k) = crate::text::name_position(class.attributes, other@) {
            if k < i {
                assert(after.attributes[k] == class.attributes[k]);
            } else if k > i {
                assert(after.attributes[k - 1] == class.attributes[k]);
            }
        }
    }
}

/// A namespace over a dictionary binds its names there, under text keys.
pub proof fn namespaces_bind_in_their_dictionary(
    heap: &mut Heap,
    namespace: Value,
    class: ClassView,
    mapping: Value,
    name: &str,
    value: Value,
    has: Result<Option<Value>>,
)
    requires
        old(heap).wf(),
        is_object(old(heap)@, namespace, ObjectView::Namespace(class)),
        class.namespace_mapping == Some(mapping),
        old(heap)@.objects.dom().contains(mapping),
        old(heap)@.objects[mapping] is Dict,
        call_ensures(Heap::namespace_set, (heap, namespace, name, value), Ok(())),
        call_ensures(Heap::namespace_get, (final(heap), namespace, name), has),
    ensures
        has == Ok::<Option<Value>, crate::diagnostic::Diagnostic>(Some(value)),
        is_object(final(heap)@, namespace, ObjectView::Namespace(class)),
        final(heap)@.objects[mapping] is Dict,
{
    old(heap).lemma_view();
    let before = old(heap)@;
    let after = final(heap)@;
    let key = choose|key: Value|
        #![trigger before.fresh(key)]
        before.fresh(key) && (after, Ok::<(), crate::diagnostic::Fault>(())) == before.allocated(
            key,
            ObjectView::Str(name@),
        ).dict_set(mapping, key, value);
    let between = before.allocated(key, ObjectView::Str(name@));
    crate::iteration::lemma_allocated_wf(before, key, ObjectView::Str(name@));
    crate::mapping::dict_set_then_get(between, mapping, key, value, key);
    reveal(HeapView::dict_set);
    crate::laws::lemma_object_word(between, key);
    assert(between.native(key) == key);
    assert(after.live(key));
    assert(after.objects[key] == ObjectView::Str(name@));
}

proof fn lemma_segment(front: Seq<char>, segment: Seq<char>)
    requires
        !segment.contains('.'),
        front.len() == 0 || front.last() == '.',
    ensures
        crate::namespaces::last_segment(front + segment) == segment,
    decreases segment.len(),
{
    let name = front + segment;
    if segment.len() == 0 {
        assert(name =~= front);
        assert(segment =~= Seq::empty());
    } else {
        assert(name.last() == segment.last());
        assert(segment[segment.len() - 1] != '.');
        assert(name.drop_last() =~= front + segment.drop_last());
        assert(!segment.drop_last().contains('.')) by {
            if segment.drop_last().contains('.') {
                let i = choose|i: int|
                    0 <= i < segment.drop_last().len() && segment.drop_last()[i] == '.';
                assert(segment[i] == '.');
            }
        }
        lemma_segment(front, segment.drop_last());
        assert(segment.drop_last().push(segment.last()) =~= segment);
    }
}

/// Whether a name of a namespace is bound to a text.
pub open spec fn binds_text(heap: HeapView, class: ClassView, i: int, name: &str, text: Seq<char>) -> bool {
    0 <= i < class.attributes.len() && class.attributes[i].0 == name@ && is_object(
        heap,
        class.attributes[i].1,
        ObjectView::Str(text),
    )
}

/// A new namespace is named by what follows the last dot of its qualified
/// name, and binds its module, its qualified name and no documentation.
pub proof fn namespaces_begin_with_their_names(
    heap: &mut Heap,
    front: Seq<char>,
    segment: Seq<char>,
    qualname: &str,
    bases: Vec<Value>,
    metaclass: Value,
    namespace: Value,
)
    requires
        old(heap).wf(),
        qualname@ == front + segment,
        front.len() == 0 || front.last() == '.',
        !segment.contains('.'),
        call_ensures(
            Heap::namespace_with_metaclass,
            (heap, qualname, bases, metaclass),
            Ok(namespace),
        ),
    ensures
        !old(heap)@.objects.dom().contains(namespace),
        final(heap)@.objects.dom().contains(namespace),
        final(heap)@.objects[namespace] matches ObjectView::Namespace(class) && {
            &&& class.name == segment
            &&& class.bases == bases@
            &&& class.metaclass == metaclass
            &&& class.namespace_mapping is None
            &&& class.attributes.len() == 3
            &&& binds_text(final(heap)@, class, 0, "__module__", "__main__"@)
            &&& binds_text(final(heap)@, class, 1, "__qualname__", qualname@)
            &&& class.attributes[2].0 == "__doc__"@
            &&& class.attributes[2].1@ is Nothing
        },
        old(heap)@.objects.submap_of(final(heap)@.objects),
{
    old(heap).lemma_view();
    lemma_segment(front, segment);
    crate::laws::subscripts::lemma_none_word();
}

} // verus!
