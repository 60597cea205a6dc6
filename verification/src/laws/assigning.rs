//! What assigning and deleting attributes does.
use vstd::prelude::*;
use crate::assignment::{lemma_barrier_wf, lemma_invalidated};
use crate::class::ClassView;
use crate::diagnostic::Result;
use crate::heap::{Heap, HeapView};
use crate::laws::classes::{is_class, is_instance};
use crate::laws::{defines, first_named, lacks, raises};
use crate::object::ObjectView;
use crate::value::Value;

verus! {

/// Whether a name of an instance stands for part of its layout.
pub open spec fn is_layout(name: Seq<char>) -> bool {
    seq![
        "__class__"@,
        "__dict__"@,
        "__cause__"@,
        "__context__"@,
        "__suppress_context__"@,
        "__traceback__"@,
        "args"@,
    ].contains(name)
}

pub proof fn lemma_layout(name: Seq<char>)
    ensures
        is_layout(name) == crate::attributes::layout_name(name),
{
    let names = seq![
        "__class__"@,
        "__dict__"@,
        "__cause__"@,
        "__context__"@,
        "__suppress_context__"@,
        "__traceback__"@,
        "args"@,
    ];
    assert(names[0] == "__class__"@ && names[1] == "__dict__"@ && names[2] == "__cause__"@
        && names[3] == "__context__"@ && names[4] == "__suppress_context__"@ && names[5]
        == "__traceback__"@ && names[6] == "args"@);
}

/// An attribute set on an instance is read back from it, the other attributes
/// stay, and no other object changes. The root class's instances take none.
pub proof fn instance_attributes_are_kept(
    heap: &mut Heap,
    owner: Value,
    class: Value,
    name: &str,
    value: Value,
    other: &str,
    r: Result<()>,
    had: Option<Value>,
    has: Option<Value>,
    object: Value,
)
    requires
        old(heap).wf(),
        is_instance(old(heap)@, owner, class),
        is_class(old(heap)@, class),
        call_ensures(Heap::set_attr, (heap, owner, name, value), r),
        call_ensures(Heap::own_attribute, (old(heap), owner, other), had),
        call_ensures(Heap::own_attribute, (final(heap), owner, other), has),
    ensures
        !old(heap)@.objects[class]->Class_0.root && !is_layout(name@) ==> r is Ok && has == (if other@
            == name@ {
            Some(value)
        } else {
            had
        }),
        old(heap)@.objects.dom().contains(object) && object != owner
            ==> final(heap)@.objects.dom().contains(object) && final(heap)@.objects[object]
            == old(heap)@.objects[object],
        is_instance(final(heap)@, owner, class),
        old(heap)@.objects[class]->Class_0.root ==> raises(
            old(heap)@,
            final(heap)@,
            r,
            "AttributeError",
        ),
        !old(heap)@.objects[class]->Class_0.root && is_layout(name@) ==> raises(
            old(heap)@,
            final(heap)@,
            r,
            "UnsupportedFeature",
        ),
{
    old(heap).lemma_view();
    lemma_layout(name@);
}

/// An attribute deleted from an instance is not found in it afterwards, the
/// other attributes stay, and no other object changes. One that is not there
/// cannot be deleted.
pub proof fn deleted_instance_attributes_are_gone(
    heap: &mut Heap,
    owner: Value,
    class: Value,
    name: &str,
    other: &str,
    r: Result<()>,
    held: Option<Value>,
    had: Option<Value>,
    has: Option<Value>,
    object: Value,
)
    requires
        old(heap).wf(),
        is_instance(old(heap)@, owner, class),
        is_class(old(heap)@, class),
        call_ensures(Heap::del_attr, (heap, owner, name), r),
        call_ensures(Heap::own_attribute, (old(heap), owner, name), held),
        call_ensures(Heap::own_attribute, (old(heap), owner, other), had),
        call_ensures(Heap::own_attribute, (final(heap), owner, other), has),
    ensures
        !old(heap)@.objects[class]->Class_0.root && !is_layout(name@) && held is Some ==> r is Ok
            && has == (if other@ == name@ {
            None
        } else {
            had
        }),
        old(heap)@.objects.dom().contains(object) && object != owner
            ==> final(heap)@.objects.dom().contains(object) && final(heap)@.objects[object]
            == old(heap)@.objects[object],
        is_instance(final(heap)@, owner, class),
        old(heap)@.objects[class]->Class_0.root || is_layout(name@) || held is None ==> raises(
            old(heap)@,
            final(heap)@,
            r,
            "AttributeError",
        ),
{
    old(heap).lemma_view();
    lemma_layout(name@);
}

/// Whether a class may change: it is not the root, and it and the classes
/// that depend on it have later versions.
pub open spec fn may_change(heap: HeapView, class: Value) -> bool {
    &&& is_class(heap, class)
    &&& !heap.objects[class]->Class_0.root
    &&& heap.objects[class]->Class_0.version < u64::MAX
    &&& forall|i: int|
        0 <= i < heap.objects[class]->Class_0.dependents.len() ==> {
            let target = #[trigger] heap.objects[class]->Class_0.dependents[i];
            is_class(heap, target) ==> heap.objects[target]->Class_0.version < u64::MAX
        }
}

/// Whether a class keeps all but its attributes, their order and its version.
pub open spec fn is_same_class(before: ClassView, after: ClassView) -> bool {
    after == ClassView {
        attributes: after.attributes,
        dictionary_order: after.dictionary_order,
        version: after.version,
        ..before
    }
}

proof fn lemma_targets(heap: HeapView, class: Value)
    requires
        may_change(heap, class),
        heap.wf(),
    ensures
        heap.invalidation(class) == Ok::<Seq<Value>, crate::diagnostic::Fault>(
            seq![class] + heap.objects[class]->Class_0.dependents,
        ),
        (seq![class] + heap.objects[class]->Class_0.dependents).contains(class),
        forall|v: Value| #[trigger]
            heap.objects[class]->Class_0.dependents.contains(v) ==> (seq![class]
                + heap.objects[class]->Class_0.dependents).contains(v),
        forall|v: Value| #[trigger]
            (seq![class] + heap.objects[class]->Class_0.dependents).contains(v) ==> v == class
                || heap.objects[class]->Class_0.dependents.contains(v),
{
    let dependents = heap.objects[class]->Class_0.dependents;
    let targets = seq![class] + dependents;
    assert forall|i: int| 0 <= i < targets.len() implies !heap.exhausted(#[trigger] targets[i]) by {
        if i > 0 {
            assert(targets[i] == dependents[i - 1]);
        }
    }
    assert(targets[0] == class);
    assert forall|v: Value| #[trigger] dependents.contains(v) implies targets.contains(v) by {
        let i = choose|i: int| 0 <= i < dependents.len() && dependents[i] == v;
        assert(targets[i + 1] == v);
    }
    assert forall|v: Value| #[trigger] targets.contains(v) implies v == class
        || dependents.contains(v) by {
        let i = choose|i: int| 0 <= i < targets.len() && targets[i] == v;
        if i > 0 {
            assert(dependents[i - 1] == v);
        }
    }
}

/// An attribute set on a class is the one that it defines, its other
/// attributes stay, it and the classes that depend on it get later versions,
/// and no other object changes.
pub proof fn class_attributes_are_kept(
    heap: &mut Heap,
    owner: Value,
    name: &str,
    value: Value,
    other: Seq<char>,
    held: Value,
    r: Result<()>,
    object: Value,
)
    requires
        old(heap).wf(),
        may_change(old(heap)@, owner),
        name@.len() == 0 || name@[0] != '_',
        call_ensures(Heap::set_attr, (heap, owner, name, value), r),
    ensures
        r is Ok,
        defines(final(heap)@, owner, name@, value),
        other != name@ ==> defines(final(heap)@, owner, other, held) == defines(
            old(heap)@,
            owner,
            other,
            held,
        ),
        is_class(final(heap)@, owner),
        is_same_class(old(heap)@.objects[owner]->Class_0, final(heap)@.objects[owner]->Class_0),
        final(heap)@.objects[owner]->Class_0.version > old(heap)@.objects[owner]->Class_0.version,
        old(heap)@.objects.dom().contains(object) && object != owner
            ==> final(heap)@.objects.dom().contains(object) && if is_class(old(heap)@, object)
            && old(heap)@.objects[owner]->Class_0.dependents.contains(object) {
            is_class(final(heap)@, object) && final(heap)@.objects[object]->Class_0.version
                > old(heap)@.objects[object]->Class_0.version
        } else {
            final(heap)@.objects[object] == old(heap)@.objects[object]
        },
{
    old(heap).lemma_view();
    reveal_strlit("__name__");
    reveal_strlit("__qualname__");
    reveal_strlit("__");
    let before = old(heap)@;
    let after = final(heap)@;
    let class = before.objects[owner]->Class_0;
    let bound = class.bound(name@, value);
    let between = before.barrier(owner, value).with(owner, ObjectView::Class(bound));
    lemma_targets(before, owner);
    let targets = seq![owner] + class.dependents;
    lemma_barrier_wf(before, owner, value);
    crate::soundness::lemma_with_wf(
        before.barrier(owner, value),
        owner,
        ObjectView::Class(bound),
    );
    lemma_invalidated(between, targets);
    assert(after == between.invalidated(targets));
    assert(between.live(owner));
    assert(after.live(owner));
    let now = after.objects[owner]->Class_0;
    assert(now.attributes == bound.attributes);
    crate::text::lemma_name_position(class.attributes, name@);
    match crate::text::name_position(class.attributes, name@) {
        Some(i) => {
            assert(first_named(now.attributes, name@, i));
        },
        None => {
            assert(first_named(now.attributes, name@, class.attributes.len() as int));
        },
    }
    if other != name@ {
        if defines(before, owner, other, held) {
            let i = choose|i: int|
                first_named(class.attributes, other, i) && class.attributes[i].1 == held;
            assert(first_named(now.attributes, other, i));
        }
        if defines(after, owner, other, held) {
            let i = choose|i: int|
                first_named(now.attributes, other, i) && now.attributes[i].1 == held;
            assert forall|j: int| 0 <= j < i implies (#[trigger] class.attributes[j]).0
                != other by {
                assert(now.attributes[j].0 == class.attributes[j].0);
            }
            assert(first_named(class.attributes, other, i));
        }
    }
    if before.objects.dom().contains(object) && object != owner {
        assert(before.live(object));
        assert(between.live(object));
        assert(after.live(object));
        if !is_class(before, object) {
        } else {
            assert(between.objects[object] is Class);
        }
    }
}

/// An attribute deleted from a class is no longer defined by it, its other
/// attributes stay, and it and the classes that depend on it get later
/// versions. One that is not there cannot be deleted.
pub proof fn deleted_class_attributes_are_gone(
    heap: &mut Heap,
    owner: Value,
    name: &str,
    other: Seq<char>,
    held: Value,
    r: Result<()>,
)
    requires
        old(heap).wf(),
        may_change(old(heap)@, owner),
        crate::shapes::distinct_names(old(heap)@.objects[owner]->Class_0.attributes),
        name@.len() == 0 || name@[0] != '_',
        call_ensures(Heap::del_attr, (heap, owner, name), r),
    ensures
        lacks(old(heap)@, owner, name@) ==> raises(old(heap)@, final(heap)@, r, "AttributeError"),
        !lacks(old(heap)@, owner, name@) ==> r is Ok && lacks(final(heap)@, owner, name@)
            && final(heap)@.objects[owner]->Class_0.version
            > old(heap)@.objects[owner]->Class_0.version,
        other != name@ ==> defines(final(heap)@, owner, other, held) == defines(
            old(heap)@,
            owner,
            other,
            held,
        ),
        is_class(final(heap)@, owner),
        is_same_class(old(heap)@.objects[owner]->Class_0, final(heap)@.objects[owner]->Class_0),
{
    old(heap).lemma_view();
    reveal_strlit("__name__");
    reveal_strlit("__qualname__");
    reveal_strlit("__bases__");
    reveal_strlit("__mro__");
    let before = old(heap)@;
    let after = final(heap)@;
    let class = before.objects[owner]->Class_0;
    crate::text::lemma_name_position(class.attributes, name@);
    if let Some(i) = crate::text::name_position(class.attributes, name@) {
        let unbound = class.unbound(i, name@);
        let between = before.with(owner, ObjectView::Class(unbound));
        lemma_targets(before, owner);
        let targets = seq![owner] + class.dependents;
        crate::soundness::lemma_with_wf(before, owner, ObjectView::Class(unbound));
        lemma_invalidated(between, targets);
        assert(after == between.invalidated(targets));
        assert(between.live(owner));
        assert(after.live(owner));
        let now = after.objects[owner]->Class_0;
        assert(now.attributes == class.attributes.remove(i));
        assert(class.attributes[i].0 == name@);
        assert(!lacks(before, owner, name@));
        assert forall|j: int| 0 <= j < now.attributes.len() implies (
        #[trigger] now.attributes[j]).0 != name@ by {
            let k = if j < i {
                j
            } else {
                j + 1
            };
            assert(now.attributes[j] == class.attributes[k]);
        }
        if other != name@ {
            if defines(before, owner, other, held) {
                let k = choose|k: int|
                    first_named(class.attributes, other, k) && class.attributes[k].1 == held;
                let j = if k < i {
                    k
                } else {
                    k - 1
                };
                assert forall|m: int| 0 <= m < j implies (#[trigger] now.attributes[m]).0
                    != other by {
                    let n = if m < i {
                        m
                    } else {
                        m + 1
                    };
                    assert(now.attributes[m] == class.attributes[n]);
                }
                assert(first_named(now.attributes, other, j));
            }
            if defines(after, owner, other, held) {
                let k = choose|k: int|
                    first_named(now.attributes, other, k) && now.attributes[k].1 == held;
                let j = if k < i {
                    k
                } else {
                    k + 1
                };
                assert forall|m: int| 0 <= m < j implies (#[trigger] class.attributes[m]).0
                    != other by {
                    if m < i {
                        assert(now.attributes[m] == class.attributes[m]);
                    } else if m > i {
                        assert(now.attributes[m - 1] == class.attributes[m]);
                    }
                }
                assert(first_named(class.attributes, other, j));
            }
        }
    } else {
        assert(lacks(before, owner, name@));
    }
}

} // verus!
