//! What every operation on the heap keeps, and what collections guarantee.
use vstd::prelude::*;
use crate::class::ClassView;
use crate::heap::gc::{only, pruned, root_set, tally};
use crate::heap::HeapView;
use crate::object::ObjectView;
use crate::shapes::AttributesView;
use crate::value::Value;

pub mod making;
pub mod reading;

verus! {

/// The ancestors a class object or namespace holds on to.
pub open spec fn lineage(object: ObjectView) -> Seq<Value> {
    match object {
        ObjectView::Class(class) => class.bases + class.mro,
        ObjectView::Namespace(class) => class.bases + class.mro,
        _ => Seq::empty(),
    }
}

impl HeapView {
    /// Whether a value is no handle, or one that was given out.
    pub open spec fn known(self, value: Value) -> bool {
        value.is_heap() ==> self.issued.contains(value)
    }

    /// Whether every old object that holds a young one is remembered.
    pub open spec fn remembers(self) -> bool {
        forall|owner: Value, e: Value|
            self.live(owner) && !self.young.contains(owner)
                && #[trigger] self.objects[owner].edges().contains(e) && self.young.contains(e)
                ==> self.remembered.contains(owner)
    }

    /// Whether every edge is a handle that was given out, or no handle.
    pub open spec fn settled(self) -> bool {
        forall|owner: Value, e: Value|
            self.live(owner) && #[trigger] self.objects[owner].edges().contains(e) ==> self.known(e)
    }

    /// Whether the ancestors of old classes are old.
    pub open spec fn lineage_is_old(self) -> bool {
        forall|owner: Value, e: Value|
            self.live(owner) && !self.young.contains(owner) && #[trigger] lineage(
                self.objects[owner],
            ).contains(e) ==> !self.young.contains(e)
    }

    /// What keeps minor collections from losing objects.
    pub open spec fn sound(self) -> bool {
        self.remembers() && self.settled() && self.lineage_is_old()
    }
}

/// A new object whose edges are known keeps the heap sound.
pub proof fn allocation_keeps_sound(heap: HeapView, value: Value, object: ObjectView)
    requires
        heap.wf(),
        heap.sound(),
        heap.fresh(value),
        forall|e: Value| #[trigger] object.edges().contains(e) ==> heap.known(e) || e == value,
    ensures
        heap.allocated(value, object).sound(),
        forall|v: Value| #[trigger] heap.known(v) ==> heap.allocated(value, object).known(v),
{
    let after = heap.allocated(value, object);
    assert forall|owner: Value, e: Value|
        after.live(owner) && !after.young.contains(owner)
            && #[trigger] after.objects[owner].edges().contains(e) && after.young.contains(
            e,
        ) implies after.remembered.contains(owner) by {
        assert(heap.objects[owner].edges().contains(e));
        assert(heap.known(e));
    }
    assert forall|owner: Value, e: Value|
        after.live(owner) && #[trigger] after.objects[owner].edges().contains(
            e,
        ) implies after.known(e) by {
        if owner != value {
            assert(heap.objects[owner].edges().contains(e));
            assert(heap.known(e));
        }
    }
    assert forall|owner: Value, e: Value|
        after.live(owner) && !after.young.contains(owner) && #[trigger] lineage(
            after.objects[owner],
        ).contains(e) implies !after.young.contains(e) by {
        assert(lineage(heap.objects[owner]).contains(e));
        lemma_lineage_edges(heap.objects[owner], e);
        assert(heap.objects[owner].edges().contains(e));
        assert(heap.known(e));
        assert(e != value);
    }
}

/// Ancestors are edges.
pub proof fn lemma_lineage_edges(object: ObjectView, e: Value)
    requires
        lineage(object).contains(e),
    ensures
        object.edges().contains(e),
{
    match object {
        ObjectView::Class(class) => lemma_class_lineage(class, e),
        ObjectView::Namespace(class) => lemma_class_lineage(class, e),
        _ => {},
    }
}

proof fn lemma_class_lineage(class: ClassView, e: Value)
    requires
        (class.bases + class.mro).contains(e),
    ensures
        class.edges().contains(e),
{
    let tail = class.bases + class.mro;
    let i = choose|i: int| 0 <= i < tail.len() && tail[i] == e;
    let edges = class.edges();
    assert(edges[edges.len() - tail.len() + i] == e);
}

/// An owner whose new edges are old ones or values the write barrier saw
/// keeps the heap sound, if its ancestors stay what they were or are old.
pub proof fn store_keeps_sound(
    before: HeapView,
    barred: HeapView,
    owner: Value,
    object: ObjectView,
)
    requires
        before.wf(),
        before.sound(),
        before.live(owner),
        barred == (HeapView { remembered: barred.remembered, ..before }),
        forall|v: Value| #[trigger] before.remembered.contains(v) ==> barred.remembered.contains(v),
        forall|e: Value| #[trigger]
            object.edges().contains(e) ==> before.objects[owner].edges().contains(e) || (
            before.known(e) && (before.young.contains(owner) || !before.young.contains(e)
                || barred.remembered.contains(owner))),
        forall|e: Value| #[trigger]
            lineage(object).contains(e) ==> lineage(before.objects[owner]).contains(e)
                || before.young.contains(owner) || !before.young.contains(e),
    ensures
        barred.with(owner, object).sound(),
{
    let after = barred.with(owner, object);
    assert forall|o: Value, e: Value|
        after.live(o) && !after.young.contains(o) && #[trigger] after.objects[o].edges().contains(e)
            && after.young.contains(e) implies after.remembered.contains(o) by {
        if o != owner || before.objects[o].edges().contains(e) {
            assert(before.objects[o].edges().contains(e));
            assert(before.remembered.contains(o));
        }
    }
    assert forall|o: Value, e: Value|
        after.live(o) && #[trigger] after.objects[o].edges().contains(e) implies after.known(e) by {
        if o != owner || before.objects[o].edges().contains(e) {
            assert(before.objects[o].edges().contains(e));
            assert(before.known(e));
        }
    }
    assert forall|o: Value, e: Value|
        after.live(o) && !after.young.contains(o) && #[trigger] lineage(after.objects[o]).contains(
            e,
        ) implies !after.young.contains(e) by {
        if o != owner || lineage(before.objects[o]).contains(e) {
            assert(lineage(before.objects[o]).contains(e));
        }
    }
}

/// The write barrier sees an owner that comes to hold a young value.
pub proof fn barrier_covers(heap: HeapView, owner: Value, value: Value)
    requires
        heap.live(owner),
    ensures
        heap.young.contains(owner) || !heap.young.contains(value) || heap.barrier(
            owner,
            value,
        ).remembered.contains(owner),
        heap.barrier(owner, value) == (HeapView {
            remembered: heap.barrier(owner, value).remembered,
            ..heap
        }),
        heap.remembered.subset_of(heap.barrier(owner, value).remembered),
{
}

/// After a collection nothing is young, so nothing need be remembered, and
/// the heap stays sound.
pub proof fn collection_keeps_sound(heap: HeapView, keep: Set<Value>)
    requires
        heap.wf(),
        heap.settled(),
    ensures
        heap.swept(keep).sound(),
{
    let after = heap.swept(keep);
    assert forall|o: Value, e: Value|
        after.live(o) && #[trigger] after.objects[o].edges().contains(e) implies after.known(e) by {
        lemma_pruned_edges(heap.objects[o], keep);
        assert(heap.objects[o].edges().contains(e));
    }
}

/// Pruning dependents changes no traced edge.
pub proof fn lemma_pruned_edges(object: ObjectView, keep: Set<Value>)
    ensures
        pruned(object, keep).edges() == object.edges(),
{
}

/// While the heap is sound, a minor collection keeps every object that the
/// roots lead to: the remembered owners stand in for all of old space.
pub proof fn minor_collection_keeps_the_reachable(heap: HeapView, roots: Seq<Value>, value: Value)
    requires
        heap.wf(),
        heap.remembers(),
        heap.live(value),
        heap.reachable(roots, value),
    ensures
        heap.minor_survivors(roots).contains(value),
{
    if heap.young.contains(value) {
        assert forall|set: Set<Value>| #[trigger]
            heap.spans(heap.minor_starts(roots), heap.young, set) implies set.contains(value) by {
            let wide = Set::new(|v: Value| !heap.young.contains(v) || set.contains(v));
            assert(heap.spans(root_set(roots), heap.objects.dom(), wide)) by {
                assert forall|v: Value| #[trigger] root_set(roots).contains(
                    v,
                ) implies wide.contains(v) by {
                    assert(heap.minor_starts(roots).contains(v));
                }
                assert forall|v: Value, e: Value|
                    wide.contains(v) && heap.objects.dom().contains(v) && heap.live(v)
                        && #[trigger] heap.objects[v].edges().contains(e)
                        && e.is_heap() implies wide.contains(e) by {
                    if heap.young.contains(e) {
                        if heap.young.contains(v) {
                            assert(set.contains(v));
                        } else {
                            assert(heap.remembered.contains(v));
                            assert(heap.minor_starts(roots).contains(e));
                        }
                    }
                }
            }
            assert(wide.contains(value));
        }
    }
}

/// An object that is not reachable is gone after a major collection, and its
/// handle is never given out again: no later object can be reached through
/// it, whatever slot it uses.
pub proof fn reclaimed_handles_stay_dead(heap: HeapView, roots: Seq<Value>, value: Value)
    requires
        heap.wf(),
        heap.live(value),
        !heap.reachable(roots, value),
    ensures
        !heap.swept(heap.major_survivors(roots)).live(value),
        !heap.swept(heap.major_survivors(roots)).fresh(value),
        forall|v: Value, object: ObjectView| #[trigger]
            heap.swept(heap.major_survivors(roots)).allocated(v, object).issued.contains(value),
{
}

/// What a major collection keeps, it keeps again: with the same roots a second
/// one finds nothing to reclaim.
pub proof fn major_collection_is_complete(heap: HeapView, roots: Seq<Value>, value: Value)
    requires
        heap.wf(),
        forall|v: Value| #[trigger] heap.reachable(roots, v) ==> heap.live(v),
        heap.swept(heap.major_survivors(roots)).live(value),
    ensures
        heap.swept(heap.major_survivors(roots)).reachable(roots, value),
{
    let keep = heap.major_survivors(roots);
    let after = heap.swept(keep);
    assert forall|set: Set<Value>| #[trigger]
        after.spans(root_set(roots), after.objects.dom(), set) implies set.contains(value) by {
        let narrow = Set::new(|v: Value| set.contains(v) && heap.reachable(roots, v));
        assert(heap.spans(root_set(roots), heap.objects.dom(), narrow)) by {
            assert forall|v: Value| #[trigger] root_set(roots).contains(v) implies narrow.contains(
                v,
            ) by {
                assert(heap.reachable(roots, v)) by {
                    assert forall|s: Set<Value>| #[trigger]
                        heap.spans(root_set(roots), heap.objects.dom(), s) implies s.contains(v) by {}
                }
            }
            assert forall|v: Value, e: Value|
                narrow.contains(v) && heap.objects.dom().contains(v) && heap.live(v)
                    && #[trigger] heap.objects[v].edges().contains(e) && e.is_heap() implies narrow.contains(
                e,
            ) by {
                lemma_pruned_edges(heap.objects[v], keep);
                assert(after.live(v));
                assert(after.objects[v].edges().contains(e));
                assert(heap.reachable(roots, e)) by {
                    assert forall|s: Set<Value>| #[trigger]
                        heap.spans(root_set(roots), heap.objects.dom(), s) implies s.contains(e) by {
                        assert(s.contains(v));
                    }
                }
            }
        }
        assert(narrow.contains(value));
    }
}

/// What a collection keeps stays what it was, down to the last edge.
pub proof fn collection_keeps_contents(heap: HeapView, keep: Set<Value>, value: Value)
    requires
        heap.live(value),
        keep.contains(value),
    ensures
        heap.swept(keep).live(value),
        heap.swept(keep).objects[value].edges() == heap.objects[value].edges(),
        !(heap.objects[value] is Class) ==> heap.swept(keep).objects[value] == heap.objects[value],
{
    lemma_pruned_edges(heap.objects[value], keep);
}

/// A collection loses no object and no slot: what survives and what is
/// reclaimed add up.
pub proof fn collection_counts_add_up(order: Seq<Value>, keep: Set<Value>)
    ensures
        only(order, keep).len() + tally(order, keep.complement()) == order.len(),
    decreases order.len(),
{
    if order.len() > 0 {
        collection_counts_add_up(order.drop_last(), keep);
    }
}

/// An owner that comes to hold one value more, seen by the write barrier,
/// keeps the heap sound.
pub proof fn barred_store_keeps_sound(
    heap: HeapView,
    owner: Value,
    value: Value,
    object: ObjectView,
)
    requires
        heap.wf(),
        heap.sound(),
        heap.live(owner),
        heap.known(value),
        forall|e: Value| #[trigger]
            object.edges().contains(e) ==> heap.objects[owner].edges().contains(e) || e == value,
        forall|e: Value| #[trigger]
            lineage(object).contains(e) ==> lineage(heap.objects[owner]).contains(e),
    ensures
        heap.barrier(owner, value).with(owner, object).sound(),
{
    barrier_covers(heap, owner, value);
    store_keeps_sound(heap, heap.barrier(owner, value), owner, object);
}

/// An owner that holds nothing new keeps the heap sound.
pub proof fn narrowing_keeps_sound(heap: HeapView, owner: Value, object: ObjectView)
    requires
        heap.wf(),
        heap.sound(),
        heap.live(owner),
        forall|e: Value| #[trigger]
            object.edges().contains(e) ==> heap.objects[owner].edges().contains(e),
        forall|e: Value| #[trigger]
            lineage(object).contains(e) ==> lineage(heap.objects[owner]).contains(e),
    ensures
        heap.with(owner, object).sound(),
{
    store_keeps_sound(heap, heap, owner, object);
}

/// The write barrier alone keeps the heap sound.
pub proof fn barrier_keeps_sound(heap: HeapView, owner: Value, value: Value)
    requires
        heap.sound(),
    ensures
        heap.barrier(owner, value).sound(),
{
    let after = heap.barrier(owner, value);
    assert forall|o: Value, e: Value|
        after.live(o) && !after.young.contains(o) && #[trigger] after.objects[o].edges().contains(e)
            && after.young.contains(e) implies after.remembered.contains(o) by {
        assert(heap.objects[o].edges().contains(e));
    }
    assert forall|o: Value, e: Value|
        after.live(o) && #[trigger] after.objects[o].edges().contains(e) implies after.known(e) by {
        assert(heap.objects[o].edges().contains(e));
        assert(heap.known(e));
    }
    assert forall|o: Value, e: Value|
        after.live(o) && !after.young.contains(o) && #[trigger] lineage(after.objects[o]).contains(
            e,
        ) implies !after.young.contains(e) by {
        assert(lineage(heap.objects[o]).contains(e));
    }
}

/// What a list with one value more holds.
pub proof fn lemma_pushed(values: Seq<Value>, value: Value)
    ensures
        forall|e: Value| #[trigger]
            values.push(value).contains(e) ==> values.contains(e) || e == value,
{
    assert forall|e: Value| #[trigger] values.push(value).contains(e) implies values.contains(e)
        || e == value by {
        let i = choose|i: int| 0 <= i < values.push(value).len() && values.push(value)[i] == e;
        if i < values.len() {
            assert(values[i] == e);
        }
    }
}

/// Whether a class holds an edge, part by part.
pub open spec fn class_holds(class: ClassView, e: Value) -> bool {
    ||| class.metaclass == e
    ||| class.namespace_mapping == Some(e)
    ||| exists|i: int| 0 <= i < class.attributes.len() && (#[trigger] class.attributes[i]).1 == e
    ||| crate::edges::pair_values(class.extra_attributes).contains(e)
    ||| class.bases.contains(e)
    ||| class.mro.contains(e)
}

/// The edges of a class, part by part.
pub proof fn lemma_class_holds(class: ClassView)
    ensures
        forall|e: Value| #[trigger] class.edges().contains(e) <==> class_holds(class, e),
{
    let a = seq![class.metaclass];
    let b = crate::edges::optional(class.namespace_mapping);
    let c = AttributesView::Dictionary(class.attributes).edges();
    let d = crate::edges::pair_values(class.extra_attributes);
    let all = class.edges();
    assert(all =~= a + b + c + d + class.bases + class.mro);
    assert forall|e: Value| #[trigger] all.contains(e) implies class_holds(class, e) by {
        let i = choose|i: int| 0 <= i < all.len() && all[i] == e;
        let n1 = a.len() as int;
        let n2 = n1 + b.len();
        let n3 = n2 + c.len();
        let n4 = n3 + d.len();
        let n5 = n4 + class.bases.len();
        if i < n1 {
        } else if i < n2 {
            assert(b[i - n1] == e);
        } else if i < n3 {
            assert(class.attributes[i - n2].1 == e);
        } else if i < n4 {
            assert(d[i - n3] == e);
        } else if i < n5 {
            assert(class.bases[i - n4] == e);
        } else {
            assert(class.mro[i - n5] == e);
        }
    }
    assert forall|e: Value| class_holds(class, e) implies #[trigger] all.contains(e) by {
        let n1 = a.len() as int;
        let n2 = n1 + b.len();
        let n3 = n2 + c.len();
        let n4 = n3 + d.len();
        let n5 = n4 + class.bases.len();
        if class.metaclass == e {
            assert(all[0] == e);
        } else if class.namespace_mapping == Some(e) {
            assert(all[n1] == e);
        } else if exists|i: int|
            0 <= i < class.attributes.len() && (#[trigger] class.attributes[i]).1 == e {
            let i = choose|i: int|
                0 <= i < class.attributes.len() && (#[trigger] class.attributes[i]).1 == e;
            assert(all[n2 + i] == e);
        } else if d.contains(e) {
            let i = choose|i: int| 0 <= i < d.len() && d[i] == e;
            assert(all[n3 + i] == e);
        } else if class.bases.contains(e) {
            let i = choose|i: int| 0 <= i < class.bases.len() && class.bases[i] == e;
            assert(all[n4 + i] == e);
        } else {
            let i = choose|i: int| 0 <= i < class.mro.len() && class.mro[i] == e;
            assert(all[n5 + i] == e);
        }
    }
}

/// A consistent object behind a live handle keeps the heap consistent.
pub proof fn lemma_with_wf(heap: HeapView, value: Value, object: ObjectView)
    requires
        heap.wf(),
        heap.live(value),
        object.wf(&heap.shapes),
    ensures
        heap.with(value, object).wf(),
{
    let after = heap.with(value, object);
    assert forall|v: Value| #[trigger] after.live(v) == heap.live(v) by {}
    assert forall|i: int| 0 <= i < after.order.len() implies after.live(
        #[trigger] after.order[i],
    ) by {
        assert(heap.live(heap.order[i]));
    }
    assert forall|v: Value| #[trigger] after.live(v) implies after.order.contains(v) by {
        assert(heap.live(v));
    }
}

/// Nothing about the objects depends on the type identities given out.
pub proof fn lemma_next_type(heap: HeapView, next_type: u32)
    requires
        heap.wf(),
    ensures
        (HeapView { next_type, ..heap }).wf(),
        heap.sound() ==> (HeapView { next_type, ..heap }).sound(),
{
    let after = HeapView { next_type, ..heap };
    assert forall|v: Value| #[trigger] after.live(v) == heap.live(v) by {}
    assert forall|i: int| 0 <= i < after.order.len() implies after.live(
        #[trigger] after.order[i],
    ) by {
        assert(heap.live(heap.order[i]));
    }
    assert forall|v: Value| #[trigger] after.live(v) implies after.order.contains(v) by {
        assert(heap.live(v));
    }
    assert forall|v: Value| #[trigger] after.young.contains(v) implies after.live(v) by {
        assert(heap.live(v));
    }
    assert forall|v: Value| #[trigger] after.remembered.contains(v) implies after.live(v)
        && !after.young.contains(v) by {
        assert(heap.live(v));
    }
    if heap.sound() {
        lemma_sound_parts(heap, after);
    }
}

/// Soundness is a matter of the objects, their ages, what is remembered and
/// what was given out.
pub proof fn lemma_sound_parts(heap: HeapView, after: HeapView)
    requires
        heap.sound(),
        after.objects == heap.objects,
        after.young == heap.young,
        after.remembered == heap.remembered,
        after.issued == heap.issued,
    ensures
        after.sound(),
{
    assert forall|owner: Value, e: Value|
        after.live(owner) && #[trigger] after.objects[owner].edges().contains(
            e,
        ) implies after.known(e) by {
        assert(heap.live(owner));
        assert(heap.known(e));
    }
    assert forall|owner: Value, e: Value|
        after.live(owner) && !after.young.contains(owner)
            && #[trigger] after.objects[owner].edges().contains(e) && after.young.contains(
            e,
        ) implies after.remembered.contains(owner) by {
        assert(heap.live(owner));
    }
    assert forall|owner: Value, e: Value|
        after.live(owner) && !after.young.contains(owner) && #[trigger] lineage(
            after.objects[owner],
        ).contains(e) implies !after.young.contains(e) by {
        assert(heap.live(owner));
    }
}

/// The edges of an owner with other attributes.
pub proof fn lemma_attribute_edges(object: ObjectView, attributes: AttributesView)
    requires
        object.attributes_of() is Some,
    ensures
        forall|e: Value| #[trigger]
            object.with_attributes(attributes).edges().contains(e) ==> object.edges().contains(e)
                || attributes.edges().contains(e),
        forall|e: Value|
            object.attributes_of().unwrap().edges().contains(e) ==> #[trigger] object.edges().contains(
                e,
            ),
{
    let after = object.with_attributes(attributes);
    let held = object.attributes_of().unwrap().edges();
    let fresh = attributes.edges();
    assert forall|e: Value| #[trigger] after.edges().contains(e) implies object.edges().contains(e)
        || fresh.contains(e) by {
        let all = after.edges();
        let i = choose|i: int| 0 <= i < all.len() && all[i] == e;
        if i == 0 {
            assert(object.edges()[0] == e);
        } else if i < 1 + fresh.len() {
            assert(fresh[i - 1] == e);
        } else {
            assert(object.edges()[i - fresh.len() + held.len()] == e);
        }
    }
    assert forall|e: Value| held.contains(e) implies #[trigger] object.edges().contains(e) by {
        let i = choose|i: int| 0 <= i < held.len() && held[i] == e;
        assert(object.edges()[i + 1] == e);
    }
}

} // verus!
