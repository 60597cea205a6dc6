//! Buffers, foreign payloads and the releases that a runtime owes.
use vstd::prelude::*;
use crate::buffer::{element_count, strides_cover_inner_dimensions, Buffer};
use crate::diagnostic::Result;
use crate::foreign::{
    dropped,
    settle_trace,
    ForeignObject,
    PendingForeign,
    TraceEnd,
    TracedHandles,
};
use crate::handles::{Handle, HandleKind, HandleTable};
use crate::heap::gc::{only, tally, CollectionStats};
use crate::heap::{Heap, HeapView};
use crate::runtime_owner::{RuntimeIds, RuntimeOwner};
use crate::value::Value;

verus! {

/// The number of elements in rows of a shape.
pub open spec fn volume(shape: Seq<usize>) -> int
    decreases shape.len(),
{
    if shape.len() == 0 {
        1
    } else {
        volume(shape.drop_last()) * shape.last()
    }
}

proof fn lemma_volume(shape: Seq<usize>)
    ensures
        element_count(shape) == volume(shape),
    decreases shape.len(),
{
    if shape.len() > 0 {
        lemma_volume(shape.drop_last());
    }
}

/// A buffer holds the given numbers in rows: there are as many as its shape
/// has places, the last dimension steps from number to number, and each other
/// dimension over everything inside it.
pub proof fn buffers_lie_in_rows(
    values: Vec<u64>,
    shape: Vec<usize>,
    writable: bool,
    buffer: Buffer,
    i: int,
)
    requires
        call_ensures(Buffer::from_bits, (&values, &shape, writable), Ok(buffer)),
    ensures
        buffer@.data == values@,
        buffer@.shape == shape@,
        buffer@.writable == writable,
        values@.len() == volume(shape@),
        buffer@.strides.len() == shape@.len(),
        0 <= i == shape@.len() - 1 ==> buffer@.strides[i] == 8,
        0 <= i < shape@.len() - 1 ==> buffer@.strides[i] == buffer@.strides[i + 1] * shape@[i + 1],
{
    lemma_volume(shape@);
    crate::buffer::lemma_row_major(shape@);
    let n = shape@.len() as int;
    if 0 <= i < n {
        strides_cover_inner_dimensions(shape@, i);
        if i == n - 1 {
            assert(shape@.skip(i + 1) =~= Seq::empty());
        } else {
            strides_cover_inner_dimensions(shape@, i + 1);
            let rest = shape@.skip(i + 1);
            crate::buffer::lemma_count_front(rest);
            assert(rest.drop_first() =~= shape@.skip(i + 2));
            assert(rest[0] == shape@[i + 1]);
            let (a, b) = (shape@[i + 1] as int, element_count(shape@.skip(i + 2)) as int);
            assert(8 * (a * b) == (8 * b) * a) by (nonlinear_arith);
        }
    }
}

/// Releases are taken in the order in which they were queued, each once, and
/// the two queues are apart; a dead runtime takes none.
pub proof fn releases_are_queued(
    owner: &mut RuntimeOwner,
    next: &mut RuntimeOwner,
    handle: u64,
    queued: bool,
    taken: Vec<u64>,
)
    requires
        call_ensures(RuntimeOwner::queue_persistent_release, (owner, handle), queued),
        *old(next) == *final(owner),
        call_ensures(RuntimeOwner::take_persistent_releases, (next,), taken),
    ensures
        queued == old(owner)@.alive,
        queued ==> taken@ == old(owner)@.persistent.push(handle),
        !queued ==> taken@ == old(owner)@.persistent,
        final(next)@.persistent.len() == 0,
        final(next)@.foreign == old(owner)@.foreign,
        final(next)@.id == old(owner)@.id,
{
}

/// Releases of foreign references are taken in the order in which they were
/// queued, and a runtime that is marked dead takes none.
pub proof fn foreign_releases_are_queued(
    owner: &mut RuntimeOwner,
    next: &mut RuntimeOwner,
    dead: &mut RuntimeOwner,
    late: &mut RuntimeOwner,
    handle: u64,
    queued: bool,
    taken: Vec<u64>,
    refused: bool,
)
    requires
        call_ensures(RuntimeOwner::queue_foreign_reference_release, (owner, handle), queued),
        *old(next) == *final(owner),
        call_ensures(RuntimeOwner::take_foreign_reference_releases, (next,), taken),
        *old(dead) == *final(next),
        call_ensures(RuntimeOwner::mark_dead, (dead,), ()),
        *old(late) == *final(dead),
        call_ensures(RuntimeOwner::queue_foreign_reference_release, (late, handle), refused),
    ensures
        queued == old(owner)@.alive,
        queued ==> taken@ == old(owner)@.foreign.push(handle),
        final(next)@.foreign.len() == 0,
        final(next)@.persistent == old(owner)@.persistent,
        !refused,
        final(late)@.foreign.len() == 0,
{
}

/// Runtimes are told apart.
pub proof fn runtimes_are_distinct(
    ids: &mut RuntimeIds,
    later: &mut RuntimeIds,
    first: RuntimeOwner,
    second: RuntimeOwner,
    same: bool,
    own: bool,
)
    requires
        call_ensures(RuntimeOwner::new, (ids,), Ok(first)),
        *old(later) == *final(ids),
        call_ensures(RuntimeOwner::new, (later,), Ok(second)),
        call_ensures(RuntimeOwner::same_runtime, (&first, &second), same),
        call_ensures(RuntimeOwner::same_runtime, (&first, &first), own),
    ensures
        !same,
        own,
        first@.alive,
        first@.persistent.len() == 0,
        first@.foreign.len() == 0,
{
}

/// An owned payload is destroyed by its callback, and no payload twice: not by
/// running what is pending again, nor by taking it from its object again.
pub proof fn payloads_are_destroyed_once(
    object: &mut ForeignObject,
    spent: &mut ForeignObject,
    pending: PendingForeign,
    again: PendingForeign,
    run: &mut PendingForeign,
    rerun: &mut PendingForeign,
    first: Option<(u64, usize)>,
    second: Option<(u64, usize)>,
    later: bool,
)
    requires
        call_ensures(ForeignObject::take_finalizer, (object,), pending),
        *old(spent) == *final(object),
        call_ensures(ForeignObject::take_finalizer, (spent,), again),
        *old(run) == pending,
        call_ensures(PendingForeign::run, (run,), first),
        *old(rerun) == *final(run),
        call_ensures(PendingForeign::run, (rerun,), second),
        call_ensures(PendingForeign::will_destroy, (&again,), later),
    ensures
        first == (if old(object)@.active && old(object)@.spec.owned
            && old(object)@.spec.destroy is Some {
            Some((old(object)@.spec.destroy->Some_0, old(object)@.payload))
        } else {
            None
        }),
        second is None,
        !later,
        pending@.reference_handles == old(object)@.reference_handles,
{
}

/// What a trace callback reports is used only where it succeeded and reported
/// no handle twice, and then it is all used.
pub proof fn traces_report_each_handle_once(
    end: TraceEnd,
    owned: Vec<Handle>,
    borrowed: Vec<Handle>,
    r: Result<TracedHandles>,
    handle: Handle,
)
    requires
        call_ensures(settle_trace, (end, owned, borrowed), r),
    ensures
        end is Panicked ==> r is Err,
        r is Ok ==> !(owned@.contains(handle) && borrowed@.contains(handle)),
        r is Ok ==> owned@.no_duplicates() && borrowed@.no_duplicates(),
        r is Ok ==> r->Ok_0.owned@.contains(handle) == owned@.contains(handle),
        r is Ok ==> r->Ok_0.borrowed@.contains(handle) == borrowed@.contains(handle),
{
    if let Ok(traced) = r {
        let all = owned@ + borrowed@;
        assert(all.no_duplicates());
        if owned@.contains(handle) && borrowed@.contains(handle) {
            let i = choose|i: int| 0 <= i < owned@.len() && owned@[i] == handle;
            let j = choose|j: int| 0 <= j < borrowed@.len() && borrowed@[j] == handle;
            assert(all[i] == handle && all[owned@.len() + j] == handle);
        }
        assert forall|i: int, j: int| 0 <= i < owned@.len() && 0 <= j < owned@.len() && i
            != j implies owned@[i] != owned@[j] by {
            assert(all[i] == owned@[i] && all[j] == owned@[j]);
        }
        assert forall|i: int, j: int| 0 <= i < borrowed@.len() && 0 <= j < borrowed@.len() && i
            != j implies borrowed@[i] != borrowed@[j] by {
            assert(all[owned@.len() + i] == borrowed@[i] && all[owned@.len() + j] == borrowed@[j]);
        }
        owned@.to_multiset_ensures();
        borrowed@.to_multiset_ensures();
        traced.owned@.to_multiset_ensures();
        traced.borrowed@.to_multiset_ensures();
        assert(owned@.contains(handle) == (owned@.to_multiset().count(handle) > 0));
        assert(traced.owned@.contains(handle) == (traced.owned@.to_multiset().count(handle) > 0));
        assert(borrowed@.contains(handle) == (borrowed@.to_multiset().count(handle) > 0));
        assert(traced.borrowed@.contains(handle) == (traced.borrowed@.to_multiset().count(handle)
            > 0));
    }
}

proof fn lemma_dropped(before: Seq<Handle>, after: Seq<Handle>, handle: Handle)
    ensures
        dropped(before, after).contains(handle) == (before.contains(handle) && !after.contains(
            handle,
        )),
    decreases before.len(),
{
    if before.len() > 0 {
        let front = before.drop_last();
        let last = before[before.len() - 1];
        lemma_dropped(front, after, handle);
        assert(before.contains(handle) == (front.contains(handle) || last == handle)) by {
            if front.contains(handle) {
                let i = choose|i: int| 0 <= i < front.len() && front[i] == handle;
                assert(before[i] == handle);
            }
            if before.contains(handle) && last != handle {
                let i = choose|i: int| 0 <= i < before.len() && before[i] == handle;
                assert(front[i] == handle);
            }
        }
        let rest = dropped(front, after);
        if !after.contains(last) {
            let all = rest.push(last);
            if rest.contains(handle) {
                let i = choose|i: int| 0 <= i < rest.len() && rest[i] == handle;
                assert(all[i] == handle);
            }
            assert(all[rest.len() as int] == last);
            if all.contains(handle) && last != handle {
                let i = choose|i: int| 0 <= i < all.len() && all[i] == handle;
                assert(rest[i] == handle);
            }
        }
    }
}

/// After a new trace an object holds the references that were reported, and
/// gives up exactly the ones it held and no longer reports.
pub proof fn refreshed_objects_give_up_the_rest(
    object: &mut ForeignObject,
    table: HandleTable,
    traced: TracedHandles,
    removed: Vec<Handle>,
    handle: Handle,
)
    requires
        call_ensures(ForeignObject::refresh, (object, &table, traced), Ok(removed)),
    ensures
        final(object)@.reference_handles == traced.owned@,
        final(object)@.borrowed_handles == traced.borrowed@,
        final(object)@.references.len() == traced.owned@.len() + traced.borrowed@.len(),
        final(object)@.payload == old(object)@.payload,
        final(object)@.active == old(object)@.active,
        removed@.contains(handle) == (old(object)@.reference_handles.contains(handle)
            && !traced.owned@.contains(handle)),
{
    lemma_dropped(old(object)@.reference_handles, traced.owned@, handle);
    lemma_resolved(table@, traced.owned@ + traced.borrowed@);
}

proof fn lemma_resolved(entries: Seq<crate::handles::Entry>, handles: Seq<Handle>)
    ensures
        crate::foreign::resolved_all(entries, handles) matches Ok(values) ==> values.len()
            == handles.len(),
    decreases handles.len(),
{
    if handles.len() > 0 {
        lemma_resolved(entries, handles.drop_last());
    }
}

proof fn lemma_finalized(heap: HeapView, order: Seq<Value>, keep: Set<Value>, i: int)
    requires
        0 <= i < order.len(),
        heap.objects[order[i]] is Foreign,
        !keep.contains(order[i]),
    ensures
        heap.finalizers(order, keep).contains(heap.objects[order[i]]->Foreign_0.finalizer()),
    decreases order.len(),
{
    let wanted = heap.objects[order[i]]->Foreign_0.finalizer();
    let all = heap.finalizers(order, keep);
    if i == order.len() - 1 {
        assert(order.last() == order[i]);
        assert(all[all.len() - 1] == wanted);
    } else {
        let rest = heap.finalizers(order.drop_last(), keep);
        lemma_finalized(heap, order.drop_last(), keep, i);
        let k = choose|k: int| 0 <= k < rest.len() && rest[k] == wanted;
        assert(all[k] == wanted);
    }
}

/// Shutting down leaves pending what was pending and the end of every foreign
/// object; a collection, that of every foreign object that it reclaims.
pub proof fn foreign_objects_are_finalized(
    heap: &mut Heap,
    other: &mut Heap,
    roots: Vec<Value>,
    value: Value,
    pending: Vec<PendingForeign>,
    stats: CollectionStats,
)
    requires
        old(heap).wf(),
        old(other).wf(),
        old(other)@ == old(heap)@,
        old(heap)@.objects.dom().contains(value),
        old(heap)@.objects[value] is Foreign,
        call_ensures(Heap::shut_down, (heap,), pending),
        call_ensures(Heap::collect, (other, &roots), Ok(stats)),
    ensures
        crate::heap::pending_views(pending@).contains(
            old(heap)@.objects[value]->Foreign_0.finalizer(),
        ),
        !final(other)@.objects.dom().contains(value) ==> final(other)@.pending.contains(
            old(heap)@.objects[value]->Foreign_0.finalizer(),
        ),
        old(heap)@.pending.is_prefix_of(final(other)@.pending),
{
    old(heap).lemma_view();
    let before = old(heap)@;
    let wanted = before.objects[value]->Foreign_0.finalizer();
    assert(before.live(value));
    let i = choose|i: int| 0 <= i < before.order.len() && before.order[i] == value;
    lemma_finalized(before, before.order, Set::empty(), i);
    let ends = before.finalizers(before.order, Set::empty());
    let k = choose|k: int| 0 <= k < ends.len() && ends[k] == wanted;
    assert((before.pending + ends)[before.pending.len() + k] == wanted);
    let keep = before.major_survivors(roots@);
    if !final(other)@.objects.dom().contains(value) {
        assert(!keep.contains(value));
        lemma_finalized(before, before.order, keep, i);
        let dead = before.finalizers(before.order, keep);
        let j = choose|j: int| 0 <= j < dead.len() && dead[j] == wanted;
        assert((before.pending + dead)[before.pending.len() + j] == wanted);
    }
}

proof fn lemma_parted(values: Seq<Value>, young: Set<Value>, keep: Set<Value>)
    ensures
        only(values, keep).len() + tally(values, keep.complement()) == values.len(),
        tally(values, young.intersect(keep)) + tally(values, young.difference(keep)) == only(
            values,
            young,
        ).len(),
        tally(values, young.intersect(keep)) <= only(values, keep).len(),
        tally(values, young.difference(keep)) <= tally(values, keep.complement()),
    decreases values.len(),
{
    if values.len() > 0 {
        lemma_parted(values.drop_last(), young, keep);
    }
}

/// A collection's counts add up: every object survives or is reclaimed, every
/// young one is promoted or reclaimed young.
pub proof fn collections_count_every_object(
    heap: &mut Heap,
    roots: Vec<Value>,
    stats: CollectionStats,
)
    requires
        old(heap).wf(),
        call_ensures(Heap::collect, (heap, &roots), Ok(stats)) || call_ensures(
            Heap::collect_young,
            (heap, &roots),
            Ok(stats),
        ),
    ensures
        stats.survivors == final(heap)@.order.len(),
        stats.survivors + stats.reclaimed == old(heap)@.order.len(),
        stats.promoted + stats.young_reclaimed == only(
            old(heap)@.order,
            old(heap)@.young,
        ).len(),
        stats.promoted <= stats.survivors,
        stats.young_reclaimed <= stats.reclaimed,
{
    lemma_parted(old(heap)@.order, old(heap)@.young, old(heap)@.major_survivors(roots@));
    lemma_parted(old(heap)@.order, old(heap)@.young, old(heap)@.minor_survivors(roots@));
}

proof fn lemma_each_resolved(entries: Seq<crate::handles::Entry>, handles: Seq<Handle>, i: int)
    requires
        0 <= i < handles.len(),
        crate::foreign::resolved_all(entries, handles) is Ok,
    ensures
        crate::handles::held(entries, handles[i]) == Some(
            (
                crate::foreign::resolved_all(entries, handles)->Ok_0[i],
                HandleKind::ForeignReference,
            ),
        ),
    decreases handles.len(),
{
    let front = handles.drop_last();
    lemma_resolved(entries, front);
    if i < front.len() {
        lemma_each_resolved(entries, front, i);
        assert(front[i] == handles[i]);
    } else {
        assert(handles.last() == handles[i]);
    }
}

/// The handles that a trace reports stand for the values that they hold, and
/// all are references of foreign objects.
pub proof fn traced_handles_are_references(
    table: HandleTable,
    traced: TracedHandles,
    values: Vec<Value>,
    i: int,
)
    requires
        call_ensures(crate::foreign::resolve_traced, (&table, &traced), Ok(values)),
        0 <= i < traced.owned@.len() + traced.borrowed@.len(),
    ensures
        values@.len() == traced.owned@.len() + traced.borrowed@.len(),
        crate::handles::held(table@, (traced.owned@ + traced.borrowed@)[i]) == Some(
            (values@[i], HandleKind::ForeignReference),
        ),
{
    lemma_resolved(table@, traced.owned@ + traced.borrowed@);
    lemma_each_resolved(table@, traced.owned@ + traced.borrowed@, i);
}

} // verus!
