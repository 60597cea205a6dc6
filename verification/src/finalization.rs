//! Foreign wrappers under collection: what they hold on to, and how their
//! payloads end.
use vstd::prelude::*;
use crate::diagnostic::{Fault, Result};
use crate::foreign::{
    dropped, resolve_traced, resolved_all, ForeignView, PendingForeign, TracedHandles,
};
use crate::handles::{held, resolved_as, vacated, Entry, Handle, HandleKind, HandleTable};
use crate::heap::{counted, pending_views, Counters, Heap, HeapView};
use crate::object::{Object, ObjectView};
use crate::soundness::{barrier_covers, store_keeps_sound};
use crate::value::Value;

verus! {

impl HeapView {
    /// With an owner that comes to hold values.
    pub open spec fn barred_all(self, owner: Value, values: Seq<Value>) -> HeapView
        decreases values.len(),
    {
        if values.len() == 0 {
            self
        } else {
            self.barred_all(owner, values.drop_last()).barrier(owner, values.last())
        }
    }

    /// With a call of a trace counted, if there was one.
    pub open spec fn trace_counted(self, called: bool) -> HeapView {
        if called {
            HeapView {
                counters: Counters {
                    foreign_trace_calls: counted(self.counters.foreign_trace_calls),
                    ..self.counters
                },
                ..self
            }
        } else {
            self
        }
    }

    /// With a wrapper that holds on to other values.
    pub open spec fn retraced(
        self,
        owner: Value,
        foreign: ForeignView,
        traced: TracedHandles,
        values: Seq<Value>,
    ) -> HeapView {
        self.barred_all(owner, values).with(
            owner,
            ObjectView::Foreign(
                ForeignView {
                    references: values,
                    reference_handles: traced.owned@,
                    borrowed_handles: traced.borrowed@,
                    ..foreign
                },
            ),
        )
    }
}

proof fn lemma_barred_all(heap: HeapView, owner: Value, values: Seq<Value>)
    requires
        heap.live(owner),
    ensures
        heap.barred_all(owner, values) == (HeapView {
            remembered: heap.barred_all(owner, values).remembered,
            ..heap
        }),
        forall|v: Value| #[trigger]
            heap.remembered.contains(v) ==> heap.barred_all(owner, values).remembered.contains(v),
        forall|i: int|
            0 <= i < values.len() ==> heap.young.contains(owner) || !heap.young.contains(
                #[trigger] values[i],
            ) || heap.barred_all(owner, values).remembered.contains(owner),
    decreases values.len(),
{
    if values.len() > 0 {
        let rest = values.drop_last();
        lemma_barred_all(heap, owner, rest);
        let between = heap.barred_all(owner, rest);
        barrier_covers(between, owner, values.last());
        assert forall|i: int| 0 <= i < values.len() implies heap.young.contains(owner)
            || !heap.young.contains(#[trigger] values[i]) || heap.barred_all(
            owner,
            values,
        ).remembered.contains(owner) by {
            if i < rest.len() {
                assert(rest[i] == values[i]);
            }
        }
    }
}

impl Heap {
    /// The foreign wrappers, in the order of storage.
    pub fn foreign_owners(&self) -> (r: Vec<Value>)
        requires
            self.wf(),
        ensures
            r@ == foreign_among(self@, self@.order),
    {
        let handles = self.handles();
        let mut owners: Vec<Value> = Vec::new();
        let mut i: usize = 0;
        assert(handles@.take(0) =~= Seq::empty());
        while i < handles.len()
            invariant
                self.wf(),
                i <= handles.len(),
                owners@ == foreign_among(self@, handles@.take(i as int)),
            decreases handles.len() - i,
        {
            assert(handles@.take(i + 1).drop_last() =~= handles@.take(i as int));
            if let Some(Object::Foreign(_)) = self.try_get(handles[i]) {
                owners.push(handles[i]);
            }
            i += 1;
        }
        assert(handles@.take(i as int) =~= handles@);
        owners
    }

    /// Whether a wrapper has a trace to call.
    pub fn has_foreign_trace(&self, owner: Value) -> (r: bool)
        requires
            self.wf(),
        ensures
            r == (self@.at(owner) matches Some(ObjectView::Foreign(foreign))
                && foreign.spec.trace is Some),
    {
        match self.try_get(owner) {
            Some(Object::Foreign(foreign)) => foreign.has_trace(),
            _ => false,
        }
    }

    /// Counts a wrapper's trace and, where it succeeded, lets the wrapper hold
    /// on to what it reported; gives the references that it holds no longer.
    pub fn refresh_foreign(
        &mut self,
        owner: Value,
        table: &HandleTable,
        traced: Result<TracedHandles>,
    ) -> (r: Result<Vec<Handle>>)
        requires
            old(self).wf(),
            old(self)@.at(owner) matches Some(ObjectView::Foreign(_)),
        ensures
            final(self).wf(),
            final(self).tally() == old(self).tally(),
            ({
                let foreign = old(self)@.objects[owner]->Foreign_0;
                let begun = old(self)@.trace_counted(foreign.spec.trace is Some);
                match traced {
                    Err(error) => (r matches Err(found) && found@ == error@) && final(self)@
                        == begun,
                    Ok(traced) => match resolved_all(table@, traced.owned@ + traced.borrowed@) {
                        Err(error) => (r matches Err(found) && found@ == error) && final(self)@
                            == begun,
                        Ok(values) => (r matches Ok(removed) && removed@ == dropped(
                            foreign.reference_handles,
                            traced.owned@,
                        )) && final(self)@ == begun.retraced(owner, foreign, traced, values),
                    },
                }
            }),
            traced matches Ok(traced) ==> resolved_all(
                table@,
                traced.owned@ + traced.borrowed@,
            ) matches Ok(values) ==> old(self)@.sound() && (forall|i: int|
                0 <= i < values.len() ==> old(self)@.known(#[trigger] values[i])) ==> final(
                self)@.sound(),
    {
        proof {
            self.lemma_view();
        }
        let ghost first = self@;
        let ghost foreign = first.objects[owner]->Foreign_0;
        if self.has_foreign_trace(owner) {
            let mut counters = self.counters();
            counters.foreign_trace_calls = counters.foreign_trace_calls.saturating_add(1);
            self.set_counters(counters);
        }
        proof {
            self.lemma_view();
        }
        let ghost before = self@;
        assert(before == first.trace_counted(foreign.spec.trace is Some));
        let traced = traced?;
        let values = match resolve_traced(table, &traced) {
            Ok(values) => values,
            Err(error) => {
                return Err(error);
            },
        };
        let mut i: usize = 0;
        assert(values@.take(0) =~= Seq::empty());
        while i < values.len()
            invariant
                self.wf(),
                i <= values.len(),
                self@ == before.barred_all(owner, values@.take(i as int)),
                self.tally() == old(self).tally(),
            decreases values.len() - i,
        {
            assert(values@.take(i + 1).drop_last() =~= values@.take(i as int));
            self.write_barrier(owner, values[i]);
            i += 1;
        }
        assert(values@.take(i as int) =~= values@);
        let ghost barred = self@;
        proof {
            lemma_barred_all(before, owner, values@);
        }
        let ghost seen = traced;
        let mut removed: Result<Vec<Handle>> = Ok(Vec::new());
        if let Ok(Object::Foreign(wrapper)) = self.get_mut(owner) {
            removed = wrapper.refresh(table, traced);
        }
        proof {
            assert(self@ =~= before.retraced(owner, foreign, seen, values@));
            if first.sound() && (forall|i: int|
                0 <= i < values@.len() ==> first.known(#[trigger] values@[i])) {
                assert(before.sound());
                assert forall|e: Value| #[trigger]
                    self@.objects[owner].edges().contains(e) implies before.objects[owner].edges().contains(
                    e,
                ) || (before.known(e) && (before.young.contains(owner) || !before.young.contains(e)
                    || barred.remembered.contains(owner))) by {
                    let i = choose|i: int| 0 <= i < values@.len() && values@[i] == e;
                    assert(first.known(values@[i]));
                }
                store_keeps_sound(before, barred, owner, self@.objects[owner]);
            }
        }
        removed
    }

    /// Hands out every payload that is still to be finalized, when the heap is
    /// no longer used: those whose wrappers are gone, and then those of the
    /// wrappers that are left, in the order of storage.
    pub fn shut_down(&mut self) -> (r: Vec<PendingForeign>)
        requires
            old(self).wf(),
        ensures
            final(self).wf(),
            final(self).tally() == old(self).tally(),
            pending_views(r@) == old(self)@.pending + old(self)@.finalizers(
                old(self)@.order,
                Set::empty(),
            ),
            final(self)@ == old(self)@.emptied(old(self)@.order),
            forall|v: Value|
                (#[trigger] final(self)@.at(v)) matches Some(ObjectView::Foreign(foreign))
                    ==> foreign.finalizer().owed() is None,
    {
        let ghost before = self@;
        proof {
            self.lemma_view();
        }
        let handles = self.handles();
        let mut pending = self.take_pending();
        let mut i: usize = 0;
        proof {
            assert(handles@.take(0) =~= Seq::empty());
            assert(pending_views(pending@) =~= before.pending + before.finalizers(
                handles@.take(0),
                Set::empty(),
            ));
            assert(self@.objects =~= before.emptied(handles@.take(0)).objects);
        }
        while i < handles.len()
            invariant
                self.wf(),
                before.wf(),
                i <= handles.len(),
                handles@ == before.order,
                pending_views(pending@) == before.pending + before.finalizers(
                    handles@.take(i as int),
                    Set::empty(),
                ),
                self@ == before.emptied(handles@.take(i as int)),
                self.tally() == old(self).tally(),
            decreases handles.len() - i,
        {
            let value = handles[i];
            let ghost done = handles@.take(i as int);
            let ghost more = handles@.take(i + 1);
            let ghost between = self@;
            let ghost views = pending_views(pending@);
            proof {
                assert(more.drop_last() =~= done);
                assert(more =~= done.push(value));
                assert(before.live(before.order[i as int]));
                assert(!done.contains(value));
                assert(between.at(value) == before.at(value));
                assert forall|v: Value| more.contains(v) == (done.contains(v) || v == value) by {
                    assert(more[i as int] == value);
                    if done.contains(v) {
                        let k = choose|k: int| 0 <= k < done.len() && done[k] == v;
                        assert(more[k] == v);
                    }
                    if more.contains(v) && v != value {
                        let k = choose|k: int| 0 <= k < more.len() && more[k] == v;
                        assert(done[k] == v);
                    }
                }
            }
            if let Ok(Object::Foreign(foreign)) = self.get_mut(value) {
                pending.push(foreign.take_finalizer());
                assert(pending_views(pending@) =~= views.push(
                    before.objects[value]->Foreign_0.finalizer(),
                ));
            }
            proof {
                assert(self@.objects =~= before.emptied(more).objects);
                let nothing = Set::<Value>::empty();
                assert(before.finalizers(more, nothing) == match before.objects[value] {
                    ObjectView::Foreign(foreign) => before.finalizers(done, nothing).push(
                        foreign.finalizer(),
                    ),
                    _ => before.finalizers(done, nothing),
                });
                assert(pending_views(pending@) =~= before.pending + before.finalizers(
                    more,
                    nothing,
                ));
            }
            i += 1;
        }
        assert(handles@.take(i as int) =~= handles@);
        proof {
            assert forall|v: Value|
                ((#[trigger] self@.at(v)) matches Some(ObjectView::Foreign(_))) implies self@.at(
                v,
            )->Some_0->Foreign_0.finalizer().owed() is None by {
                assert(before.live(v));
                assert(before.order.contains(v));
            }
        }
        pending
    }

    /// Counts the destructor call that a payload is owed, and gives it out.
    pub fn finalize(&mut self, pending: &mut PendingForeign) -> (r: Option<(u64, usize)>)
        requires
            old(self).wf(),
        ensures
            final(self).wf(),
            final(self).tally() == old(self).tally(),
            r == old(pending)@.owed(),
            final(pending)@ == old(pending)@.consumed(),
            final(pending)@.owed() is None,
            final(self)@ == if r is Some {
                HeapView {
                    counters: Counters {
                        foreign_destructor_calls: counted(
                            old(self)@.counters.foreign_destructor_calls,
                        ),
                        ..old(self)@.counters
                    },
                    ..old(self)@
                }
            } else {
                old(self)@
            },
    {
        if pending.will_destroy() {
            let mut counters = self.counters();
            counters.foreign_destructor_calls = counters.foreign_destructor_calls.saturating_add(1);
            self.set_counters(counters);
        }
        pending.run()
    }

    /// Counts a destructor that did not return as it should.
    pub fn count_destructor_panic(&mut self)
        requires
            old(self).wf(),
        ensures
            final(self).wf(),
            final(self).tally() == old(self).tally(),
            final(self)@ == (HeapView {
                counters: Counters {
                    foreign_destructor_panics: counted(
                        old(self)@.counters.foreign_destructor_panics,
                    ),
                    ..old(self)@.counters
                },
                ..old(self)@
            }),
    {
        let mut counters = self.counters();
        counters.foreign_destructor_panics = counters.foreign_destructor_panics.saturating_add(1);
        self.set_counters(counters);
    }
}

/// The foreign wrappers among values.
pub open spec fn foreign_among(heap: HeapView, values: Seq<Value>) -> Seq<Value>
    decreases values.len(),
{
    if values.len() == 0 {
        Seq::empty()
    } else {
        let rest = foreign_among(heap, values.drop_last());
        if heap.at(values.last()) matches Some(ObjectView::Foreign(_)) {
            rest.push(values.last())
        } else {
            rest
        }
    }
}

impl HeapView {
    /// Without pending payloads, and with those of the wrappers among values
    /// taken.
    pub open spec fn emptied(self, values: Seq<Value>) -> HeapView {
        HeapView {
            objects: Map::new(
                |v: Value| self.objects.dom().contains(v),
                |v: Value|
                    match self.objects[v] {
                        ObjectView::Foreign(foreign) => ObjectView::Foreign(
                            if values.contains(v) {
                                foreign.spent()
                            } else {
                                foreign
                            },
                        ),
                        object => object,
                    },
            ),
            pending: Seq::empty(),
            ..self
        }
    }
}

/// Whether a table is another without the foreign references among handles.
pub open spec fn without_references(
    before: Seq<Entry>,
    after: Seq<Entry>,
    handles: Seq<Handle>,
) -> bool {
    forall|handle: Handle| #[trigger]
        held(after, handle) == if handles.contains(handle) && (held(before, handle) matches Some(
            (_, HandleKind::ForeignReference),
        )) {
            None
        } else {
            held(before, handle)
        }
}

proof fn lemma_released(
    before: Seq<Entry>,
    between: Seq<Entry>,
    after: Seq<Entry>,
    handles: Seq<Handle>,
    i: int,
)
    requires
        0 <= i < handles.len(),
        without_references(before, between, handles.take(i)),
        forall|other: Handle|
            other != handles[i] ==> #[trigger] held(after, other) == held(between, other),
        held(after, handles[i]) == if held(between, handles[i]) matches Some(
            (_, HandleKind::ForeignReference),
        ) {
            None
        } else {
            held(between, handles[i])
        },
    ensures
        without_references(before, after, handles.take(i + 1)),
{
    let taken = handles.take(i);
    let more = handles.take(i + 1);
    let handle = handles[i];
    assert(more =~= taken.push(handle));
    assert forall|other: Handle| #[trigger] held(after, other) == if more.contains(other) && (held(
        before,
        other,
    ) matches Some((_, HandleKind::ForeignReference))) {
        None
    } else {
        held(before, other)
    } by {
        assert(held(between, other) == if taken.contains(other) && (held(
            before,
            other,
        ) matches Some((_, HandleKind::ForeignReference))) {
            None
        } else {
            held(before, other)
        });
        assert(more[more.len() - 1] == handle);
        if taken.contains(other) {
            let k = choose|k: int| 0 <= k < taken.len() && taken[k] == other;
            assert(more[k] == other);
        }
        if more.contains(other) {
            let k = choose|k: int| 0 <= k < more.len() && more[k] == other;
            if k < taken.len() {
                assert(taken[k] == other);
            }
        }
    }
}

/// Releases the references that a payload held, those that are still good.
pub fn release_references(table: &mut HandleTable, handles: &Vec<Handle>)
    requires
        old(table).wf(),
    ensures
        final(table).wf(),
        without_references(old(table)@, final(table)@, handles@),
        final(table).spare() == old(table).spare() + vacated(
            old(table)@,
            handles@,
            set![HandleKind::ForeignReference],
        ),
{
    let ghost before = table@;
    let ghost spare = table.spare();
    let ghost kinds = set![HandleKind::ForeignReference];
    let mut i: usize = 0;
    assert(handles@.take(0) =~= Seq::empty());
    assert(spare + vacated(before, handles@.take(0), kinds) =~= spare);
    while i < handles.len()
        invariant
            table.wf(),
            i <= handles.len(),
            without_references(before, table@, handles@.take(i as int)),
            table.spare() == spare + vacated(before, handles@.take(i as int), kinds),
            kinds == set![HandleKind::ForeignReference],
        decreases handles.len() - i,
    {
        let ghost between = table@;
        let handle = handles[i];
        let _ = table.release_foreign_reference(handle);
        proof {
            lemma_released(before, between, table@, handles@, i as int);
            assert(handles@.take(i + 1).drop_last() =~= handles@.take(i as int));
            assert(table.spare() =~= spare + vacated(before, handles@.take(i + 1), kinds));
        }
        i += 1;
    }
    assert(handles@.take(i as int) =~= handles@);
}

/// Whether handles are foreign references, each listed once.
pub open spec fn references(entries: Seq<Entry>, handles: Seq<Handle>) -> bool {
    &&& handles.no_duplicates()
    &&& forall|i: int|
        #![trigger handles[i]]
        0 <= i < handles.len() ==> (held(entries, handles[i]) matches Some(
            (_, HandleKind::ForeignReference),
        ))
}

/// Releases references in turn, up to the first that is not good.
pub fn release_removed(table: &mut HandleTable, handles: &Vec<Handle>) -> (r: Result<()>)
    requires
        old(table).wf(),
    ensures
        final(table).wf(),
        match r {
            Ok(_) => references(old(table)@, handles@) && without_references(
                old(table)@,
                final(table)@,
                handles@,
            ) && final(table).spare() == old(table).spare() + vacated(
                old(table)@,
                handles@,
                set![HandleKind::ForeignReference],
            ),
            Err(error) => exists|i: int|
                #![trigger handles@[i]]
                0 <= i < handles@.len() && references(old(table)@, handles@.take(i))
                    && !references(old(table)@, handles@.take(i + 1)) && final(table).spare()
                    == old(table).spare() + vacated(
                    old(table)@,
                    handles@.take(i),
                    set![HandleKind::ForeignReference],
                ) && without_references(
                    old(table)@,
                    final(table)@,
                    handles@.take(i),
                ) && resolved_as(final(table)@, handles@[i], HandleKind::ForeignReference) == Err::<
                    Value,
                    Fault,
                >(error@),
        },
{
    let ghost before = table@;
    let ghost spare = table.spare();
    let ghost kinds = set![HandleKind::ForeignReference];
    let mut i: usize = 0;
    assert(handles@.take(0) =~= Seq::empty());
    assert(spare + vacated(before, handles@.take(0), kinds) =~= spare);
    while i < handles.len()
        invariant
            table.wf(),
            before == old(table)@,
            i <= handles.len(),
            without_references(before, table@, handles@.take(i as int)),
            references(before, handles@.take(i as int)),
            spare == old(table).spare(),
            table.spare() == spare + vacated(before, handles@.take(i as int), kinds),
            kinds == set![HandleKind::ForeignReference],
        decreases handles.len() - i,
    {
        let ghost between = table@;
        let handle = handles[i];
        match table.release_foreign_reference(handle) {
            Ok(_) => {},
            Err(error) => {
                assert(handles@[i as int] == handle);
                proof {
                    let (taken, more) = (handles@.take(i as int), handles@.take(i + 1));
                    assert(more[i as int] == handle);
                    if references(before, more) {
                        assert(!taken.contains(handle)) by {
                            if taken.contains(handle) {
                                let k = choose|k: int| 0 <= k < taken.len() && taken[k] == handle;
                                assert(more[k] == more[i as int]);
                            }
                        }
                        assert(held(before, more[i as int]) is Some);
                    }
                }
                return Err(error);
            },
        }
        proof {
            lemma_released(before, between, table@, handles@, i as int);
            let (taken, more) = (handles@.take(i as int), handles@.take(i + 1));
            assert(more.drop_last() =~= taken);
            assert(table.spare() =~= spare + vacated(before, more, kinds));
            assert(!taken.contains(handle));
            assert forall|k: int|
                #![trigger more[k]]
                0 <= k < more.len() implies (held(before, more[k]) matches Some(
                (_, HandleKind::ForeignReference),
            )) by {
                if k < taken.len() {
                    assert(more[k] == taken[k]);
                }
            }
            assert(more =~= taken.push(handle));
        }
        i += 1;
    }
    assert(handles@.take(i as int) =~= handles@);
    Ok(())
}

} // verus!
