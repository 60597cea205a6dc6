//! Stop-the-world generational tracing and compaction. Minor collections trace
//! the nursery from precise roots plus remembered old owners; periodic major
//! collections trace the full heap. Foreign payload destruction is extracted
//! into a deferred queue and never runs during collector bookkeeping.
use vstd::prelude::*;
use crate::class::{Class, ClassView};
use crate::diagnostic::Result;
use crate::foreign::PendingView;
use crate::heap::{invalid, invalid_value, pending_views, Counters, Heap, HeapObject, HeapView, Slot};
use crate::measure::saturate;
use crate::object::{Object, ObjectView};
use crate::value::{heap_words_are_distinct, Value};

verus! {

broadcast use vstd::std_specs::hash::group_hash_axioms;

#[derive(Clone, Copy, Debug)]
pub struct CollectionStats {
    pub reclaimed: usize,
    pub young_reclaimed: usize,
    pub survivors: usize,
    pub promoted: usize,
    pub moved: usize,
    pub live_bytes: usize,
    pub major: bool,
}

/// The members of a list that are kept, in order.
pub open spec fn only(values: Seq<Value>, keep: Set<Value>) -> Seq<Value>
    decreases values.len(),
{
    if values.len() == 0 {
        Seq::empty()
    } else if keep.contains(values.last()) {
        only(values.drop_last(), keep).push(values.last())
    } else {
        only(values.drop_last(), keep)
    }
}

/// The handles that slots give out next once their objects are dead, in the
/// order of storage. A slot without a later generation gives out none.
pub open spec fn renewed(order: Seq<Value>, keep: Set<Value>) -> Seq<Value>
    decreases order.len(),
{
    if order.len() == 0 {
        Seq::empty()
    } else {
        let rest = renewed(order.drop_last(), keep);
        let last = order.last();
        if keep.contains(last) || last.spec_generation() >= Value::MAX_GENERATION {
            rest
        } else {
            rest.push(
                Value::handle(last.spec_index() as u32, (last.spec_generation() + 1) as u32),
            )
        }
    }
}

/// The handles of slots that have a later generation.
pub open spec fn renewable() -> Set<Value> {
    Set::new(|v: Value| v.spec_generation() < Value::MAX_GENERATION)
}

/// How many members of a list are in a set.
pub open spec fn tally(values: Seq<Value>, set: Set<Value>) -> nat
    decreases values.len(),
{
    if values.len() == 0 {
        0
    } else {
        tally(values.drop_last(), set) + if set.contains(values.last()) {
            1nat
        } else {
            0
        }
    }
}

/// How many kept members change their place when the others go.
pub open spec fn displaced(values: Seq<Value>, keep: Set<Value>) -> nat
    decreases values.len(),
{
    if values.len() == 0 {
        0
    } else {
        let rest = displaced(values.drop_last(), keep);
        if keep.contains(values.last()) && only(values.drop_last(), keep).len() != values.len() - 1 {
            rest + 1
        } else {
            rest
        }
    }
}

/// A class without the dependents that are gone.
pub open spec fn pruned(object: ObjectView, keep: Set<Value>) -> ObjectView {
    match object {
        ObjectView::Class(class) => ObjectView::Class(
            ClassView { dependents: only(class.dependents, keep), ..class },
        ),
        other => other,
    }
}

impl HeapView {
    /// Whether a set holds every start, and every heap edge of those of its
    /// members that are traced.
    pub open spec fn spans(
        self,
        starts: Set<Value>,
        traced: Set<Value>,
        set: Set<Value>,
    ) -> bool {
        &&& forall|v: Value| #[trigger] starts.contains(v) ==> set.contains(v)
        &&& forall|v: Value, e: Value|
            set.contains(v) && traced.contains(v) && self.live(v)
                && #[trigger] self.objects[v].edges().contains(e) && e.is_heap() ==> set.contains(e)
    }

    /// The objects a collection traces.
    pub open spec fn traced(self, young_only: bool) -> Set<Value> {
        if young_only {
            self.young
        } else {
            self.objects.dom()
        }
    }

    /// Whether a value is in the least set that [`HeapView::spans`] the starts.
    pub open spec fn reached(self, starts: Set<Value>, traced: Set<Value>, value: Value) -> bool {
        forall|set: Set<Value>| #[trigger]
            self.spans(starts, traced, set) ==> set.contains(value)
    }

    /// Whether a handle is among the roots or an edge of a reachable object.
    pub open spec fn reachable(self, roots: Seq<Value>, value: Value) -> bool {
        self.reached(root_set(roots), self.objects.dom(), value)
    }

    /// The starts of a minor collection: the roots, and what remembered
    /// owners hold.
    pub open spec fn minor_starts(self, roots: Seq<Value>) -> Set<Value> {
        Set::new(
            |v: Value|
                v.is_heap() && (roots.contains(v) || exists|owner: Value| #[trigger]
                    self.remembered.contains(owner) && self.objects[owner].edges().contains(v)),
        )
    }

    /// Whether a minor collection comes to a handle: from its starts through
    /// young objects only.
    pub open spec fn nursery_reachable(self, roots: Seq<Value>, value: Value) -> bool {
        self.reached(self.minor_starts(roots), self.young, value)
    }

    /// What a major collection keeps.
    pub open spec fn major_survivors(self, roots: Seq<Value>) -> Set<Value> {
        Set::new(|v: Value| self.live(v) && self.reachable(roots, v))
    }

    /// What a minor collection keeps.
    pub open spec fn minor_survivors(self, roots: Seq<Value>) -> Set<Value> {
        Set::new(
            |v: Value|
                self.live(v) && (!self.young.contains(v) || self.nursery_reachable(roots, v)),
        )
    }

    /// What remains to be done for the foreign objects among the dead, in the
    /// order of storage.
    pub open spec fn finalizers(self, order: Seq<Value>, keep: Set<Value>) -> Seq<PendingView>
        decreases order.len(),
    {
        if order.len() == 0 {
            Seq::empty()
        } else {
            let rest = self.finalizers(order.drop_last(), keep);
            match self.objects[order.last()] {
                ObjectView::Foreign(foreign) => if keep.contains(order.last()) {
                    rest
                } else {
                    rest.push(foreign.finalizer())
                },
                _ => rest,
            }
        }
    }

    /// The heap with only the kept objects: all of them old, none remembered,
    /// dead dependents forgotten. Handles of the dead stay given out; a slot
    /// can be used again unless its generations are exhausted.
    pub open spec fn swept(self, keep: Set<Value>) -> HeapView {
        HeapView {
            objects: Map::new(
                |v: Value| self.live(v) && keep.contains(v),
                |v: Value| pruned(self.objects[v], keep),
            ),
            order: only(self.order, keep),
            young: Set::empty(),
            remembered: Set::empty(),
            room: self.room + tally(self.order, renewable().difference(keep)),
            free: self.free + renewed(self.order, keep),
            counters: Counters {
                last_collection_allocations: self.counters.allocations,
                ..self.counters
            },
            pending: self.pending + self.finalizers(self.order, keep),
            ..self
        }
    }
}

/// The heap handles among the roots.
pub open spec fn root_set(roots: Seq<Value>) -> Set<Value> {
    Set::new(|v: Value| v.is_heap() && roots.contains(v))
}

impl CollectionStats {
    /// Whether the counts are those of keeping `keep` of a heap.
    pub open spec fn describes(self, heap: HeapView, keep: Set<Value>) -> bool {
        &&& self.survivors == only(heap.order, keep).len()
        &&& self.reclaimed == tally(heap.order, keep.complement())
        &&& self.young_reclaimed == tally(heap.order, heap.young.difference(keep))
        &&& self.promoted == tally(heap.order, heap.young.intersect(keep))
        &&& self.moved == displaced(heap.order, keep)
        &&& weigh(heap, only(heap.order, keep), self.live_bytes as int)
    }
}

/// Whether sizes are those of objects, each with some allocation of its parts.
pub open spec fn weighed(heap: HeapView, values: Seq<Value>, sizes: Seq<nat>) -> bool {
    sizes.len() == values.len() && forall|i: int|
        0 <= i < values.len() ==> heap.objects[#[trigger] values[i]].weighs(sizes[i] as int)
}

/// The sum of sizes.
pub open spec fn summed(sizes: Seq<nat>) -> nat
    decreases sizes.len(),
{
    if sizes.len() == 0 {
        0
    } else {
        summed(sizes.drop_last()) + sizes.last()
    }
}

/// Whether a number of bytes is what objects occupy together.
pub open spec fn weigh(heap: HeapView, values: Seq<Value>, bytes: int) -> bool {
    exists|sizes: Seq<nat>| #[trigger]
        weighed(heap, values, sizes) && bytes == saturate(summed(sizes) as int)
}

proof fn lemma_weigh_more(heap: HeapView, values: Seq<Value>, value: Value, bytes: int, size: usize)
    requires
        weigh(heap, values, bytes),
        heap.objects[value].weighs(size as int),
    ensures
        weigh(heap, values.push(value), saturate(bytes + size)),
{
    let sizes = choose|sizes: Seq<nat>| #[trigger]
        weighed(heap, values, sizes) && bytes == saturate(summed(sizes) as int);
    let (all, more) = (values.push(value), sizes.push(size as nat));
    assert(more.drop_last() =~= sizes);
    assert forall|i: int| 0 <= i < all.len() implies heap.objects[#[trigger] all[i]].weighs(
        more[i] as int,
    ) by {
        if i < values.len() {
            assert(all[i] == values[i]);
        }
    }
    assert(weighed(heap, all, more));
}

/// How many flags are not set.
spec fn unset(flags: Seq<bool>) -> nat
    decreases flags.len(),
{
    if flags.len() == 0 {
        0
    } else {
        unset(flags.drop_last()) + if flags.last() {
            0nat
        } else {
            1
        }
    }
}

proof fn lemma_unset(flags: Seq<bool>, i: int)
    requires
        0 <= i < flags.len(),
        !flags[i],
    ensures
        unset(flags.update(i, true)) + 1 == unset(flags),
    decreases flags.len(),
{
    if i == flags.len() - 1 {
        assert(flags.update(i, true).drop_last() =~= flags.drop_last());
    } else {
        lemma_unset(flags.drop_last(), i);
        assert(flags.update(i, true).drop_last() =~= flags.drop_last().update(i, true));
    }
}

impl Heap {
    /// Whether the marking has dealt with a value: it waits, or it is found
    /// and need not be traced again.
    spec fn covered(
        &self,
        flags: Seq<bool>,
        work: Seq<Value>,
        young_only: bool,
        value: Value,
    ) -> bool {
        work.contains(value) || (self.locate(value) is Some && (
        flags[self.locate(value).unwrap()] || (young_only
            && !self.objects[self.locate(value).unwrap()].young)))
    }

    /// Marks what is reached from `starts` through the traced objects: all, or
    /// only the young. Validates completely before anybody modifies slots.
    fn mark(&self, waiting: Vec<Value>, young_only: bool, starts: Ghost<Set<Value>>) -> (r: Result<
        Vec<bool>,
    >)
        requires
            self.wf(),
            forall|v: Value| #[trigger] starts@.contains(v) ==> v.is_heap() && waiting@.contains(v),
            forall|v: Value| #[trigger]
                waiting@.contains(v) && v.is_heap() ==> starts@.contains(v),
        ensures
            match r {
                Ok(flags) => {
                    &&& flags.len() == self.objects.len()
                    &&& forall|v: Value| #[trigger]
                        self@.reached(starts@, self@.traced(young_only), v) ==> self@.live(v)
                    &&& forall|v: Value| #[trigger]
                        self.locate(v) is Some ==> (flags[self.locate(v).unwrap()] <==> (
                        self@.reached(starts@, self@.traced(young_only), v) && self@.traced(
                            young_only,
                        ).contains(v)))
                },
                Err(error) => exists|v: Value|
                    #![trigger self@.live(v)]
                    self@.reached(starts@, self@.traced(young_only), v) && !self@.live(v)
                        && v.is_heap() && error@ == invalid_value(v),
            },
    {
        let ghost traced = self@.traced(young_only);
        let mut work = waiting;
        let mut flags: Vec<bool> = Vec::new();
        let mut n: usize = 0;
        while n < self.objects.len()
            invariant
                n <= self.objects.len(),
                flags.len() == n,
                forall|k: int| 0 <= k < n ==> !flags[k],
            decreases self.objects.len() - n,
        {
            flags.push(false);
            n += 1;
        }
        proof {
            assert forall|w: Value| work@.contains(w) && w.is_heap() implies #[trigger] self@.reached(
                starts@,
                traced,
                w,
            ) by {
                assert(starts@.contains(w));
            }
        }
        while work.len() > 0
            invariant
                self.wf(),
                traced == self@.traced(young_only),
                forall|w: Value| #[trigger] starts@.contains(w) ==> w.is_heap(),
                flags.len() == self.objects.len(),
                forall|w: Value| #[trigger]
                    work@.contains(w) && w.is_heap() ==> self@.reached(starts@, traced, w),
                forall|w: Value| #[trigger]
                    self.locate(w) is Some && flags[self.locate(w).unwrap()] ==> self@.reached(
                        starts@,
                        traced,
                        w,
                    ) && traced.contains(w),
                forall|w: Value| #[trigger]
                    starts@.contains(w) ==> self.covered(flags@, work@, young_only, w),
                forall|w: Value, e: Value|
                    self.locate(w) is Some && flags[self.locate(w).unwrap()] && e.is_heap()
                        && #[trigger] self@.objects[w].edges().contains(e) ==> self.covered(
                        flags@,
                        work@,
                        young_only,
                        e,
                    ),
            decreases unset(flags@), work.len(),
        {
            let ghost waiting = work@;
            let ghost marked = flags@;
            let value = work.pop().unwrap();
            proof {
                assert(waiting.last() == value);
                assert(waiting.contains(value));
                assert forall|w: Value| #[trigger] waiting.contains(w) implies w == value || work@.contains(
                    w,
                ) by {
                    let i = choose|i: int| 0 <= i < waiting.len() && waiting[i] == w;
                    if i < work@.len() {
                        assert(work@[i] == w);
                    }
                }
                assert forall|w: Value| #[trigger] work@.contains(w) implies waiting.contains(w) by {
                    let i = choose|i: int| 0 <= i < work@.len() && work@[i] == w;
                    assert(waiting[i] == w);
                }
            }
            if value.heap_index().is_none() {
                continue;
            }
            let location = match self.location(value) {
                Some(location) => location,
                None => {
                    assert(!self@.live(value));
                    return Err(invalid(value));
                },
            };
            proof {
                self.lemma_located(value);
            }
            if flags[location] || (young_only && !self.objects[location].young) {
                continue;
            }
            flags.set(location, true);
            self.objects[location].object.trace(&mut work);
            proof {
                lemma_unset(marked, location as int);
                let edges = self.objects[location as int].object@.edges();
                let rest = waiting.drop_last();
                assert(self@.objects[value] == self.objects[location as int].object@);
                assert(work@ == rest + edges);
                assert forall|w: Value| rest.contains(w) implies work@.contains(w) by {
                    let i = choose|i: int| 0 <= i < rest.len() && rest[i] == w;
                    assert(work@[i] == w);
                }
                assert forall|w: Value| edges.contains(w) implies work@.contains(w) by {
                    let i = choose|i: int| 0 <= i < edges.len() && edges[i] == w;
                    assert(work@[rest.len() + i] == w);
                }
                assert forall|w: Value| #[trigger] work@.contains(w) && w.is_heap() implies self@.reached(
                    starts@,
                    traced,
                    w,
                ) by {
                    let i = choose|i: int| 0 <= i < work@.len() && work@[i] == w;
                    if i < rest.len() {
                        assert(rest[i] == w);
                        assert(waiting[i] == w);
                        assert(waiting.contains(w));
                    } else {
                        assert(edges[i - rest.len()] == w);
                        assert(edges.contains(w));
                        assert forall|set: Set<Value>| #[trigger]
                            self@.spans(starts@, traced, set) implies set.contains(w) by {
                            assert(set.contains(value));
                            assert(self@.objects[value].edges().contains(w));
                        }
                    }
                }
                assert forall|w: Value| #[trigger]
                    self.locate(w) is Some && flags[self.locate(w).unwrap()] implies self@.reached(
                    starts@,
                    traced,
                    w,
                ) && traced.contains(w) by {
                    self.lemma_located(w);
                    if self.locate(w) == Some(location as int) {
                        heap_words_are_distinct(w, value);
                    }
                }
                assert forall|w: Value, e: Value|
                    self.locate(w) is Some && flags[self.locate(w).unwrap()] && e.is_heap()
                        && #[trigger] self@.objects[w].edges().contains(e) implies self.covered(
                    flags@,
                    work@,
                    young_only,
                    e,
                ) by {
                    self.lemma_located(w);
                    if self.locate(w) == Some(location as int) {
                        heap_words_are_distinct(w, value);
                    } else {
                        assert(self.covered(marked, waiting, young_only, e));
                        if self.locate(e) is Some {
                            self.lemma_located(e);
                        }
                    }
                }
                assert forall|w: Value| #[trigger] starts@.contains(w) implies self.covered(
                    flags@,
                    work@,
                    young_only,
                    w,
                ) by {
                    assert(self.covered(marked, waiting, young_only, w));
                    if self.locate(w) is Some {
                        self.lemma_located(w);
                    }
                }
            }
        }
        proof {
            let found = Set::new(
                |v: Value|
                    self.locate(v) is Some && (flags[self.locate(v).unwrap()] || (young_only
                        && !self.objects[self.locate(v).unwrap()].young)),
            );
            assert(self@.spans(starts@, traced, found)) by {
                assert forall|v: Value| #[trigger] starts@.contains(v) implies found.contains(v) by {
                    assert(self.covered(flags@, work@, young_only, v));
                }
                assert forall|v: Value, e: Value|
                    found.contains(v) && traced.contains(v) && self@.live(v)
                        && #[trigger] self@.objects[v].edges().contains(e)
                        && e.is_heap() implies found.contains(e) by {
                    assert(self.covered(flags@, work@, young_only, e));
                }
            }
            assert forall|v: Value| #[trigger] self@.reached(starts@, traced, v) implies self@.live(
                v,
            ) by {
                assert(found.contains(v));
            }
            assert forall|v: Value| #[trigger] self.locate(v) is Some implies (
            flags[self.locate(v).unwrap()] <==> (self@.reached(starts@, traced, v)
                && traced.contains(v))) by {
                if self@.reached(starts@, traced, v) && traced.contains(v) {
                    assert(found.contains(v));
                }
            }
        }
        Ok(flags)
    }
}

/// Where the kept members of a list go.
proof fn lemma_only(values: Seq<Value>, keep: Set<Value>)
    ensures
        only(values, keep).len() <= values.len(),
        forall|j: int|
            0 <= j < values.len() && keep.contains(#[trigger] values[j]) ==> only(
                values.take(j),
                keep,
            ).len() < only(values, keep).len() && only(values, keep)[only(
                values.take(j),
                keep,
            ).len() as int] == values[j],
        forall|k: int|
            0 <= k < only(values, keep).len() ==> keep.contains(#[trigger] only(values, keep)[k])
                && values.contains(only(values, keep)[k]),
    decreases values.len(),
{
    if values.len() > 0 {
        let rest = values.drop_last();
        lemma_only(rest, keep);
        let all = only(values, keep);
        let some = only(rest, keep);
        assert forall|j: int| 0 <= j < values.len() && keep.contains(
            #[trigger] values[j],
        ) implies only(values.take(j), keep).len() < all.len() && all[only(
            values.take(j),
            keep,
        ).len() as int] == values[j] by {
            if j < rest.len() {
                assert(rest[j] == values[j]);
                assert(rest.take(j) =~= values.take(j));
            } else {
                assert(values.take(j) =~= rest);
            }
        }
        assert forall|k: int| 0 <= k < all.len() implies keep.contains(#[trigger] all[k])
            && values.contains(all[k]) by {
            if k < some.len() {
                assert(all[k] == some[k]);
                let i = choose|i: int| 0 <= i < rest.len() && rest[i] == some[k];
                assert(values[i] == some[k]);
            } else {
                assert(values[values.len() - 1] == all[k]);
            }
        }
    }
}

/// A kept member comes after the kept members before it.
proof fn lemma_rank(values: Seq<Value>, keep: Set<Value>, i: int, j: int)
    requires
        0 <= i < j <= values.len(),
        keep.contains(values[i]),
    ensures
        only(values.take(i), keep).len() < only(values.take(j), keep).len(),
{
    lemma_only(values.take(j), keep);
    assert(values.take(j)[i] == values[i]);
    assert(values.take(j).take(i) =~= values.take(i));
}

impl Heap {
    /// The place a kept object moves to.
    spec fn rank(&self, keep: Set<Value>, j: int) -> int {
        only(self@.order.take(j), keep).len() as int
    }

    /// Whether the object at `j` moves to `k`.
    spec fn comes_from(&self, keep: Set<Value>, k: int, j: int) -> bool {
        0 <= j < self.objects.len() && keep.contains(self@.order[j]) && self.rank(keep, j) == k
    }

    /// The slots freed by the first objects.
    spec fn freed(&self, keep: Set<Value>, i: int) -> Seq<u32>
        decreases i,
    {
        if i <= 0 {
            Seq::empty()
        } else {
            let rest = self.freed(keep, i - 1);
            let slot = self.objects[i - 1].slot;
            if keep.contains(self.handle(i - 1)) || self.slots[slot as int].generation
                >= Value::MAX_GENERATION {
                rest
            } else {
                rest.push(slot)
            }
        }
    }

    /// Freed slots give out the renewed handles.
    proof fn lemma_freed(&self, keep: Set<Value>, i: int)
        requires
            self.wf(),
            0 <= i <= self.objects.len(),
        ensures
            self.freed(keep, i).len() == renewed(self@.order.take(i), keep).len(),
            forall|k: int|
                0 <= k < self.freed(keep, i).len() ==> {
                    let slot = #[trigger] self.freed(keep, i)[k];
                    &&& slot < self.slots.len()
                    &&& self.slots[slot as int].generation < Value::MAX_GENERATION
                    &&& renewed(self@.order.take(i), keep)[k] == Value::handle(
                        slot,
                        (self.slots[slot as int].generation + 1) as u32,
                    )
                    &&& self.slots[slot as int].location is Some
                    &&& !keep.contains(
                        self.handle(self.slots[slot as int].location.unwrap() as int),
                    )
                },
        decreases i,
    {
        if i > 0 {
            self.lemma_freed(keep, i - 1);
            let order = self@.order;
            assert(order.take(i).drop_last() =~= order.take(i - 1));
            self.lemma_handle(i - 1);
            let slot = self.objects[i - 1].slot;
            crate::value::lemma_handle(slot, self.slots[slot as int].generation);
            assert(order.take(i).last() == self.handle(i - 1));
            let (all, rest) = (self.freed(keep, i), self.freed(keep, i - 1));
            assert forall|k: int| 0 <= k < all.len() implies {
                let slot = #[trigger] all[k];
                &&& slot < self.slots.len()
                &&& self.slots[slot as int].generation < Value::MAX_GENERATION
                &&& renewed(order.take(i), keep)[k] == Value::handle(
                    slot,
                    (self.slots[slot as int].generation + 1) as u32,
                )
                &&& self.slots[slot as int].location is Some
                &&& !keep.contains(self.handle(self.slots[slot as int].location.unwrap() as int))
            } by {
                if k < rest.len() {
                    assert(all[k] == rest[k]);
                }
            }
        }
    }

    /// How far compaction has come: the first `i` objects are dealt with.
    #[verifier::opaque]
    spec fn compacting(
        &self,
        slots: Seq<Slot>,
        free: Seq<u32>,
        objects: Seq<HeapObject>,
        keep: Set<Value>,
        i: int,
    ) -> bool {
        &&& slots.len() == self.slots.len()
        &&& forall|s: int|
            0 <= s < slots.len() && self.slots[s].location is None ==> #[trigger] slots[s]
                == self.slots[s]
        &&& forall|j: int|
            i <= j < self.objects.len() ==> slots[(#[trigger] self.objects[j]).slot as int]
                == self.slots[self.objects[j].slot as int]
        &&& objects.len() == self.rank(keep, i)
        &&& forall|j: int|
            #![trigger self.objects[j]]
            0 <= j < i ==> {
                let slot = slots[self.objects[j].slot as int];
                let generation = self.slots[self.objects[j].slot as int].generation;
                if keep.contains(self.handle(j)) {
                    &&& slot.generation == generation
                    &&& slot.location == Some(self.rank(keep, j) as usize)
                    &&& self.rank(keep, j) < objects.len()
                    &&& objects[self.rank(keep, j)] == HeapObject {
                        object: self.objects[j].object,
                        slot: self.objects[j].slot,
                        young: false,
                    }
                } else {
                    &&& slot.location is None
                    &&& slot.generation == if generation < Value::MAX_GENERATION {
                        (generation + 1) as u32
                    } else {
                        generation
                    }
                }
            }
        &&& free == self.free@ + self.freed(keep, i)
        &&& free.no_duplicates()
        &&& free.len() == self.free.len() + tally(
            self@.order.take(i),
            renewable().difference(keep),
        )
        &&& forall|s: u32| #[trigger]
            free.contains(s) <==> self.free@.contains(s) || (exists|j: int|
                0 <= j < i && (#[trigger] self.objects[j]).slot == s && !keep.contains(
                    self.handle(j),
                ) && self.slots[s as int].generation < Value::MAX_GENERATION)
    }

    proof fn lemma_compacted(&self, after: &Heap, keep: Set<Value>)
        requires
            self.wf(),
            forall|v: Value| #[trigger] keep.contains(v) ==> self.locate(v) is Some,
            self.compacting(
                after.slots@,
                after.free@,
                after.objects@,
                keep,
                self.objects.len() as int,
            ),
            after.remembered@ == Set::<u32>::empty(),
            after.shapes == self.shapes,
            after.next_type == self.next_type,
            after.counters == (Counters {
                last_collection_allocations: self.counters.allocations,
                ..self.counters
            }),
            pending_views(after.pending_foreign@) == self@.pending + self@.finalizers(
                self@.order,
                keep,
            ),
            after.bytes <= after.peak_bytes,
        ensures
            after.wf(),
            after@.objects.dom() == keep,
            forall|v: Value| keep.contains(v) ==> #[trigger] after@.objects[v] == self@.objects[v],
            after@ == (HeapView { objects: after@.objects, ..self@.swept(keep) }),
            forall|i: int| 0 <= i < after.objects.len() ==> !(#[trigger] after.objects[i]).young,
    {
        reveal(Heap::compacting);
        let order = self@.order;
        let n = self.objects.len() as int;
        self.lemma_view();
        assert(order.take(n) =~= order);
        lemma_only(order, keep);
        assert forall|j: int| 0 <= j < n implies #[trigger] order[j] == self.handle(j)
            && self.locate(order[j]) == Some(j) && order[j].spec_index() == self.objects[j].slot
            && order[j].is_heap() by {
            self.lemma_handle(j);
        }
        // Every place of the new storage comes from a kept object.
        assert forall|k: int|
            #![trigger after.objects[k]]
            0 <= k < after.objects.len() implies exists|j: int| self.comes_from(keep, k, j) by {
            assert(keep.contains(only(order, keep)[k]));
            let j = choose|j: int| 0 <= j < n && order[j] == only(order, keep)[k];
            assert(keep.contains(order[j]));
            let r = self.rank(keep, j);
            assert(only(order, keep)[r] == order[j]);
            if r != k {
                lemma_only_distinct(order, keep, r, k);
            }
            assert(self.comes_from(keep, k, j));
        }
        assert forall|k: int| 0 <= k < after.objects.len() implies (
        #[trigger] after.objects[k]).slot < after.slots.len()
            && after.slots[after.objects[k].slot as int].location == Some(k as usize)
            && after.objects[k].object.wf(&after.shapes) && !after.objects[k].young by {
            let j = choose|j: int| self.comes_from(keep, k, j);
            assert(self.objects[j].object.wf(&self.shapes));
        }
        assert forall|s: int| 0 <= s < after.slots.len() implies 1 <= (
        #[trigger] after.slots[s]).generation <= Value::MAX_GENERATION && (
        after.slots[s].location matches Some(l) ==> l < after.objects.len()
            && after.objects[l as int].slot == s) by {
            assert(1 <= self.slots[s].generation <= Value::MAX_GENERATION);
            if let Some(l) = self.slots[s].location {
                assert(self.objects[l as int].slot == s);
            }
        }
        assert forall|i: int| 0 <= i < after.free.len() implies (#[trigger] after.free[i])
            < after.slots.len() && after.slots[after.free[i] as int].location is None by {
            let s = after.free[i];
            assert(after.free@.contains(s));
            if self.free@.contains(s) {
                let m = choose|m: int| 0 <= m < self.free.len() && self.free[m] == s;
                assert(self.slots[self.free[m] as int].location is None);
            }
        }
        assert(after.linked());
        assert(after.wf());
        // What each handle leads to.
        assert forall|v: Value| #[trigger] after.locate(v) == if keep.contains(v) {
            Some(self.rank(keep, self.locate(v).unwrap()))
        } else {
            None
        } by {
            if self.locate(v) is Some {
                self.lemma_located(v);
                let j = self.locate(v).unwrap();
                assert(order[j] == v) by {
                    heap_words_are_distinct(order[j], v);
                }
                assert(self.objects[j].slot == v.spec_index());
            } else if v.is_heap() && v.spec_index() < after.slots.len() {
                let s = v.spec_index();
                if let Some(l) = self.slots[s].location {
                    assert(self.objects[l as int].slot == s);
                }
            }
        }
        assert(after@.objects.dom() =~= keep);
        assert forall|v: Value| keep.contains(v) implies #[trigger] after@.objects[v]
            == self@.objects[v] by {
            self.lemma_located(v);
            let j = self.locate(v).unwrap();
            assert(order[j] == v) by {
                heap_words_are_distinct(order[j], v);
            }
            assert(self.objects[j].slot == v.spec_index());
        }
        assert(after@.order =~= only(order, keep)) by {
            assert forall|k: int| 0 <= k < after.objects.len() implies after.handle(k) == only(
                order,
                keep,
            )[k] by {
                let j = choose|j: int| self.comes_from(keep, k, j);
                assert(after.objects[k].slot == self.objects[j].slot);
                assert(order[j] == only(order, keep)[k]);
            }
        }
        assert forall|v: Value| #[trigger] after.passed(v) == self.passed(v) by {
            if v.is_heap() && v.spec_index() < after.slots.len() {
                let s = v.spec_index() as u32;
                assert(1 <= self.slots[s as int].generation <= Value::MAX_GENERATION);
                if let Some(l) = self.slots[s as int].location {
                    assert(self.objects[l as int].slot == s);
                    if self.free@.contains(s) {
                        let m = choose|m: int| 0 <= m < self.free.len() && self.free[m] == s;
                        assert(self.slots[self.free[m] as int].location is None);
                    }
                    assert(order[l as int] == self.handle(l as int));
                    if after.free@.contains(s) {
                        let j = choose|j: int|
                            0 <= j < n && (#[trigger] self.objects[j]).slot == s && !keep.contains(
                                self.handle(j),
                            ) && self.slots[s as int].generation < Value::MAX_GENERATION;
                        assert(j == l) by {
                            assert(self.slots[self.objects[j].slot as int].location == Some(
                                j as usize,
                            ));
                        }
                    }
                } else {
                    assert(after.free@.contains(s) <==> self.free@.contains(s)) by {
                        if after.free@.contains(s) && !self.free@.contains(s) {
                            let j = choose|j: int|
                                0 <= j < n && (#[trigger] self.objects[j]).slot == s
                                    && !keep.contains(self.handle(j))
                                    && self.slots[s as int].generation < Value::MAX_GENERATION;
                            assert(self.slots[self.objects[j].slot as int].location is Some);
                        }
                    }
                }
            }
        }
        assert(after@.issued =~= self@.issued);
        assert(after@.young =~= Set::<Value>::empty()) by {
            assert forall|v: Value| !after@.young.contains(v) by {
                if after.locate(v) is Some {
                    after.lemma_located(v);
                    assert(!after.objects[after.locate(v).unwrap()].young);
                }
            }
        }
        assert(after@.remembered =~= Set::<Value>::empty());
        assert(after@.room == self@.swept(keep).room);
        assert(after@.free =~= self@.free + renewed(order, keep)) by {
            self.lemma_freed(keep, n);
            assert forall|k: int| 0 <= k < after.free.len() implies after@.free[k] == (self@.free
                + renewed(order, keep))[k] by {
                let slot = after.free[k];
                if k < self.free.len() {
                    assert(slot == self.free[k]);
                    assert(self.slots[self.free[k] as int].location is None);
                } else {
                    let m = k - self.free.len();
                    assert(slot == self.freed(keep, n)[m]);
                    let l = self.slots[slot as int].location.unwrap() as int;
                    assert(self.objects[l].slot == slot);
                }
            }
        }
    }
}

proof fn lemma_only_distinct(values: Seq<Value>, keep: Set<Value>, a: int, b: int)
    requires
        values.no_duplicates(),
        0 <= a < only(values, keep).len(),
        0 <= b < only(values, keep).len(),
        a != b,
    ensures
        only(values, keep)[a] != only(values, keep)[b],
    decreases values.len(),
{
    if values.len() > 0 {
        let rest = values.drop_last();
        let some = only(rest, keep);
        lemma_only(rest, keep);
        if a < some.len() && b < some.len() {
            lemma_only_distinct(rest, keep, a, b);
        } else if keep.contains(values.last()) {
            let other = if a < some.len() {
                a
            } else {
                b
            };
            let j = choose|j: int| 0 <= j < rest.len() && rest[j] == some[other];
            assert(values[j] != values[values.len() - 1]);
        }
    }
}

impl Heap {
    proof fn lemma_compacting_start(&self, keep: Set<Value>)
        requires
            self.wf(),
        ensures
            self.compacting(self.slots@, self.free@, Seq::empty(), keep, 0),
    {
        reveal(Heap::compacting);
        assert(self.free@ + self.freed(keep, 0) =~= self.free@);
        assert(self@.order.take(0) =~= Seq::<Value>::empty());
    }

    /// What is known of the object that comes next.
    proof fn lemma_compacting_next(
        &self,
        slots: Seq<Slot>,
        free: Seq<u32>,
        objects: Seq<HeapObject>,
        keep: Set<Value>,
        i: int,
    )
        requires
            self.wf(),
            0 <= i < self.objects.len(),
            self.compacting(slots, free, objects, keep, i),
        ensures
            slots.len() == self.slots.len(),
            self.objects[i].slot < slots.len(),
            slots[self.objects[i].slot as int] == self.slots[self.objects[i].slot as int],
            1 <= self.slots[self.objects[i].slot as int].generation <= Value::MAX_GENERATION,
            objects.len() == only(self@.order.take(i), keep).len(),
            self@.order[i] == self.handle(i),
            self.locate(self.handle(i)) == Some(i),
            self@.objects[self.handle(i)] == self.objects[i].object@,
            self@.young.contains(self.handle(i)) == self.objects[i].young,
            self@.order.take(i + 1).drop_last() == self@.order.take(i),
            self@.order.take(i + 1).last() == self.handle(i),
    {
        reveal(Heap::compacting);
        self.lemma_handle(i);
        assert(self@.order.take(i + 1).drop_last() =~= self@.order.take(i));
    }

    /// One object is dealt with: it is put at the end of the new storage, or
    /// its slot is emptied.
    proof fn lemma_compacting_step(
        &self,
        slots: Seq<Slot>,
        free: Seq<u32>,
        objects: Seq<HeapObject>,
        next_slots: Seq<Slot>,
        next_free: Seq<u32>,
        next_objects: Seq<HeapObject>,
        keep: Set<Value>,
        i: int,
    )
        requires
            self.wf(),
            0 <= i < self.objects.len(),
            self.compacting(slots, free, objects, keep, i),
            ({
                let slot = self.objects[i].slot;
                let generation = self.slots[slot as int].generation;
                if keep.contains(self.handle(i)) {
                    &&& next_slots == slots.update(
                        slot as int,
                        Slot { generation, location: Some(objects.len() as usize) },
                    )
                    &&& next_free == free
                    &&& next_objects == objects.push(
                        HeapObject { object: self.objects[i].object, slot, young: false },
                    )
                    &&& objects.len() <= usize::MAX
                } else {
                    &&& next_objects == objects
                    &&& if generation < Value::MAX_GENERATION {
                        &&& next_slots == slots.update(
                            slot as int,
                            Slot { generation: (generation + 1) as u32, location: None },
                        )
                        &&& next_free == free.push(slot)
                    } else {
                        &&& next_slots == slots.update(
                            slot as int,
                            Slot { generation, location: None },
                        )
                        &&& next_free == free
                    }
                }
            }),
        ensures
            self.compacting(next_slots, next_free, next_objects, keep, i + 1),
    {
        reveal(Heap::compacting);
        let order = self@.order;
        let slot = self.objects[i].slot;
        let generation = self.slots[slot as int].generation;
        self.lemma_handle(i);
        crate::value::lemma_handle(slot, generation);
        assert(order.take(i + 1).drop_last() =~= order.take(i));
        assert(order.take(i + 1).last() == self.handle(i));
        assert forall|j: int| 0 <= j < self.objects.len() && j != i implies (
        #[trigger] self.objects[j]).slot != slot by {
            assert(self.slots[self.objects[j].slot as int].location == Some(j as usize));
            assert(self.slots[slot as int].location == Some(i as usize));
        }
        assert(self.slots[slot as int].location is Some);
        assert(!self.free@.contains(slot)) by {
            if self.free@.contains(slot) {
                let m = choose|m: int| 0 <= m < self.free.len() && self.free[m] == slot;
                assert(self.slots[self.free[m] as int].location is None);
            }
        }
        assert(!free.contains(slot)) by {
            if free.contains(slot) {
                let j = choose|j: int|
                    0 <= j < i && (#[trigger] self.objects[j]).slot == slot && !keep.contains(
                        self.handle(j),
                    ) && self.slots[slot as int].generation < Value::MAX_GENERATION;
                assert(self.objects[j].slot != slot);
            }
        }
        assert forall|j: int| 0 <= j < i && keep.contains(self.handle(j)) implies self.rank(
            keep,
            j,
        ) < self.rank(keep, i) by {
            assert(order[j] == self.handle(j));
            lemma_rank(order, keep, j, i);
        }
        assert forall|j: int|
            #![trigger self.objects[j]]
            0 <= j < i + 1 implies {
            let at = next_slots[self.objects[j].slot as int];
            let was = self.slots[self.objects[j].slot as int].generation;
            if keep.contains(self.handle(j)) {
                &&& at.generation == was
                &&& at.location == Some(self.rank(keep, j) as usize)
                &&& self.rank(keep, j) < next_objects.len()
                &&& next_objects[self.rank(keep, j)] == HeapObject {
                    object: self.objects[j].object,
                    slot: self.objects[j].slot,
                    young: false,
                }
            } else {
                &&& at.location is None
                &&& at.generation == if was < Value::MAX_GENERATION {
                    (was + 1) as u32
                } else {
                    was
                }
            }
        } by {
            if j < i {
                assert(self.objects[j].slot != slot);
            }
        }
        assert(next_free =~= self.free@ + self.freed(keep, i + 1));
        assert(next_free.no_duplicates());
        assert forall|s: u32| #[trigger] next_free.contains(s) <==> self.free@.contains(s) || (
        exists|j: int|
            0 <= j < i + 1 && (#[trigger] self.objects[j]).slot == s && !keep.contains(
                self.handle(j),
            ) && self.slots[s as int].generation < Value::MAX_GENERATION) by {
            if next_free.contains(s) {
                let m = choose|m: int| 0 <= m < next_free.len() && next_free[m] == s;
                if m < free.len() {
                    assert(free[m] == s);
                    assert(free.contains(s));
                    if !self.free@.contains(s) {
                        let j = choose|j: int|
                            0 <= j < i && (#[trigger] self.objects[j]).slot == s && !keep.contains(
                                self.handle(j),
                            ) && self.slots[s as int].generation < Value::MAX_GENERATION;
                        assert(self.objects[j].slot == s);
                    }
                } else {
                    assert(self.objects[i].slot == s);
                }
            }
            if self.free@.contains(s) || (exists|j: int|
                0 <= j < i + 1 && (#[trigger] self.objects[j]).slot == s && !keep.contains(
                    self.handle(j),
                ) && self.slots[s as int].generation < Value::MAX_GENERATION) {
                if s != slot {
                    assert(free.contains(s));
                    let m = choose|m: int| 0 <= m < free.len() && free[m] == s;
                    assert(next_free[m] == s);
                } else {
                    let j = choose|j: int|
                        0 <= j < i + 1 && (#[trigger] self.objects[j]).slot == s && !keep.contains(
                            self.handle(j),
                        ) && self.slots[s as int].generation < Value::MAX_GENERATION;
                    assert(j == i);
                    assert(next_free[free.len() as int] == slot);
                }
            }
        }
    }

    /// Moves the kept objects together and frees the slots of the others.
    #[verifier::rlimit(40)]
    fn compact(&mut self, flags: &Vec<bool>, young_only: bool, keep: Ghost<Set<Value>>) -> (stats:
        CollectionStats)
        requires
            old(self).wf(),
            flags.len() == old(self).objects.len(),
            forall|v: Value| #[trigger] keep@.contains(v) ==> old(self).locate(v) is Some,
            forall|v: Value| #[trigger]
                old(self).locate(v) is Some ==> (keep@.contains(v) <==> flags[old(self).locate(
                    v,
                ).unwrap()] || (young_only && !old(self).objects[old(self).locate(
                    v,
                ).unwrap()].young)),
        ensures
            final(self).wf(),
            final(self)@.objects.dom() == keep@,
            forall|v: Value|
                keep@.contains(v) ==> #[trigger] final(self)@.objects[v] == old(self)@.objects[v],
            final(self)@ == (HeapView {
                objects: final(self)@.objects,
                ..old(self)@.swept(keep@)
            }),
            stats.describes(old(self)@, keep@),
            stats.major == !young_only,
            stats.live_bytes == final(self).used_bytes(),
    {
        let ghost before = *self;
        let ghost order = self@.order;
        let ghost young = self@.young;
        let ghost pending = self@.pending;
        let ghost n = self.objects.len() as int;
        proof {
            self.lemma_view();
            before.lemma_compacting_start(keep@);
        }
        let mut reversed: Vec<HeapObject> = Vec::new();
        let count = self.objects.len();
        assert(before.objects@.skip(n).reverse() =~= Seq::<HeapObject>::empty());
        assert(before.objects@.take(n) =~= before.objects@);
        while reversed.len() < count
            invariant
                n == before.objects.len(),
                count == n,
                reversed.len() <= count,
                reversed@ == before.objects@.skip(n - reversed.len()).reverse(),
                self.objects@ == before.objects@.take(n - reversed.len()),
                *self == (Heap { objects: self.objects, ..before }),
            decreases count - reversed.len(),
        {
            let ghost k = reversed.len();
            let entry = self.objects.pop().unwrap();
            reversed.push(entry);
            proof {
                assert(before.objects@.take(n - k).drop_last() =~= before.objects@.take(n - k - 1));
                assert(reversed@ =~= before.objects@.skip(n - k - 1).reverse());
            }
        }
        assert(before.objects@.skip(0) =~= before.objects@);
        assert(self.objects@ =~= Seq::<HeapObject>::empty());
        let mut stats = CollectionStats {
            reclaimed: 0,
            young_reclaimed: 0,
            survivors: 0,
            promoted: 0,
            moved: 0,
            live_bytes: 0,
            major: !young_only,
        };
        let mut i: usize = 0;
        assert(order.take(0) =~= Seq::<Value>::empty());
        assert(before.finalizers_start(keep@));
        assert(weighed(before@, Seq::empty(), Seq::empty()));
        while i < count
            invariant
                before.wf(),
                before@.wf(),
                n == before.objects.len(),
                count == n,
                i <= count,
                flags.len() == n,
                order == before@.order,
                young == before@.young,
                pending == before@.pending,
                reversed@ == before.objects@.skip(i as int).reverse(),
                *self == (Heap {
                    objects: self.objects,
                    slots: self.slots,
                    free: self.free,
                    pending_foreign: self.pending_foreign,
                    ..before
                }),
                before.compacting(self.slots@, self.free@, self.objects@, keep@, i as int),
                pending_views(self.pending_foreign@) == pending + before@.finalizers(
                    order.take(i as int),
                    keep@,
                ),
                forall|v: Value| #[trigger]
                    before.locate(v) is Some ==> (keep@.contains(v) <==> flags[before.locate(
                        v,
                    ).unwrap()] || (young_only && !before.objects[before.locate(
                        v,
                    ).unwrap()].young)),
                stats.survivors == only(order.take(i as int), keep@).len(),
                stats.survivors <= i,
                stats.reclaimed == tally(order.take(i as int), keep@.complement()),
                stats.reclaimed <= i,
                stats.young_reclaimed == tally(order.take(i as int), young.difference(keep@)),
                stats.young_reclaimed <= i,
                stats.promoted == tally(order.take(i as int), young.intersect(keep@)),
                stats.promoted <= i,
                stats.moved == displaced(order.take(i as int), keep@),
                stats.moved <= i,
                weigh(before@, only(order.take(i as int), keep@), stats.live_bytes as int),
                stats.major == !young_only,
            decreases count - i,
        {
            let ghost at = i as int;
            let ghost (slots0, free0, objects0) = (self.slots@, self.free@, self.objects@);
            let ghost pending0 = self.pending_foreign@;
            let entry = reversed.pop().unwrap();
            proof {
                assert(entry == before.objects[at]);
                assert(before.objects@.skip(at).reverse().drop_last() =~= before.objects@.skip(
                    at + 1,
                ).reverse());
                before.lemma_compacting_next(slots0, free0, objects0, keep@, at);
            }
            let slot = entry.slot;
            let generation = self.slots[slot as usize].generation;
            let live = flags[i] || (young_only && !entry.young);
            if live {
                if i != stats.survivors {
                    stats.moved += 1;
                }
                if entry.young {
                    stats.promoted += 1;
                }
                self.slots[slot as usize] = Slot { generation, location: Some(stats.survivors) };
                stats.survivors += 1;
                let size = entry.object.estimated_bytes();
                proof {
                    before.lemma_handle(at);
                    assert(before@.objects[order[at]] == entry.object@);
                    assert(order.take(at + 1).drop_last() =~= order.take(at));
                    lemma_weigh_more(
                        before@,
                        only(order.take(at), keep@),
                        order[at],
                        stats.live_bytes as int,
                        size,
                    );
                }
                stats.live_bytes = stats.live_bytes.saturating_add(size);
                self.objects.push(HeapObject { object: entry.object, slot, young: false });
            } else {
                if entry.young {
                    stats.young_reclaimed += 1;
                }
                if let Object::Foreign(foreign) = entry.object {
                    let mut dead = foreign;
                    let finalizer = dead.take_finalizer();
                    assert(before@.objects[before.handle(at)] == ObjectView::Foreign(foreign@));
                    self.pending_foreign.push(finalizer);
                    assert(pending_views(self.pending_foreign@) =~= pending_views(pending0).push(
                        foreign@.finalizer(),
                    ));
                } else {
                    assert(!(before@.objects[before.handle(at)] is Foreign));
                }
                stats.reclaimed += 1;
                // Retire exhausted slots permanently. Generation never wraps.
                if generation < Value::MAX_GENERATION {
                    self.slots[slot as usize] = Slot {
                        generation: generation + 1,
                        location: None,
                    };
                    self.free.push(slot);
                } else {
                    self.slots[slot as usize] = Slot { generation, location: None };
                }
            }
            i += 1;
            proof {
                before.lemma_compacting_step(
                    slots0,
                    free0,
                    objects0,
                    self.slots@,
                    self.free@,
                    self.objects@,
                    keep@,
                    at,
                );
                assert(order.take(at + 1).drop_last() =~= order.take(at));
                let rest = before@.finalizers(order.take(at), keep@);
                let all = before@.finalizers(order.take(at + 1), keep@);
                assert(pending_views(self.pending_foreign@) =~= pending + all) by {
                    if live || !(before@.objects[before.handle(at)] is Foreign) {
                        assert(all == rest);
                    } else {
                        let foreign = before@.objects[before.handle(at)]->Foreign_0;
                        assert(all == rest.push(foreign.finalizer()));
                        assert(pending + all =~= (pending + rest).push(foreign.finalizer()));
                    }
                }
            }
        }
        assert(order.take(n) =~= order);
        self.bytes = stats.live_bytes;
        if self.bytes > self.peak_bytes {
            self.peak_bytes = self.bytes;
        }
        self.counters.last_collection_allocations = self.counters.allocations;
        self.remembered.clear();
        proof {
            before.lemma_compacted(self, keep@);
        }
        stats
    }

    /// Nothing is pending of no object.
    spec fn finalizers_start(&self, keep: Set<Value>) -> bool {
        self@.pending + self@.finalizers(Seq::<Value>::empty(), keep) == self@.pending
    }

    /// The values that are live.
    fn living(&self, values: &Vec<Value>) -> (r: Vec<Value>)
        requires
            self.wf(),
        ensures
            r@ == only(values@, self@.objects.dom()),
    {
        let mut kept: Vec<Value> = Vec::new();
        let mut i: usize = 0;
        while i < values.len()
            invariant
                self.wf(),
                i <= values.len(),
                kept@ == only(values@.take(i as int), self@.objects.dom()),
            decreases values.len() - i,
        {
            assert(values@.take(i + 1).drop_last() =~= values@.take(i as int));
            if self.location(values[i]).is_some() {
                kept.push(values[i]);
            }
            i += 1;
        }
        assert(values@.take(i as int) =~= values@);
        kept
    }

    /// Makes classes forget dependents that are gone.
    fn prune(&mut self)
        requires
            old(self).wf(),
        ensures
            final(self).wf(),
            final(self).used_bytes() == old(self).used_bytes(),
            final(self)@.objects.dom() == old(self)@.objects.dom(),
            forall|v: Value|
                old(self)@.live(v) ==> #[trigger] final(self)@.objects[v] == pruned(
                    old(self)@.objects[v],
                    old(self)@.objects.dom(),
                ),
            final(self)@ == (HeapView { objects: final(self)@.objects, ..old(self)@ }),
    {
        let ghost before = *self;
        let ghost keep = self@.objects.dom();
        let mut i: usize = 0;
        proof {
            self.lemma_view();
        }
        while i < self.objects.len()
            invariant
                before.wf(),
                before@.wf(),
                self.wf(),
                i <= self.objects.len(),
                self.objects.len() == before.objects.len(),
                self.slots == before.slots,
                self.bytes == before.bytes,
                keep == before@.objects.dom(),
                self@.objects.dom() == keep,
                self@ == (HeapView { objects: self@.objects, ..before@ }),
                forall|j: int|
                    0 <= j < i ==> #[trigger] self@.objects[before@.order[j]] == pruned(
                        before@.objects[before@.order[j]],
                        keep,
                    ),
                forall|j: int|
                    i <= j < before@.order.len() ==> #[trigger] self@.objects[before@.order[j]]
                        == before@.objects[before@.order[j]],
            decreases self.objects.len() - i,
        {
            let ghost current = *self;
            let ghost value = self.handle(i as int);
            proof {
                self.lemma_handle(i as int);
                assert(self@.order[i as int] == value);
                assert(before@.order[i as int] == value);
                assert(self@.objects[value] == self.objects[i as int].object@);
                assert forall|j: int| 0 <= j < before@.order.len() && j != i implies before@.order[j]
                    != value by {}
            }
            let replacement: Option<Vec<Value>> = match &self.objects[i].object {
                Object::Class(class) => Some(self.living(&class.dependents)),
                _ => None,
            };
            if let Some(dependents) = replacement {
                match &mut self.objects[i].object {
                    Object::Class(class) => {
                        class.dependents = dependents;
                    },
                    _ => {},
                }
                proof {
                    current.lemma_exchanged(self, value, i as int);
                    assert(self@.objects[value] =~= pruned(current@.objects[value], keep));
                    assert(self@.objects.dom() =~= keep);
                }
            }
            i += 1;
        }
        proof {
            assert forall|v: Value| before@.live(v) implies #[trigger] self@.objects[v] == pruned(
                before@.objects[v],
                keep,
            ) by {
                let j = choose|j: int| 0 <= j < before@.order.len() && before@.order[j] == v;
                assert(self@.objects[before@.order[j]] == pruned(
                    before@.objects[before@.order[j]],
                    keep,
                ));
            }
        }
    }

    fn sweep(&mut self, flags: &Vec<bool>, young_only: bool, keep: Ghost<Set<Value>>) -> (stats:
        CollectionStats)
        requires
            old(self).wf(),
            flags.len() == old(self).objects.len(),
            forall|v: Value| #[trigger] keep@.contains(v) ==> old(self).locate(v) is Some,
            forall|v: Value| #[trigger]
                old(self).locate(v) is Some ==> (keep@.contains(v) <==> flags[old(self).locate(
                    v,
                ).unwrap()] || (young_only && !old(self).objects[old(self).locate(
                    v,
                ).unwrap()].young)),
        ensures
            final(self).wf(),
            final(self)@ == old(self)@.swept(keep@),
            stats.describes(old(self)@, keep@),
            stats.major == !young_only,
            stats.live_bytes == final(self).used_bytes(),
    {
        let stats = self.compact(flags, young_only, keep);
        let ghost compacted = *self;
        self.prune();
        proof {
            assert(self@.objects =~= old(self)@.swept(keep@).objects) by {
                assert forall|v: Value| keep@.contains(v) implies #[trigger] self@.objects[v]
                    == pruned(old(self)@.objects[v], keep@) by {
                    assert(compacted@.objects[v] == old(self)@.objects[v]);
                }
            }
        }
        stats
    }

    /// Reclaims everything that the roots do not lead to. A root or an edge of
    /// a reachable object that is no live handle fails the collection, and
    /// then nothing changes.
    pub fn collect(&mut self, roots: &Vec<Value>) -> (r: Result<CollectionStats>)
        requires
            old(self).wf(),
        ensures
            final(self).wf(),
            match r {
                Ok(stats) => {
                    &&& forall|v: Value| #[trigger]
                        old(self)@.reachable(roots@, v) ==> old(self)@.live(v)
                    &&& final(self)@ == old(self)@.swept(old(self)@.major_survivors(roots@))
                    &&& stats.describes(old(self)@, old(self)@.major_survivors(roots@))
                    &&& stats.major
                    &&& stats.live_bytes == final(self).used_bytes()
                },
                Err(error) => {
                    &&& exists|v: Value|
                        #![trigger old(self)@.live(v)]
                        old(self)@.reachable(roots@, v) && !old(self)@.live(v)
                    &&& error@ == crate::diagnostic::fault(
                        "HandleError",
                        "stale or invalid internal heap handle",
                    )
                    &&& final(self)@ == old(self)@
                },
            },
    {
        let work = crate::edges::copy_values(roots);
        let ghost starts = root_set(roots@);
        let flags = match self.mark(work, false, Ghost(starts)) {
            Ok(flags) => flags,
            Err(error) => {
                return Err(error);
            },
        };
        let ghost keep = self@.major_survivors(roots@);
        proof {
            self.lemma_view();
            assert forall|v: Value| #[trigger] self@.reachable(roots@, v) implies self@.live(v) by {
                assert(self@.reached(starts, self@.traced(false), v));
            }
        }
        Ok(self.sweep(&flags, false, Ghost(keep)))
    }

    /// Reclaims the young objects that neither the roots nor remembered owners
    /// lead to through young objects; the rest of the nursery becomes old.
    /// Every root is validated; on failure nothing changes.
    pub fn collect_young(&mut self, roots: &Vec<Value>) -> (r: Result<CollectionStats>)
        requires
            old(self).wf(),
        ensures
            final(self).wf(),
            match r {
                Ok(stats) => {
                    &&& forall|v: Value| #[trigger]
                        old(self)@.nursery_reachable(roots@, v) ==> old(self)@.live(v)
                    &&& final(self)@ == old(self)@.swept(old(self)@.minor_survivors(roots@))
                    &&& stats.describes(old(self)@, old(self)@.minor_survivors(roots@))
                    &&& !stats.major
                    &&& stats.live_bytes == final(self).used_bytes()
                },
                Err(error) => {
                    &&& exists|v: Value|
                        #![trigger old(self)@.live(v)]
                        old(self)@.nursery_reachable(roots@, v) && !old(self)@.live(v)
                    &&& error@ == crate::diagnostic::fault(
                        "HandleError",
                        "stale or invalid internal heap handle",
                    )
                    &&& final(self)@ == old(self)@
                },
            },
    {
        let mut work = crate::edges::copy_values(roots);
        let ghost starts = self@.minor_starts(roots@);
        proof {
            self.lemma_view();
        }
        let mut i: usize = 0;
        while i < self.objects.len()
            invariant
                self.wf(),
                self@.wf(),
                i <= self.objects.len(),
                forall|v: Value| roots@.contains(v) ==> #[trigger] work@.contains(v),
                forall|j: int, v: Value|
                    0 <= j < i && self@.remembered.contains(self@.order[j])
                        && #[trigger] self@.objects[self@.order[j]].edges().contains(v)
                        ==> work@.contains(v),
                forall|v: Value| #[trigger]
                    work@.contains(v) ==> roots@.contains(v) || exists|owner: Value| #[trigger]
                        self@.remembered.contains(owner) && self@.objects[owner].edges().contains(v),
            decreases self.objects.len() - i,
        {
            let ghost before = work@;
            let ghost owner = self@.order[i as int];
            proof {
                self.lemma_handle(i as int);
                assert(owner == self.handle(i as int));
                assert(self@.objects[owner] == self.objects[i as int].object@);
                assert(self@.remembered.contains(owner) == self.remembered@.contains(
                    self.objects[i as int].slot,
                ));
            }
            if self.remembered.contains(&self.objects[i].slot) {
                self.objects[i].object.trace(&mut work);
                proof {
                    let edges = self@.objects[owner].edges();
                    assert(work@ == before + edges);
                    assert forall|v: Value| before.contains(v) || edges.contains(
                        v,
                    ) implies #[trigger] work@.contains(v) by {
                        if before.contains(v) {
                            let k = choose|k: int| 0 <= k < before.len() && before[k] == v;
                            assert(work@[k] == v);
                        } else {
                            let k = choose|k: int| 0 <= k < edges.len() && edges[k] == v;
                            assert(work@[before.len() + k] == v);
                        }
                    }
                    assert forall|v: Value| #[trigger] work@.contains(v) implies before.contains(v)
                        || edges.contains(v) by {
                        let k = choose|k: int| 0 <= k < work@.len() && work@[k] == v;
                        if k < before.len() {
                            assert(before[k] == v);
                        } else {
                            assert(edges[k - before.len()] == v);
                        }
                    }
                }
            }
            i += 1;
        }
        proof {
            assert forall|v: Value| #[trigger] starts.contains(v) implies v.is_heap()
                && work@.contains(v) by {
                if !roots@.contains(v) {
                    let owner = choose|owner: Value| #[trigger]
                        self@.remembered.contains(owner) && self@.objects[owner].edges().contains(v);
                    assert(self@.live(owner));
                    let j = choose|j: int| 0 <= j < self@.order.len() && self@.order[j] == owner;
                    assert(self@.objects[self@.order[j]].edges().contains(v));
                }
            }
        }
        let flags = match self.mark(work, true, Ghost(starts)) {
            Ok(flags) => flags,
            Err(error) => {
                return Err(error);
            },
        };
        let ghost keep = self@.minor_survivors(roots@);
        proof {
            assert forall|v: Value| #[trigger]
                self@.nursery_reachable(roots@, v) implies self@.live(v) by {
                assert(self@.reached(starts, self@.traced(true), v));
            }
        }
        Ok(self.sweep(&flags, true, Ghost(keep)))
    }

    pub fn live_objects(&self) -> (r: usize)
        ensures
            r == self@.order.len(),
    {
        self.objects.len()
    }

    /// Appends every edge of every object to `visited`.
    pub fn trace_all(&self, visited: &mut Vec<Value>)
        requires
            self.wf(),
        ensures
            final(visited)@ == old(visited)@ + all_edges(self@, self@.order),
    {
        let mut i: usize = 0;
        assert(self@.order.take(0) =~= Seq::<Value>::empty());
        while i < self.objects.len()
            invariant
                self.wf(),
                i <= self.objects.len(),
                visited@ == old(visited)@ + all_edges(self@, self@.order.take(i as int)),
            decreases self.objects.len() - i,
        {
            proof {
                self.lemma_handle(i as int);
                assert(self@.order.take(i + 1).drop_last() =~= self@.order.take(i as int));
                assert(self@.order.take(i + 1).last() == self.handle(i as int));
                assert(self@.objects[self.handle(i as int)] == self.objects[i as int].object@);
            }
            self.objects[i].object.trace(visited);
            i += 1;
            assert(visited@ =~= old(visited)@ + all_edges(self@, self@.order.take(i as int)));
        }
        assert(self@.order.take(i as int) =~= self@.order);
    }
}

/// The edges of the listed objects, in order.
pub open spec fn all_edges(heap: HeapView, order: Seq<Value>) -> Seq<Value>
    decreases order.len(),
{
    if order.len() == 0 {
        Seq::empty()
    } else {
        all_edges(heap, order.drop_last()) + heap.objects[order.last()].edges()
    }
}

} // verus!
