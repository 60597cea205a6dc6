//! Stable generational logical slots over compactable object storage.
//! Collection only occurs at explicit safepoints, never during allocation.
use std::collections::HashSet;
use vstd::prelude::*;
use crate::diagnostic::{fault, Diagnostic, Fault, Result};
use crate::foreign::{PendingForeign, PendingView};
use crate::measure::saturate;
use crate::namespaces::all_known;
use crate::object::{Object, ObjectView};
use crate::shapes::{lemma_attributes_kept, written, Attributes, AttributesView, Shapes};
use crate::soundness::allocation_keeps_sound;
use crate::value::{heap_words_are_distinct, lemma_handle, Value};

pub mod gc;

verus! {

broadcast use vstd::std_specs::hash::group_hash_axioms;

/// Counts of what the heap did.
#[derive(Clone, Copy, Debug, PartialEq, Eq, Structural)]
pub struct Counters {
    pub allocations: u64,
    pub last_collection_allocations: u64,
    pub buffer_exports: u64,
    pub buffer_copies: u64,
    pub foreign_wrapper_creations: u64,
    pub foreign_trace_calls: u64,
    pub foreign_destructor_calls: u64,
    pub foreign_destructor_panics: u64,
}

/// The greater of two sizes.
pub open spec fn greater(a: usize, b: usize) -> usize {
    if a < b {
        b
    } else {
        a
    }
}

/// The estimate of the bytes in use, and the greatest so far.
pub struct Tally {
    pub used: usize,
    pub greatest: usize,
}

impl Tally {
    /// With bytes added.
    pub open spec fn grown(self, bytes: int) -> Tally {
        let used = saturate(self.used + bytes) as usize;
        Tally { used, greatest: greater(self.greatest, used) }
    }

    /// With bytes taken away.
    pub open spec fn shrunk(self, bytes: int) -> Tally {
        Tally {
            used: if bytes > self.used {
                0
            } else {
                (self.used - bytes) as usize
            },
            ..self
        }
    }

    /// Whether what a new object weighs was added.
    pub open spec fn adds(self, after: Tally, object: ObjectView) -> bool {
        exists|size: int| #[trigger] object.weighs(size) && after == self.grown(size)
    }

    /// Whether what an object weighs more than before was added.
    pub open spec fn gains(self, after: Tally, was: ObjectView, now: ObjectView) -> bool {
        exists|size: int, weight: int| #[trigger]
            was.weighs(size) && #[trigger] now.weighs(weight) && after == self.grown(
                surplus(weight, size),
            )
    }

    /// Whether what an object weighs less than before was taken away.
    pub open spec fn loses(self, after: Tally, was: ObjectView, now: ObjectView) -> bool {
        exists|size: int, weight: int| #[trigger]
            was.weighs(size) && #[trigger] now.weighs(weight) && after == self.shrunk(
                surplus(size, weight),
            )
    }

    /// Whether what an object weighs more or less than before was added or
    /// taken away.
    pub open spec fn moves(self, after: Tally, was: ObjectView, now: ObjectView) -> bool {
        exists|size: int, weight: int| #[trigger]
            was.weighs(size) && #[trigger] now.weighs(weight) && after == self.grown(
                surplus(weight, size),
            ).shrunk(surplus(size, weight))
    }
}

/// Whether the estimates count exactly the object that was made, if one was.
pub open spec fn counts_one(before: Heap, after: Heap) -> bool {
    if after@.order.len() == before@.order.len() {
        after.tally() == before.tally()
    } else {
        before.tally().adds(after.tally(), after@.objects[before@.upcoming()])
    }
}

/// By how much a number is greater than another.
pub open spec fn surplus(a: int, b: int) -> int {
    if a > b {
        a - b
    } else {
        0
    }
}

/// One more, at most the greatest count.
pub open spec fn counted(n: u64) -> u64 {
    if n == u64::MAX {
        u64::MAX
    } else {
        (n + 1) as u64
    }
}

#[derive(Debug)]
struct Slot {
    generation: u32,
    location: Option<usize>,
}

#[derive(Debug)]
struct HeapObject {
    object: Object,
    slot: u32,
    young: bool,
}

#[derive(Debug)]
pub struct Heap {
    shapes: Shapes,
    next_type: u32,
    objects: Vec<HeapObject>,
    slots: Vec<Slot>,
    free: Vec<u32>,
    remembered: HashSet<u32>,
    bytes: usize,
    peak_bytes: usize,
    counters: Counters,
    pending_foreign: Vec<PendingForeign>,
}

/// The heap as its users see it.
#[verifier::ext_equal]
pub struct HeapView {
    /// The live objects by their handles.
    pub objects: Map<Value, ObjectView>,
    /// The live handles in the order of storage.
    pub order: Seq<Value>,
    /// The live objects that no collection has seen.
    pub young: Set<Value>,
    /// The old owners that a minor collection traces.
    pub remembered: Set<Value>,
    /// The handles that allocation will not give out: those it gave out
    /// before, and those it passed over.
    pub issued: Set<Value>,
    /// How many objects can be allocated before a collection.
    pub room: nat,
    /// The handles that freed slots give out again, the last of them first.
    pub free: Seq<Value>,
    /// How many slots there are.
    pub extent: nat,
    pub shapes: Shapes,
    /// The last type identity given out.
    pub next_type: u32,
    pub counters: Counters,
    /// The payloads whose wrappers are gone.
    pub pending: Seq<PendingView>,
}

/// What is wrong with a value that is no live object.
pub open spec fn invalid_value(value: Value) -> Fault {
    if value.is_heap() {
        fault("HandleError", "stale or invalid internal heap handle")
    } else {
        fault("TypeError", "expected a heap object")
    }
}

/// What allocation says when there is no room.
pub open spec fn no_memory() -> Fault {
    fault("MemoryError", "heap handle capacity exhausted")
}

impl HeapView {
    /// Whether a value is a live object.
    pub open spec fn live(self, value: Value) -> bool {
        self.objects.dom().contains(value)
    }

    /// The live object behind a value.
    pub open spec fn at(self, value: Value) -> Option<ObjectView> {
        if self.live(value) {
            Some(self.objects[value])
        } else {
            None
        }
    }

    /// The live object behind a value, or what is wrong with the value.
    pub open spec fn found(self, value: Value) -> core::result::Result<ObjectView, Fault> {
        if self.live(value) {
            Ok(self.objects[value])
        } else {
            Err(invalid_value(value))
        }
    }

    /// With another object behind a handle.
    pub open spec fn with(self, value: Value, object: ObjectView) -> HeapView {
        HeapView { objects: self.objects.insert(value, object), ..self }
    }

    /// With an owner remembered, if it is old and what it comes to hold is
    /// young.
    pub open spec fn barrier(self, owner: Value, value: Value) -> HeapView {
        if self.live(owner) && !self.young.contains(owner) && self.young.contains(value) {
            HeapView { remembered: self.remembered.insert(owner), ..self }
        } else {
            self
        }
    }

    /// With a new object behind a handle that was never given out.
    pub open spec fn allocated(self, value: Value, object: ObjectView) -> HeapView {
        HeapView {
            objects: self.objects.insert(value, object),
            order: self.order.push(value),
            young: self.young.insert(value),
            issued: self.issued.insert(value),
            room: (self.room - 1) as nat,
            free: if self.free.len() > 0 {
                self.free.drop_last()
            } else {
                self.free
            },
            extent: if self.free.len() > 0 {
                self.extent
            } else {
                self.extent + 1
            },
            counters: Counters {
                allocations: counted(self.counters.allocations),
                ..self.counters
            },
            ..self
        }
    }

    /// The handle that allocation gives out next: that of the slot freed last,
    /// or of a slot that was never used.
    pub open spec fn upcoming(self) -> Value {
        if self.free.len() > 0 {
            self.free.last()
        } else {
            Value::handle(self.extent as u32, 1)
        }
    }

    /// Whether `value` is the handle that allocation gives out next, which it
    /// never gave out before.
    pub open spec fn fresh(self, value: Value) -> bool {
        value.is_heap() && !self.issued.contains(value) && value == self.upcoming()
    }

    /// What holds of every heap: live handles are heap words that were given
    /// out, the young and the remembered are live, and every object is
    /// consistent.
    pub open spec fn wf(self) -> bool {
        &&& self.shapes.wf()
        &&& forall|v: Value| #[trigger]
            self.objects.dom().contains(v) ==> v.is_heap() && self.issued.contains(v)
                && self.objects[v].wf(&self.shapes)
        &&& self.order.no_duplicates()
        &&& forall|i: int| 0 <= i < self.order.len() ==> self.live(#[trigger] self.order[i])
        &&& forall|v: Value| #[trigger] self.live(v) ==> self.order.contains(v)
        &&& forall|v: Value| #[trigger] self.young.contains(v) ==> self.live(v)
        &&& forall|v: Value| #[trigger]
            self.remembered.contains(v) ==> self.live(v) && !self.young.contains(v)
    }

    /// The heap before anything was allocated.
    pub open spec fn empty(shapes: Shapes) -> HeapView {
        HeapView {
            objects: Map::empty(),
            order: Seq::empty(),
            young: Set::empty(),
            remembered: Set::empty(),
            issued: Set::empty(),
            room: 0x1_0000_0000,
            free: Seq::empty(),
            extent: 0,
            shapes,
            next_type: 0,
            counters: Counters {
                allocations: 0,
                last_collection_allocations: 0,
                buffer_exports: 0,
                buffer_copies: 0,
                foreign_wrapper_creations: 0,
                foreign_trace_calls: 0,
                foreign_destructor_calls: 0,
                foreign_destructor_panics: 0,
            },
            pending: Seq::empty(),
        }
    }
}

/// The views of pending payloads.
pub open spec fn pending_views(pending: Seq<PendingForeign>) -> Seq<PendingView> {
    Seq::new(pending.len(), |i: int| pending[i]@)
}

impl View for Heap {
    type V = HeapView;

    closed spec fn view(&self) -> HeapView {
        HeapView {
            objects: Map::new(
                |v: Value| self.locate(v) is Some,
                |v: Value| self.objects[self.locate(v).unwrap()].object@,
            ),
            order: Seq::new(self.objects.len() as nat, |i: int| self.handle(i)),
            young: Set::new(
                |v: Value| self.locate(v) is Some && self.objects[self.locate(v).unwrap()].young,
            ),
            remembered: Set::new(
                |v: Value|
                    self.locate(v) is Some && self.remembered@.contains(v.spec_index() as u32),
            ),
            issued: Set::new(|v: Value| self.passed(v)),
            room: (0x1_0000_0000 - self.slots.len() + self.free.len()) as nat,
            free: Seq::new(
                self.free.len() as nat,
                |i: int| Value::handle(self.free[i], self.slots[self.free[i] as int].generation),
            ),
            extent: self.slots.len() as nat,
            shapes: self.shapes,
            next_type: self.next_type,
            counters: self.counters,
            pending: pending_views(self.pending_foreign@),
        }
    }
}

/// A heap value is invalid in one of two ways.
pub(crate) fn invalid(value: Value) -> (r: Diagnostic)
    ensures
        r@ == invalid_value(value),
{
    match value.heap_index() {
        Some(_) => Diagnostic::new("HandleError", "stale or invalid internal heap handle"),
        None => Diagnostic::new("TypeError", "expected a heap object"),
    }
}

impl Heap {
    /// The handle of the object at a place in storage.
    spec fn handle(&self, i: int) -> Value {
        Value::handle(
            self.objects[i].slot,
            self.slots[self.objects[i].slot as int].generation,
        )
    }

    /// Where in storage the object of a handle stands.
    spec fn locate(&self, value: Value) -> Option<int> {
        if value.is_heap() && value.spec_index() < self.slots.len()
            && self.slots[value.spec_index()].generation == value.spec_generation() {
            match self.slots[value.spec_index()].location {
                Some(location) => Some(location as int),
                None => None,
            }
        } else {
            None
        }
    }

    /// Whether allocation will not give out this handle.
    spec fn passed(&self, value: Value) -> bool {
        value.is_heap() && value.spec_index() < self.slots.len() && 1 <= value.spec_generation() && (
        value.spec_generation() < self.slots[value.spec_index()].generation || (value.spec_generation()
            == self.slots[value.spec_index()].generation && !self.free@.contains(
            value.spec_index() as u32,
        )))
    }

    /// Slots and storage point at each other; free slots are distinct and
    /// empty; generations stay in range.
    spec fn linked(&self) -> bool {
        &&& self.slots.len() <= 0x1_0000_0000
        &&& forall|s: int|
            0 <= s < self.slots.len() ==> 1 <= (#[trigger] self.slots[s]).generation
                <= Value::MAX_GENERATION
        &&& forall|i: int|
            0 <= i < self.objects.len() ==> (#[trigger] self.objects[i]).slot < self.slots.len()
                && self.slots[self.objects[i].slot as int].location == Some(i as usize)
        &&& forall|s: int|
            0 <= s < self.slots.len() ==> (
            (#[trigger] self.slots[s]).location matches Some(location) ==> location
                < self.objects.len() && self.objects[location as int].slot == s)
        &&& self.free@.no_duplicates()
        &&& forall|i: int|
            0 <= i < self.free.len() ==> (#[trigger] self.free[i]) < self.slots.len()
                && self.slots[self.free[i] as int].location is None
        &&& forall|s: u32| #[trigger]
            self.remembered@.contains(s) ==> s < self.slots.len() && (
            self.slots[s as int].location matches Some(location)
                && !self.objects[location as int].young)
    }

    /// What holds of every heap between operations.
    pub closed spec fn wf(&self) -> bool {
        &&& self.linked()
        &&& self.shapes.wf()
        &&& forall|i: int|
            0 <= i < self.objects.len() ==> (#[trigger] self.objects[i]).object.wf(&self.shapes)
        &&& self.bytes <= self.peak_bytes
    }

    /// What the view of a heap satisfies.
    pub proof fn lemma_view(&self)
        requires
            self.wf(),
        ensures
            self@.wf(),
    {
        assert forall|v: Value| #[trigger] self@.objects.dom().contains(v) implies v.is_heap()
            && self@.issued.contains(v) && self@.objects[v].wf(&self@.shapes) by {
            self.lemma_located(v);
        }
        assert forall|i: int, j: int|
            0 <= i < self@.order.len() && 0 <= j < self@.order.len() && i != j implies self@.order[i]
            != self@.order[j] by {
            self.lemma_handle(i);
            self.lemma_handle(j);
        }
        assert forall|i: int| 0 <= i < self@.order.len() implies self@.live(
            #[trigger] self@.order[i],
        ) by {
            self.lemma_handle(i);
        }
        assert forall|v: Value| #[trigger] self@.live(v) implies self@.order.contains(v) by {
            self.lemma_located(v);
            let i = self.locate(v).unwrap();
            self.lemma_handle(i);
            heap_words_are_distinct(v, self.handle(i));
            assert(self@.order[i] == v);
        }
    }

    /// The handle of a place leads to the place.
    proof fn lemma_handle(&self, i: int)
        requires
            self.linked(),
            0 <= i < self.objects.len(),
        ensures
            self.locate(self.handle(i)) == Some(i),
            self.handle(i).is_heap(),
            self.handle(i).spec_index() == self.objects[i].slot,
    {
        let s = self.objects[i].slot;
        assert(self.slots[s as int].location == Some(i as usize));
        lemma_handle(s, self.slots[s as int].generation);
    }

    proof fn lemma_located(&self, value: Value)
        requires
            self.wf(),
            self.locate(value) is Some,
        ensures
            0 <= self.locate(value).unwrap() < self.objects.len(),
            self.objects[self.locate(value).unwrap()].slot == value.spec_index(),
            self.objects[self.locate(value).unwrap()].object.wf(&self.shapes),
            self.passed(value),
    {
        let s = value.spec_index();
        assert(0 <= s) by {
            assert(((value.0 >> 3) as u32) as int >= 0);
        }
        assert(self.slots[s].location is Some);
        if self.free@.contains(s as u32) {
            let i = choose|i: int| 0 <= i < self.free.len() && self.free[i] == s as u32;
            assert(self.slots[self.free[i] as int].location is None);
        }
    }

    pub fn new() -> (r: Heap)
        ensures
            r.wf(),
            r@ == HeapView::empty(r@.shapes),
            r@.wf(),
            r.used_bytes() == 0,
            r.greatest_bytes() == 0,
    {
        let r = Heap {
            shapes: Shapes::new(),
            next_type: 0,
            objects: Vec::new(),
            slots: Vec::new(),
            free: Vec::new(),
            remembered: HashSet::new(),
            bytes: 0,
            peak_bytes: 0,
            counters: Counters {
                allocations: 0,
                last_collection_allocations: 0,
                buffer_exports: 0,
                buffer_copies: 0,
                foreign_wrapper_creations: 0,
                foreign_trace_calls: 0,
                foreign_destructor_calls: 0,
                foreign_destructor_panics: 0,
            },
            pending_foreign: Vec::new(),
        };
        proof {
            assert(r@.objects =~= Map::<Value, ObjectView>::empty());
            assert(r@.order =~= Seq::<Value>::empty());
            assert(r@.young =~= Set::<Value>::empty());
            assert(r@.remembered =~= Set::<Value>::empty());
            assert(r@.issued =~= Set::<Value>::empty());
            assert(r@.free =~= Seq::<Value>::empty());
            assert(r@.pending =~= Seq::empty());
            r.lemma_view();
        }
        r
    }

    fn location(&self, value: Value) -> (r: Option<usize>)
        requires
            self.wf(),
        ensures
            r is Some <==> self.locate(value) is Some,
            r matches Some(location) ==> self.locate(value) == Some(location as int) && location
                < self.objects.len(),
    {
        let index = match value.heap_index() {
            Some(index) => index,
            None => {
                return None;
            },
        };
        if index >= self.slots.len() {
            return None;
        }
        let slot = &self.slots[index];
        if slot.generation != value.generation() {
            return None;
        }
        assert(self.slots[index as int].location matches Some(location) ==> location
            < self.objects.len());
        slot.location
    }

    /// The live object behind a value.
    pub fn try_get(&self, value: Value) -> (r: Option<&Object>)
        requires
            self.wf(),
        ensures
            r is Some <==> self@.live(value),
            r matches Some(object) ==> object@ == self@.objects[value] && object.wf(
                &self@.shapes,
            ),
    {
        match self.location(value) {
            Some(location) => {
                proof {
                    self.lemma_located(value);
                }
                Some(&self.objects[location].object)
            },
            None => None,
        }
    }

    /// The live object behind a value, or what is wrong with the value.
    pub fn get(&self, value: Value) -> (r: Result<&Object>)
        requires
            self.wf(),
        ensures
            match r {
                Ok(object) => self@.found(value) == Ok::<ObjectView, Fault>(object@) && object.wf(
                    &self@.shapes,
                ),
                Err(error) => self@.found(value) == Err::<ObjectView, Fault>(error@),
            },
    {
        match self.try_get(value) {
            Some(object) => Ok(object),
            None => Err(invalid(value)),
        }
    }

    /// Puts another object behind a live handle; returns the former one.
    pub fn exchange(&mut self, value: Value, object: Object) -> (r: Object)
        requires
            old(self).wf(),
            old(self)@.live(value),
            object.wf(&old(self)@.shapes),
        ensures
            final(self).wf(),
            final(self)@ == old(self)@.with(value, object@),
            r@ == old(self)@.objects[value],
            r.wf(&old(self)@.shapes),
            final(self).tally() == old(self).tally(),
    {
        let ghost before = *self;
        let location = self.location(value).unwrap();
        proof {
            self.lemma_located(value);
        }
        let mut held = object;
        core::mem::swap(&mut held, &mut self.objects[location].object);
        proof {
            before.lemma_exchanged(self, value, location as int);
        }
        held
    }

    /// The live object behind a value, to be changed in place. What it is
    /// changed to must be consistent again.
    pub fn get_mut(&mut self, value: Value) -> (r: Result<&mut Object>)
        requires
            old(self).wf(),
        ensures
            match r {
                Ok(object) => old(self)@.live(value) && object@ == old(self)@.objects[value]
                    && object.wf(&old(self)@.shapes) && (final(object).wf(&old(self)@.shapes)
                    ==> final(self).wf() && final(self)@ == old(self)@.with(value, final(object)@)),
                Err(error) => !old(self)@.live(value) && error@ == invalid_value(value)
                    && *final(self) == *old(self),
            },
            final(self).tally() == old(self).tally(),
    {
        let ghost before = *self;
        let location = match self.location(value) {
            Some(location) => location,
            None => {
                return Err(invalid(value));
            },
        };
        proof {
            self.lemma_located(value);
        }
        proof {
            assert forall|after: Heap|
                #![trigger after.wf()]
                #![trigger after.view()]
                before.replaced_by(&after, location as int) implies after.wf() && after@
                == before@.with(value, after.objects[location as int].object@) by {
                before.lemma_exchanged(&after, value, location as int);
            }
        }
        Ok(&mut self.objects[location].object)
    }

    /// Whether `after` differs in nothing but a consistent object at a place.
    spec fn replaced_by(&self, after: &Heap, location: int) -> bool {
        &&& after.slots == self.slots
        &&& after.free == self.free
        &&& after.remembered == self.remembered
        &&& after.shapes == self.shapes
        &&& after.next_type == self.next_type
        &&& after.counters == self.counters
        &&& after.pending_foreign == self.pending_foreign
        &&& after.bytes <= after.peak_bytes
        &&& after.objects@ == self.objects@.update(
            location,
            HeapObject {
                object: after.objects[location].object,
                slot: self.objects[location].slot,
                young: self.objects[location].young,
            },
        )
        &&& after.objects[location].object.wf(&self.shapes)
    }

    proof fn lemma_exchanged(&self, after: &Heap, value: Value, location: int)
        requires
            self.wf(),
            self.locate(value) == Some(location),
            0 <= location < self.objects.len(),
            self.replaced_by(after, location),
        ensures
            after.wf(),
            after@ == self@.with(value, after.objects[location].object@),
    {
        let object = after.objects[location].object;
        self.lemma_located(value);
        assert forall|i: int| 0 <= i < after.objects.len() implies (
        #[trigger] after.objects[i]).slot == self.objects[i].slot && after.objects[i].young
            == self.objects[i].young && (i != location ==> after.objects[i] == self.objects[i]) by {}
        assert forall|w: Value| #[trigger] after.locate(w) == self.locate(w) by {}
        assert forall|w: Value| self.locate(w) is Some && w != value implies self.locate(w)
            != Some(location) by {
            self.lemma_located(w);
            if self.locate(w) == Some(location) {
                heap_words_are_distinct(w, value);
            }
        }
        assert forall|w: Value| self.locate(w) is Some implies 0 <= self.locate(w).unwrap()
            < self.objects.len() by {
            self.lemma_located(w);
        }
        assert(after@.objects =~= self@.objects.insert(value, object@));
        assert(after@.order =~= self@.order);
        assert(after@.young =~= self@.young);
        assert(after@.remembered =~= self@.remembered);
        assert(after@.issued =~= self@.issued) by {
            assert forall|w: Value| after.passed(w) == self.passed(w) by {}
        }
    }

    /// Adds to the estimate of the bytes in use.
    pub(crate) fn grow(&mut self, bytes: usize)
        requires
            old(self).wf(),
        ensures
            final(self).wf(),
            final(self)@ == old(self)@,
            final(self).tally() == old(self).tally().grown(bytes as int),
    {
        let ghost before = *self;
        self.bytes = self.bytes.saturating_add(bytes);
        if self.bytes > self.peak_bytes {
            self.peak_bytes = self.bytes;
        }
        proof {
            before.lemma_same(self);
        }
    }

    /// Takes from the estimate of the bytes in use.
    pub(crate) fn shrink(&mut self, bytes: usize)
        requires
            old(self).wf(),
        ensures
            final(self).wf(),
            final(self)@ == old(self)@,
            final(self).tally() == old(self).tally().shrunk(bytes as int),
    {
        let ghost before = *self;
        self.bytes = self.bytes.saturating_sub(bytes);
        proof {
            before.lemma_same(self);
        }
    }

    proof fn lemma_same(&self, after: &Heap)
        requires
            self.wf(),
            after.objects == self.objects,
            after.slots == self.slots,
            after.free == self.free,
            after.remembered == self.remembered,
            after.shapes == self.shapes,
            after.next_type == self.next_type,
            after.counters == self.counters,
            after.pending_foreign == self.pending_foreign,
            after.bytes <= after.peak_bytes,
        ensures
            after.wf(),
            after@ == self@,
    {
        assert forall|w: Value| #[trigger] after.locate(w) == self.locate(w) by {}
        assert forall|w: Value| #[trigger] after.passed(w) == self.passed(w) by {}
        assert(after@.objects =~= self@.objects);
        assert(after@.order =~= self@.order);
        assert(after@.young =~= self@.young);
        assert(after@.remembered =~= self@.remembered);
        assert(after@.issued =~= self@.issued);
    }

    /// An estimate of what an object occupies.
    pub(crate) fn weight(&self, value: Value) -> (r: usize)
        requires
            self.wf(),
            self@.live(value),
        ensures
            self@.objects[value].weighs(r as int),
    {
        let location = self.location(value).unwrap();
        proof {
            self.lemma_located(value);
        }
        self.objects[location].object.estimated_bytes()
    }

    /// The estimate of the bytes in use.
    pub fn bytes(&self) -> (r: usize)
        requires
            self.wf(),
        ensures
            r <= self.greatest_bytes(),
            r == self.used_bytes(),
    {
        self.bytes
    }

    /// The greatest estimate so far.
    pub fn peak_bytes(&self) -> (r: usize)
        ensures
            r == self.greatest_bytes(),
    {
        self.peak_bytes
    }

    /// What [`Heap::bytes`] reports.
    pub closed spec fn used_bytes(&self) -> usize {
        self.bytes
    }

    /// What [`Heap::peak_bytes`] reports.
    pub closed spec fn greatest_bytes(&self) -> usize {
        self.peak_bytes
    }

    /// What [`Heap::bytes`] and [`Heap::peak_bytes`] report.
    pub open spec fn tally(&self) -> Tally {
        Tally { used: self.used_bytes(), greatest: self.greatest_bytes() }
    }

    pub fn counters(&self) -> (r: Counters)
        ensures
            r == self@.counters,
    {
        self.counters
    }

    pub(crate) fn set_counters(&mut self, counters: Counters)
        requires
            old(self).wf(),
        ensures
            final(self).wf(),
            final(self).tally() == old(self).tally(),
            final(self)@ == (HeapView { counters, ..old(self)@ }),
    {
        let ghost before = *self;
        self.counters = counters;
        proof {
            assert forall|w: Value| #[trigger] self.locate(w) == before.locate(w) by {}
            assert forall|w: Value| #[trigger] self.passed(w) == before.passed(w) by {}
            assert(self@.objects =~= before@.objects);
            assert(self@.order =~= before@.order);
            assert(self@.young =~= before@.young);
            assert(self@.remembered =~= before@.remembered);
            assert(self@.issued =~= before@.issued);
        }
    }

    /// Makes a young object of `object`.
    pub fn allocate(&mut self, object: Object) -> (r: Result<Value>)
        requires
            old(self).wf(),
            object.wf(&old(self)@.shapes),
        ensures
            final(self).wf(),
            match r {
                Ok(value) => old(self)@.room > 0 && old(self)@.fresh(value) && !old(self)@.live(
                    value,
                ) && final(self)@ == old(self)@.allocated(value, object@),
                Err(error) => old(self)@.room == 0 && error@ == no_memory() && final(self)@
                    == old(self)@,
            },
            old(self)@.sound() && all_known(old(self)@, object@.edges()) ==> final(self)@.sound(),
            match r {
                Ok(_) => old(self).tally().adds(final(self).tally(), object@),
                Err(_) => final(self).tally() == old(self).tally(),
            },
            counts_one(*old(self), *final(self)),
    {
        let ghost before = *self;
        proof {
            self.lemma_view();
        }
        let size = object.estimated_bytes();
        assert(object@.weighs(size as int));
        let slot: u32 = match self.free.pop() {
            Some(slot) => {
                assert(before.free[before.free.len() - 1] == slot);
                slot
            },
            None => {
                if self.slots.len() as u64 > u32::MAX as u64 {
                    return Err(Diagnostic::new("MemoryError", "heap handle capacity exhausted"));
                }
                let slot = self.slots.len() as u32;
                self.slots.push(Slot { generation: 1, location: None });
                slot
            },
        };
        let location = self.objects.len();
        self.slots[slot as usize].location = Some(location);
        self.objects.push(HeapObject { object, slot, young: true });
        self.bytes = self.bytes.saturating_add(size);
        if self.bytes > self.peak_bytes {
            self.peak_bytes = self.bytes;
        }
        self.counters.allocations = self.counters.allocations.saturating_add(1);
        let value = Value::heap(slot, self.slots[slot as usize].generation);
        proof {
            before.lemma_allocated(self, value, slot, object);
            if before@.sound() && all_known(before@, object@.edges()) {
                allocation_keeps_sound(before@, value, object@);
            }
        }
        Ok(value)
    }

    proof fn lemma_allocated(&self, after: &Heap, value: Value, slot: u32, object: Object)
        requires
            self.wf(),
            object.wf(&self.shapes),
            after.slots.len() <= 0x1_0000_0000,
            slot < after.slots.len(),
            self.slots.len() <= after.slots.len(),
            forall|s: int|
                0 <= s < self.slots.len() && s != slot ==> #[trigger] after.slots[s]
                    == self.slots[s],
            value == Value::handle(slot, after.slots[slot as int].generation),
            after.slots[slot as int].location == Some(self.objects.len() as usize),
            1 <= after.slots[slot as int].generation <= Value::MAX_GENERATION,
            self.objects.len() <= usize::MAX,
            after.objects@ == self.objects@.push(HeapObject { object, slot, young: true }),
            value.is_heap(),
            value.spec_index() == slot,
            value.spec_generation() == after.slots[slot as int].generation,
            (self.free.len() > 0 && self.free@.last() == slot && after.free@
                == self.free@.drop_last() && after.slots.len() == self.slots.len()
                && after.slots[slot as int].generation == self.slots[slot as int].generation) || (
            self.free.len() == 0 && after.free@ == self.free@ && slot == self.slots.len()
                && after.slots.len() == self.slots.len() + 1 && after.slots[slot as int].generation
                == 1),
            after.remembered == self.remembered,
            after.shapes == self.shapes,
            after.next_type == self.next_type,
            after.pending_foreign == self.pending_foreign,
            after.counters == (Counters {
                allocations: counted(self.counters.allocations),
                ..self.counters
            }),
            after.bytes <= after.peak_bytes,
        ensures
            after.wf(),
            self@.room > 0,
            self@.fresh(value),
            !self@.live(value),
            after@ == self@.allocated(value, object@),
    {
        if self.free.len() > 0 {
            assert(self.free[self.free.len() - 1] == slot);
            assert(self.slots[slot as int].location is None);
            assert(self.free@.contains(slot));
        }
        assert(self.locate(value) is None);
        assert(!self.passed(value));
        assert forall|i: int| 0 <= i < after.objects.len() implies (
        #[trigger] after.objects[i]).slot < after.slots.len()
            && after.slots[after.objects[i].slot as int].location == Some(i as usize)
            && after.objects[i].object.wf(&after.shapes) by {
            if i < self.objects.len() {
                assert(after.objects[i] == self.objects[i]);
                assert(self.slots[self.objects[i].slot as int].location == Some(i as usize));
                assert(self.objects[i].slot != slot);
            }
        }
        assert forall|s: int| 0 <= s < after.slots.len() implies 1 <= (
        #[trigger] after.slots[s]).generation <= Value::MAX_GENERATION && (
        after.slots[s].location matches Some(l) ==> l < after.objects.len()
            && after.objects[l as int].slot == s) by {
            if s != slot {
                assert(after.slots[s] == self.slots[s]);
                if let Some(l) = self.slots[s].location {
                    assert(after.objects[l as int] == self.objects[l as int]);
                }
            }
        }
        assert forall|i: int| 0 <= i < after.free.len() implies (#[trigger] after.free[i])
            < after.slots.len() && after.slots[after.free[i] as int].location is None by {
            assert(after.free[i] == self.free[i]);
            assert(self.free[i] != slot);
        }
        assert forall|s: u32| #[trigger] after.remembered@.contains(s) implies s
            < after.slots.len() && (after.slots[s as int].location matches Some(l)
            && !after.objects[l as int].young) by {
            assert(self.remembered@.contains(s));
            assert(s != slot);
            assert(after.slots[s as int] == self.slots[s as int]);
        }
        assert forall|w: Value| w != value implies #[trigger] after.locate(w) == self.locate(w) by {
            if w.is_heap() && w.spec_index() == slot && w.spec_generation()
                == value.spec_generation() {
                heap_words_are_distinct(w, value);
            }
            if w.is_heap() && 0 <= w.spec_index() < after.slots.len() && w.spec_index() != slot {
                assert(after.slots[w.spec_index()] == self.slots[w.spec_index()]);
            }
        }
        assert forall|w: Value| #[trigger] self.locate(w) is Some implies 0 <= self.locate(
            w,
        ).unwrap() < self.objects.len() by {
            self.lemma_located(w);
        }
        assert forall|w: Value| w != value implies #[trigger] after.passed(w) == self.passed(w) by {
            if w.is_heap() && w.spec_index() == slot && w.spec_generation()
                == value.spec_generation() {
                heap_words_are_distinct(w, value);
            }
            if w.is_heap() && w.spec_index() < after.slots.len() {
                let s = w.spec_index() as u32;
                if s != slot {
                    assert(after.slots[w.spec_index()] == self.slots[w.spec_index()]);
                    if self.free@.contains(s) {
                        let i = choose|i: int| 0 <= i < self.free.len() && self.free[i] == s;
                        assert(after.free[i] == s);
                    }
                    if after.free@.contains(s) {
                        let i = choose|i: int| 0 <= i < after.free.len() && after.free[i] == s;
                        assert(self.free[i] == s);
                    }
                }
            }
        }
        assert(after.passed(value)) by {
            if after.free@.contains(slot) {
                let i = choose|i: int| 0 <= i < after.free.len() && after.free[i] == slot;
                assert(self.free[i] == slot);
                assert(self.free[self.free.len() - 1] == slot);
            }
        }
        assert(after@.objects =~= self@.objects.insert(value, object@));
        assert(after@.order =~= self@.order.push(value)) by {
            assert forall|i: int| 0 <= i < self.objects.len() implies after.handle(i)
                == self.handle(i) by {
                assert(after.objects[i] == self.objects[i]);
                assert(self.slots[self.objects[i].slot as int].location == Some(i as usize));
                assert(self.objects[i].slot != slot);
            }
        }
        assert(after@.young =~= self@.young.insert(value));
        assert(after@.remembered =~= self@.remembered) by {
            assert(!self.remembered@.contains(slot));
        }
        assert(after@.issued =~= self@.issued.insert(value));
        if self.free.len() > 0 {
            assert(after@.free =~= self@.free.drop_last()) by {
                assert forall|i: int| 0 <= i < after.free.len() implies after@.free[i]
                    == self@.free[i] by {
                    assert(after.free[i] == self.free[i]);
                    assert(self.free[i] != slot);
                    assert(after.slots[self.free[i] as int] == self.slots[self.free[i] as int]);
                }
            }
        } else {
            assert(after@.free =~= self@.free);
        }
    }

    /// Remembers an old owner that comes to hold a young value.
    pub fn write_barrier(&mut self, owner: Value, value: Value)
        requires
            old(self).wf(),
        ensures
            final(self).wf(),
            final(self).tally() == old(self).tally(),
            final(self)@ == old(self)@.barrier(owner, value),
    {
        let ghost before = *self;
        let owner_location = match self.location(owner) {
            Some(location) => location,
            None => {
                return;
            },
        };
        let value_location = match self.location(value) {
            Some(location) => location,
            None => {
                return;
            },
        };
        proof {
            self.lemma_located(owner);
            self.lemma_located(value);
        }
        if !self.objects[owner_location].young && self.objects[value_location].young {
            let slot = self.objects[owner_location].slot;
            self.remembered.insert(slot);
            proof {
                before.lemma_remembered(self, owner, slot);
            }
        }
    }

    proof fn lemma_remembered(&self, after: &Heap, owner: Value, slot: u32)
        requires
            self.wf(),
            self.locate(owner) is Some,
            slot == owner.spec_index(),
            !self.objects[self.locate(owner).unwrap()].young,
            after.objects == self.objects,
            after.slots == self.slots,
            after.free == self.free,
            after.remembered@ == self.remembered@.insert(slot),
            after.shapes == self.shapes,
            after.next_type == self.next_type,
            after.counters == self.counters,
            after.pending_foreign == self.pending_foreign,
            after.bytes == self.bytes,
            after.peak_bytes == self.peak_bytes,
        ensures
            after.wf(),
            after@ == (HeapView { remembered: self@.remembered.insert(owner), ..self@ }),
    {
        self.lemma_located(owner);
        assert forall|w: Value| #[trigger] after.locate(w) == self.locate(w) by {}
        assert forall|w: Value| #[trigger] after.passed(w) == self.passed(w) by {}
        assert forall|w: Value| self.locate(w) is Some && w.spec_index() as u32 == slot implies w
            == owner by {
            self.lemma_located(w);
            heap_words_are_distinct(w, owner);
        }
        assert(after@.objects =~= self@.objects);
        assert(after@.order =~= self@.order);
        assert(after@.young =~= self@.young);
        assert(after@.remembered =~= self@.remembered.insert(owner));
        assert(after@.issued =~= self@.issued);
    }

    pub fn write_barrier_pair(&mut self, owner: Value, first: Value, second: Value)
        requires
            old(self).wf(),
        ensures
            final(self).wf(),
            final(self)@ == old(self)@.barrier(owner, first).barrier(owner, second),
            final(self).tally() == old(self).tally(),
    {
        self.write_barrier(owner, first);
        self.write_barrier(owner, second);
    }

    /// The layouts of instance attributes.
    pub fn shapes(&self) -> (r: &Shapes)
        ensures
            *r == self@.shapes,
    {
        &self.shapes
    }
}

impl HeapView {
    /// The attribute an instance or exception itself holds under `name`.
    pub open spec fn attribute(self, owner: Value, name: Seq<char>) -> Option<Value> {
        match self.objects[owner].attributes_of() {
            Some(attributes) => attributes.value_of(&self.shapes, name),
            None => None,
        }
    }

    /// The heap with other attributes of an owner, and with the layouts they
    /// use.
    pub open spec fn with_attributes(
        self,
        owner: Value,
        attributes: AttributesView,
        shapes: Shapes,
    ) -> HeapView {
        HeapView {
            objects: self.objects.insert(owner, self.objects[owner].with_attributes(attributes)),
            shapes,
            ..self
        }
    }
}

impl Heap {
    /// Sets an attribute of an instance or exception.
    pub(crate) fn store_attribute(&mut self, owner: Value, name: &str, value: Value)
        requires
            old(self).wf(),
            old(self)@.live(owner),
            old(self)@.objects[owner].attributes_of() is Some,
        ensures
            final(self).wf(),
            final(self)@.objects[owner].attributes_of() is Some,
            final(self)@ == old(self)@.with_attributes(
                owner,
                final(self)@.objects[owner].attributes_of().unwrap(),
                final(self)@.shapes,
            ),
            old(self)@.shapes.kept_in(&final(self)@.shapes),
            old(self).tally().gains(
                final(self).tally(),
                old(self)@.objects[owner],
                final(self)@.objects[owner],
            ),
            written(
                old(self)@.objects[owner].attributes_of().unwrap(),
                &old(self)@.shapes,
                final(self)@.objects[owner].attributes_of().unwrap(),
                &final(self)@.shapes,
                name@,
                value,
            ),
            forall|other: Seq<char>| #[trigger]
                final(self)@.attribute(owner, other) == if other == name@ {
                    Some(value)
                } else {
                    old(self)@.attribute(owner, other)
                },
            forall|o: Value, other: Seq<char>|
                o != owner && old(self)@.live(o) ==> #[trigger] final(self)@.attribute(o, other)
                    == old(self)@.attribute(o, other),
            forall|e: Value|
                final(self)@.objects[owner].attributes_of().unwrap().edges().contains(e) ==> e
                    == value || old(self)@.objects[owner].attributes_of().unwrap().edges().contains(
                    e,
                ),
    {
        let ghost before = *self;
        let location = self.location(owner).unwrap();
        proof {
            self.lemma_located(owner);
            self.lemma_view();
        }
        let size = self.weight(owner);
        let mut attributes = Attributes::new();
        match &mut self.objects[location].object {
            Object::Instance { attributes: held, .. } => {
                core::mem::swap(held, &mut attributes);
            },
            Object::Exception { attributes: held, .. } => {
                core::mem::swap(held, &mut attributes);
            },
            _ => {},
        }
        let ghost held_before = attributes@;
        attributes.set(&mut self.shapes, name, value);
        let ghost stored = attributes@;
        match &mut self.objects[location].object {
            Object::Instance { attributes: held, .. } => {
                *held = attributes;
            },
            Object::Exception { attributes: held, .. } => {
                *held = attributes;
            },
            _ => {},
        }
        proof {
            assert(self.objects@ =~= before.objects@.update(
                location as int,
                HeapObject {
                    object: self.objects[location as int].object,
                    slot: before.objects[location as int].slot,
                    young: before.objects[location as int].young,
                },
            ));
            before.lemma_attributes_stored(self, owner, location as int, stored);
            assert(before.objects[location as int].object@.attributes_of() == Some(held_before));
            assert forall|o: Value, other: Seq<char>|
                o != owner && before@.live(o) implies #[trigger] self@.attribute(o, other)
                == before@.attribute(o, other) by {
                assert(before@.objects[o].wf(&before@.shapes));
                if let Some(a) = before@.objects[o].attributes_of() {
                    lemma_attributes_kept(a, &before@.shapes, &self@.shapes);
                    assert(a.value_of(&self@.shapes, other) == a.value_of(&before@.shapes, other));
                }
            }
        }
        let weight = self.weight(owner);
        self.grow(weight.saturating_sub(size));
    }

    proof fn lemma_attributes_stored(
        &self,
        after: &Heap,
        owner: Value,
        location: int,
        attributes: AttributesView,
    )
        requires
            self.wf(),
            self.locate(owner) == Some(location),
            0 <= location < self.objects.len(),
            self.shapes.kept_in(&after.shapes),
            after.shapes.wf(),
            self.objects[location].object@.attributes_of() is Some,
            attributes.wf(&after.shapes),
            after.objects@ == self.objects@.update(
                location,
                HeapObject {
                    object: after.objects[location].object,
                    slot: self.objects[location].slot,
                    young: self.objects[location].young,
                },
            ),
            after.objects[location].object@ == self.objects[location].object@.with_attributes(
                attributes,
            ),
            after.slots == self.slots,
            after.free == self.free,
            after.remembered == self.remembered,
            after.next_type == self.next_type,
            after.counters == self.counters,
            after.pending_foreign == self.pending_foreign,
            after.bytes <= after.peak_bytes,
        ensures
            after.wf(),
            after@ == self@.with_attributes(owner, attributes, after.shapes),
    {
        self.lemma_located(owner);
        assert forall|i: int| 0 <= i < after.objects.len() implies (
        #[trigger] after.objects[i]).slot == self.objects[i].slot && after.objects[i].young
            == self.objects[i].young && (i != location ==> after.objects[i] == self.objects[i])
            && after.objects[i].object.wf(&after.shapes) by {
            assert(self.objects[i].object.wf(&self.shapes));
            if i != location {
                if let Some(a) = self.objects[i].object@.attributes_of() {
                    lemma_attributes_kept(a, &self.shapes, &after.shapes);
                }
            }
        }
        assert forall|w: Value| #[trigger] after.locate(w) == self.locate(w) by {}
        assert forall|w: Value| self.locate(w) is Some && w != owner implies self.locate(w)
            != Some(location) by {
            self.lemma_located(w);
            if self.locate(w) == Some(location) {
                heap_words_are_distinct(w, owner);
            }
        }
        assert forall|w: Value| self.locate(w) is Some implies 0 <= self.locate(w).unwrap()
            < self.objects.len() by {
            self.lemma_located(w);
        }
        assert(after@.objects =~= self@.with_attributes(owner, attributes, after.shapes).objects);
        assert(after@.order =~= self@.order);
        assert(after@.young =~= self@.young);
        assert(after@.remembered =~= self@.remembered);
        assert(after@.issued =~= self@.issued) by {
            assert forall|w: Value| after.passed(w) == self.passed(w) by {}
        }
    }

    /// Takes an attribute from an instance or exception, if it has it.
    pub(crate) fn remove_attribute(&mut self, owner: Value, name: &str) -> (r: Option<Value>)
        requires
            old(self).wf(),
            old(self)@.live(owner),
            old(self)@.objects[owner].attributes_of() is Some,
        ensures
            final(self).wf(),
            r == old(self)@.attribute(owner, name@),
            r is None ==> final(self)@ == old(self)@,
            final(self)@.objects[owner].attributes_of() is Some,
            r is Some ==> final(self)@.objects[owner].attributes_of().unwrap() is Dictionary,
            match r {
                Some(_) => old(self).tally().loses(
                    final(self).tally(),
                    old(self)@.objects[owner],
                    final(self)@.objects[owner],
                ),
                None => final(self).tally() == old(self).tally(),
            },
            final(self)@ == old(self)@.with_attributes(
                owner,
                final(self)@.objects[owner].attributes_of().unwrap(),
                old(self)@.shapes,
            ),
            forall|other: Seq<char>| #[trigger]
                final(self)@.attribute(owner, other) == if other == name@ {
                    None
                } else {
                    old(self)@.attribute(owner, other)
                },
            forall|e: Value|
                final(self)@.objects[owner].attributes_of().unwrap().edges().contains(e)
                    ==> old(self)@.objects[owner].attributes_of().unwrap().edges().contains(e),
    {
        let ghost before = *self;
        let location = self.location(owner).unwrap();
        proof {
            self.lemma_located(owner);
            self.lemma_view();
        }
        let size = self.weight(owner);
        let mut attributes = Attributes::new();
        match &mut self.objects[location].object {
            Object::Instance { attributes: held, .. } => {
                core::mem::swap(held, &mut attributes);
            },
            Object::Exception { attributes: held, .. } => {
                core::mem::swap(held, &mut attributes);
            },
            _ => {},
        }
        let ghost held_before = attributes@;
        let removed = attributes.delete(&self.shapes, name);
        let ghost stored = attributes@;
        match &mut self.objects[location].object {
            Object::Instance { attributes: held, .. } => {
                *held = attributes;
            },
            Object::Exception { attributes: held, .. } => {
                *held = attributes;
            },
            _ => {},
        }
        proof {
            assert(self.shapes.kept_in(&self.shapes));
            assert(self.objects@ =~= before.objects@.update(
                location as int,
                HeapObject {
                    object: self.objects[location as int].object,
                    slot: before.objects[location as int].slot,
                    young: before.objects[location as int].young,
                },
            ));
            before.lemma_attributes_stored(self, owner, location as int, stored);
            assert(before.objects[location as int].object@.attributes_of() == Some(held_before));
            if removed is None {
                assert(stored == held_before);
                assert(before@.objects[owner].with_attributes(held_before)
                    == before@.objects[owner]);
                assert(self@.objects =~= before@.objects);
            }
        }
        if removed.is_some() {
            let weight = self.weight(owner);
            self.shrink(size.saturating_sub(weight));
        }
        removed
    }

    /// The next type identity, unless they are exhausted.
    pub(crate) fn take_type_id(&mut self) -> (r: Option<u32>)
        requires
            old(self).wf(),
        ensures
            final(self).wf(),
            old(self)@.next_type == u32::MAX ==> r is None && final(self)@ == old(self)@,
            old(self)@.next_type < u32::MAX ==> r == Some((old(self)@.next_type + 1) as u32)
                && final(self)@ == (HeapView {
                next_type: (old(self)@.next_type + 1) as u32,
                ..old(self)@
            }),
            final(self).tally() == old(self).tally(),
    {
        let ghost before = *self;
        if self.next_type == u32::MAX {
            return None;
        }
        self.next_type = self.next_type + 1;
        proof {
            assert forall|w: Value| #[trigger] self.locate(w) == before.locate(w) by {}
            assert forall|w: Value| #[trigger] self.passed(w) == before.passed(w) by {}
            assert(self@.objects =~= before@.objects);
            assert(self@.order =~= before@.order);
            assert(self@.young =~= before@.young);
            assert(self@.remembered =~= before@.remembered);
            assert(self@.issued =~= before@.issued);
        }
        Some(self.next_type)
    }

    /// Leaves no type identity: for exercising a heap whose type identities
    /// are exhausted.
    pub fn exhaust_types(&mut self)
        requires
            old(self).wf(),
        ensures
            final(self).wf(),
            final(self).tally() == old(self).tally(),
            final(self)@ == (HeapView { next_type: u32::MAX, ..old(self)@ }),
    {
        let ghost before = *self;
        self.next_type = u32::MAX;
        proof {
            assert forall|w: Value| #[trigger] self.locate(w) == before.locate(w) by {}
            assert forall|w: Value| #[trigger] self.passed(w) == before.passed(w) by {}
            assert(self@.objects =~= before@.objects);
            assert(self@.order =~= before@.order);
            assert(self@.young =~= before@.young);
            assert(self@.remembered =~= before@.remembered);
            assert(self@.issued =~= before@.issued);
        }
    }

    /// The handles of the live objects, in the order of storage.
    pub fn handles(&self) -> (r: Vec<Value>)
        requires
            self.wf(),
        ensures
            r@ == self@.order,
    {
        let mut handles: Vec<Value> = Vec::new();
        let mut i: usize = 0;
        while i < self.objects.len()
            invariant
                self.wf(),
                i <= self.objects.len(),
                handles@ == self@.order.take(i as int),
            decreases self.objects.len() - i,
        {
            let slot = self.objects[i].slot;
            assert(self.slots[slot as int].location == Some(i));
            handles.push(Value::heap(slot, self.slots[slot as usize].generation));
            i += 1;
            assert(handles@ =~= self@.order.take(i as int));
        }
        assert(handles@ =~= self@.order);
        handles
    }

    /// Whether a value is a live object that no collection has seen.
    pub fn is_young(&self, value: Value) -> (r: bool)
        requires
            self.wf(),
        ensures
            r == self@.young.contains(value),
    {
        match self.location(value) {
            Some(location) => self.objects[location].young,
            None => false,
        }
    }

    /// Whether a minor collection traces this owner.
    pub fn is_remembered(&self, value: Value) -> (r: bool)
        requires
            self.wf(),
        ensures
            r == self@.remembered.contains(value),
    {
        match self.location(value) {
            Some(location) => {
                proof {
                    self.lemma_located(value);
                }
                self.remembered.contains(&self.objects[location].slot)
            },
            None => false,
        }
    }

    /// Hands out the payloads whose wrappers are gone.
    pub fn take_pending(&mut self) -> (r: Vec<PendingForeign>)
        requires
            old(self).wf(),
        ensures
            final(self).wf(),
            final(self).tally() == old(self).tally(),
            pending_views(r@) == old(self)@.pending,
            final(self)@ == (HeapView { pending: Seq::empty(), ..old(self)@ }),
    {
        let ghost before = *self;
        let mut pending: Vec<PendingForeign> = Vec::new();
        core::mem::swap(&mut pending, &mut self.pending_foreign);
        proof {
            assert forall|w: Value| #[trigger] self.locate(w) == before.locate(w) by {}
            assert forall|w: Value| #[trigger] self.passed(w) == before.passed(w) by {}
            assert(self@.objects =~= before@.objects);
            assert(self@.order =~= before@.order);
            assert(self@.young =~= before@.young);
            assert(self@.remembered =~= before@.remembered);
            assert(self@.issued =~= before@.issued);
            assert(self@.pending =~= Seq::empty());
        }
        pending
    }

    proof fn lemma_exhausted(&self, after: &Heap, value: Value, last: Value)
        requires
            self.wf(),
            after.wf(),
            self.locate(value) is Some,
            last.is_heap(),
            last.spec_index() == value.spec_index(),
            last.spec_generation() == Value::MAX_GENERATION,
            last == Value::handle(value.spec_index() as u32, Value::MAX_GENERATION),
            after.slots@ == self.slots@.update(
                value.spec_index(),
                Slot {
                    generation: Value::MAX_GENERATION,
                    location: self.slots[value.spec_index()].location,
                },
            ),
            after.objects == self.objects,
            after.free == self.free,
            after.remembered == self.remembered,
            after.shapes == self.shapes,
            after.next_type == self.next_type,
            after.counters == self.counters,
            after.pending_foreign == self.pending_foreign,
        ensures
            after@.objects == self@.objects.remove(value).insert(last, self@.objects[value]),
            after@ == (HeapView {
                objects: after@.objects,
                order: self@.order.update(self@.order.index_of(value), last),
                young: after@.young,
                remembered: after@.remembered,
                issued: after@.issued,
                ..self@
            }),
            forall|v: Value|
                v != value && v != last ==> #[trigger] after@.young.contains(v)
                    == self@.young.contains(v) && after@.remembered.contains(v)
                    == self@.remembered.contains(v),
            after@.young.contains(last) == self@.young.contains(value),
            after@.remembered.contains(last) == self@.remembered.contains(value),
            forall|v: Value|
                v.spec_index() != value.spec_index() ==> #[trigger] after@.issued.contains(v)
                    == self@.issued.contains(v),
    {
        let s = value.spec_index();
        let at = self.locate(value).unwrap();
        self.lemma_located(value);
        self.lemma_view();
        assert forall|w: Value| w != last implies #[trigger] after.locate(w) == if w == value {
            None
        } else {
            self.locate(w)
        } by {
            if w.is_heap() && w.spec_index() == s {
                if w.spec_generation() == Value::MAX_GENERATION {
                    heap_words_are_distinct(w, last);
                }
                if w.spec_generation() == value.spec_generation() {
                    heap_words_are_distinct(w, value);
                }
            }
        }
        assert(after.locate(last) == Some(at));
        assert(value != last ==> self.locate(last) is None) by {
            if value != last && value.spec_generation() == last.spec_generation() {
                heap_words_are_distinct(value, last);
            }
        }
        assert(after@.objects =~= self@.objects.remove(value).insert(last, self@.objects[value]));
        self.lemma_handle(at);
        assert(self.handle(at) == value) by {
            heap_words_are_distinct(self.handle(at), value);
        }
        assert(self@.order[at] == value);
        assert(self@.order.index_of(value) == at);
        assert(after@.order =~= self@.order.update(at, last)) by {
            assert forall|i: int| 0 <= i < self.objects.len() && i != at implies after.handle(i)
                == self.handle(i) by {
                assert(self.slots[self.objects[i].slot as int].location == Some(i as usize));
                assert(self.slots[self.objects[at].slot as int].location == Some(at as usize));
            }
        }
        assert(after@.free =~= self@.free) by {
            assert forall|i: int| 0 <= i < self.free.len() implies self.free[i] != s by {
                assert(self.slots[self.free[i] as int].location is None);
            }
        }
        assert forall|v: Value| v.spec_index() != s implies #[trigger] after@.issued.contains(v)
            == self@.issued.contains(v) by {
            assert(after.passed(v) == self.passed(v));
        }
    }

    /// Makes the next allocation of a slot its last: for exercising slots
    /// whose generations are exhausted.
    #[verifier::spinoff_prover]
    pub fn exhaust_generation(&mut self, value: Value) -> (r: Option<Value>)
        requires
            old(self).wf(),
        ensures
            final(self).wf(),
            final(self).tally() == old(self).tally(),
            r is Some <==> old(self)@.live(value),
            r matches Some(last) ==> last == Value::handle(
                value.spec_index() as u32,
                Value::MAX_GENERATION,
            ) && final(self)@.live(last) && final(self)@.objects == old(self)@.objects.remove(
                value,
            ).insert(last, old(self)@.objects[value]) && final(self)@ == (HeapView {
                objects: final(self)@.objects,
                order: old(self)@.order.update(old(self)@.order.index_of(value), last),
                young: final(self)@.young,
                remembered: final(self)@.remembered,
                issued: final(self)@.issued,
                ..old(self)@
            }),
            r matches Some(last) ==> forall|v: Value|
                v != value && v != last ==> #[trigger] final(self)@.young.contains(v) == old(
                    self,
                )@.young.contains(v) && final(self)@.remembered.contains(v) == old(
                    self,
                )@.remembered.contains(v),
            r matches Some(last) ==> final(self)@.young.contains(last) == old(
                self,
            )@.young.contains(value) && final(self)@.remembered.contains(last) == old(
                self,
            )@.remembered.contains(value),
            r matches Some(last) ==> forall|v: Value|
                v.spec_index() != value.spec_index() ==> #[trigger] final(self)@.issued.contains(v)
                    == old(self)@.issued.contains(v),
            r is None ==> final(self)@ == old(self)@,
    {
        let ghost before = *self;
        let location = match self.location(value) {
            Some(location) => location,
            None => {
                return None;
            },
        };
        proof {
            self.lemma_located(value);
        }
        let slot = self.objects[location].slot;
        self.slots[slot as usize].generation = Value::MAX_GENERATION;
        let last = Value::heap(slot, Value::MAX_GENERATION);
        proof {
            assert forall|i: int| 0 <= i < self.objects.len() implies (
            #[trigger] self.objects[i]).slot < self.slots.len()
                && self.slots[self.objects[i].slot as int].location == Some(i as usize) by {
                assert(before.slots[before.objects[i].slot as int].location == Some(i as usize));
            }
            assert forall|s: int| 0 <= s < self.slots.len() implies 1 <= (
            #[trigger] self.slots[s]).generation <= Value::MAX_GENERATION && (
            self.slots[s].location matches Some(l) ==> l < self.objects.len()
                && self.objects[l as int].slot == s) by {
                assert(1 <= before.slots[s].generation <= Value::MAX_GENERATION);
                if let Some(l) = before.slots[s].location {
                    assert(before.objects[l as int].slot == s);
                }
            }
            assert forall|i: int| 0 <= i < self.free.len() implies (#[trigger] self.free[i])
                < self.slots.len() && self.slots[self.free[i] as int].location is None by {
                assert(before.slots[before.free[i] as int].location is None);
            }
            assert forall|s: u32| #[trigger] self.remembered@.contains(s) implies s
                < self.slots.len() && (self.slots[s as int].location matches Some(l)
                && !self.objects[l as int].young) by {
                assert(before.remembered@.contains(s));
            }
            assert(self.locate(last) is Some);
            lemma_handle(slot, Value::MAX_GENERATION);
            before.lemma_exhausted(self, value, last);
        }
        Some(last)
    }
}

} // verus!
