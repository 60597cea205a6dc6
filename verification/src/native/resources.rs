//! Buffers, foreign wrappers and the end of a native call.
use vstd::prelude::*;
use crate::buffer::{laid_in_rows, BufferView, ExportParts, F64BufferView};
use crate::calls::refuses;
use crate::diagnostic::{fault, Diagnostic, Result};
use crate::edges::copy_values;
use crate::finalization::{release_references, without_references};
use crate::foreign::{
    resolve_traced, resolved_all, ForeignObject, ForeignSpec, ForeignView, TracedHandles,
};
use crate::handles::{
    held, inserted, resolved_as, vacated, Entry, Handle, HandleKind, HandleTable, TokenSource,
};
use crate::heap::{counted, Counters, Heap, HeapView};
use crate::lookup::Outcome;
use crate::namespaces::{all_known, allocates};
use crate::native::{buffer_handed, denied, handles_known, localized, same_handles, Context};
use crate::object::{Object, ObjectView};
use crate::soundness::lemma_pushed;
use crate::value::Value;

verus! {

impl HeapView {
    /// Whether a value is a number that binary64 can hold.
    pub open spec fn floats(self, value: Value) -> bool {
        exists|bits: u64| #[trigger] self.is_float_of(value, Ok(bits))
    }

    /// Whether bit patterns are those of values, or the failure that of the
    /// first value without one.
    pub open spec fn are_floats(self, values: Seq<Value>, result: Outcome<Seq<u64>>) -> bool {
        match result {
            Ok(bits) => bits.len() == values.len() && forall|i: int|
                0 <= i < values.len() ==> self.is_float_of(#[trigger] values[i], Ok(bits[i])),
            Err(error) => exists|i: int|
                0 <= i < values.len() && self.is_float_of(#[trigger] values[i], Err(error))
                    && forall|j: int| 0 <= j < i ==> self.floats(#[trigger] values[j]),
        }
    }

    /// With a new wrapper counted.
    pub open spec fn wrapped(self) -> HeapView {
        HeapView {
            counters: Counters {
                foreign_wrapper_creations: counted(self.counters.foreign_wrapper_creations),
                ..self.counters
            },
            ..self
        }
    }
}

/// Bit patterns as they are spoken of.
pub open spec fn patterns_of(result: core::result::Result<Vec<u64>, Diagnostic>) -> Outcome<
    Seq<u64>,
> {
    match result {
        Ok(bits) => Ok(bits@),
        Err(error) => Err(error@),
    }
}

/// Whether a kind of handle ends with the call that it was given to.
pub open spec fn ends(kind: HandleKind) -> bool {
    kind == HandleKind::Local || kind == HandleKind::BufferOwner
}

/// Whether a table is another without the handles that end with a call.
pub open spec fn ended(before: Seq<Entry>, after: Seq<Entry>, locals: Seq<Handle>) -> bool {
    forall|handle: Handle| #[trigger]
        held(after, handle) == match held(before, handle) {
            Some((value, kind)) => if locals.contains(handle) && ends(kind) {
                None
            } else {
                Some((value, kind))
            },
            None => None,
        }
}

proof fn lemma_ended(
    before: Seq<Entry>,
    between: Seq<Entry>,
    after: Seq<Entry>,
    locals: Seq<Handle>,
    i: int,
)
    requires
        0 <= i < locals.len(),
        ended(before, between, locals.take(i)),
        forall|other: Handle|
            other != locals[i] ==> #[trigger] held(after, other) == held(between, other),
        held(after, locals[i]) == match held(between, locals[i]) {
            Some((value, kind)) => if ends(kind) {
                None
            } else {
                Some((value, kind))
            },
            None => None,
        },
    ensures
        ended(before, after, locals.take(i + 1)),
{
    let taken = locals.take(i);
    let more = locals.take(i + 1);
    let handle = locals[i];
    assert(more =~= taken.push(handle));
    assert forall|other: Handle| #[trigger] held(after, other) == match held(before, other) {
        Some((value, kind)) => if more.contains(other) && ends(kind) {
            None
        } else {
            Some((value, kind))
        },
        None => None,
    } by {
        assert(held(between, other) == match held(before, other) {
            Some((value, kind)) => if taken.contains(other) && ends(kind) {
                None
            } else {
                Some((value, kind))
            },
            None => None,
        });
        assert(more[more.len() - 1] == handle);
        if taken.contains(other) {
            let k = choose|k: int| 0 <= k < taken.len() && taken[k] == other;
            assert(more[k] == other);
        }
        if more.contains(other) {
            let k = choose|k: int| 0 <= k < more.len() && more[k] == other;
            if k < taken.len() {
                assert(taken[k] == other);
            }
        }
    }
}

/// Whether a buffer was made of the items of a sequence and got a local
/// handle.
pub open spec fn sequence_handed(
    before: Context,
    after: Context,
    result: core::result::Result<Handle, Diagnostic>,
    items: Seq<Value>,
) -> bool {
    exists|bits: Outcome<Seq<u64>>|
        #![trigger before.heap@.are_floats(items, bits)]
        before.heap@.are_floats(items, bits) && match bits {
            Err(error) => denied(before, after, result, error),
            Ok(bits) => buffer_handed(
                before,
                after,
                result,
                laid_in_rows(bits, seq![items.len() as usize], false),
            ),
        }
}

/// Whether the buffer behind a value can be exported so.
pub open spec fn exportable(heap: HeapView, value: Value, writable: bool) -> Outcome<BufferView> {
    match heap.buffer(value) {
        Err(error) => Err(error),
        Ok(buffer) => if writable && !buffer.writable {
            Err(fault("BufferError", "buffer is read-only"))
        } else {
            Ok(buffer)
        },
    }
}

/// What giving out the owner of an exported buffer does.
pub open spec fn owner_handed(
    before: Context,
    after: Context,
    result: core::result::Result<(Handle, ExportParts), Diagnostic>,
    value: Value,
    buffer: BufferView,
) -> bool {
    exists|owner: core::result::Result<Handle, Diagnostic>|
        #![trigger inserted(
            before.handles,
            before.tokens,
            after.handles,
            after.tokens,
            owner,
            value,
            HandleKind::BufferOwner,
        )]
        inserted(
            before.handles,
            before.tokens,
            after.handles,
            after.tokens,
            owner,
            value,
            HandleKind::BufferOwner,
        ) && after.active == before.active && match owner {
            Err(error) => after.heap@ == before.heap@ && after.locals == before.locals && refuses(
                result,
                error@,
            ),
            Ok(owner) => after.heap@ == before.heap@.exported() && after.locals@
                == before.locals@.push(owner) && (result matches Ok((handle, parts)) && handle
                == owner && parts.byte_len == crate::buffer::ELEMENT_BYTES * buffer.data.len()
                && parts.ndim == buffer.shape.len() && parts.writable == buffer.writable),
        }
}

/// What making a wrapper does once its references are known.
pub open spec fn wrapper_made(
    before: Context,
    after: Context,
    result: core::result::Result<Handle, Diagnostic>,
    foreign: ForeignView,
) -> bool {
    exists|between: HeapView, made: core::result::Result<Value, Diagnostic>|
        #![trigger allocates(before.heap@, between, made, ObjectView::Foreign(foreign))]
        allocates(before.heap@, between, made, ObjectView::Foreign(foreign)) && match made {
            Err(error) => refuses(result, error@) && after.heap@ == between && after.tokens
                == before.tokens && after.locals == before.locals && after.active == before.active
                && without_references(
                before.handles@,
                after.handles@,
                foreign.reference_handles,
            ),
            Ok(value) => after.heap@ == between.wrapped() && localized(
                before,
                after,
                result,
                value,
            ),
        }
}

impl Context {
    fn float_bits(&self, values: &Vec<Value>) -> (r: Result<Vec<u64>>)
        requires
            self.wf(),
        ensures
            self.heap@.are_floats(values@, patterns_of(r)),
    {
        let mut bits: Vec<u64> = Vec::new();
        let mut i: usize = 0;
        while i < values.len()
            invariant
                self.wf(),
                i <= values.len(),
                bits@.len() == i,
                forall|k: int|
                    0 <= k < i ==> self.heap@.is_float_of(#[trigger] values@[k], Ok(bits@[k])),
            decreases values.len() - i,
        {
            match self.heap.float(values[i]) {
                Ok(pattern) => {
                    bits.push(pattern);
                    assert(self.heap@.is_float_of(values@[i as int], Ok(pattern)));
                },
                Err(error) => {
                    assert(self.heap@.is_float_of(values@[i as int], Err(error@)));
                    assert forall|j: int| 0 <= j < i implies self.heap@.floats(
                        #[trigger] values@[j],
                    ) by {
                        assert(self.heap@.is_float_of(values@[j], Ok(bits@[j])));
                    }
                    return Err(error);
                },
            }
            i += 1;
        }
        Ok(bits)
    }

    /// A buffer of the numbers in a list or tuple.
    pub fn f64_buffer_from_sequence(&mut self, handle: Handle) -> (r: Result<Handle>)
        requires
            old(self).wf(),
        ensures
            final(self).wf(),
            match old(self).value_of(handle) {
                Err(error) => denied(*old(self), *final(self), r, error),
                Ok(value) => match old(self).heap@.items(value) {
                    Err(error) => denied(*old(self), *final(self), r, error),
                    Ok(items) => sequence_handed(*old(self), *final(self), r, items),
                },
            },
            old(self).sound() ==> final(self).sound(),
    {
        let items = copy_values(self.items(handle)?);
        let bits = self.float_bits(&items);
        assert(self.heap@.are_floats(items@, patterns_of(bits)));
        let bits = match bits {
            Ok(bits) => bits,
            Err(error) => {
                return Err(error);
            },
        };
        let mut shape: Vec<usize> = Vec::new();
        shape.push(bits.len());
        assert(shape@ =~= seq![items@.len() as usize]);
        self.from_f64_buffer(&bits, &shape, false)
    }

    /// The bit patterns that a sum of a buffer, list or tuple adds up.
    pub fn sum_f64_values(&mut self, handle: Handle) -> (r: Result<Vec<u64>>)
        requires
            old(self).wf(),
        ensures
            final(self).wf(),
            same_handles(*old(self), *final(self)),
            match old(self).value_of(handle) {
                Err(error) => denied(*old(self), *final(self), r, error),
                Ok(value) => match old(self).heap@.found(value) {
                    Err(error) => denied(*old(self), *final(self), r, error),
                    Ok(ObjectView::Buffer(buffer)) => (r matches Ok(bits) && bits@ == buffer.data)
                        && final(self).heap@ == old(self).heap@.exported(),
                    Ok(ObjectView::List(items)) => final(self).heap@ == old(self).heap@ && old(
                        self,
                    ).heap@.are_floats(items, patterns_of(r)),
                    Ok(ObjectView::Tuple(items)) => final(self).heap@ == old(self).heap@ && old(
                        self,
                    ).heap@.are_floats(items, patterns_of(r)),
                    Ok(_) => denied(
                        *old(self),
                        *final(self),
                        r,
                        fault("TypeError", "fastmath.sum expects an f64 buffer, list, or tuple"),
                    ),
                },
            },
            old(self).sound() ==> final(self).sound(),
    {
        let value = self.resolve(handle)?;
        match self.heap.get(value)? {
            Object::Buffer(buffer) => {
                let bits = copy_words(buffer.as_slice());
                self.count_export();
                Ok(bits)
            },
            Object::List(items) => self.float_bits(items),
            Object::Tuple(items) => self.float_bits(items),
            _ => Err(
                Diagnostic::new("TypeError", "fastmath.sum expects an f64 buffer, list, or tuple"),
            ),
        }
    }

    fn count_export(&mut self)
        requires
            old(self).wf(),
        ensures
            final(self).wf(),
            same_handles(*old(self), *final(self)),
            final(self).heap@ == old(self).heap@.exported(),
            old(self).sound() ==> final(self).sound(),
    {
        let mut counters = self.heap.counters();
        counters.buffer_exports = counters.buffer_exports.saturating_add(1);
        self.heap.set_counters(counters);
    }

    /// A reader of a buffer.
    pub fn f64_buffer(&mut self, handle: Handle) -> (r: Result<F64BufferView<'_>>)
        requires
            old(self).wf(),
        ensures
            final(self).wf(),
            same_handles(*old(self), *final(self)),
            match old(self).value_of(handle) {
                Err(error) => refuses(r, error) && final(self).heap@ == old(self).heap@,
                Ok(value) => match old(self).heap@.buffer(value) {
                    Err(error) => refuses(r, error) && final(self).heap@ == old(self).heap@,
                    Ok(buffer) => (r matches Ok(reader) && reader.behind() == buffer) && final(
                        self).heap@ == old(self).heap@.exported(),
                },
            },
            old(self).sound() ==> final(self).sound(),
    {
        let value = self.resolve(handle)?;
        proof {
            self.heap.lemma_view();
        }
        match self.heap.get(value)? {
            Object::Buffer(_) => {},
            _ => {
                return Err(Diagnostic::new("TypeError", "expected f64 buffer"));
            },
        }
        self.count_export();
        proof {
            self.heap.lemma_view();
        }
        match self.heap.get(value)? {
            Object::Buffer(buffer) => Ok(buffer.reader()),
            _ => Err(Diagnostic::new("TypeError", "expected f64 buffer")),
        }
    }

    /// Exports a buffer, with a handle that keeps it alive.
    pub fn export_f64_buffer(&mut self, handle: Handle, writable: bool) -> (r: Result<
        (Handle, ExportParts),
    >)
        requires
            old(self).wf(),
        ensures
            final(self).wf(),
            match old(self).value_of(handle) {
                Err(error) => denied(*old(self), *final(self), r, error),
                Ok(value) => match exportable(old(self).heap@, value, writable) {
                    Err(error) => denied(*old(self), *final(self), r, error),
                    Ok(buffer) => owner_handed(*old(self), *final(self), r, value, buffer),
                },
            },
            old(self).sound() ==> final(self).sound(),
    {
        let ghost before = *self;
        let value = self.resolve(handle)?;
        proof {
            self.heap.lemma_view();
        }
        let parts = match self.heap.get(value)? {
            Object::Buffer(buffer) => {
                if writable && !buffer.is_writable() {
                    return Err(Diagnostic::new("BufferError", "buffer is read-only"));
                }
                buffer.export()
            },
            _ => {
                return Err(Diagnostic::new("TypeError", "expected f64 buffer"));
            },
        };
        let owner = self.handles.insert(&mut self.tokens, value, HandleKind::BufferOwner);
        assert(inserted(
            before.handles,
            before.tokens,
            self.handles,
            self.tokens,
            owner,
            value,
            HandleKind::BufferOwner,
        ));
        match owner {
            Err(error) => Err(error),
            Ok(owner) => {
                self.locals.push(owner);
                self.count_export();
                Ok((owner, parts))
            },
        }
    }

    /// Wraps a foreign payload that holds on to what its trace reported.
    pub fn create_foreign(&mut self, payload: usize, spec: ForeignSpec, traced: TracedHandles) -> (r:
        Result<Handle>)
        requires
            old(self).wf(),
        ensures
            final(self).wf(),
            ({
                let begun = old(self).heap@.trace_counted(spec.trace is Some);
                match resolved_all(old(self).handles@, traced.owned@ + traced.borrowed@) {
                    Err(error) => refuses(r, error) && final(self).heap@ == begun && same_handles(
                        *old(self),
                        *final(self),
                    ),
                    Ok(values) => exists|between: Context|
                        #![trigger same_handles(*old(self), between)]
                        same_handles(*old(self), between) && between.heap@ == begun
                            && wrapper_made(
                            between,
                            *final(self),
                            r,
                            ForeignView {
                                adapter_id: spec.adapter_id,
                                payload,
                                spec,
                                references: values,
                                reference_handles: traced.owned@,
                                borrowed_handles: traced.borrowed@,
                                active: true,
                            },
                        ),
                }
            }),
            old(self).sound() ==> final(self).sound(),
    {
        let ghost before = *self;
        if spec.trace.is_some() {
            let mut counters = self.heap.counters();
            counters.foreign_trace_calls = counters.foreign_trace_calls.saturating_add(1);
            self.heap.set_counters(counters);
        }
        assert(self.heap@ == before.heap@.trace_counted(spec.trace is Some));
        assert(same_handles(before, *self));
        let references = resolve_traced(&self.handles, &traced)?;
        proof {
            if before.sound() {
                lemma_traced_known(
                    self.heap@,
                    self.handles@,
                    traced.owned@ + traced.borrowed@,
                );
            }
        }
        self.wrap(payload, spec, traced, references)
    }

    fn wrap(
        &mut self,
        payload: usize,
        spec: ForeignSpec,
        traced: TracedHandles,
        references: Vec<Value>,
    ) -> (r: Result<Handle>)
        requires
            old(self).wf(),
        ensures
            final(self).wf(),
            wrapper_made(
                *old(self),
                *final(self),
                r,
                ForeignView {
                    adapter_id: spec.adapter_id,
                    payload,
                    spec,
                    references: references@,
                    reference_handles: traced.owned@,
                    borrowed_handles: traced.borrowed@,
                    active: true,
                },
            ),
            old(self).sound() && all_known(old(self).heap@, references@) ==> final(self).sound(),
    {
        let ghost before = *self;
        let owned = copy_handles(&traced.owned);
        let foreign = ForeignObject::new(
            payload,
            spec,
            traced.owned,
            traced.borrowed,
            references,
        );
        let ghost view = foreign@;
        let made = self.heap.allocate(Object::Foreign(foreign));
        let ghost between = self.heap@;
        assert(allocates(before.heap@, between, made, ObjectView::Foreign(view)));
        match made {
            Err(error) => {
                release_references(&mut self.handles, &owned);
                Err(error)
            },
            Ok(value) => {
                let mut counters = self.heap.counters();
                counters.foreign_wrapper_creations = counters.foreign_wrapper_creations.saturating_add(
                    1,
                );
                self.heap.set_counters(counters);
                let ghost counted_heap = *self;
                let result = self.local(value);
                assert(localized(counted_heap, *self, result, value));
                assert(localized(before, *self, result, value));
                result
            },
        }
    }

    /// Ends a native call: its own handles end with it.
    pub fn close(self) -> (r: (Heap, HandleTable, TokenSource))
        requires
            self.wf(),
        ensures
            r.0 == self.heap,
            r.1.wf(),
            r.2 == self.tokens,
            ended(self.handles@, r.1@, self.locals@),
            r.1.spare() == self.handles.spare() + vacated(
                self.handles@,
                self.locals@,
                set![HandleKind::Local, HandleKind::BufferOwner],
            ),
    {
        let Context { heap, handles, tokens, locals, active: _ } = self;
        let ghost before = handles@;
        let ghost spare = handles.spare();
        let ghost kinds = set![HandleKind::Local, HandleKind::BufferOwner];
        let mut handles = handles;
        let mut i: usize = 0;
        assert(locals@.take(0) =~= Seq::empty());
        assert(spare + vacated(before, locals@.take(0), kinds) =~= spare);
        while i < locals.len()
            invariant
                handles.wf(),
                i <= locals.len(),
                ended(before, handles@, locals@.take(i as int)),
                handles.spare() == spare + vacated(before, locals@.take(i as int), kinds),
                kinds == set![HandleKind::Local, HandleKind::BufferOwner],
            decreases locals.len() - i,
        {
            let ghost between = handles@;
            let handle = locals[i];
            if let Some((_, kind)) = handles.entry(handle) {
                if kind == HandleKind::Local || kind == HandleKind::BufferOwner {
                    let _ = handles.release(handle, kind);
                }
            }
            proof {
                lemma_ended(before, between, handles@, locals@, i as int);
                assert(locals@.take(i + 1).drop_last() =~= locals@.take(i as int));
                assert(handles.spare() =~= spare + vacated(before, locals@.take(i + 1), kinds));
            }
            i += 1;
        }
        assert(locals@.take(i as int) =~= locals@);
        (heap, handles, tokens)
    }
}

/// What good references stand for is known.
proof fn lemma_traced_known(heap: HeapView, entries: Seq<Entry>, handles: Seq<Handle>)
    requires
        handles_known(heap, entries),
    ensures
        resolved_all(entries, handles) matches Ok(values) ==> all_known(heap, values),
    decreases handles.len(),
{
    if handles.len() > 0 {
        lemma_traced_known(heap, entries, handles.drop_last());
        if let Ok(values) = resolved_all(entries, handles.drop_last()) {
            if let Ok(value) = resolved_as(
                entries,
                handles.last(),
                HandleKind::ForeignReference,
            ) {
                lemma_pushed(values, value);
                assert(held(entries, handles.last()) is Some);
            }
        }
    }
}

fn copy_words(words: &Vec<u64>) -> (r: Vec<u64>)
    ensures
        r@ == words@,
{
    let mut copy: Vec<u64> = Vec::new();
    let mut i: usize = 0;
    while i < words.len()
        invariant
            i <= words.len(),
            copy@ == words@.take(i as int),
        decreases words.len() - i,
    {
        copy.push(words[i]);
        assert(words@.take(i as int).push(words@[i as int]) =~= words@.take(i + 1));
        i += 1;
    }
    assert(words@.take(i as int) =~= words@);
    copy
}

fn copy_handles(handles: &Vec<Handle>) -> (r: Vec<Handle>)
    ensures
        r@ == handles@,
{
    let mut copy: Vec<Handle> = Vec::new();
    let mut i: usize = 0;
    while i < handles.len()
        invariant
            i <= handles.len(),
            copy@ == handles@.take(i as int),
        decreases handles.len() - i,
    {
        copy.push(handles[i]);
        assert(handles@.take(i as int).push(handles@[i as int]) =~= handles@.take(i + 1));
        i += 1;
    }
    assert(handles@.take(i as int) =~= handles@);
    copy
}

} // verus!
