//! Owner-aware access to what managed objects hold. Native code and the
//! machine cannot bypass the write barrier by changing storage directly.
use vstd::prelude::*;
use crate::diagnostic::{fault, outcome, Diagnostic, Fault, Result};
use crate::heap::{counts_one, no_memory, Heap, HeapView, Tally};
use crate::integer::Integer;
use crate::object::{trace_entries, Object, ObjectView, TraceEntry, TracebackEntry};
use crate::soundness::making::integers_keep_sound;
use crate::soundness::{
    allocation_keeps_sound, barred_store_keeps_sound, barrier_keeps_sound, lemma_pushed,
    narrowing_keeps_sound,
};
use crate::text::name_pairs;
use crate::value::{lemma_not_heap, Meaning, Value};

verus! {

impl HeapView {
    /// The exact builtin behind an instance of a builtin subclass; any other
    /// value is its own.
    pub open spec fn native(self, value: Value) -> Value {
        match self.at(value) {
            Some(ObjectView::Instance { native: Some(native), .. }) => native,
            _ => value,
        }
    }

    /// The integer a value stands for, as arithmetic takes it.
    pub open spec fn integer(self, value: Value) -> core::result::Result<int, Fault> {
        let v = self.native(value);
        match v.as_number() {
            Some(n) => Ok(n),
            None => match self.found(v) {
                Ok(ObjectView::Int(n)) => Ok(n),
                Ok(_) => Err(fault("TypeError", "expected integer")),
                Err(error) => Err(error),
            },
        }
    }

    /// Whether a value is an integer of any size, or a boolean.
    pub open spec fn is_integer(self, value: Value) -> bool {
        let v = self.native(value);
        v.as_number() is Some || (self.at(v) matches Some(ObjectView::Int(_)))
    }

    /// Whether a value is a floating-point number.
    pub open spec fn is_float(self, value: Value) -> bool {
        self.at(self.native(value)) matches Some(ObjectView::Float(_))
    }

    /// Appends to a list.
    pub open spec fn append_list(self, owner: Value, value: Value) -> (
        HeapView,
        core::result::Result<(), Fault>,
    ) {
        let list = self.native(owner);
        let barred = self.barrier(list, value);
        match self.found(list) {
            Ok(ObjectView::List(values)) => (
                barred.with(list, ObjectView::List(values.push(value))),
                Ok(()),
            ),
            Ok(_) => (barred, Err(fault("TypeError", "expected list"))),
            Err(error) => (barred, Err(error)),
        }
    }

    /// Empties a list.
    pub open spec fn clear_list(self, owner: Value) -> (HeapView, core::result::Result<(), Fault>) {
        let list = self.native(owner);
        match self.found(list) {
            Ok(ObjectView::List(_)) => (self.with(list, ObjectView::List(Seq::empty())), Ok(())),
            Ok(_) => (self, Err(fault("TypeError", "expected list"))),
            Err(error) => (self, Err(error)),
        }
    }

    /// What a closure cell holds.
    pub open spec fn cell(self, owner: Value) -> core::result::Result<Value, Fault> {
        match self.found(owner) {
            Ok(ObjectView::Cell(value)) => Ok(value),
            Ok(_) => Err(fault("BytecodeError", "expected closure cell")),
            Err(error) => Err(error),
        }
    }

    /// The traceback of an exception.
    pub open spec fn exception_traceback(self, owner: Value) -> core::result::Result<
        Option<Value>,
        Fault,
    > {
        match self.found(owner) {
            Ok(ObjectView::Exception { traceback, .. }) => Ok(traceback),
            Ok(_) => Err(fault("TypeError", "expected exception instance")),
            Err(error) => Err(error),
        }
    }
}

/// What continuing the traceback of an exception does to the estimates: a new
/// traceback is an object more, and the entries are what it grows by.
pub open spec fn trace_counted(
    before: HeapView,
    after: HeapView,
    first: Tally,
    last: Tally,
    owner: Value,
) -> bool {
    match before.exception_traceback(owner) {
        Ok(Some(traceback)) => first.gains(
            last,
            before.objects[traceback],
            after.objects[traceback],
        ),
        _ => exists|begun: Tally|
            #![trigger first.adds(begun, ObjectView::Traceback { entries: Seq::empty() })]
            first.adds(begun, ObjectView::Traceback { entries: Seq::empty() }) && begun.gains(
                last,
                ObjectView::Traceback { entries: Seq::empty() },
                after.objects[before.upcoming()],
            ),
    }
}

/// A traceback continued by further entries; an entry that repeats the one
/// before it is left out.
pub open spec fn continued(entries: Seq<TraceEntry>, further: Seq<TraceEntry>) -> Seq<TraceEntry>
    decreases further.len(),
{
    if further.len() == 0 {
        entries
    } else {
        let rest = continued(entries, further.drop_last());
        if rest.len() > 0 && rest.last() == further.last() {
            rest
        } else {
            rest.push(further.last())
        }
    }
}

impl Heap {
    /// Return the exact builtin backing value for a builtin subclass instance.
    /// Native payloads never nest, so one lookup is sufficient.
    pub fn native_value(&self, value: Value) -> (r: Value)
        requires
            self.wf(),
        ensures
            r == self@.native(value),
    {
        match self.try_get(value) {
            Some(Object::Instance { native: Some(native), .. }) => *native,
            _ => value,
        }
    }

    /// Owner-aware mutation boundary for the native module registry.
    pub fn add_module_member(&mut self, owner: Value, name: &str, value: Value) -> (r: Result<()>)
        requires
            old(self).wf(),
        ensures
            final(self).wf(),
            match old(self)@.found(owner) {
                Ok(ObjectView::Module(members)) => r is Ok && final(self)@ == old(self)@.barrier(
                    owner,
                    value,
                ).with(owner, ObjectView::Module(members.push((name@, value)))),
                Ok(_) => outcome(r) == Err::<(), Fault>(fault("TypeError", "expected module"))
                    && final(self)@ == old(self)@.barrier(owner, value),
                Err(error) => outcome(r) == Err::<(), Fault>(error) && final(self)@ == old(
                    self,
                )@.barrier(owner, value),
            },
            old(self)@.sound() && old(self)@.known(value) ==> final(self)@.sound(),
            match r {
                Ok(_) => old(self).tally().gains(
                    final(self).tally(),
                    old(self)@.objects[owner],
                    final(self)@.objects[owner],
                ),
                Err(_) => final(self).tally() == old(self).tally(),
            },
    {
        let ghost before = self@;
        proof {
            self.lemma_view();
            if before.sound() {
                barrier_keeps_sound(before, owner, value);
            }
        }
        self.write_barrier(owner, value);
        match self.get(owner) {
            Err(error) => {
                return Err(error);
            },
            Ok(Object::Module(_)) => {},
            Ok(_) => {
                return Err(Diagnostic::new("TypeError", "expected module"));
            },
        }
        let size = self.weight(owner);
        if let Ok(Object::Module(members)) = self.get_mut(owner) {
            let ghost held = name_pairs(members@);
            let name = name.to_owned();
            members.push((name, value));
            assert(name_pairs(members@) =~= held.push((name@, value)));
        }
        proof {
            let members = before.objects[owner]->Module_0;
            if before.sound() && before.known(value) {
                let object = ObjectView::Module(members.push((name@, value)));
                assert(object.edges() =~= before.objects[owner].edges().push(value));
                lemma_pushed(before.objects[owner].edges(), value);
                barred_store_keeps_sound(before, owner, value, object);
            }
        }
        let weight = self.weight(owner);
        self.grow(weight.saturating_sub(size));
        Ok(())
    }

    pub fn cell(&self, owner: Value) -> (r: Result<Value>)
        requires
            self.wf(),
        ensures
            outcome(r) == self@.cell(owner),
    {
        match self.get(owner) {
            Err(error) => Err(error),
            Ok(Object::Cell(value)) => Ok(*value),
            Ok(_) => Err(Diagnostic::new("BytecodeError", "expected closure cell")),
        }
    }

    /// Owner-aware write barrier boundary for captured binding mutation.
    pub fn store_cell(&mut self, owner: Value, value: Value) -> (r: Result<()>)
        requires
            old(self).wf(),
        ensures
            final(self).wf(),
            final(self).tally() == old(self).tally(),
            match old(self)@.cell(owner) {
                Ok(_) => r is Ok && final(self)@ == old(self)@.barrier(owner, value).with(
                    owner,
                    ObjectView::Cell(value),
                ),
                Err(error) => outcome(r) == Err::<(), Fault>(error) && final(self)@ == old(
                    self,
                )@.barrier(owner, value),
            },
            old(self)@.sound() && old(self)@.known(value) ==> final(self)@.sound(),
    {
        let ghost before = self@;
        proof {
            self.lemma_view();
            if before.sound() {
                barrier_keeps_sound(before, owner, value);
            }
        }
        self.write_barrier(owner, value);
        match self.cell(owner) {
            Err(error) => {
                return Err(error);
            },
            Ok(_) => {},
        }
        if let Ok(Object::Cell(slot)) = self.get_mut(owner) {
            *slot = value;
        }
        proof {
            if before.sound() && before.known(value) {
                let object = ObjectView::Cell(value);
                assert forall|e: Value| #[trigger] object.edges().contains(e) implies e == value by {}
                barred_store_keeps_sound(before, owner, value, object);
            }
        }
        Ok(())
    }

    pub fn set_exception_cause(
        &mut self,
        owner: Value,
        cause: Option<Value>,
        suppress_context: bool,
    ) -> (r: Result<()>)
        requires
            old(self).wf(),
        ensures
            final(self).wf(),
            final(self).tally() == old(self).tally(),
            ({
                let barred = match cause {
                    Some(value) => old(self)@.barrier(owner, value),
                    None => old(self)@,
                };
                match old(self)@.found(owner) {
                    Ok(
                        ObjectView::Exception {
                            class,
                            message,
                            arguments,
                            attributes,
                            context,
                            traceback,
                            ..
                        },
                    ) => r is Ok && final(self)@ == barred.with(
                        owner,
                        ObjectView::Exception {
                            class,
                            message,
                            arguments,
                            attributes,
                            cause,
                            context,
                            suppress_context,
                            traceback,
                        },
                    ),
                    Ok(_) => outcome(r) == Err::<(), Fault>(
                        fault("TypeError", "expected exception instance"),
                    ) && final(self)@ == barred,
                    Err(error) => outcome(r) == Err::<(), Fault>(error) && final(self)@ == barred,
                }
            }),
            old(self)@.sound() && (cause matches Some(value) ==> old(self)@.known(value))
                ==> final(self)@.sound(),
    {
        let ghost before = self@;
        proof {
            self.lemma_view();
            if let Some(value) = cause {
                if before.sound() {
                    barrier_keeps_sound(before, owner, value);
                }
            }
        }
        if let Some(value) = cause {
            self.write_barrier(owner, value);
        }
        match self.exception_traceback(owner) {
            Err(error) => {
                return Err(error);
            },
            Ok(_) => {},
        }
        if let Ok(
            Object::Exception { cause: slot, suppress_context: suppress, .. },
        ) = self.get_mut(owner) {
            *slot = cause;
            *suppress = suppress_context;
        }
        proof {
            if before.sound() && (cause matches Some(value) ==> before.known(value)) {
                let object = self@.objects[owner];
                let held = before.objects[owner];
                lemma_exception_edges(held, object, cause);
                match cause {
                    Some(value) => barred_store_keeps_sound(before, owner, value, object),
                    None => narrowing_keeps_sound(before, owner, object),
                }
            }
        }
        Ok(())
    }

    pub fn set_exception_context(&mut self, owner: Value, context: Value) -> (r: Result<()>)
        requires
            old(self).wf(),
        ensures
            final(self).wf(),
            final(self).tally() == old(self).tally(),
            match old(self)@.found(owner) {
                Ok(
                    ObjectView::Exception {
                        class,
                        message,
                        arguments,
                        attributes,
                        cause,
                        context: held,
                        suppress_context,
                        traceback,
                    },
                ) => r is Ok && final(self)@ == old(self)@.barrier(owner, context).with(
                    owner,
                    ObjectView::Exception {
                        class,
                        message,
                        arguments,
                        attributes,
                        cause,
                        context: if held is None {
                            Some(context)
                        } else {
                            held
                        },
                        suppress_context,
                        traceback,
                    },
                ),
                Ok(_) => outcome(r) == Err::<(), Fault>(
                    fault("TypeError", "expected exception instance"),
                ) && final(self)@ == old(self)@.barrier(owner, context),
                Err(error) => outcome(r) == Err::<(), Fault>(error) && final(self)@ == old(
                    self,
                )@.barrier(owner, context),
            },
            old(self)@.sound() && old(self)@.known(context) ==> final(self)@.sound(),
    {
        let ghost before = self@;
        proof {
            self.lemma_view();
            if before.sound() {
                barrier_keeps_sound(before, owner, context);
            }
        }
        self.write_barrier(owner, context);
        match self.exception_traceback(owner) {
            Err(error) => {
                return Err(error);
            },
            Ok(_) => {},
        }
        if let Ok(Object::Exception { context: slot, .. }) = self.get_mut(owner) {
            if slot.is_none() {
                *slot = Some(context);
            }
        }
        proof {
            if before.sound() && before.known(context) {
                let object = self@.objects[owner];
                lemma_exception_edges(before.objects[owner], object, Some(context));
                barred_store_keeps_sound(before, owner, context, object);
            }
        }
        Ok(())
    }

    pub fn exception_traceback(&self, owner: Value) -> (r: Result<Option<Value>>)
        requires
            self.wf(),
        ensures
            outcome(r) == self@.exception_traceback(owner),
    {
        match self.get(owner) {
            Err(error) => Err(error),
            Ok(Object::Exception { traceback, .. }) => Ok(*traceback),
            Ok(_) => Err(Diagnostic::new("TypeError", "expected exception instance")),
        }
    }

    /// Managed mutation boundary for lists.
    pub fn append_list(&mut self, owner: Value, value: Value) -> (r: Result<()>)
        requires
            old(self).wf(),
        ensures
            final(self).wf(),
            (final(self)@, outcome(r)) == old(self)@.append_list(owner, value),
            old(self)@.sound() && old(self)@.known(value) ==> final(self)@.sound(),
            match r {
                Ok(_) => old(self).tally().gains(
                    final(self).tally(),
                    old(self)@.objects[old(self)@.native(owner)],
                    final(self)@.objects[old(self)@.native(owner)],
                ),
                Err(_) => final(self).tally() == old(self).tally(),
            },
    {
        let owner = self.native_value(owner);
        let ghost before = self@;
        proof {
            self.lemma_view();
            if before.sound() {
                barrier_keeps_sound(before, owner, value);
            }
        }
        self.write_barrier(owner, value);
        match self.get(owner) {
            Err(error) => {
                return Err(error);
            },
            Ok(Object::List(_)) => {},
            Ok(_) => {
                return Err(Diagnostic::new("TypeError", "expected list"));
            },
        }
        let size = self.weight(owner);
        if let Ok(Object::List(values)) = self.get_mut(owner) {
            values.push(value);
        }
        proof {
            let values = before.objects[owner]->List_0;
            if before.sound() && before.known(value) {
                lemma_pushed(values, value);
                barred_store_keeps_sound(
                    before,
                    owner,
                    value,
                    ObjectView::List(values.push(value)),
                );
            }
        }
        let weight = self.weight(owner);
        self.grow(weight.saturating_sub(size));
        Ok(())
    }

    /// Empties a list.
    pub fn clear_list(&mut self, owner: Value) -> (r: Result<()>)
        requires
            old(self).wf(),
        ensures
            final(self).wf(),
            (final(self)@, outcome(r)) == old(self)@.clear_list(owner),
            old(self)@.sound() ==> final(self)@.sound(),
            match r {
                Ok(_) => old(self).tally().loses(
                    final(self).tally(),
                    old(self)@.objects[old(self)@.native(owner)],
                    final(self)@.objects[old(self)@.native(owner)],
                ),
                Err(_) => final(self).tally() == old(self).tally(),
            },
    {
        let list = self.native_value(owner);
        let ghost before = self@;
        proof {
            self.lemma_view();
        }
        match self.get(list) {
            Err(error) => {
                return Err(error);
            },
            Ok(Object::List(_)) => {},
            Ok(_) => {
                return Err(Diagnostic::new("TypeError", "expected list"));
            },
        }
        let size = self.weight(list);
        if let Ok(Object::List(values)) = self.get_mut(list) {
            *values = Vec::new();
        }
        assert(self@ =~= before.with(list, ObjectView::List(Seq::empty())));
        proof {
            if before.sound() {
                narrowing_keeps_sound(before, list, self@.objects[list]);
            }
        }
        let weight = self.weight(list);
        self.shrink(size.saturating_sub(weight));
        Ok(())
    }

    /// Adds to the traceback of an exception, which gets one if it had none.
    pub fn record_exception_trace(&mut self, owner: Value, entries: Vec<TracebackEntry>) -> (r:
        Result<()>)
        requires
            old(self).wf(),
        ensures
            final(self).wf(),
            entries@.len() == 0 ==> r is Ok && final(self)@ == old(self)@,
            entries@.len() > 0 ==> match old(self)@.exception_traceback(owner) {
                Err(error) => outcome(r) == Err::<(), Fault>(error) && final(self)@ == old(
                    self,
                )@,
                Ok(Some(traceback)) => match old(self)@.found(traceback) {
                    Ok(ObjectView::Traceback { entries: held }) => r is Ok && final(self)@ == old(
                        self,
                    )@.with(
                        traceback,
                        ObjectView::Traceback { entries: continued(held, trace_entries(entries@)) },
                    ),
                    Ok(_) => outcome(r) == Err::<(), Fault>(
                        fault("RuntimeError", "invalid traceback object"),
                    ) && final(self)@ == old(self)@,
                    Err(error) => outcome(r) == Err::<(), Fault>(error) && final(self)@ == old(
                        self,
                    )@,
                },
                Ok(None) => if old(self)@.room == 0 {
                    outcome(r) == Err::<(), Fault>(no_memory()) && final(self)@ == old(self)@
                } else {
                    r is Ok && exists|traceback: Value|
                        #![trigger old(self)@.fresh(traceback)]
                        old(self)@.fresh(traceback) && final(self)@ == traced_exception(
                            old(self)@,
                            owner,
                            traceback,
                        ).with(
                            traceback,
                            ObjectView::Traceback {
                                entries: continued(Seq::empty(), trace_entries(entries@)),
                            },
                        )
                },
            },
            old(self)@.sound() ==> final(self)@.sound(),
            match r {
                Ok(_) => entries@.len() > 0 ==> trace_counted(
                    old(self)@,
                    final(self)@,
                    old(self).tally(),
                    final(self).tally(),
                    owner,
                ),
                Err(_) => final(self).tally() == old(self).tally(),
            },
            entries@.len() == 0 ==> final(self).tally() == old(self).tally(),
    {
        if entries.len() == 0 {
            return Ok(());
        }
        let ghost before = self@;
        proof {
            self.lemma_view();
        }
        let held = match self.exception_traceback(owner) {
            Err(error) => {
                return Err(error);
            },
            Ok(held) => held,
        };
        let traceback = match held {
            Some(traceback) => traceback,
            None => {
                let traceback = match self.allocate(
                    Object::Traceback { entries: Vec::new() },
                ) {
                    Err(error) => {
                        return Err(error);
                    },
                    Ok(traceback) => traceback,
                };
                proof {
                    self.lemma_view();
                    let empty = Seq::<TracebackEntry>::empty();
                    assert(trace_entries(empty) =~= Seq::<TraceEntry>::empty());
                    assert(owner != traceback);
                    assert(before.fresh(traceback));
                }
                self.write_barrier(owner, traceback);
                if let Ok(Object::Exception { traceback: slot, .. }) = self.get_mut(owner) {
                    *slot = Some(traceback);
                }
                assert(self@ == traced_exception(before, owner, traceback));
                proof {
                    if before.sound() {
                        lemma_traced_sound(before, owner, traceback);
                    }
                }
                traceback
            },
        };
        let ghost linked = self@;
        let ghost begun = self.tally();
        proof {
            self.lemma_view();
        }
        let size = match self.get(traceback) {
            Err(error) => {
                return Err(error);
            },
            Ok(object) => match object {
                Object::Traceback { .. } => object.estimated_bytes(),
                _ => {
                    return Err(Diagnostic::new("RuntimeError", "invalid traceback object"));
                },
            },
        };
        if let Ok(Object::Traceback { entries: held }) = self.get_mut(traceback) {
            continue_trace(held, entries);
        }
        proof {
            if before.sound() {
                narrowing_keeps_sound(linked, traceback, self@.objects[traceback]);
            }
        }
        assert(held is None ==> self@ == traced_exception(before, owner, traceback).with(
            traceback,
            ObjectView::Traceback { entries: continued(Seq::empty(), trace_entries(entries@)) },
        ));
        let weight = self.weight(traceback);
        self.grow(weight.saturating_sub(size));
        proof {
            assert(begun.gains(
                self.tally(),
                linked.objects[traceback],
                self@.objects[traceback],
            ));
        }
        Ok(())
    }

    /// Makes a value of an integer: immediate where it fits.
    pub fn int_value(&mut self, n: Integer) -> (r: Result<Value>)
        requires
            old(self).wf(),
        ensures
            final(self).wf(),
            counts_one(*old(self), *final(self)),
            integer_made(old(self)@, final(self)@, n@, r),
            old(self)@.sound() ==> final(self)@.sound(),
    {
        proof {
            self.lemma_view();
        }
        let ghost number = n@;
        if let Some(small) = n.to_i64() {
            if let Some(value) = Value::small_int(small) {
                return Ok(value);
            }
        }
        let result = self.allocate(Object::Int(n));
        proof {
            if old(self)@.sound() {
                integers_keep_sound(old(self)@, self@, number, result);
            }
        }
        result
    }

    /// Makes a value of a machine integer.
    pub fn i64_value(&mut self, n: i64) -> (r: Result<Value>)
        requires
            old(self).wf(),
        ensures
            final(self).wf(),
            counts_one(*old(self), *final(self)),
            integer_made(old(self)@, final(self)@, n as int, r),
            old(self)@.sound() ==> final(self)@.sound(),
    {
        match Value::small_int(n) {
            Some(value) => Ok(value),
            None => self.int_value(Integer::from_i64(n)),
        }
    }

    pub fn integer(&self, value: Value) -> (r: Result<Integer>)
        requires
            self.wf(),
        ensures
            match r {
                Ok(n) => self@.integer(value) == Ok::<int, Fault>(n@),
                Err(error) => self@.integer(value) == Err::<int, Fault>(error@),
            },
    {
        let v = self.native_value(value);
        if let Some(n) = v.integer() {
            return Ok(Integer::from_i64(n));
        }
        match self.get(v) {
            Err(error) => Err(error),
            Ok(Object::Int(n)) => Ok(n.copy()),
            Ok(_) => Err(Diagnostic::new("TypeError", "expected integer")),
        }
    }

    pub fn to_i64(&self, value: Value) -> (r: Result<i64>)
        requires
            self.wf(),
        ensures
            outcome(r) == match self@.integer(value) {
                Ok(n) => if i64::MIN <= n <= i64::MAX {
                    Ok(n as i64)
                } else {
                    Err(fault("OverflowError", "integer does not fit i64"))
                },
                Err(error) => Err(error),
            },
    {
        proof {
            lemma_not_heap();
            self.lemma_view();
        }
        if let Some(n) = value.integer() {
            assert(!self@.live(value));
            return Ok(n);
        }
        match self.integer(value) {
            Err(error) => Err(error),
            Ok(n) => match n.to_i64() {
                Some(n) => Ok(n),
                None => Err(Diagnostic::new("OverflowError", "integer does not fit i64")),
            },
        }
    }

    pub fn is_integer(&self, value: Value) -> (r: bool)
        requires
            self.wf(),
        ensures
            r == self@.is_integer(value),
    {
        let v = self.native_value(value);
        if v.integer().is_some() {
            return true;
        }
        match self.try_get(v) {
            Some(Object::Int(_)) => true,
            _ => false,
        }
    }

    pub fn is_float(&self, value: Value) -> (r: bool)
        requires
            self.wf(),
        ensures
            r == self@.is_float(value),
    {
        match self.try_get(self.native_value(value)) {
            Some(Object::Float(_)) => true,
            _ => false,
        }
    }

    /// The payload of a foreign object of the stated adapter.
    pub fn foreign_payload(&self, value: Value, adapter_id: u64) -> (r: Result<usize>)
        requires
            self.wf(),
        ensures
            outcome(r) == match self@.found(value) {
                Ok(ObjectView::Foreign(foreign)) => if foreign.adapter_id == adapter_id {
                    Ok(foreign.payload)
                } else {
                    Err(fault("TypeError", "foreign object belongs to a different adapter"))
                },
                Ok(_) => Err(fault("TypeError", "expected foreign object")),
                Err(error) => Err(error),
            },
    {
        match self.get(value) {
            Err(error) => Err(error),
            Ok(Object::Foreign(foreign)) => if foreign.adapter_id != adapter_id {
                Err(
                    Diagnostic::new(
                        "TypeError",
                        "foreign object belongs to a different adapter",
                    ),
                )
            } else {
                Ok(foreign.payload())
            },
            Ok(_) => Err(Diagnostic::new("TypeError", "expected foreign object")),
        }
    }
}

/// The heap after an exception got an empty traceback.
pub open spec fn traced_exception(heap: HeapView, owner: Value, traceback: Value) -> HeapView {
    heap.allocated(traceback, ObjectView::Traceback { entries: Seq::empty() }).barrier(
        owner,
        traceback,
    ).with(
        owner,
        match heap.objects[owner] {
            ObjectView::Exception {
                class,
                message,
                arguments,
                attributes,
                cause,
                context,
                suppress_context,
                ..
            } => ObjectView::Exception {
                class,
                message,
                arguments,
                attributes,
                cause,
                context,
                suppress_context,
                traceback: Some(traceback),
            },
            other => other,
        },
    )
}

/// An exception that gets a traceback keeps the heap sound.
proof fn lemma_traced_sound(heap: HeapView, owner: Value, traceback: Value)
    requires
        heap.wf(),
        heap.sound(),
        heap.fresh(traceback),
        heap.at(owner) matches Some(ObjectView::Exception { .. }),
        heap.objects[owner]->Exception_traceback is None,
        heap.allocated(traceback, ObjectView::Traceback { entries: Seq::empty() }).wf(),
    ensures
        traced_exception(heap, owner, traceback).sound(),
{
    let trace = ObjectView::Traceback { entries: Seq::empty() };
    let made = heap.allocated(traceback, trace);
    let after = traced_exception(heap, owner, traceback).objects[owner];
    let held = made.objects[owner];
    allocation_keeps_sound(heap, traceback, trace);
    assert(held == heap.objects[owner]);
    assert(after.edges() =~= held.edges().push(traceback));
    lemma_pushed(held.edges(), traceback);
    barred_store_keeps_sound(made, owner, traceback, after);
}

/// What making a value of an integer does: nothing where the integer is
/// immediate, else an allocation.
pub open spec fn integer_made(
    before: HeapView,
    after: HeapView,
    n: int,
    result: core::result::Result<Value, Diagnostic>,
) -> bool {
    if Value::MIN_INT <= n <= Value::MAX_INT {
        result is Ok && result->Ok_0@ == Meaning::Int(n) && after == before
    } else {
        match result {
            Ok(value) => before.room > 0 && before.fresh(value) && after == before.allocated(
                value,
                ObjectView::Int(n),
            ),
            Err(error) => before.room == 0 && error@ == no_memory() && after == before,
        }
    }
}

/// Continues a traceback in place.
fn continue_trace(held: &mut Vec<TracebackEntry>, entries: Vec<TracebackEntry>)
    ensures
        trace_entries(final(held)@) == continued(
            trace_entries(old(held)@),
            trace_entries(entries@),
        ),
{
    let ghost all = trace_entries(entries@);
    let ghost start = trace_entries(held@);
    let mut rest: Vec<TracebackEntry> = Vec::new();
    let mut given = entries;
    let ghost whole = given@;
    let count = given.len();
    assert(whole.skip(count as int).reverse() =~= Seq::<TracebackEntry>::empty());
    assert(whole.take(count as int) =~= whole);
    while given.len() > 0
        invariant
            count == whole.len(),
            given.len() <= count,
            given@ == whole.take(given.len() as int),
            rest@ == whole.skip(given.len() as int).reverse(),
        decreases given.len(),
    {
        let ghost k = given.len();
        let entry = given.pop().unwrap();
        rest.push(entry);
        assert(whole.take(k as int).drop_last() =~= whole.take(k - 1));
        assert(rest@ =~= whole.skip(k - 1).reverse());
    }
    assert(whole.skip(0) =~= whole);
    let mut i: usize = 0;
    assert(all.take(0) =~= Seq::<TraceEntry>::empty());
    while i < count
        invariant
            i <= count,
            count == whole.len(),
            all == trace_entries(whole),
            rest@ == whole.skip(i as int).reverse(),
            trace_entries(held@) == continued(start, all.take(i as int)),
        decreases count - i,
    {
        let ghost at = i as int;
        let entry = rest.pop().unwrap();
        proof {
            assert(entry == whole[at]);
            assert(whole.skip(at).reverse().drop_last() =~= whole.skip(at + 1).reverse());
            assert(all.take(at + 1).drop_last() =~= all.take(at));
            assert(all.take(at + 1).last() == entry@);
        }
        let ghost before = held@;
        let repeated = if held.len() == 0 {
            false
        } else {
            held[held.len() - 1].equals(&entry)
        };
        if !repeated {
            held.push(entry);
            assert(trace_entries(held@) =~= trace_entries(before).push(entry@));
        }
        i += 1;
    }
    assert(all.take(i as int) =~= all);
}

/// Replacing an optional edge of an exception adds at most that edge.
proof fn lemma_exception_edges(before: ObjectView, after: ObjectView, added: Option<Value>)
    requires
        before is Exception,
        after is Exception,
        before->Exception_class == after->Exception_class,
        before->Exception_arguments == after->Exception_arguments,
        before->Exception_attributes == after->Exception_attributes,
        before->Exception_traceback == after->Exception_traceback,
        before->Exception_context == after->Exception_context || after->Exception_context == added,
        before->Exception_cause == after->Exception_cause || after->Exception_cause == added,
    ensures
        forall|e: Value| #[trigger]
            after.edges().contains(e) ==> before.edges().contains(e) || Some(e) == added,
{
    let head = seq![before->Exception_class] + before->Exception_attributes.edges()
        + before->Exception_arguments;
    assert forall|e: Value| #[trigger] after.edges().contains(e) implies before.edges().contains(e)
        || Some(e) == added by {
        let i = choose|i: int| 0 <= i < after.edges().len() && after.edges()[i] == e;
        if i < head.len() {
            assert(before.edges()[i] == e);
        } else if Some(e) != added {
            let c = crate::edges::optional(before->Exception_cause);
            let x = crate::edges::optional(before->Exception_context);
            let t = crate::edges::optional(before->Exception_traceback);
            assert(before.edges() =~= head + c + x + t);
            if after->Exception_cause == Some(e) {
                assert(before.edges()[head.len() as int] == e);
            } else if after->Exception_context == Some(e) {
                assert(before.edges()[(head.len() + c.len()) as int] == e);
            } else {
                assert(after->Exception_traceback == Some(e));
                assert(before.edges()[(head.len() + c.len() + x.len()) as int] == e);
            }
        }
    }
}

} // verus!
