//! The safe native boundary: values behind handles.
use vstd::prelude::*;
use crate::arithmetic::{binary_done, Computed};
use crate::assignment::{attr_set, lemma_attr_set_issued};
use crate::attributes::{Answer, Reading};
use crate::buffer::{laid_in_rows, Buffer, BufferView};
use crate::calls::arguments::{ArgsView, ExpandedArgs};
use crate::calls::refuses;
use crate::dict::{Dict, DictView};
use crate::diagnostic::{fault, outcome, Diagnostic, Fault, Result};
use crate::edges::optional;
use crate::format::Piece;
use crate::handles::{
    held, inserted, persistent, released, resolved, resolved_as, Entry, Handle, HandleKind, HandleTable,
    PersistentHandle, TokenSource,
};
use crate::heap::{counted, Counters, Heap, HeapView};
use crate::integer::{numeral, Integer};
use crate::lookup::{Access, DescriptorAccess, Outcome};
use crate::mapping::{lemma_dict_set_frame, lemma_entries_known};
use crate::namespaces::{all_known, allocates};
use crate::object::{Object, ObjectView};
use crate::op::Op;
use crate::soundness::lemma_pushed;
use crate::soundness::reading::descriptor_reads_are_known;
use crate::storage::integer_made;
use crate::text::{decimal, name_pairs};
use crate::value::{lemma_not_heap, Meaning, Value};

pub mod resources;

verus! {

/// What a value is to native code.
#[derive(Clone, Copy, Debug, PartialEq, Eq, Structural)]
pub enum ValueKind {
    Nothing,
    Bool,
    Int,
    Float,
    Str,
    Foreign,
    List,
    Tuple,
    Dict,
    Other,
}

/// What native code works with: the heap, the handles, and the handles that
/// end with it. Only where running code called it can it call back.
#[derive(Debug)]
pub struct Context {
    pub heap: Heap,
    pub handles: HandleTable,
    pub tokens: TokenSource,
    pub locals: Vec<Handle>,
    pub active: bool,
}

/// What a call back is answered where no running code made the native call.
pub open spec fn no_native_call() -> Fault {
    fault("RuntimeError", "Tonic callback requires an active native call context")
}

impl HeapView {
    /// What a value is to native code.
    pub open spec fn value_kind(self, value: Value) -> Outcome<ValueKind> {
        match value@ {
            Meaning::Nothing => Ok(ValueKind::Nothing),
            Meaning::Bool(_) => Ok(ValueKind::Bool),
            Meaning::Int(_) => Ok(ValueKind::Int),
            _ => match self.found(value) {
                Err(error) => Err(error),
                Ok(ObjectView::Int(_)) => Ok(ValueKind::Int),
                Ok(ObjectView::Float(_)) => Ok(ValueKind::Float),
                Ok(ObjectView::Str(_)) => Ok(ValueKind::Str),
                Ok(ObjectView::Foreign(_)) => Ok(ValueKind::Foreign),
                Ok(ObjectView::List(_)) => Ok(ValueKind::List),
                Ok(ObjectView::Tuple(_)) => Ok(ValueKind::Tuple),
                Ok(ObjectView::Dict(_)) => Ok(ValueKind::Dict),
                Ok(_) => Ok(ValueKind::Other),
            },
        }
    }

    /// The items of a list or tuple.
    pub open spec fn items(self, value: Value) -> Outcome<Seq<Value>> {
        match self.found(value) {
            Err(error) => Err(error),
            Ok(ObjectView::List(values)) => Ok(values),
            Ok(ObjectView::Tuple(values)) => Ok(values),
            Ok(_) => Err(fault("TypeError", "expected list or tuple")),
        }
    }

    /// The entries of a dictionary.
    pub open spec fn entries(self, value: Value) -> Outcome<Seq<(Value, Value)>> {
        match self.found(value) {
            Err(error) => Err(error),
            Ok(ObjectView::Dict(dict)) => Ok(dict.entries),
            Ok(_) => Err(fault("TypeError", "expected dict")),
        }
    }

    /// The text of a string.
    pub open spec fn string(self, value: Value) -> Outcome<Seq<char>> {
        match self.found(value) {
            Err(error) => Err(error),
            Ok(ObjectView::Str(text)) => Ok(text),
            Ok(_) => Err(fault("TypeError", "expected string")),
        }
    }

    /// The names that string keys give keyword arguments.
    pub open spec fn keyword_names(self, entries: Seq<(Value, Value)>) -> Outcome<
        Seq<(Seq<char>, Value)>,
    >
        decreases entries.len(),
    {
        if entries.len() == 0 {
            Ok(Seq::empty())
        } else {
            match self.keyword_names(entries.drop_last()) {
                Err(error) => Err(error),
                Ok(names) => match self.found(entries.last().0) {
                    Err(error) => Err(error),
                    Ok(ObjectView::Str(name)) => Ok(names.push((name, entries.last().1))),
                    Ok(_) => Err(fault("TypeError", "keywords must be strings")),
                },
            }
        }
    }

    /// The keyword arguments that a dictionary gives.
    pub open spec fn keywords(self, value: Value) -> Outcome<Seq<(Seq<char>, Value)>> {
        match self.found(value) {
            Err(error) => Err(error),
            Ok(ObjectView::Dict(dict)) => self.keyword_names(dict.entries),
            Ok(_) => Err(fault("TypeError", "keywords must be a dict")),
        }
    }

    /// The buffer behind a value.
    pub open spec fn buffer(self, value: Value) -> Outcome<BufferView> {
        match self.found(value) {
            Err(error) => Err(error),
            Ok(ObjectView::Buffer(buffer)) => Ok(buffer),
            Ok(_) => Err(fault("TypeError", "expected f64 buffer")),
        }
    }

    /// With an export of a buffer counted.
    pub open spec fn exported(self) -> HeapView {
        HeapView {
            counters: Counters {
                buffer_exports: counted(self.counters.buffer_exports),
                ..self.counters
            },
            ..self
        }
    }

    /// With a copy into a buffer counted.
    pub open spec fn copied(self) -> HeapView {
        HeapView {
            counters: Counters {
                buffer_copies: counted(self.counters.buffer_copies),
                ..self.counters
            },
            ..self
        }
    }

    /// How native code reads an attribute: hooks do not count.
    pub open spec fn native_reading(self, owner: Value, name: Seq<char>) -> Reading {
        match self.super_getter(owner, name) {
            Reading::Nothing => match self.getter_of(
                self.instance_descriptor(owner, name),
                name,
            ) {
                Err(error) => Reading::Fault(error),
                Ok(Some(getter)) => Reading::Access(
                    Access::Call {
                        callable: getter,
                        receiver: None,
                        positional: seq![owner],
                    },
                ),
                Ok(None) => match self.descriptor_getter(owner, name) {
                    Err(error) => Reading::Fault(error),
                    Ok(Some(access)) => Reading::Access(access),
                    Ok(None) => crate::attributes::as_reading(self.attr(owner, name)),
                },
            },
            found => found,
        }
    }

    /// The call by which native code sets an attribute.
    pub open spec fn native_setter(self, owner: Value, name: Seq<char>, value: Value) -> Outcome<
        Option<(Value, Seq<Value>)>,
    > {
        let descriptor = self.instance_descriptor(owner, name);
        match self.setter_of(descriptor, name) {
            Err(error) => Err(error),
            Ok(Some(setter)) => Ok(Some((setter, seq![owner, value]))),
            Ok(None) => match self.hook_of(descriptor, "__set__", "__delete__") {
                Err(error) => Err(error),
                Ok(Some(call)) => Ok(
                    Some((call.callable, optional(call.receiver) + seq![owner, value])),
                ),
                Ok(None) => Ok(None),
            },
        }
    }
}

/// The values of handles, up to the first that is not good.
pub open spec fn resolved_each(entries: Seq<Entry>, handles: Seq<Handle>) -> Outcome<Seq<Value>>
    decreases handles.len(),
{
    if handles.len() == 0 {
        Ok(Seq::empty())
    } else {
        match resolved_each(entries, handles.drop_last()) {
            Err(error) => Err(error),
            Ok(values) => match resolved(entries, handles.last()) {
                Err(error) => Err(error),
                Ok(value) => Ok(values.push(value)),
            },
        }
    }
}

/// What good handles stand for is known.
proof fn lemma_resolved_known(heap: HeapView, entries: Seq<Entry>, handles: Seq<Handle>)
    requires
        handles_known(heap, entries),
    ensures
        resolved_each(entries, handles) matches Ok(values) ==> all_known(heap, values),
    decreases handles.len(),
{
    if handles.len() > 0 {
        lemma_resolved_known(heap, entries, handles.drop_last());
        if let Ok(values) = resolved_each(entries, handles.drop_last()) {
            if let Ok(value) = resolved(entries, handles.last()) {
                lemma_pushed(values, value);
                assert(held(entries, handles.last()) is Some);
            }
        }
    }
}

proof fn lemma_resolved_fail(entries: Seq<Entry>, handles: Seq<Handle>, i: int)
    requires
        0 <= i <= handles.len(),
        resolved_each(entries, handles.take(i)) is Err,
    ensures
        resolved_each(entries, handles) == resolved_each(entries, handles.take(i)),
    decreases handles.len() - i,
{
    if i < handles.len() {
        assert(handles.take(i + 1).drop_last() =~= handles.take(i));
        lemma_resolved_fail(entries, handles, i + 1);
    } else {
        assert(handles.take(i) =~= handles);
    }
}

proof fn lemma_names_fail(heap: HeapView, entries: Seq<(Value, Value)>, i: int)
    requires
        0 <= i <= entries.len(),
        heap.keyword_names(entries.take(i)) is Err,
    ensures
        heap.keyword_names(entries) == heap.keyword_names(entries.take(i)),
    decreases entries.len() - i,
{
    if i < entries.len() {
        assert(entries.take(i + 1).drop_last() =~= entries.take(i));
        lemma_names_fail(heap, entries, i + 1);
    } else {
        assert(entries.take(i) =~= entries);
    }
}

/// A call that native code wants made.
#[derive(Debug)]
pub struct Request {
    pub callable: Value,
    pub arguments: ExpandedArgs,
}

/// What reading an attribute gives native code: a handle, or a call whose
/// result it is.
#[derive(Debug)]
pub enum Read {
    Handle(Handle),
    Call { callable: Value, arguments: Vec<Value> },
}

/// Whether the handles and what belongs to them are as before.
pub open spec fn same_handles(before: Context, after: Context) -> bool {
    after.handles == before.handles && after.tokens == before.tokens && after.locals
        == before.locals && after.active == before.active
}

/// Whether a local handle was given out.
pub open spec fn localized(
    before: Context,
    after: Context,
    result: core::result::Result<Handle, Diagnostic>,
    value: Value,
) -> bool {
    &&& inserted(
        before.handles,
        before.tokens,
        after.handles,
        after.tokens,
        result,
        value,
        HandleKind::Local,
    )
    &&& after.locals@ == match result {
        Ok(handle) => before.locals@.push(handle),
        Err(_) => before.locals@,
    }
    &&& after.active == before.active
}

/// Whether a value that was made got a local handle.
pub open spec fn handed(
    before: Context,
    after: Context,
    result: core::result::Result<Handle, Diagnostic>,
    made: core::result::Result<Value, Diagnostic>,
) -> bool {
    match made {
        Ok(value) => localized(before, after, result, value),
        Err(error) => same_handles(before, after) && refuses(result, error@),
    }
}

/// Whether a new object was made and got a local handle.
pub open spec fn object_handed(
    before: Context,
    after: Context,
    result: core::result::Result<Handle, Diagnostic>,
    object: ObjectView,
) -> bool {
    exists|made: core::result::Result<Value, Diagnostic>|
        #![trigger allocates(before.heap@, after.heap@, made, object)]
        allocates(before.heap@, after.heap@, made, object) && handed(before, after, result, made)
}

/// Whether an integer was made and got a local handle.
pub open spec fn integer_handed(
    before: Context,
    after: Context,
    result: core::result::Result<Handle, Diagnostic>,
    n: int,
) -> bool {
    exists|made: core::result::Result<Value, Diagnostic>|
        #![trigger integer_made(before.heap@, after.heap@, n, made)]
        integer_made(before.heap@, after.heap@, n, made) && handed(before, after, result, made)
}

/// Whether nothing changed and a failure was answered.
pub open spec fn denied<T>(
    before: Context,
    after: Context,
    result: core::result::Result<T, Diagnostic>,
    error: Fault,
) -> bool {
    same_handles(before, after) && after.heap@ == before.heap@ && refuses(result, error)
}

/// Whether handles stand for values that the heap gave out, or for no handles
/// of its own.
pub open spec fn handles_known(heap: HeapView, entries: Seq<Entry>) -> bool {
    forall|handle: Handle| #[trigger] held(entries, handle) matches Some(found) ==> heap.known(found.0)
}

/// What handles stand for stays known while the heap forgets nothing.
pub proof fn lemma_handles_stay(before: HeapView, after: HeapView, entries: Seq<Entry>)
    requires
        forall|v: Value| #[trigger] before.issued.contains(v) ==> after.issued.contains(v),
    ensures
        handles_known(before, entries) ==> handles_known(after, entries),
{
    if handles_known(before, entries) {
        assert forall|handle: Handle| (#[trigger] held(entries, handle)) is Some implies after.known(
            held(entries, handle).unwrap().0,
        ) by {
            assert(before.known(held(entries, handle).unwrap().0));
        }
    }
}

impl Context {
    /// Whether heap and handles are consistent.
    pub open spec fn wf(&self) -> bool {
        self.heap.wf() && self.handles.wf()
    }

    /// Whether the heap is sound and the handles stand for what it knows.
    pub open spec fn sound(&self) -> bool {
        self.heap@.sound() && handles_known(self.heap@, self.handles@)
    }

    /// The value behind a handle.
    pub open spec fn value_of(&self, handle: Handle) -> Outcome<Value> {
        resolved(self.handles@, handle)
    }

    /// What native code works with that no running code called.
    pub fn new(heap: Heap, handles: HandleTable, tokens: TokenSource) -> (r: Context)
        requires
            heap.wf(),
            handles.wf(),
        ensures
            r.wf(),
            r.heap == heap,
            r.handles == handles,
            r.tokens == tokens,
            r.locals@ == Seq::<Handle>::empty(),
            !r.active,
    {
        Context { heap, handles, tokens, locals: Vec::new(), active: false }
    }

    /// What native code works with that running code called.
    pub fn for_native_call(heap: Heap, handles: HandleTable, tokens: TokenSource) -> (r: Context)
        requires
            heap.wf(),
            handles.wf(),
        ensures
            r.wf(),
            r.heap == heap,
            r.handles == handles,
            r.tokens == tokens,
            r.locals@ == Seq::<Handle>::empty(),
            r.active,
    {
        Context { heap, handles, tokens, locals: Vec::new(), active: true }
    }

    /// Whether native code may call back.
    fn reenter(&self) -> (r: Result<()>)
        ensures
            if self.active {
                r is Ok
            } else {
                refuses(r, no_native_call())
            },
    {
        if self.active {
            Ok(())
        } else {
            Err(
                Diagnostic::new(
                    "RuntimeError",
                    "Tonic callback requires an active native call context",
                ),
            )
        }
    }

    /// A local handle on a value.
    pub fn local(&mut self, value: Value) -> (r: Result<Handle>)
        requires
            old(self).wf(),
        ensures
            final(self).wf(),
            final(self).heap == old(self).heap,
            localized(*old(self), *final(self), r, value),
            old(self).sound() && old(self).heap@.known(value) ==> final(self).sound(),
    {
        let handle = self.handles.insert(&mut self.tokens, value, HandleKind::Local)?;
        self.locals.push(handle);
        Ok(handle)
    }

    /// A local handle on a value that was made.
    fn hand(&mut self, made: Result<Value>) -> (r: Result<Handle>)
        requires
            old(self).wf(),
        ensures
            final(self).wf(),
            final(self).heap == old(self).heap,
            handed(*old(self), *final(self), r, made),
            old(self).sound() && (made matches Ok(value) ==> old(self).heap@.known(value))
                ==> final(self).sound(),
    {
        match made {
            Ok(value) => self.local(value),
            Err(error) => Err(error),
        }
    }

    /// A local handle on a new object.
    fn hand_object(&mut self, object: Object) -> (r: Result<Handle>)
        requires
            old(self).wf(),
            object.wf(&old(self).heap@.shapes),
        ensures
            final(self).wf(),
            object_handed(*old(self), *final(self), r, object@),
            old(self).sound() && all_known(old(self).heap@, object@.edges()) ==> final(self).sound(),
    {
        let ghost before = *self;
        let ghost view = object@;
        let made = self.heap.allocate(object);
        assert(allocates(before.heap@, self.heap@, made, view));
        let ghost between = *self;
        let result = self.hand(made);
        assert(handed(between, *self, result, made));
        assert(handed(before, *self, result, made));
        result
    }

    /// A local handle on an integer.
    fn hand_integer(&mut self, n: Integer) -> (r: Result<Handle>)
        requires
            old(self).wf(),
        ensures
            final(self).wf(),
            integer_handed(*old(self), *final(self), r, n@),
            old(self).sound() ==> final(self).sound(),
    {
        let ghost before = *self;
        let ghost number = n@;
        let made = self.heap.int_value(n);
        assert(integer_made(before.heap@, self.heap@, number, made));
        let ghost between = *self;
        let result = self.hand(made);
        assert(handed(between, *self, result, made));
        assert(handed(before, *self, result, made));
        result
    }

    pub fn resolve(&self, handle: Handle) -> (r: Result<Value>)
        ensures
            outcome(r) == self.value_of(handle),
    {
        self.handles.resolve(handle)
    }

    pub fn none(&mut self) -> (r: Result<Handle>)
        requires
            old(self).wf(),
        ensures
            final(self).wf(),
            final(self).heap == old(self).heap,
            localized(*old(self), *final(self), r, Value::none()),
            old(self).sound() ==> final(self).sound(),
    {
        proof {
            lemma_not_heap();
        }
        self.local(Value::none())
    }

    pub fn value_kind(&self, handle: Handle) -> (r: Result<ValueKind>)
        requires
            self.wf(),
        ensures
            outcome(r) == match self.value_of(handle) {
                Err(error) => Err(error),
                Ok(value) => self.heap@.value_kind(value),
            },
    {
        let value = self.resolve(handle)?;
        if value == Value::none() {
            assert(4u64 & 7 == 4) by (bit_vector);
            return Ok(ValueKind::Nothing);
        }
        if value.as_bool().is_some() {
            return Ok(ValueKind::Bool);
        }
        if value.as_int().is_some() {
            return Ok(ValueKind::Int);
        }
        match self.heap.get(value)? {
            Object::Int(_) => Ok(ValueKind::Int),
            Object::Float(_) => Ok(ValueKind::Float),
            Object::Str(_) => Ok(ValueKind::Str),
            Object::Foreign(_) => Ok(ValueKind::Foreign),
            Object::List(_) => Ok(ValueKind::List),
            Object::Tuple(_) => Ok(ValueKind::Tuple),
            Object::Dict(_) => Ok(ValueKind::Dict),
            _ => Ok(ValueKind::Other),
        }
    }

    pub fn is_identical(&self, left: Handle, right: Handle) -> (r: Result<bool>)
        ensures
            outcome(r) == match self.value_of(left) {
                Err(error) => Err(error),
                Ok(x) => match self.value_of(right) {
                    Err(error) => Err(error),
                    Ok(y) => Ok(x == y),
                },
            },
    {
        let x = self.resolve(left)?;
        let y = self.resolve(right)?;
        Ok(x == y)
    }

    pub fn from_bool(&mut self, value: bool) -> (r: Result<Handle>)
        requires
            old(self).wf(),
        ensures
            final(self).wf(),
            final(self).heap == old(self).heap,
            localized(*old(self), *final(self), r, Value::of_bool(value)),
            old(self).sound() ==> final(self).sound(),
    {
        self.local(Value::bool(value))
    }

    pub fn to_bool(&self, handle: Handle) -> (r: Result<bool>)
        ensures
            outcome(r) == match self.value_of(handle) {
                Err(error) => Err(error),
                Ok(value) => match value@ {
                    Meaning::Bool(b) => Ok(b),
                    _ => Err(fault("TypeError", "expected bool")),
                },
            },
    {
        match self.resolve(handle)?.as_bool() {
            Some(b) => Ok(b),
            None => Err(Diagnostic::new("TypeError", "expected bool")),
        }
    }

    pub fn from_i64(&mut self, n: i64) -> (r: Result<Handle>)
        requires
            old(self).wf(),
        ensures
            final(self).wf(),
            integer_handed(*old(self), *final(self), r, n as int),
            old(self).sound() ==> final(self).sound(),
    {
        self.hand_integer(Integer::from_i64(n))
    }

    pub fn to_i64(&self, handle: Handle) -> (r: Result<i64>)
        requires
            self.wf(),
        ensures
            outcome(r) == match self.value_of(handle) {
                Err(error) => Err(error),
                Ok(value) => self.heap@.word(value),
            },
    {
        let value = self.resolve(handle)?;
        self.heap.to_i64(value)
    }

    /// The decimal numeral of an integer.
    pub fn int_decimal(&self, handle: Handle) -> (r: Result<String>)
        requires
            self.wf(),
        ensures
            match self.value_of(handle) {
                Err(error) => refuses(r, error),
                Ok(value) => match self.heap@.integer(value) {
                    Err(error) => refuses(r, error),
                    Ok(n) => r matches Ok(text) && text@ == decimal(n),
                },
            },
    {
        let value = self.resolve(handle)?;
        let n = self.heap.integer(value)?;
        Ok(n.to_decimal())
    }

    pub fn int_from_decimal(&mut self, text: &str) -> (r: Result<Handle>)
        requires
            old(self).wf(),
        ensures
            final(self).wf(),
            match numeral(text@, 10) {
                Some(n) => integer_handed(*old(self), *final(self), r, n),
                None => denied(
                    *old(self),
                    *final(self),
                    r,
                    fault("ValueError", "invalid decimal integer"),
                ),
            },
            old(self).sound() ==> final(self).sound(),
    {
        match Integer::parse(text, 10) {
            Some(n) => self.hand_integer(n),
            None => Err(Diagnostic::new("ValueError", "invalid decimal integer")),
        }
    }

    /// A binary64 number by its bit pattern.
    pub fn from_f64_bits(&mut self, bits: u64) -> (r: Result<Handle>)
        requires
            old(self).wf(),
        ensures
            final(self).wf(),
            object_handed(*old(self), *final(self), r, ObjectView::Float(bits)),
            old(self).sound() ==> final(self).sound(),
    {
        self.hand_object(Object::Float(bits))
    }

    /// The bit pattern of a number as binary64.
    pub fn to_f64_bits(&self, handle: Handle) -> (r: Result<u64>)
        requires
            self.wf(),
        ensures
            match self.value_of(handle) {
                Err(error) => refuses(r, error),
                Ok(value) => self.heap@.is_float_of(value, outcome(r)),
            },
    {
        let value = self.resolve(handle)?;
        self.heap.float(value)
    }

    /// The values of handles.
    pub fn resolve_each(&self, handles: &Vec<Handle>) -> (r: Result<Vec<Value>>)
        ensures
            match resolved_each(self.handles@, handles@) {
                Ok(values) => r matches Ok(found) && found@ == values,
                Err(error) => refuses(r, error),
            },
    {
        let mut values: Vec<Value> = Vec::new();
        let mut i: usize = 0;
        assert(handles@.take(0) =~= Seq::empty());
        assert(values@ =~= Seq::<Value>::empty());
        while i < handles.len()
            invariant
                i <= handles.len(),
                resolved_each(self.handles@, handles@.take(i as int)) == Ok::<Seq<Value>, Fault>(
                    values@,
                ),
            decreases handles.len() - i,
        {
            assert(handles@.take(i + 1).drop_last() =~= handles@.take(i as int));
            match self.resolve(handles[i]) {
                Ok(value) => {
                    values.push(value);
                },
                Err(error) => {
                    proof {
                        lemma_resolved_fail(self.handles@, handles@, i + 1);
                    }
                    return Err(error);
                },
            }
            i += 1;
        }
        assert(handles@.take(i as int) =~= handles@);
        Ok(values)
    }

    /// The call that native code asks for.
    pub fn call(&self, callable: Handle, arguments: &Vec<Handle>) -> (r: Result<Request>)
        ensures
            match self.value_of(callable) {
                Err(error) => refuses(r, error),
                Ok(target) => match resolved_each(self.handles@, arguments@) {
                    Err(error) => refuses(r, error),
                    Ok(values) => if self.active {
                        r matches Ok(request) && request.callable == target && request.arguments@
                            == ArgsView::of(None, values)
                    } else {
                        refuses(r, no_native_call())
                    },
                },
            },
    {
        let callable = self.resolve(callable)?;
        let values = self.resolve_each(arguments)?;
        self.reenter()?;
        Ok(Request { callable, arguments: ExpandedArgs::inline(None, values) })
    }

    fn keyword_names(&self, entries: &Vec<(Value, Value)>) -> (r: Result<Vec<(String, Value)>>)
        requires
            self.wf(),
        ensures
            match self.heap@.keyword_names(entries@) {
                Ok(names) => r matches Ok(found) && name_pairs(found@) == names,
                Err(error) => refuses(r, error),
            },
    {
        let mut names: Vec<(String, Value)> = Vec::new();
        let mut i: usize = 0;
        assert(entries@.take(0) =~= Seq::empty());
        assert(name_pairs(names@) =~= Seq::empty());
        while i < entries.len()
            invariant
                self.wf(),
                i <= entries.len(),
                self.heap@.keyword_names(entries@.take(i as int)) == Ok::<
                    Seq<(Seq<char>, Value)>,
                    Fault,
                >(name_pairs(names@)),
            decreases entries.len() - i,
        {
            let ghost view = name_pairs(names@);
            assert(entries@.take(i + 1).drop_last() =~= entries@.take(i as int));
            let (key, value) = entries[i];
            match self.heap.get(key) {
                Ok(Object::Str(name)) => {
                    names.push((name.clone(), value));
                    assert(name_pairs(names@) =~= view.push((name@, value)));
                },
                Ok(_) => {
                    proof {
                        lemma_names_fail(self.heap@, entries@, i + 1);
                    }
                    return Err(Diagnostic::new("TypeError", "keywords must be strings"));
                },
                Err(error) => {
                    proof {
                        lemma_names_fail(self.heap@, entries@, i + 1);
                    }
                    return Err(error);
                },
            }
            i += 1;
        }
        assert(entries@.take(i as int) =~= entries@);
        Ok(names)
    }

    /// The call with keyword arguments that native code asks for.
    pub fn call_with_keywords(
        &self,
        callable: Handle,
        arguments: &Vec<Handle>,
        keywords: Handle,
    ) -> (r: Result<Request>)
        requires
            self.wf(),
        ensures
            match self.value_of(callable) {
                Err(error) => refuses(r, error),
                Ok(target) => match resolved_each(self.handles@, arguments@) {
                    Err(error) => refuses(r, error),
                    Ok(values) => match self.value_of(keywords) {
                        Err(error) => refuses(r, error),
                        Ok(mapping) => match self.heap@.keywords(mapping) {
                            Err(error) => refuses(r, error),
                            Ok(names) => if self.active {
                                r matches Ok(request) && request.callable == target
                                    && request.arguments@ == (ArgsView {
                                    keywords: names,
                                    ..ArgsView::of(None, values)
                                })
                            } else {
                                refuses(r, no_native_call())
                            },
                        },
                    },
                },
            },
    {
        let callable = self.resolve(callable)?;
        let values = self.resolve_each(arguments)?;
        let mapping = self.resolve(keywords)?;
        let names = match self.heap.get(mapping)? {
            Object::Dict(dict) => self.keyword_names(dict.entries())?,
            _ => {
                return Err(Diagnostic::new("TypeError", "keywords must be a dict"));
            },
        };
        self.reenter()?;
        let mut arguments = ExpandedArgs::inline(None, values);
        arguments.keywords = names;
        Ok(Request { callable, arguments })
    }

    /// Reads an attribute, or says which call gives it.
    pub fn get_attr(&mut self, owner: Handle, name: &str) -> (r: Result<Read>)
        requires
            old(self).wf(),
        ensures
            final(self).wf(),
            match old(self).value_of(owner) {
                Err(error) => denied(*old(self), *final(self), r, error),
                Ok(value) => attribute_read(
                    *old(self),
                    *final(self),
                    r,
                    old(self).heap@.native_reading(value, name@),
                ),
            },
            old(self).sound() ==> final(self).sound(),
    {
        let ghost before = *self;
        let owner = self.resolve(owner)?;
        proof {
            self.heap.lemma_view();
            if before.sound() {
                descriptor_reads_are_known(before.heap@, owner, name@);
            }
        }
        let found = self.heap.super_getter(owner, name);
        proof {
            lemma_handles_stay(before.heap@, self.heap@, before.handles@);
            if let Reading::New(object) = before.heap@.super_getter(owner, name@) {
                if found is Err {
                    assert(allocates(before.heap@, self.heap@, Err(found->Err_0), object));
                }
            }
        }
        let access = match found? {
            Some(access) => access,
            None => {
                if let Some(getter) = self.heap.property_getter(owner, name)? {
                    self.reenter()?;
                    let mut arguments: Vec<Value> = Vec::new();
                    arguments.push(owner);
                    assert(arguments@ =~= optional(None) + seq![owner]);
                    return Ok(Read::Call { callable: getter, arguments });
                }
                match self.heap.descriptor_getter(owner, name)? {
                    Some(access) => access,
                    None => {
                        let made = self.heap.attr(owner, name);
                        proof {
                            lemma_handles_stay(before.heap@, self.heap@, before.handles@);
                            if let Answer::New(object) = before.heap@.attr(owner, name@) {
                                assert(allocates(before.heap@, self.heap@, made, object));
                            }
                        }
                        match made {
                            Ok(value) => DescriptorAccess::Value(value),
                            Err(error) => {
                                return Err(error);
                            },
                        }
                    },
                }
            },
        };
        match access {
            DescriptorAccess::Call { callable, receiver, positional } => {
                self.reenter()?;
                let mut arguments: Vec<Value> = Vec::new();
                crate::edges::visit_optional(receiver, &mut arguments);
                crate::shapes::visit_all(&positional, &mut arguments);
                assert(arguments@ =~= optional(receiver) + positional@);
                Ok(Read::Call { callable, arguments })
            },
            DescriptorAccess::Value(value) => {
                let ghost between = *self;
                let result = self.local(value);
                assert(localized(before, *self, result, value));
                match result {
                    Ok(handle) => Ok(Read::Handle(handle)),
                    Err(error) => Err(error),
                }
            },
        }
    }

    /// Sets an attribute, or says which call sets it.
    pub fn set_attr(&mut self, owner: Handle, name: &str, value: Handle) -> (r: Result<
        Option<Request>,
    >)
        requires
            old(self).wf(),
        ensures
            final(self).wf(),
            same_handles(*old(self), *final(self)),
            match old(self).value_of(owner) {
                Err(error) => denied(*old(self), *final(self), r, error),
                Ok(target) => match old(self).value_of(value) {
                    Err(error) => denied(*old(self), *final(self), r, error),
                    Ok(item) => attribute_set(
                        old(self).heap@,
                        final(self).heap@,
                        old(self).active,
                        r,
                        target,
                        name@,
                        item,
                    ),
                },
            },
            old(self).sound() ==> final(self).sound(),
    {
        let owner = self.resolve(owner)?;
        let item = self.resolve(value)?;
        if let Some(setter) = self.heap.property_setter(owner, name)? {
            self.reenter()?;
            let mut values: Vec<Value> = Vec::new();
            values.push(owner);
            values.push(item);
            assert(values@ =~= seq![owner, item]);
            return Ok(
                Some(
                    Request { callable: setter, arguments: ExpandedArgs::inline(None, values) },
                ),
            );
        }
        if let Some(call) = self.heap.descriptor_setter(owner, name)? {
            self.reenter()?;
            let mut values: Vec<Value> = Vec::new();
            crate::edges::visit_optional(call.receiver, &mut values);
            values.push(owner);
            values.push(item);
            assert(values@ =~= optional(call.receiver) + seq![owner, item]);
            return Ok(
                Some(
                    Request {
                        callable: call.callable,
                        arguments: ExpandedArgs::inline(None, values),
                    },
                ),
            );
        }
        let ghost before = self.heap@;
        let change = self.heap.set_attr(owner, name, item);
        proof {
            assert(attr_set(before, self.heap@, change, owner, name@, item));
            lemma_attr_set_issued(before, self.heap@, change, owner, name@, item);
            lemma_handles_stay(before, self.heap@, self.handles@);
        }
        match change {
            Ok(_) => Ok(None),
            Err(error) => Err(error),
        }
    }

    /// The text that shows a value, in pieces.
    pub fn repr(&self, handle: Handle) -> (r: Result<Vec<Piece>>)
        requires
            self.wf(),
        ensures
            match self.value_of(handle) {
                Err(error) => refuses(r, error),
                Ok(value) => match self.heap@.formatted(value, true) {
                    Err(error) => refuses(r, error),
                    Ok(text) => r matches Ok(pieces) && pieces@ == text,
                },
            },
    {
        let value = self.resolve(handle)?;
        self.heap.format(value, true)
    }

    /// Adds two values; a sum of binary64 numbers is left to the embedder.
    pub fn add(&mut self, left: Handle, right: Handle) -> (r: Result<Computed>)
        requires
            old(self).wf(),
        ensures
            final(self).wf(),
            same_handles(*old(self), *final(self)),
            match old(self).value_of(left) {
                Err(error) => denied(*old(self), *final(self), r, error),
                Ok(x) => match old(self).value_of(right) {
                    Err(error) => denied(*old(self), *final(self), r, error),
                    Ok(y) => binary_done(
                        old(self).heap@,
                        final(self).heap@,
                        r,
                        Op::Add,
                        x,
                        y,
                    ),
                },
            },
            old(self).sound() ==> final(self).sound(),
    {
        let x = self.resolve(left)?;
        let y = self.resolve(right)?;
        self.heap.binary(Op::Add, x, y)
    }

    /// A buffer of binary64 numbers, copied from their bit patterns.
    pub fn from_f64_buffer(&mut self, values: &Vec<u64>, shape: &Vec<usize>, writable: bool) -> (r:
        Result<Handle>)
        requires
            old(self).wf(),
        ensures
            final(self).wf(),
            buffer_handed(
                *old(self),
                *final(self),
                r,
                laid_in_rows(values@, shape@, writable),
            ),
            old(self).sound() ==> final(self).sound(),
    {
        let buffer = Buffer::from_bits(values, shape, writable)?;
        self.hand_copy(buffer)
    }

    /// A local handle on a buffer whose contents were copied.
    fn hand_copy(&mut self, buffer: Buffer) -> (r: Result<Handle>)
        requires
            old(self).wf(),
            buffer@.wf(),
        ensures
            final(self).wf(),
            copy_handed(*old(self), *final(self), r, buffer@),
            old(self).sound() ==> final(self).sound(),
    {
        let ghost before = *self;
        let ghost view = buffer@;
        let mut counters = self.heap.counters();
        counters.buffer_copies = counters.buffer_copies.saturating_add(1);
        self.heap.set_counters(counters);
        assert(self.heap@ == before.heap@.copied());
        let made = self.heap.allocate(Object::Buffer(buffer));
        assert(allocates(before.heap@.copied(), self.heap@, made, ObjectView::Buffer(view)));
        let ghost between = *self;
        let result = self.hand(made);
        assert(handed(between, *self, result, made));
        assert(handed(before, *self, result, made));
        result
    }

    /// A local handle on a new string.
    pub fn from_str(&mut self, text: &str) -> (r: Result<Handle>)
        requires
            old(self).wf(),
        ensures
            final(self).wf(),
            object_handed(*old(self), *final(self), r, ObjectView::Str(text@)),
            old(self).sound() ==> final(self).sound(),
    {
        self.hand_object(Object::Str(text.to_owned()))
    }

    pub fn as_str(&self, handle: Handle) -> (r: Result<&String>)
        requires
            self.wf(),
        ensures
            match self.value_of(handle) {
                Err(error) => refuses(r, error),
                Ok(value) => match self.heap@.string(value) {
                    Err(error) => refuses(r, error),
                    Ok(text) => r matches Ok(found) && found@ == text,
                },
            },
    {
        let value = self.resolve(handle)?;
        match self.heap.get(value)? {
            Object::Str(text) => Ok(text),
            _ => Err(Diagnostic::new("TypeError", "expected string")),
        }
    }

    pub(crate) fn items(&self, handle: Handle) -> (r: Result<&Vec<Value>>)
        requires
            self.wf(),
        ensures
            match self.value_of(handle) {
                Err(error) => refuses(r, error),
                Ok(value) => match self.heap@.items(value) {
                    Err(error) => refuses(r, error),
                    Ok(items) => r matches Ok(found) && found@ == items,
                },
            },
    {
        let value = self.resolve(handle)?;
        match self.heap.get(value)? {
            Object::List(items) => Ok(items),
            Object::Tuple(items) => Ok(items),
            _ => Err(Diagnostic::new("TypeError", "expected list or tuple")),
        }
    }

    pub fn sequence_len(&self, handle: Handle) -> (r: Result<usize>)
        requires
            self.wf(),
        ensures
            match self.value_of(handle) {
                Err(error) => refuses(r, error),
                Ok(value) => match self.heap@.items(value) {
                    Err(error) => refuses(r, error),
                    Ok(items) => r matches Ok(len) && len == items.len(),
                },
            },
    {
        let items = self.items(handle)?;
        Ok(items.len())
    }

    pub fn sequence_get(&mut self, handle: Handle, index: usize) -> (r: Result<Handle>)
        requires
            old(self).wf(),
        ensures
            final(self).wf(),
            final(self).heap == old(self).heap,
            match old(self).value_of(handle) {
                Err(error) => denied(*old(self), *final(self), r, error),
                Ok(value) => match old(self).heap@.items(value) {
                    Err(error) => denied(*old(self), *final(self), r, error),
                    Ok(items) => if index < items.len() {
                        localized(*old(self), *final(self), r, items[index as int])
                    } else {
                        denied(
                            *old(self),
                            *final(self),
                            r,
                            fault("IndexError", "sequence index out of range"),
                        )
                    },
                },
            },
            old(self).sound() ==> final(self).sound(),
    {
        let items = self.items(handle)?;
        if index >= items.len() {
            return Err(Diagnostic::new("IndexError", "sequence index out of range"));
        }
        let item = items[index];
        proof {
            if self.sound() {
                let value = self.value_of(handle)->Ok_0;
                assert(self.heap@.objects[value].edges()[index as int] == item);
                assert(self.heap@.objects[value].edges().contains(item));
            }
        }
        self.local(item)
    }

    pub fn dict_len(&self, handle: Handle) -> (r: Result<usize>)
        requires
            self.wf(),
        ensures
            match self.value_of(handle) {
                Err(error) => refuses(r, error),
                Ok(value) => match self.heap@.entries(value) {
                    Err(error) => refuses(r, error),
                    Ok(entries) => r matches Ok(len) && len == entries.len(),
                },
            },
    {
        let value = self.resolve(handle)?;
        match self.heap.get(value)? {
            Object::Dict(dict) => Ok(dict.len()),
            _ => Err(Diagnostic::new("TypeError", "expected dict")),
        }
    }

    /// Handles on the key and the value of an entry.
    pub fn dict_entry(&mut self, handle: Handle, index: usize) -> (r: Result<(Handle, Handle)>)
        requires
            old(self).wf(),
        ensures
            final(self).wf(),
            final(self).heap == old(self).heap,
            match old(self).value_of(handle) {
                Err(error) => denied(*old(self), *final(self), r, error),
                Ok(value) => match old(self).heap@.entries(value) {
                    Err(error) => denied(*old(self), *final(self), r, error),
                    Ok(entries) => if index < entries.len() {
                        entry_handed(*old(self), *final(self), r, entries[index as int])
                    } else {
                        denied(
                            *old(self),
                            *final(self),
                            r,
                            fault("IndexError", "dict index out of range"),
                        )
                    },
                },
            },
            old(self).sound() ==> final(self).sound(),
    {
        let ghost before = *self;
        let value = self.resolve(handle)?;
        let (key, item) = match self.heap.get(value)? {
            Object::Dict(dict) => {
                if index >= dict.len() {
                    return Err(Diagnostic::new("IndexError", "dict index out of range"));
                }
                let entry = &dict.entries()[index];
                (entry.0, entry.1)
            },
            _ => {
                return Err(Diagnostic::new("TypeError", "expected dict"));
            },
        };
        proof {
            if self.sound() {
                lemma_entries_known(self.heap@, value);
                let entries = self.heap@.objects[value]->Dict_0.entries;
                assert(self.heap@.known(entries[index as int].0));
            }
        }
        let first = self.local(key);
        let ghost between = *self;
        assert(localized(before, between, first, key));
        let first = match first {
            Ok(first) => first,
            Err(error) => {
                return Err(error);
            },
        };
        let second = self.local(item);
        assert(localized(between, *self, second, item));
        match second {
            Ok(second) => Ok((first, second)),
            Err(error) => Err(error),
        }
    }

    pub fn new_list(&mut self) -> (r: Result<Handle>)
        requires
            old(self).wf(),
        ensures
            final(self).wf(),
            object_handed(*old(self), *final(self), r, ObjectView::List(Seq::empty())),
            old(self).sound() ==> final(self).sound(),
    {
        let items: Vec<Value> = Vec::new();
        assert(items@ =~= Seq::<Value>::empty());
        self.hand_object(Object::List(items))
    }

    pub fn list_append(&mut self, list: Handle, item: Handle) -> (r: Result<()>)
        requires
            old(self).wf(),
        ensures
            final(self).wf(),
            same_handles(*old(self), *final(self)),
            match old(self).value_of(list) {
                Err(error) => denied(*old(self), *final(self), r, error),
                Ok(owner) => match old(self).value_of(item) {
                    Err(error) => denied(*old(self), *final(self), r, error),
                    Ok(value) => (final(self).heap@, outcome(r)) == old(self).heap@.append_list(
                        owner,
                        value,
                    ),
                },
            },
            old(self).sound() ==> final(self).sound(),
    {
        let owner = self.resolve(list)?;
        let value = self.resolve(item)?;
        self.heap.append_list(owner, value)
    }

    pub fn new_tuple(&mut self, items: &Vec<Handle>) -> (r: Result<Handle>)
        requires
            old(self).wf(),
        ensures
            final(self).wf(),
            match resolved_each(old(self).handles@, items@) {
                Err(error) => denied(*old(self), *final(self), r, error),
                Ok(values) => object_handed(
                    *old(self),
                    *final(self),
                    r,
                    ObjectView::Tuple(values),
                ),
            },
            old(self).sound() ==> final(self).sound(),
    {
        let values = self.resolve_each(items)?;
        proof {
            if self.sound() {
                lemma_resolved_known(self.heap@, self.handles@, items@);
            }
        }
        self.hand_object(Object::Tuple(values))
    }

    pub fn new_dict(&mut self) -> (r: Result<Handle>)
        requires
            old(self).wf(),
        ensures
            final(self).wf(),
            object_handed(*old(self), *final(self), r, ObjectView::Dict(DictView::empty())),
            old(self).sound() ==> final(self).sound(),
    {
        let dict = Dict::new();
        proof {
            dict.lemma_view_wf();
        }
        self.hand_object(Object::Dict(dict))
    }

    pub fn dict_set(&mut self, dict: Handle, key: Handle, value: Handle) -> (r: Result<()>)
        requires
            old(self).wf(),
        ensures
            final(self).wf(),
            same_handles(*old(self), *final(self)),
            match old(self).value_of(dict) {
                Err(error) => denied(*old(self), *final(self), r, error),
                Ok(owner) => match old(self).value_of(key) {
                    Err(error) => denied(*old(self), *final(self), r, error),
                    Ok(k) => match old(self).value_of(value) {
                        Err(error) => denied(*old(self), *final(self), r, error),
                        Ok(v) => (final(self).heap@, outcome(r)) == old(self).heap@.dict_set(
                            owner,
                            k,
                            v,
                        ),
                    },
                },
            },
            old(self).sound() ==> final(self).sound(),
    {
        let owner = self.resolve(dict)?;
        let k = self.resolve(key)?;
        let v = self.resolve(value)?;
        proof {
            lemma_dict_set_frame(self.heap@, owner, k, v);
        }
        self.heap.dict_set(owner, k, v)
    }

    pub fn persist(&mut self, handle: Handle) -> (r: Result<PersistentHandle>)
        requires
            old(self).wf(),
        ensures
            final(self).wf(),
            final(self).heap == old(self).heap,
            final(self).locals == old(self).locals,
            final(self).active == old(self).active,
            match old(self).value_of(handle) {
                Err(error) => denied(*old(self), *final(self), r, error),
                Ok(value) => inserted(
                    old(self).handles,
                    old(self).tokens,
                    final(self).handles,
                    final(self).tokens,
                    persistent(r),
                    value,
                    HandleKind::Persistent,
                ),
            },
            old(self).sound() ==> final(self).sound(),
    {
        let value = self.resolve(handle)?;
        self.handles.persist_value(&mut self.tokens, value)
    }

    pub fn borrow_persistent(&mut self, handle: &PersistentHandle) -> (r: Result<Handle>)
        requires
            old(self).wf(),
        ensures
            final(self).wf(),
            final(self).heap == old(self).heap,
            match old(self).value_of(handle.handle()) {
                Err(error) => denied(*old(self), *final(self), r, error),
                Ok(value) => localized(*old(self), *final(self), r, value),
            },
            old(self).sound() ==> final(self).sound(),
    {
        let value = self.resolve(handle.as_handle())?;
        self.local(value)
    }

    /// Takes a borrow so a wrong-runtime release does not lose the owning token.
    pub fn release_persistent(&mut self, handle: &PersistentHandle) -> (r: Result<()>)
        requires
            old(self).wf(),
        ensures
            final(self).wf(),
            final(self).heap == old(self).heap,
            final(self).tokens == old(self).tokens,
            final(self).locals == old(self).locals,
            final(self).active == old(self).active,
            released(
                old(self).handles@,
                final(self).handles@,
                r,
                handle.handle(),
                HandleKind::Persistent,
            ),
            final(self).handles.spare() == match r {
                Ok(_) => old(self).handles.spare().push(handle.handle().slot() as u32),
                Err(_) => old(self).handles.spare(),
            },
            old(self).sound() ==> final(self).sound(),
    {
        self.handles.release_persistent(handle)
    }

    pub fn create_foreign_reference(&mut self, handle: Handle) -> (r: Result<Handle>)
        requires
            old(self).wf(),
        ensures
            final(self).wf(),
            final(self).heap == old(self).heap,
            final(self).locals == old(self).locals,
            final(self).active == old(self).active,
            match old(self).value_of(handle) {
                Err(error) => denied(*old(self), *final(self), r, error),
                Ok(value) => inserted(
                    old(self).handles,
                    old(self).tokens,
                    final(self).handles,
                    final(self).tokens,
                    r,
                    value,
                    HandleKind::ForeignReference,
                ),
            },
            old(self).sound() ==> final(self).sound(),
    {
        let value = self.resolve(handle)?;
        self.handles.insert_foreign_reference(&mut self.tokens, value)
    }

    pub fn release_foreign_reference(&mut self, reference: Handle) -> (r: Result<()>)
        requires
            old(self).wf(),
        ensures
            final(self).wf(),
            final(self).heap == old(self).heap,
            final(self).tokens == old(self).tokens,
            final(self).locals == old(self).locals,
            final(self).active == old(self).active,
            released(
                old(self).handles@,
                final(self).handles@,
                r,
                reference,
                HandleKind::ForeignReference,
            ),
            final(self).handles.spare() == match r {
                Ok(_) => old(self).handles.spare().push(reference.slot() as u32),
                Err(_) => old(self).handles.spare(),
            },
            old(self).sound() ==> final(self).sound(),
    {
        self.handles.release_foreign_reference(reference)
    }

    pub fn borrow_foreign_reference(&mut self, reference: Handle) -> (r: Result<Handle>)
        requires
            old(self).wf(),
        ensures
            final(self).wf(),
            final(self).heap == old(self).heap,
            match resolved_as(old(self).handles@, reference, HandleKind::ForeignReference) {
                Err(error) => denied(*old(self), *final(self), r, error),
                Ok(value) => localized(*old(self), *final(self), r, value),
            },
            old(self).sound() ==> final(self).sound(),
    {
        let value = self.handles.resolve_foreign_reference(reference)?;
        self.local(value)
    }

    pub fn foreign_payload(&self, handle: Handle, adapter_id: u64) -> (r: Result<usize>)
        requires
            self.wf(),
        ensures
            outcome(r) == match self.value_of(handle) {
                Err(error) => Err(error),
                Ok(value) => match self.heap@.found(value) {
                    Ok(ObjectView::Foreign(foreign)) => if foreign.adapter_id == adapter_id {
                        Ok(foreign.payload)
                    } else {
                        Err(fault("TypeError", "foreign object belongs to a different adapter"))
                    },
                    Ok(_) => Err(fault("TypeError", "expected foreign object")),
                    Err(error) => Err(error),
                },
            },
    {
        let value = self.resolve(handle)?;
        self.heap.foreign_payload(value, adapter_id)
    }

    pub fn release_buffer_owner(&mut self, handle: Handle) -> (r: Result<()>)
        requires
            old(self).wf(),
        ensures
            final(self).wf(),
            final(self).heap == old(self).heap,
            final(self).tokens == old(self).tokens,
            final(self).locals == old(self).locals,
            final(self).active == old(self).active,
            released(
                old(self).handles@,
                final(self).handles@,
                r,
                handle,
                HandleKind::BufferOwner,
            ),
            final(self).handles.spare() == match r {
                Ok(_) => old(self).handles.spare().push(handle.slot() as u32),
                Err(_) => old(self).handles.spare(),
            },
            old(self).sound() ==> final(self).sound(),
    {
        self.handles.release(handle, HandleKind::BufferOwner)
    }
}

/// Whether both halves of an entry got local handles.
pub open spec fn entry_handed(
    before: Context,
    after: Context,
    result: core::result::Result<(Handle, Handle), Diagnostic>,
    entry: (Value, Value),
) -> bool {
    exists|between: Context, first: core::result::Result<Handle, Diagnostic>|
        #![trigger localized(before, between, first, entry.0)]
        localized(before, between, first, entry.0) && match first {
            Err(error) => same_handles(between, after) && refuses(result, error@),
            Ok(key) => second_handed(between, after, result, key, entry.1),
        }
}

/// Whether the second half of an entry got a local handle.
pub open spec fn second_handed(
    before: Context,
    after: Context,
    result: core::result::Result<(Handle, Handle), Diagnostic>,
    key: Handle,
    value: Value,
) -> bool {
    exists|second: core::result::Result<Handle, Diagnostic>|
        #![trigger localized(before, after, second, value)]
        localized(before, after, second, value) && match second {
            Err(error) => refuses(result, error@),
            Ok(item) => result matches Ok(pair) && pair == (key, item),
        }
}

/// Whether a buffer was made and got a local handle.
pub open spec fn buffer_handed(
    before: Context,
    after: Context,
    result: core::result::Result<Handle, Diagnostic>,
    buffer: Outcome<BufferView>,
) -> bool {
    match buffer {
        Err(error) => denied(before, after, result, error),
        Ok(buffer) => copy_handed(before, after, result, buffer),
    }
}

/// Whether a buffer was stored as a copy and got a local handle.
pub open spec fn copy_handed(
    before: Context,
    after: Context,
    result: core::result::Result<Handle, Diagnostic>,
    buffer: BufferView,
) -> bool {
    exists|made: core::result::Result<Value, Diagnostic>|
        #![trigger allocates(before.heap@.copied(), after.heap@, made, ObjectView::Buffer(buffer))]
        allocates(before.heap@.copied(), after.heap@, made, ObjectView::Buffer(buffer)) && handed(
            before,
            after,
            result,
            made,
        )
}

/// What reading an attribute does.
pub open spec fn attribute_read(
    before: Context,
    after: Context,
    result: core::result::Result<Read, Diagnostic>,
    reading: Reading,
) -> bool {
    match reading {
        Reading::Nothing => false,
        Reading::Fault(error) => denied(before, after, result, error),
        Reading::Access(Access::Call { callable, receiver, positional }) => same_handles(
            before,
            after,
        ) && after.heap@ == before.heap@ && if before.active {
            result matches Ok(Read::Call { callable: c, arguments }) && c == callable
                && arguments@ == optional(receiver) + positional
        } else {
            refuses(result, no_native_call())
        },
        Reading::Access(Access::Value(value)) => after.heap@ == before.heap@ && read_handed(
            before,
            after,
            result,
            value,
        ),
        Reading::New(object) => exists|made: core::result::Result<Value, Diagnostic>|
            #![trigger allocates(before.heap@, after.heap@, made, object)]
            allocates(before.heap@, after.heap@, made, object) && match made {
                Err(error) => same_handles(before, after) && refuses(result, error@),
                Ok(value) => read_handed(before, after, result, value),
            },
    }
}

/// Whether an attribute got a local handle.
pub open spec fn read_handed(
    before: Context,
    after: Context,
    result: core::result::Result<Read, Diagnostic>,
    value: Value,
) -> bool {
    exists|handle: core::result::Result<Handle, Diagnostic>|
        #![trigger localized(before, after, handle, value)]
        localized(before, after, handle, value) && match handle {
            Err(error) => refuses(result, error@),
            Ok(handle) => result matches Ok(Read::Handle(found)) && found == handle,
        }
}

/// What setting an attribute does.
pub open spec fn attribute_set(
    before: HeapView,
    after: HeapView,
    active: bool,
    result: core::result::Result<Option<Request>, Diagnostic>,
    owner: Value,
    name: Seq<char>,
    value: Value,
) -> bool {
    match before.native_setter(owner, name, value) {
        Err(error) => after == before && refuses(result, error),
        Ok(Some((callable, values))) => after == before && if active {
            result matches Ok(Some(request)) && request.callable == callable
                && request.arguments@ == ArgsView::of(None, values)
        } else {
            refuses(result, no_native_call())
        },
        Ok(None) => exists|change: core::result::Result<(), Diagnostic>|
            #![trigger attr_set(before, after, change, owner, name, value)]
            attr_set(before, after, change, owner, name, value) && match change {
                Ok(_) => result matches Ok(None),
                Err(error) => refuses(result, error@),
            },
    }
}

/// The sum that the checked addition of native code gives.
pub fn fastmath_add(context: &mut Context, left: Handle, right: Handle) -> (r: Result<Handle>)
    requires
        old(context).wf(),
    ensures
        final(context).wf(),
        match old(context).value_of(left) {
            Err(error) => denied(*old(context), *final(context), r, error),
            Ok(x) => match old(context).heap@.word(x) {
                Err(error) => denied(*old(context), *final(context), r, error),
                Ok(a) => match old(context).value_of(right) {
                    Err(error) => denied(*old(context), *final(context), r, error),
                    Ok(y) => match old(context).heap@.word(y) {
                        Err(error) => denied(*old(context), *final(context), r, error),
                        Ok(b) => if i64::MIN <= a + b <= i64::MAX {
                            integer_handed(*old(context), *final(context), r, a + b)
                        } else {
                            denied(
                                *old(context),
                                *final(context),
                                r,
                                fault("OverflowError", "fastmath.add accepts an i64 result"),
                            )
                        },
                    },
                },
            },
        },
{
    let a = context.to_i64(left)?;
    let b = context.to_i64(right)?;
    match a.checked_add(b) {
        Some(n) => context.from_i64(n),
        None => Err(Diagnostic::new("OverflowError", "fastmath.add accepts an i64 result")),
    }
}

} // verus!
