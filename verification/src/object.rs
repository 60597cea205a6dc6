//! Managed objects and their edges.
use vstd::prelude::*;
use crate::buffer::{Buffer, BufferView};
use crate::class::{Class, ClassRoom, ClassView};
use crate::dict::{Dict, DictRoom, DictView};
use crate::edges::{optional, pair_values, visit_optional, visit_pairs};
use crate::foreign::{ForeignObject, ForeignRoom, ForeignView};
use crate::integer::{bit_length, magnitude, Integer};
use crate::measure;
use crate::shapes::{
    visit_all, visit_named, AttributeRoom, Attributes, AttributesView, Shapes,
};
use crate::text::{name_pairs, same};
use crate::value::Value;

verus! {

/// A place in the source.
#[derive(Clone, Copy, Debug, PartialEq, Eq, Structural)]
pub struct Span {
    pub start: usize,
    pub end: usize,
}

#[derive(Debug)]
pub struct TracebackEntry {
    pub function: String,
    pub span: Span,
}

/// See [`TracebackEntry`].
#[verifier::ext_equal]
pub struct TraceEntry {
    pub function: Seq<char>,
    pub span: Span,
}

impl View for TracebackEntry {
    type V = TraceEntry;

    open spec fn view(&self) -> TraceEntry {
        TraceEntry { function: self.function@, span: self.span }
    }
}

impl TracebackEntry {
    pub fn equals(&self, other: &TracebackEntry) -> (r: bool)
        ensures
            r == (self@ == other@),
    {
        self.span == other.span && same(self.function.as_str(), other.function.as_str())
    }
}

/// The entries of a traceback.
pub open spec fn trace_entries(entries: Seq<TracebackEntry>) -> Seq<TraceEntry> {
    Seq::new(entries.len(), |i: int| entries[i]@)
}

#[derive(Clone, Copy, Debug, PartialEq, Eq, Structural)]
pub enum Builtin {
    Print,
    Len,
    Abs,
    Hash,
    IsInstance,
    IsSubclass,
    GetAttr,
    SetAttr,
    DelAttr,
    HasAttr,
    StaticMethod,
    ClassMethod,
    Property,
    Super,
    ObjectNew,
    ObjectInit,
    ObjectHash,
    ObjectGetAttribute,
    ObjectSetAttr,
    ObjectDelAttr,
    TypeNew,
    TypeGetAttribute,
    TypeSetAttr,
    TypeDelAttr,
    IntNew,
    IntHash,
    BoolNew,
    FloatNew,
    FloatHash,
    StrNew,
    StrHash,
    ListNew,
    ListInit,
    TupleNew,
    TupleHash,
    DictNew,
    DictInit,
    RangeNew,
    RangeHash,
}

#[derive(Debug)]
#[allow(inconsistent_fields)]
pub enum Object {
    Class(Class),
    Namespace(Class),
    MappingProxy { class: Value },
    Instance {
        class: Value,
        attributes: Attributes,
        /// Exact builtin storage retained behind a user-visible subclass
        /// instance. The indirection keeps builtin layouts compact while the
        /// outer object owns class identity and instance attributes.
        native: Option<Value>,
    },
    BoundMethod { function: Value, receiver: Value },
    StaticMethod(Value),
    ClassMethod(Value),
    Property { getter: Option<Value>, setter: Option<Value>, deleter: Option<Value> },
    PropertySetter(Value),
    PropertyDeleter(Value),
    Super { start_class: Value, receiver: Value },
    Int(Integer),
    /// A binary64 bit pattern.
    Float(u64),
    Buffer(Buffer),
    Foreign(ForeignObject),
    Str(String),
    Tuple(Vec<Value>),
    List(Vec<Value>),
    Slice { start: Value, stop: Value, step: Value },
    Dict(Dict),
    Exception {
        class: Value,
        message: String,
        arguments: Vec<Value>,
        attributes: Attributes,
        cause: Option<Value>,
        context: Option<Value>,
        suppress_context: bool,
        traceback: Option<Value>,
    },
    Traceback { entries: Vec<TracebackEntry> },
    Function { code: u16, execution: u64, captures: Vec<Value>, defaults: Vec<Value> },
    Cell(Value),
    Builtin(Builtin),
    Native(usize),
    Module(Vec<(String, Value)>),
    Range { start: i64, stop: i64, step: i64 },
    Iterator { source: Value, index: usize },
    DictIterator { source: Value, index: usize, version: u64 },
    MappingProxyIterator { class: Value, index: usize, size: usize },
    RangeIterator { next: i128, stop: i128, step: i128 },
}

/// See [`Object`].
#[verifier::ext_equal]
#[allow(inconsistent_fields)]
pub enum ObjectView {
    Class(ClassView),
    Namespace(ClassView),
    MappingProxy { class: Value },
    Instance { class: Value, attributes: AttributesView, native: Option<Value> },
    BoundMethod { function: Value, receiver: Value },
    StaticMethod(Value),
    ClassMethod(Value),
    Property { getter: Option<Value>, setter: Option<Value>, deleter: Option<Value> },
    PropertySetter(Value),
    PropertyDeleter(Value),
    Super { start_class: Value, receiver: Value },
    Int(int),
    Float(u64),
    Buffer(BufferView),
    Foreign(ForeignView),
    Str(Seq<char>),
    Tuple(Seq<Value>),
    List(Seq<Value>),
    Slice { start: Value, stop: Value, step: Value },
    Dict(DictView),
    Exception {
        class: Value,
        message: Seq<char>,
        arguments: Seq<Value>,
        attributes: AttributesView,
        cause: Option<Value>,
        context: Option<Value>,
        suppress_context: bool,
        traceback: Option<Value>,
    },
    Traceback { entries: Seq<TraceEntry> },
    Function { code: u16, execution: u64, captures: Seq<Value>, defaults: Seq<Value> },
    Cell(Value),
    Builtin(Builtin),
    Native(usize),
    Module(Seq<(Seq<char>, Value)>),
    Range { start: i64, stop: i64, step: i64 },
    Iterator { source: Value, index: usize },
    DictIterator { source: Value, index: usize, version: u64 },
    MappingProxyIterator { class: Value, index: usize, size: usize },
    RangeIterator { next: i128, stop: i128, step: i128 },
}

impl View for Object {
    type V = ObjectView;

    open spec fn view(&self) -> ObjectView {
        match self {
            Object::Class(c) => ObjectView::Class(c@),
            Object::Namespace(c) => ObjectView::Namespace(c@),
            Object::MappingProxy { class } => ObjectView::MappingProxy { class: *class },
            Object::Instance { class, attributes, native } => ObjectView::Instance {
                class: *class,
                attributes: attributes@,
                native: *native,
            },
            Object::BoundMethod { function, receiver } => ObjectView::BoundMethod {
                function: *function,
                receiver: *receiver,
            },
            Object::StaticMethod(f) => ObjectView::StaticMethod(*f),
            Object::ClassMethod(f) => ObjectView::ClassMethod(*f),
            Object::Property { getter, setter, deleter } => ObjectView::Property {
                getter: *getter,
                setter: *setter,
                deleter: *deleter,
            },
            Object::PropertySetter(p) => ObjectView::PropertySetter(*p),
            Object::PropertyDeleter(p) => ObjectView::PropertyDeleter(*p),
            Object::Super { start_class, receiver } => ObjectView::Super {
                start_class: *start_class,
                receiver: *receiver,
            },
            Object::Int(n) => ObjectView::Int(n@),
            Object::Float(bits) => ObjectView::Float(*bits),
            Object::Buffer(buffer) => ObjectView::Buffer(buffer@),
            Object::Foreign(foreign) => ObjectView::Foreign(foreign@),
            Object::Str(text) => ObjectView::Str(text@),
            Object::Tuple(values) => ObjectView::Tuple(values@),
            Object::List(values) => ObjectView::List(values@),
            Object::Slice { start, stop, step } => ObjectView::Slice {
                start: *start,
                stop: *stop,
                step: *step,
            },
            Object::Dict(dict) => ObjectView::Dict(dict@),
            Object::Exception {
                class,
                message,
                arguments,
                attributes,
                cause,
                context,
                suppress_context,
                traceback,
            } => ObjectView::Exception {
                class: *class,
                message: message@,
                arguments: arguments@,
                attributes: attributes@,
                cause: *cause,
                context: *context,
                suppress_context: *suppress_context,
                traceback: *traceback,
            },
            Object::Traceback { entries } => ObjectView::Traceback {
                entries: trace_entries(entries@),
            },
            Object::Function { code, execution, captures, defaults } => ObjectView::Function {
                code: *code,
                execution: *execution,
                captures: captures@,
                defaults: defaults@,
            },
            Object::Cell(value) => ObjectView::Cell(*value),
            Object::Builtin(b) => ObjectView::Builtin(*b),
            Object::Native(i) => ObjectView::Native(*i),
            Object::Module(members) => ObjectView::Module(name_pairs(members@)),
            Object::Range { start, stop, step } => ObjectView::Range {
                start: *start,
                stop: *stop,
                step: *step,
            },
            Object::Iterator { source, index } => ObjectView::Iterator {
                source: *source,
                index: *index,
            },
            Object::DictIterator { source, index, version } => ObjectView::DictIterator {
                source: *source,
                index: *index,
                version: *version,
            },
            Object::MappingProxyIterator { class, index, size } =>
                ObjectView::MappingProxyIterator { class: *class, index: *index, size: *size },
            Object::RangeIterator { next, stop, step } => ObjectView::RangeIterator {
                next: *next,
                stop: *stop,
                step: *step,
            },
        }
    }
}

/// Whether a range iterator stands where a range of machine integers may have
/// brought it: at most one step behind the end.
pub open spec fn range_progress(next: i128, stop: i128, step: i128) -> bool {
    &&& i64::MIN <= stop <= i64::MAX
    &&& i64::MIN <= step <= i64::MAX
    &&& step != 0
    &&& step > 0 ==> i64::MIN <= next <= 2 * i64::MAX
    &&& step < 0 ==> 2 * i64::MIN <= next <= i64::MAX
}

impl ObjectView {
    /// Every managed edge, in the order in which they are traced.
    pub open spec fn edges(self) -> Seq<Value> {
        match self {
            ObjectView::Class(c) => c.edges(),
            ObjectView::Namespace(c) => c.edges(),
            ObjectView::MappingProxy { class } => seq![class],
            ObjectView::MappingProxyIterator { class, .. } => seq![class],
            ObjectView::Instance { class, attributes, native } => seq![class]
                + attributes.edges() + optional(native),
            ObjectView::Exception {
                class,
                arguments,
                attributes,
                cause,
                context,
                traceback,
                ..
            } => seq![class] + attributes.edges() + arguments + optional(cause) + optional(context)
                + optional(traceback),
            ObjectView::BoundMethod { function, receiver } => seq![function, receiver],
            ObjectView::StaticMethod(f) => seq![f],
            ObjectView::ClassMethod(f) => seq![f],
            ObjectView::Property { getter, setter, deleter } => optional(getter) + optional(setter)
                + optional(deleter),
            ObjectView::PropertySetter(p) => seq![p],
            ObjectView::PropertyDeleter(p) => seq![p],
            ObjectView::Super { start_class, receiver } => seq![start_class, receiver],
            ObjectView::Tuple(values) => values,
            ObjectView::List(values) => values,
            ObjectView::Slice { start, stop, step } => seq![start, stop, step],
            ObjectView::Module(members) => AttributesView::Dictionary(members).edges(),
            ObjectView::Iterator { source, .. } => seq![source],
            ObjectView::Function { captures, defaults, .. } => captures + defaults,
            ObjectView::Dict(dict) => pair_values(dict.entries),
            ObjectView::DictIterator { source, .. } => seq![source],
            ObjectView::Cell(value) => seq![value],
            ObjectView::Foreign(foreign) => foreign.references,
            _ => Seq::empty(),
        }
    }

    /// Whether what the object holds is consistent in itself and with the
    /// layouts its attributes use.
    pub open spec fn wf(self, shapes: &Shapes) -> bool {
        match self {
            ObjectView::Instance { attributes, .. } => attributes.wf(shapes),
            ObjectView::Exception { attributes, .. } => attributes.wf(shapes),
            ObjectView::Dict(dict) => dict.wf(),
            ObjectView::Buffer(buffer) => buffer.wf(),
            ObjectView::Range { step, .. } => step != 0,
            ObjectView::RangeIterator { next, stop, step } => range_progress(next, stop, step),
            _ => true,
        }
    }

    /// The class of an instance or exception.
    pub open spec fn class_of(self) -> Option<Value> {
        match self {
            ObjectView::Instance { class, .. } => Some(class),
            ObjectView::Exception { class, .. } => Some(class),
            _ => None,
        }
    }

    /// The attributes of an instance or exception.
    pub open spec fn attributes_of(self) -> Option<AttributesView> {
        match self {
            ObjectView::Instance { attributes, .. } => Some(attributes),
            ObjectView::Exception { attributes, .. } => Some(attributes),
            _ => None,
        }
    }

    /// The same instance or exception with other attributes.
    pub open spec fn with_attributes(self, attributes: AttributesView) -> ObjectView {
        match self {
            ObjectView::Instance { class, native, .. } => ObjectView::Instance {
                class,
                attributes,
                native,
            },
            ObjectView::Exception {
                class,
                message,
                arguments,
                cause,
                context,
                suppress_context,
                traceback,
                ..
            } => ObjectView::Exception {
                class,
                message,
                arguments,
                attributes,
                cause,
                context,
                suppress_context,
                traceback,
            },
            other => other,
        }
    }
}

impl Object {
    /// See [`ObjectView::wf`]; a dictionary's index files its hashes.
    pub open spec fn wf(&self, shapes: &Shapes) -> bool {
        self@.wf(shapes) && match self {
            Object::Dict(dict) => dict.wf(),
            _ => true,
        }
    }

    pub fn instance_class(&self) -> (r: Option<Value>)
        ensures
            r == self@.class_of(),
    {
        match self {
            Object::Instance { class, .. } => Some(*class),
            Object::Exception { class, .. } => Some(*class),
            _ => None,
        }
    }

    pub fn instance_parts(&self) -> (r: Option<(Value, &Attributes)>)
        ensures
            r is Some <==> self@.class_of() is Some,
            r matches Some((class, attributes)) ==> self@.class_of() == Some(class)
                && self@.attributes_of() == Some(attributes@),
            r matches Some((class, attributes)) ==> forall|shapes: &Shapes|
                self.wf(shapes) ==> #[trigger] attributes@.wf(shapes),
    {
        match self {
            Object::Instance { class, attributes, .. } => Some((*class, attributes)),
            Object::Exception { class, attributes, .. } => Some((*class, attributes)),
            _ => None,
        }
    }

    /// Appends every managed edge to `visited`, so that precise tracing sees
    /// all of them.
    pub fn trace(&self, visited: &mut Vec<Value>)
        ensures
            final(visited)@ == old(visited)@ + self@.edges(),
    {
        match self {
            Object::Class(c) => c.trace(visited),
            Object::Namespace(c) => c.trace(visited),
            Object::MappingProxy { class } => visited.push(*class),
            Object::MappingProxyIterator { class, .. } => visited.push(*class),
            Object::Instance { class, attributes, native } => {
                visited.push(*class);
                attributes.trace(visited);
                visit_optional(*native, visited);
            },
            Object::Exception {
                class,
                cause,
                context,
                traceback,
                arguments,
                attributes,
                ..
            } => {
                visited.push(*class);
                attributes.trace(visited);
                visit_all(arguments, visited);
                visit_optional(*cause, visited);
                visit_optional(*context, visited);
                visit_optional(*traceback, visited);
            },
            Object::BoundMethod { function, receiver } => {
                visited.push(*function);
                visited.push(*receiver);
            },
            Object::StaticMethod(function) => visited.push(*function),
            Object::ClassMethod(function) => visited.push(*function),
            Object::Property { getter, setter, deleter } => {
                visit_optional(*getter, visited);
                visit_optional(*setter, visited);
                visit_optional(*deleter, visited);
            },
            Object::PropertySetter(property) => visited.push(*property),
            Object::PropertyDeleter(property) => visited.push(*property),
            Object::Super { start_class, receiver } => {
                visited.push(*start_class);
                visited.push(*receiver);
            },
            Object::Tuple(values) => visit_all(values, visited),
            Object::List(values) => visit_all(values, visited),
            Object::Slice { start, stop, step } => {
                visited.push(*start);
                visited.push(*stop);
                visited.push(*step);
            },
            Object::Module(members) => visit_named(members, visited),
            Object::Iterator { source, .. } => visited.push(*source),
            Object::Function { captures, defaults, .. } => {
                visit_all(captures, visited);
                visit_all(defaults, visited);
            },
            Object::Dict(dict) => visit_pairs(dict.entries(), visited),
            Object::DictIterator { source, .. } => visited.push(*source),
            Object::Cell(value) => visited.push(*value),
            Object::Foreign(foreign) => foreign.trace(visited),
            _ => {},
        }
        assert(visited@ =~= old(visited)@ + self@.edges());
    }

    /// What the allocator gave to the parts.
    pub fn room(&self) -> (r: ObjectRoom)
        requires
            self matches Object::Dict(dict) ==> dict.wf(),
        ensures
            r.holds(self@),
    {
        match self {
            Object::Class(c) => ObjectRoom::Class(c.room()),
            Object::Namespace(c) => ObjectRoom::Class(c.room()),
            Object::Instance { attributes, .. } => ObjectRoom::Instance(attributes.room()),
            Object::Str(text) => ObjectRoom::Text(measure::text_room(text)),
            Object::Exception { message, arguments, attributes, .. } => ObjectRoom::Exception {
                message: measure::text_room(message),
                arguments: measure::room(arguments),
                attributes: attributes.room(),
            },
            Object::Traceback { entries } => ObjectRoom::Traceback {
                entries: measure::room(entries),
                names: traceback_text(entries),
            },
            Object::Tuple(values) => ObjectRoom::Items(measure::room(values)),
            Object::List(values) => ObjectRoom::Items(measure::room(values)),
            Object::Foreign(foreign) => ObjectRoom::Foreign(foreign.room()),
            Object::Module(members) => ObjectRoom::Module {
                members: measure::room(members),
                names: measure::name_storage(members),
            },
            Object::Function { captures, defaults, .. } => ObjectRoom::Function {
                captures: measure::room(captures),
                defaults: measure::room(defaults),
            },
            Object::Dict(dict) => ObjectRoom::Dict(dict.room()),
            _ => ObjectRoom::Nothing,
        }
    }

    /// The bytes that do not depend on the allocator, beside the object's own
    /// words.
    fn fixed_bytes(&self) -> (r: usize)
        ensures
            r == measure::saturate(self@.fixed_bytes()),
    {
        match self {
            Object::Int(n) => integer_bytes(n),
            Object::Buffer(buffer) => buffer.estimated_bytes(),
            _ => 0,
        }
    }

    /// An estimate of the storage held: the object's own words and its parts
    /// as allocated. How much more than the items' own size was allocated is
    /// not stated.
    pub fn estimated_bytes(&self) -> (r: usize)
        requires
            self matches Object::Dict(dict) ==> dict.wf(),
        ensures
            self@.weighs(r as int),
            r >= vstd::layout::size_of::<Object>(),
    {
        let room = self.room();
        assert(room.holds(self@));
        core::mem::size_of::<Object>().saturating_add(self.fixed_bytes()).saturating_add(
            room.bytes(),
        )
    }
}

/// What the allocator gave to the parts of an object: in items, and in bytes
/// for texts.
#[derive(Clone, Copy, Debug)]
#[allow(inconsistent_fields)]
pub enum ObjectRoom {
    Class(ClassRoom),
    Instance(AttributeRoom),
    Text(usize),
    Exception { message: usize, arguments: usize, attributes: AttributeRoom },
    Traceback { entries: usize, names: usize },
    Items(usize),
    Foreign(ForeignRoom),
    Module { members: usize, names: usize },
    Function { captures: usize, defaults: usize },
    Dict(DictRoom),
    Nothing,
}

impl ObjectRoom {
    /// Whether there is room for an object.
    pub open spec fn holds(self, object: ObjectView) -> bool {
        match object {
            ObjectView::Class(c) => self matches ObjectRoom::Class(room) && room.holds(c),
            ObjectView::Namespace(c) => self matches ObjectRoom::Class(room) && room.holds(c),
            ObjectView::Instance { attributes: held, .. } => self matches ObjectRoom::Instance(
                room,
            ) && room.holds(held),
            ObjectView::Str(text) => self matches ObjectRoom::Text(room) && room
                >= vstd::utf8::encode_utf8(text).len(),
            ObjectView::Exception { message: text, arguments: given, attributes: held, .. } =>
                self matches ObjectRoom::Exception { message, arguments, attributes } && message
                >= vstd::utf8::encode_utf8(text).len() && arguments >= given.len()
                && attributes.holds(held),
            ObjectView::Traceback { entries: held } => self matches ObjectRoom::Traceback {
                entries,
                names,
            } && entries >= held.len() && names >= measure::saturate(function_bytes(held)),
            ObjectView::Tuple(values) => self matches ObjectRoom::Items(room) && room
                >= values.len(),
            ObjectView::List(values) => self matches ObjectRoom::Items(room) && room
                >= values.len(),
            ObjectView::Foreign(foreign) => self matches ObjectRoom::Foreign(room) && room.holds(
                foreign,
            ),
            ObjectView::Module(held) => self matches ObjectRoom::Module { members, names }
                && members >= held.len() && names >= measure::saturate(measure::name_bytes(held)),
            ObjectView::Function { captures: cells, defaults: values, .. } =>
                self matches ObjectRoom::Function { captures, defaults } && captures >= cells.len()
                && defaults >= values.len(),
            ObjectView::Dict(dict) => self matches ObjectRoom::Dict(room) && room.holds(dict),
            _ => self is Nothing,
        }
    }

    /// The bytes of the parts together.
    pub open spec fn total(self) -> int {
        match self {
            ObjectRoom::Class(room) => room.total(),
            ObjectRoom::Instance(room) => room.total(),
            ObjectRoom::Text(room) => room as int,
            ObjectRoom::Exception { message, arguments, attributes } => message + arguments
                * vstd::layout::size_of::<Value>() + attributes.total(),
            ObjectRoom::Traceback { entries, names } => entries * vstd::layout::size_of::<
                TracebackEntry,
            >() + names,
            ObjectRoom::Items(room) => room * 8,
            ObjectRoom::Foreign(room) => room.total(),
            ObjectRoom::Module { members, names } => members * vstd::layout::size_of::<
                (String, Value),
            >() + names,
            ObjectRoom::Function { captures, defaults } => captures * 8 + defaults * 8,
            ObjectRoom::Dict(room) => room.total(),
            ObjectRoom::Nothing => 0,
        }
    }

    /// The bytes of the parts together.
    pub fn bytes(&self) -> (r: usize)
        ensures
            r == measure::saturate(self.total()),
    {
        match self {
            ObjectRoom::Class(room) => room.bytes(),
            ObjectRoom::Instance(room) => room.bytes(),
            ObjectRoom::Text(room) => *room,
            ObjectRoom::Exception { message, arguments, attributes } => message.saturating_add(
                measure::area(*arguments, core::mem::size_of::<Value>()),
            ).saturating_add(attributes.bytes()),
            ObjectRoom::Traceback { entries, names } => measure::area(
                *entries,
                core::mem::size_of::<TracebackEntry>(),
            ).saturating_add(*names),
            ObjectRoom::Items(room) => measure::area(*room, 8),
            ObjectRoom::Foreign(room) => room.bytes(),
            ObjectRoom::Module { members, names } => measure::area(
                *members,
                core::mem::size_of::<(String, Value)>(),
            ).saturating_add(*names),
            ObjectRoom::Function { captures, defaults } => measure::area(
                *captures,
                8,
            ).saturating_add(measure::area(*defaults, 8)),
            ObjectRoom::Dict(room) => room.bytes(),
            ObjectRoom::Nothing => 0,
        }
    }
}

impl ObjectView {
    /// The bytes that do not depend on the allocator, beside the object's own
    /// words.
    pub open spec fn fixed_bytes(self) -> int {
        match self {
            ObjectView::Int(n) => (bit_length(magnitude(n)) + 7) as int / 8,
            ObjectView::Buffer(buffer) => 8 * (buffer.data.len() + buffer.shape.len()
                + buffer.strides.len()) as int,
            _ => 0,
        }
    }

    /// Whether a number of bytes is what the object occupies with some
    /// allocation of its parts.
    pub open spec fn weighs(self, bytes: int) -> bool {
        exists|room: ObjectRoom| #[trigger]
            room.holds(self) && bytes == measure::saturate(
                vstd::layout::size_of::<Object>() + self.fixed_bytes() + room.total(),
            )
    }
}

/// The bytes of an integer's magnitude.
fn integer_bytes(n: &Integer) -> (r: usize)
    ensures
        r == measure::saturate(
            (crate::integer::bit_length(crate::integer::magnitude(n@)) + 7) as int / 8,
        ),
{
    let bits = n.bits();
    let bytes = (bits / 8) + (if bits % 8 == 0 {
        0u64
    } else {
        1u64
    });
    if bytes > usize::MAX as u64 {
        usize::MAX
    } else {
        bytes as usize
    }
}

/// The bytes of the names in a traceback.
pub open spec fn function_bytes(entries: Seq<TraceEntry>) -> int
    decreases entries.len(),
{
    if entries.len() == 0 {
        0
    } else {
        function_bytes(entries.drop_last()) + vstd::utf8::encode_utf8(
            entries.last().function,
        ).len()
    }
}

/// The storage of the names in a traceback.
fn traceback_text(entries: &Vec<TracebackEntry>) -> (r: usize)
    ensures
        r >= measure::saturate(function_bytes(trace_entries(entries@))),
{
    let ghost views = trace_entries(entries@);
    let mut total: usize = 0;
    let mut i: usize = 0;
    while i < entries.len()
        invariant
            i <= entries.len(),
            views == trace_entries(entries@),
            total >= measure::saturate(function_bytes(views.take(i as int))),
        decreases entries.len() - i,
    {
        assert(views.take(i + 1).drop_last() =~= views.take(i as int));
        total = total.saturating_add(measure::text_room(&entries[i].function));
        i += 1;
    }
    assert(views.take(views.len() as int) =~= views);
    total
}

} // verus!
