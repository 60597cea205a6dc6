//! Attribute access that allocates: binding, ordinary reads, and `super`.
use vstd::prelude::*;
use crate::class::ClassView;
use crate::diagnostic::{fault, outcome, Diagnostic, Fault, Result};
use crate::edges::{contains, copy_values};
use crate::heap::{counts_one, Heap, HeapView};
use crate::lookup::{
    binds_receiver, is_method, missing, missing_attribute, Access, DescriptorAccess,
};
use crate::namespaces::allocates;
use crate::object::{Object, ObjectView};
use crate::shapes::{Attributes, AttributesView, Shapes};
use crate::soundness::making::instances_keep_sound;
use crate::soundness::reading::{
    attribute_reads_keep_sound, metaclass_reads_keep_sound, super_objects_keep_sound,
    lemma_super_known, read_known, super_reads_keep_sound,
};
use crate::text::{lookup, named, same};
use crate::value::Value;

verus! {

/// What an operation answers: a value that is there, a new object, or a
/// failure.
#[verifier::ext_equal]
pub enum Answer {
    Value(Value),
    New(ObjectView),
    Fault(Fault),
}

/// What giving an answer does.
pub open spec fn answers(
    before: HeapView,
    after: HeapView,
    result: core::result::Result<Value, Diagnostic>,
    answer: Answer,
) -> bool {
    match answer {
        Answer::Value(value) => outcome(result) == Ok::<Value, Fault>(value) && after == before,
        Answer::New(object) => allocates(before, after, result, object),
        Answer::Fault(error) => outcome(result) == Err::<Value, Fault>(error) && after == before,
    }
}

/// See [`Answer`].
#[derive(Debug)]
pub enum Reply {
    Value(Value),
    New(Object),
    Fault(Diagnostic),
}

impl View for Reply {
    type V = Answer;

    open spec fn view(&self) -> Answer {
        match self {
            Reply::Value(value) => Answer::Value(*value),
            Reply::New(object) => Answer::New(object@),
            Reply::Fault(error) => Answer::Fault(error@),
        }
    }
}

impl Reply {
    /// Whether a new object is consistent with every layout.
    pub open spec fn wf(&self, shapes: &Shapes) -> bool {
        self matches Reply::New(object) ==> object.wf(shapes)
    }
}

/// How an attribute is read: not at all, by an access, by a new bound method,
/// or with a failure.
#[verifier::ext_equal]
pub enum Reading {
    Nothing,
    Access(Access),
    New(ObjectView),
    Fault(Fault),
}

/// An answer as a reading.
pub open spec fn as_reading(answer: Answer) -> Reading {
    match answer {
        Answer::Value(value) => Reading::Access(Access::Value(value)),
        Answer::New(object) => Reading::New(object),
        Answer::Fault(error) => Reading::Fault(error),
    }
}

/// What a reading does.
pub open spec fn reads(
    before: HeapView,
    after: HeapView,
    result: core::result::Result<Option<DescriptorAccess>, Diagnostic>,
    reading: Reading,
) -> bool {
    match reading {
        Reading::Nothing => result is Ok && result->Ok_0 is None && after == before,
        Reading::Access(access) => (result matches Ok(Some(found)) && found@ == access) && after
            == before,
        Reading::New(object) => match result {
            Ok(Some(DescriptorAccess::Value(value))) => allocates(
                before,
                after,
                Ok(value),
                object,
            ),
            Ok(_) => false,
            Err(error) => allocates(before, after, Err(error), object),
        },
        Reading::Fault(error) => (result matches Err(found) && found@ == error) && after == before,
    }
}

/// Whether a name belongs to the layout of instances.
pub open spec fn layout_name(name: Seq<char>) -> bool {
    name == "__class__"@ || name == "__dict__"@ || name == "__cause__"@ || name == "__context__"@
        || name == "__suppress_context__"@ || name == "__traceback__"@ || name == "args"@
}

/// See [`layout_name`].
pub fn is_layout_name(name: &str) -> (r: bool)
    ensures
        r == layout_name(name@),
{
    same(name, "__class__") || same(name, "__dict__") || same(name, "__cause__") || same(
        name,
        "__context__",
    ) || same(name, "__suppress_context__") || same(name, "__traceback__") || same(name, "args")
}

/// An optional value, none where it is missing.
pub open spec fn or_none(value: Option<Value>) -> Value {
    match value {
        Some(value) => value,
        None => Value::none(),
    }
}

fn value_or_none(value: Option<Value>) -> (r: Value)
    ensures
        r == or_none(value),
{
    match value {
        Some(value) => value,
        None => Value::none(),
    }
}

impl HeapView {
    /// A class attribute as it is seen through an instance or through the
    /// class.
    pub open spec fn bind(self, value: Value, instance: Option<Value>, owner_class: Value) -> Answer {
        match self.at(value) {
            Some(ObjectView::StaticMethod(function)) => Answer::Value(function),
            Some(ObjectView::ClassMethod(function)) => Answer::New(
                ObjectView::BoundMethod { function, receiver: owner_class },
            ),
            Some(ObjectView::Function { .. }) => match instance {
                Some(receiver) => Answer::New(
                    ObjectView::BoundMethod { function: value, receiver },
                ),
                None => Answer::Value(value),
            },
            Some(ObjectView::Builtin(builtin)) => match instance {
                Some(receiver) => if binds_receiver(builtin) {
                    Answer::New(ObjectView::BoundMethod { function: value, receiver })
                } else {
                    Answer::Value(value)
                },
                None => Answer::Value(value),
            },
            _ => Answer::Value(value),
        }
    }

    /// An attribute that a class or its ancestors define.
    pub open spec fn inherited(self, class: Value, name: Seq<char>, instance: Option<Value>) -> Answer {
        match self.class_lookup(class, name) {
            Err(error) => Answer::Fault(error),
            Ok(None) => Answer::Fault(missing(name)),
            Ok(Some(value)) => self.bind(value, instance, class),
        }
    }

    /// An attribute of an instance: its own, or one of its class.
    pub open spec fn instance_attr(self, owner: Value, class: Value, name: Seq<char>) -> Answer {
        match self.attribute(owner, name) {
            Some(value) => Answer::Value(value),
            None => self.inherited(class, name, Some(owner)),
        }
    }

    /// An attribute of a class.
    pub open spec fn class_attr(self, owner: Value, class: ClassView, name: Seq<char>) -> Answer {
        if name == "__class__"@ && class.metaclass != Value::unbound() {
            Answer::Value(class.metaclass)
        } else if name == "__name__"@ {
            Answer::New(ObjectView::Str(class.name))
        } else if name == "__bases__"@ {
            Answer::New(ObjectView::Tuple(class.bases))
        } else if name == "__mro__"@ {
            Answer::New(ObjectView::Tuple(seq![owner] + class.mro))
        } else if name == "__dict__"@ {
            Answer::New(ObjectView::MappingProxy { class: owner })
        } else {
            self.inherited(owner, name, None)
        }
    }

    /// The attribute of a name, without descriptors that need a call.
    pub open spec fn attr(self, owner: Value, name: Seq<char>) -> Answer {
        match self.at(owner) {
            Some(ObjectView::Module(members)) => match named(members, name) {
                Some(value) => Answer::Value(value),
                None => Answer::Fault(missing(name)),
            },
            Some(ObjectView::Class(class)) => self.class_attr(owner, class, name),
            Some(ObjectView::Instance { class, .. }) => if name == "__class__"@ {
                Answer::Value(class)
            } else if name == "__dict__"@ {
                Answer::Fault(
                    fault("UnsupportedFeature", "instance __dict__ view is not implemented"),
                )
            } else {
                self.instance_attr(owner, class, name)
            },
            Some(
                ObjectView::Exception {
                    class,
                    arguments,
                    cause,
                    context,
                    suppress_context,
                    traceback,
                    ..
                },
            ) => if name == "__class__"@ {
                Answer::Value(class)
            } else if name == "__cause__"@ {
                Answer::Value(or_none(cause))
            } else if name == "__context__"@ {
                Answer::Value(or_none(context))
            } else if name == "__suppress_context__"@ {
                Answer::Value(Value::of_bool(suppress_context))
            } else if name == "__traceback__"@ {
                Answer::Value(or_none(traceback))
            } else if name == "args"@ {
                Answer::New(ObjectView::Tuple(arguments))
            } else if name == "__dict__"@ {
                Answer::Fault(
                    fault("UnsupportedFeature", "exception __dict__ view is not implemented"),
                )
            } else {
                self.instance_attr(owner, class, name)
            },
            Some(ObjectView::BoundMethod { function, receiver }) => if name == "__func__"@ {
                Answer::Value(function)
            } else if name == "__self__"@ {
                Answer::Value(receiver)
            } else {
                Answer::Fault(missing(name))
            },
            Some(ObjectView::StaticMethod(function)) => if name == "__func__"@ {
                Answer::Value(function)
            } else {
                Answer::Fault(missing(name))
            },
            Some(ObjectView::ClassMethod(function)) => if name == "__func__"@ {
                Answer::Value(function)
            } else {
                Answer::Fault(missing(name))
            },
            Some(ObjectView::Property { getter, setter, deleter }) => if name == "fget"@ {
                Answer::Value(or_none(getter))
            } else if name == "fset"@ {
                Answer::Value(or_none(setter))
            } else if name == "fdel"@ {
                Answer::Value(or_none(deleter))
            } else if name == "setter"@ {
                Answer::New(ObjectView::PropertySetter(owner))
            } else if name == "deleter"@ {
                Answer::New(ObjectView::PropertyDeleter(owner))
            } else {
                Answer::Fault(missing(name))
            },
            _ => Answer::Fault(missing(name)),
        }
    }

    /// A new `super` object.
    pub open spec fn super_value(self, start_class: Value, receiver: Value) -> Answer {
        if self.class_at(start_class) is Err {
            Answer::Fault(fault("TypeError", "super() argument 1 must be a Tonic class"))
        } else {
            match self.super_class(receiver) {
                None => Answer::Fault(
                    fault("TypeError", "super() argument 2 must be an instance or subclass"),
                ),
                Some(owner_class) => match self.class_at(owner_class) {
                    Err(error) => Answer::Fault(error),
                    Ok(owner) => if owner_class != start_class && !owner.mro.contains(start_class) {
                        Answer::Fault(
                            fault(
                                "TypeError",
                                "super() argument 2 is not an instance or subclass of argument 1",
                            ),
                        )
                    } else {
                        Answer::New(ObjectView::Super { start_class, receiver })
                    },
                },
            }
        }
    }

    /// The class whose lineage `super` searches for a receiver.
    pub open spec fn super_class(self, receiver: Value) -> Option<Value> {
        match self.class_of(receiver) {
            Some(class) => Some(class),
            None => if self.at(receiver) matches Some(ObjectView::Class(_)) {
                Some(receiver)
            } else {
                None
            },
        }
    }

    /// How a descriptor is read through `super`.
    pub open spec fn read_super(
        self,
        descriptor: Value,
        name: Seq<char>,
        instance: Option<Value>,
        owner_class: Value,
    ) -> Reading {
        match self.at(descriptor) {
            Some(ObjectView::Property { getter, .. }) => match instance {
                None => Reading::Access(Access::Value(descriptor)),
                Some(receiver) => match getter {
                    None => Reading::Fault(missing(name)),
                    Some(getter) => Reading::Access(
                        Access::Call {
                            callable: getter,
                            receiver: Some(receiver),
                            positional: Seq::empty(),
                        },
                    ),
                },
            },
            _ => match self.class_of(descriptor) {
                None => as_reading(self.bind(descriptor, instance, owner_class)),
                Some(descriptor_class) => match self.class_lookup(
                    descriptor_class,
                    "__get__"@,
                ) {
                    Err(error) => Reading::Fault(error),
                    Ok(None) => as_reading(self.bind(descriptor, instance, owner_class)),
                    Ok(Some(getter)) => Reading::Access(
                        self.get_hook(
                            getter,
                            descriptor,
                            descriptor_class,
                            or_none(instance),
                            owner_class,
                        ),
                    ),
                },
            },
        }
    }

    /// How a name is read through a `super` object: from the classes behind
    /// its start class.
    pub open spec fn super_getter(self, owner: Value, name: Seq<char>) -> Reading {
        match self.at(owner) {
            Some(ObjectView::Super { start_class, receiver }) => match self.found(receiver) {
                Err(error) => Reading::Fault(error),
                Ok(_) => match self.super_class(receiver) {
                    None => Reading::Fault(fault("TypeError", "invalid super receiver")),
                    Some(owner_class) => if name == "__self__"@ {
                        Reading::Access(Access::Value(receiver))
                    } else if name == "__thisclass__"@ {
                        Reading::Access(Access::Value(start_class))
                    } else if name == "__self_class__"@ {
                        Reading::Access(Access::Value(owner_class))
                    } else {
                        self.super_lookup(start_class, receiver, owner_class, name)
                    },
                },
            },
            _ => Reading::Nothing,
        }
    }

    /// See [`HeapView::super_getter`].
    pub open spec fn super_lookup(
        self,
        start_class: Value,
        receiver: Value,
        owner_class: Value,
        name: Seq<char>,
    ) -> Reading {
        match self.class_at(owner_class) {
            Err(error) => Reading::Fault(error),
            Ok(class) => {
                let line = seq![owner_class] + class.mro;
                if !line.contains(start_class) {
                    Reading::Fault(fault("TypeError", "invalid super search class"))
                } else {
                    match self.lookup_from(line, name, line.index_of_first(start_class).unwrap() + 1) {
                        Err(error) => Reading::Fault(error),
                        Ok(None) => Reading::Fault(missing(name)),
                        Ok(Some(descriptor)) => self.read_super(
                            descriptor,
                            name,
                            if self.class_of(receiver) is Some {
                                Some(receiver)
                            } else {
                                None
                            },
                            owner_class,
                        ),
                    }
                }
            },
        }
    }

    /// How a name is read through a descriptor on a class's metaclass. Data
    /// descriptors come before the class's own attributes, others behind.
    pub open spec fn metaclass_getter(self, owner: Value, name: Seq<char>, data_only: bool) -> Reading {
        match self.metaclass_of(owner) {
            None => Reading::Nothing,
            Some(metaclass) => match self.class_lookup(metaclass, name) {
                Err(error) => Reading::Fault(error),
                Ok(None) => Reading::Nothing,
                Ok(Some(descriptor)) => match self.at(descriptor) {
                    Some(ObjectView::Property { getter: None, .. }) => Reading::Fault(
                        missing(name),
                    ),
                    Some(ObjectView::Property { getter: Some(getter), .. }) => Reading::Access(
                        Access::Call {
                            callable: getter,
                            receiver: Some(owner),
                            positional: Seq::empty(),
                        },
                    ),
                    _ => match self.class_of(descriptor) {
                        None => self.metaclass_plain(descriptor, owner, metaclass, data_only),
                        Some(descriptor_class) => self.metaclass_hook(
                            descriptor,
                            descriptor_class,
                            owner,
                            metaclass,
                            data_only,
                        ),
                    },
                },
            },
        }
    }

    /// A metaclass attribute that is no descriptor.
    pub open spec fn metaclass_plain(
        self,
        descriptor: Value,
        owner: Value,
        metaclass: Value,
        data_only: bool,
    ) -> Reading {
        if data_only {
            Reading::Nothing
        } else {
            as_reading(self.bind(descriptor, Some(owner), metaclass))
        }
    }

    /// A metaclass attribute that is an instance, and so may be a descriptor.
    pub open spec fn metaclass_hook(
        self,
        descriptor: Value,
        descriptor_class: Value,
        owner: Value,
        metaclass: Value,
        data_only: bool,
    ) -> Reading {
        match self.class_lookup(descriptor_class, "__set__"@) {
            Err(error) => Reading::Fault(error),
            Ok(setter) => match self.class_lookup(descriptor_class, "__delete__"@) {
                Err(error) => Reading::Fault(error),
                Ok(deleter) => {
                    let data = setter is Some || deleter is Some;
                    if data_only && !data {
                        Reading::Nothing
                    } else {
                        match self.class_lookup(descriptor_class, "__get__"@) {
                            Err(error) => Reading::Fault(error),
                            Ok(Some(getter)) => Reading::Access(
                                self.get_hook(
                                    getter,
                                    descriptor,
                                    descriptor_class,
                                    owner,
                                    metaclass,
                                ),
                            ),
                            Ok(None) => if data {
                                Reading::Access(Access::Value(descriptor))
                            } else {
                                self.metaclass_plain(descriptor, owner, metaclass, data_only)
                            },
                        }
                    }
                },
            },
        }
    }

    /// A new instance of a class.
    pub open spec fn new_instance(self, class: Value, native: Option<Value>) -> Answer {
        match self.class_at(class) {
            Err(error) => Answer::Fault(error),
            Ok(_) => Answer::New(
                ObjectView::Instance { class, attributes: AttributesView::empty(), native },
            ),
        }
    }
}

impl Heap {
    /// Gives an answer, allocating its object if it has one.
    pub(crate) fn settle(&mut self, reply: Reply) -> (r: Result<Value>)
        requires
            old(self).wf(),
            reply.wf(&old(self)@.shapes),
        ensures
            final(self).wf(),
            counts_one(*old(self), *final(self)),
            answers(old(self)@, final(self)@, r, reply@),
    {
        match reply {
            Reply::Value(value) => Ok(value),
            Reply::New(object) => self.allocate(object),
            Reply::Fault(error) => Err(error),
        }
    }

    fn bind(&self, value: Value, instance: Option<Value>, owner_class: Value) -> (r: Reply)
        requires
            self.wf(),
        ensures
            r@ == self@.bind(value, instance, owner_class),
            r.wf(&self@.shapes),
    {
        match self.try_get(value) {
            Some(Object::StaticMethod(function)) => Reply::Value(*function),
            Some(Object::ClassMethod(function)) => Reply::New(
                Object::BoundMethod { function: *function, receiver: owner_class },
            ),
            Some(Object::Function { .. }) => match instance {
                Some(receiver) => Reply::New(Object::BoundMethod { function: value, receiver }),
                None => Reply::Value(value),
            },
            Some(Object::Builtin(builtin)) => match instance {
                Some(receiver) => if is_method(*builtin) {
                    Reply::New(Object::BoundMethod { function: value, receiver })
                } else {
                    Reply::Value(value)
                },
                None => Reply::Value(value),
            },
            _ => Reply::Value(value),
        }
    }

    fn inherited(&self, class: Value, name: &str, instance: Option<Value>) -> (r: Reply)
        requires
            self.wf(),
        ensures
            r@ == self@.inherited(class, name@, instance),
            r.wf(&self@.shapes),
    {
        match self.class_lookup(class, name) {
            Err(error) => Reply::Fault(error),
            Ok(None) => Reply::Fault(missing_attribute(name)),
            Ok(Some(value)) => self.bind(value, instance, class),
        }
    }

    fn instance_attr(&self, owner: Value, class: Value, name: &str) -> (r: Reply)
        requires
            self.wf(),
            self@.live(owner),
        ensures
            r@ == self@.instance_attr(owner, class, name@),
            r.wf(&self@.shapes),
    {
        match self.own_attribute(owner, name) {
            Some(value) => Reply::Value(value),
            None => self.inherited(class, name, Some(owner)),
        }
    }

    fn class_attr(&self, owner: Value, name: &str) -> (r: Reply)
        requires
            self.wf(),
            self@.at(owner) matches Some(ObjectView::Class(_)),
        ensures
            r@ == self@.class_attr(owner, self@.objects[owner]->Class_0, name@),
            r.wf(&self@.shapes),
    {
        match self.try_get(owner) {
            Some(Object::Class(class)) => {
                if same(name, "__class__") && class.metaclass != Value::unbound() {
                    Reply::Value(class.metaclass)
                } else if same(name, "__name__") {
                    Reply::New(Object::Str(class.name.clone()))
                } else if same(name, "__bases__") {
                    Reply::New(Object::Tuple(copy_values(&class.bases)))
                } else if same(name, "__mro__") {
                    let mut line: Vec<Value> = Vec::new();
                    line.push(owner);
                    crate::shapes::visit_all(&class.mro, &mut line);
                    assert(line@ =~= seq![owner] + class@.mro);
                    Reply::New(Object::Tuple(line))
                } else if same(name, "__dict__") {
                    Reply::New(Object::MappingProxy { class: owner })
                } else {
                    self.inherited(owner, name, None)
                }
            },
            _ => Reply::Fault(missing_attribute(name)),
        }
    }

    fn attr_reply(&self, owner: Value, name: &str) -> (r: Reply)
        requires
            self.wf(),
        ensures
            r@ == self@.attr(owner, name@),
            r.wf(&self@.shapes),
    {
        match self.try_get(owner) {
            Some(Object::Module(members)) => match lookup(members, name) {
                Some(value) => Reply::Value(value),
                None => Reply::Fault(missing_attribute(name)),
            },
            Some(Object::Class(_)) => self.class_attr(owner, name),
            Some(Object::Instance { class, .. }) => if same(name, "__class__") {
                Reply::Value(*class)
            } else if same(name, "__dict__") {
                Reply::Fault(
                    Diagnostic::new(
                        "UnsupportedFeature",
                        "instance __dict__ view is not implemented",
                    ),
                )
            } else {
                self.instance_attr(owner, *class, name)
            },
            Some(
                Object::Exception {
                    class,
                    arguments,
                    cause,
                    context,
                    suppress_context,
                    traceback,
                    ..
                },
            ) => if same(name, "__class__") {
                Reply::Value(*class)
            } else if same(name, "__cause__") {
                Reply::Value(value_or_none(*cause))
            } else if same(name, "__context__") {
                Reply::Value(value_or_none(*context))
            } else if same(name, "__suppress_context__") {
                Reply::Value(Value::bool(*suppress_context))
            } else if same(name, "__traceback__") {
                Reply::Value(value_or_none(*traceback))
            } else if same(name, "args") {
                Reply::New(Object::Tuple(copy_values(arguments)))
            } else if same(name, "__dict__") {
                Reply::Fault(
                    Diagnostic::new(
                        "UnsupportedFeature",
                        "exception __dict__ view is not implemented",
                    ),
                )
            } else {
                self.instance_attr(owner, *class, name)
            },
            Some(Object::BoundMethod { function, receiver }) => if same(name, "__func__") {
                Reply::Value(*function)
            } else if same(name, "__self__") {
                Reply::Value(*receiver)
            } else {
                Reply::Fault(missing_attribute(name))
            },
            Some(Object::StaticMethod(function)) => if same(name, "__func__") {
                Reply::Value(*function)
            } else {
                Reply::Fault(missing_attribute(name))
            },
            Some(Object::ClassMethod(function)) => if same(name, "__func__") {
                Reply::Value(*function)
            } else {
                Reply::Fault(missing_attribute(name))
            },
            Some(Object::Property { getter, setter, deleter }) => if same(name, "fget") {
                Reply::Value(value_or_none(*getter))
            } else if same(name, "fset") {
                Reply::Value(value_or_none(*setter))
            } else if same(name, "fdel") {
                Reply::Value(value_or_none(*deleter))
            } else if same(name, "setter") {
                Reply::New(Object::PropertySetter(owner))
            } else if same(name, "deleter") {
                Reply::New(Object::PropertyDeleter(owner))
            } else {
                Reply::Fault(missing_attribute(name))
            },
            _ => Reply::Fault(missing_attribute(name)),
        }
    }

    /// Reads an attribute, without descriptors that need a call.
    pub fn attr(&mut self, owner: Value, name: &str) -> (r: Result<Value>)
        requires
            old(self).wf(),
        ensures
            final(self).wf(),
            counts_one(*old(self), *final(self)),
            answers(old(self)@, final(self)@, r, old(self)@.attr(owner, name@)),
            old(self)@.sound() ==> final(self)@.sound(),
            old(self)@.sound() ==> (r matches Ok(value) ==> final(self)@.known(value)),
    {
        proof {
            self.lemma_view();
        }
        let reply = self.attr_reply(owner, name);
        let result = self.settle(reply);
        proof {
            if old(self)@.sound() {
                attribute_reads_keep_sound(old(self)@, self@, result, owner, name@);
            }
        }
        result
    }

    /// The class whose lineage `super` searches for a receiver.
    fn super_class(&self, receiver: Value) -> (r: Option<Value>)
        requires
            self.wf(),
        ensures
            r == self@.super_class(receiver),
    {
        match self.class_of(receiver) {
            Some(class) => Some(class),
            None => if self.is_class(receiver) {
                Some(receiver)
            } else {
                None
            },
        }
    }

    /// Makes a `super` object for a receiver.
    pub fn super_value(&mut self, start_class: Value, receiver: Value) -> (r: Result<Value>)
        requires
            old(self).wf(),
        ensures
            final(self).wf(),
            counts_one(*old(self), *final(self)),
            answers(old(self)@, final(self)@, r, old(self)@.super_value(start_class, receiver)),
            old(self)@.sound() ==> final(self)@.sound(),
    {
        proof {
            self.lemma_view();
        }
        if self.class(start_class).is_err() {
            return Err(Diagnostic::new("TypeError", "super() argument 1 must be a Tonic class"));
        }
        let owner_class = match self.super_class(receiver) {
            Some(class) => class,
            None => {
                return Err(
                    Diagnostic::new(
                        "TypeError",
                        "super() argument 2 must be an instance or subclass",
                    ),
                );
            },
        };
        let owner = self.class(owner_class)?;
        if owner_class != start_class && !contains(&owner.mro, start_class) {
            return Err(
                Diagnostic::new(
                    "TypeError",
                    "super() argument 2 is not an instance or subclass of argument 1",
                ),
            );
        }
        let result = self.allocate(Object::Super { start_class, receiver });
        proof {
            if old(self)@.sound() {
                super_objects_keep_sound(old(self)@, self@, result, start_class, receiver);
            }
        }
        result
    }

    /// Settles an answer into an access.
    fn settle_access(&mut self, reply: Reply) -> (r: Result<Option<DescriptorAccess>>)
        requires
            old(self).wf(),
            reply.wf(&old(self)@.shapes),
        ensures
            final(self).wf(),
            counts_one(*old(self), *final(self)),
            reads(old(self)@, final(self)@, r, as_reading(reply@)),
    {
        match self.settle(reply) {
            Ok(value) => Ok(Some(DescriptorAccess::Value(value))),
            Err(error) => Err(error),
        }
    }

    fn read_super(
        &mut self,
        descriptor: Value,
        name: &str,
        instance: Option<Value>,
        owner_class: Value,
    ) -> (r: Result<Option<DescriptorAccess>>)
        requires
            old(self).wf(),
        ensures
            final(self).wf(),
            counts_one(*old(self), *final(self)),
            reads(
                old(self)@,
                final(self)@,
                r,
                old(self)@.read_super(descriptor, name@, instance, owner_class),
            ),
    {
        if let Some(Object::Property { getter, .. }) = self.try_get(descriptor) {
            let receiver = match instance {
                None => {
                    return Ok(Some(DescriptorAccess::Value(descriptor)));
                },
                Some(receiver) => receiver,
            };
            return match getter {
                None => Err(missing_attribute(name)),
                Some(getter) => {
                    let positional: Vec<Value> = Vec::new();
                    Ok(
                        Some(
                            DescriptorAccess::Call {
                                callable: *getter,
                                receiver: Some(receiver),
                                positional,
                            },
                        ),
                    )
                },
            };
        }
        if let Some(class) = self.class_of(descriptor) {
            if let Some(getter) = self.class_lookup(class, "__get__")? {
                return Ok(
                    Some(
                        self.get_hook(
                            getter,
                            descriptor,
                            class,
                            value_or_none(instance),
                            owner_class,
                        ),
                    ),
                );
            }
        }
        let reply = self.bind(descriptor, instance, owner_class);
        self.settle_access(reply)
    }

    /// Reads a name through a `super` object.
    pub fn super_getter(&mut self, owner: Value, name: &str) -> (r: Result<
        Option<DescriptorAccess>,
    >)
        requires
            old(self).wf(),
        ensures
            final(self).wf(),
            counts_one(*old(self), *final(self)),
            reads(old(self)@, final(self)@, r, old(self)@.super_getter(owner, name@)),
            old(self)@.sound() ==> final(self)@.sound() && read_known(final(self)@, r),
    {
        proof {
            self.lemma_view();
        }
        proof {
            if self@.sound() {
                lemma_super_known(self@, owner, name@);
            }
        }
        let (start_class, receiver) = match self.try_get(owner) {
            Some(Object::Super { start_class, receiver }) => (*start_class, *receiver),
            _ => {
                return Ok(None);
            },
        };
        self.get(receiver)?;
        let owner_class = match self.super_class(receiver) {
            Some(class) => class,
            None => {
                return Err(Diagnostic::new("TypeError", "invalid super receiver"));
            },
        };
        if same(name, "__self__") {
            return Ok(Some(DescriptorAccess::Value(receiver)));
        }
        if same(name, "__thisclass__") {
            return Ok(Some(DescriptorAccess::Value(start_class)));
        }
        if same(name, "__self_class__") {
            return Ok(Some(DescriptorAccess::Value(owner_class)));
        }
        let line = self.lineage(owner_class)?;
        let start = match index_of(&line, start_class) {
            Some(start) => start,
            None => {
                return Err(Diagnostic::new("TypeError", "invalid super search class"));
            },
        };
        let descriptor = match self.lookup_behind(&line, name, start + 1)? {
            Some(descriptor) => descriptor,
            None => {
                return Err(missing_attribute(name));
            },
        };
        let instance = if self.class_of(receiver).is_some() {
            Some(receiver)
        } else {
            None
        };
        let result = self.read_super(descriptor, name, instance, owner_class);
        proof {
            if old(self)@.sound() {
                super_reads_keep_sound(old(self)@, self@, result, owner, name@);
            }
        }
        result
    }

    /// Reads a name through a descriptor on a class's metaclass.
    pub fn metaclass_getter(&mut self, owner: Value, name: &str, data_only: bool) -> (r: Result<
        Option<DescriptorAccess>,
    >)
        requires
            old(self).wf(),
        ensures
            final(self).wf(),
            counts_one(*old(self), *final(self)),
            reads(
                old(self)@,
                final(self)@,
                r,
                old(self)@.metaclass_getter(owner, name@, data_only),
            ),
            old(self)@.sound() ==> final(self)@.sound(),
    {
        proof {
            self.lemma_view();
        }
        let metaclass = match self.metaclass_of(owner) {
            Some(metaclass) => metaclass,
            None => {
                return Ok(None);
            },
        };
        let descriptor = match self.class_lookup(metaclass, name)? {
            Some(descriptor) => descriptor,
            None => {
                return Ok(None);
            },
        };
        if let Some(Object::Property { getter, .. }) = self.try_get(descriptor) {
            return match getter {
                None => Err(missing_attribute(name)),
                Some(getter) => {
                    let positional: Vec<Value> = Vec::new();
                    Ok(
                        Some(
                            DescriptorAccess::Call {
                                callable: *getter,
                                receiver: Some(owner),
                                positional,
                            },
                        ),
                    )
                },
            };
        }
        if let Some(class) = self.class_of(descriptor) {
            let setter = self.class_lookup(class, "__set__")?;
            let deleter = self.class_lookup(class, "__delete__")?;
            let data = setter.is_some() || deleter.is_some();
            if data_only && !data {
                return Ok(None);
            }
            if let Some(getter) = self.class_lookup(class, "__get__")? {
                return Ok(
                    Some(self.get_hook(getter, descriptor, class, owner, metaclass)),
                );
            }
            if data {
                return Ok(Some(DescriptorAccess::Value(descriptor)));
            }
        }
        if data_only {
            return Ok(None);
        }
        let reply = self.bind(descriptor, Some(owner), metaclass);
        let result = self.settle_access(reply);
        proof {
            if old(self)@.sound() {
                metaclass_reads_keep_sound(old(self)@, self@, result, owner, name@, data_only);
            }
        }
        result
    }

    /// Makes an instance of a class.
    pub fn instance(&mut self, class: Value) -> (r: Result<Value>)
        requires
            old(self).wf(),
        ensures
            final(self).wf(),
            counts_one(*old(self), *final(self)),
            answers(old(self)@, final(self)@, r, old(self)@.new_instance(class, None)),
            old(self)@.sound() ==> final(self)@.sound(),
    {
        self.instance_over(class, None)
    }

    /// Makes an instance of a class over builtin storage.
    pub fn native_instance(&mut self, class: Value, native: Value) -> (r: Result<Value>)
        requires
            old(self).wf(),
        ensures
            final(self).wf(),
            counts_one(*old(self), *final(self)),
            answers(old(self)@, final(self)@, r, old(self)@.new_instance(class, Some(native))),
            old(self)@.sound() && old(self)@.known(native) ==> final(self)@.sound(),
    {
        self.instance_over(class, Some(native))
    }

    fn instance_over(&mut self, class: Value, native: Option<Value>) -> (r: Result<Value>)
        requires
            old(self).wf(),
        ensures
            final(self).wf(),
            counts_one(*old(self), *final(self)),
            answers(old(self)@, final(self)@, r, old(self)@.new_instance(class, native)),
            old(self)@.sound() && (native matches Some(storage) ==> old(self)@.known(storage))
                ==> final(self)@.sound(),
    {
        self.class(class)?;
        proof {
            self.lemma_view();
        }
        let attributes = Attributes::new();
        let result = self.allocate(Object::Instance { class, attributes, native });
        proof {
            let before = old(self)@;
            if before.sound() && (native matches Some(storage) ==> before.known(storage)) {
                instances_keep_sound(before, self@, result, class, native);
            }
        }
        result
    }
}

/// The first position of a value.
fn index_of(values: &Vec<Value>, value: Value) -> (r: Option<usize>)
    ensures
        match r {
            Some(i) => i < values.len() && values@.contains(value) && values@.index_of_first(value)
                == Some(i as int),
            None => !values@.contains(value),
        },
{
    let mut i: usize = 0;
    while i < values.len()
        invariant
            i <= values.len(),
            forall|j: int| 0 <= j < i ==> values[j] != value,
        decreases values.len() - i,
    {
        if values[i] == value {
            proof {
                values@.index_of_first_ensures(value);
                assert(values@[i as int] == value);
                assert(values@.contains(value));
            }
            return Some(i);
        }
        i += 1;
    }
    None
}

} // verus!
