//! Attribute lookup along class lineages, and descriptor resolution. Nothing
//! here changes the heap, and no result is cached.
use vstd::prelude::*;
use crate::class::{Class, ClassView};
use crate::diagnostic::{fault, fault_text, outcome, Diagnostic, Fault, Result};
use crate::edges::contains;
use crate::heap::{Heap, HeapView};
use crate::object::{Builtin, Object, ObjectView};
use crate::shapes::{last_slot, AttributesView, ShapeId};
use crate::text::{join3, lookup, same};
use crate::value::Value;

verus! {

/// A callable, with the receiver that goes before the arguments if there is
/// one.
#[derive(Clone, Copy, Debug, PartialEq, Eq)]
pub struct DescriptorCall {
    pub callable: Value,
    pub receiver: Option<Value>,
}

/// How an attribute that a descriptor manages is had: as it stands, or by a
/// call.
#[derive(Debug)]
pub enum DescriptorAccess {
    Value(Value),
    Call {
        callable: Value,
        receiver: Option<Value>,
        /// The arguments after the receiver.
        positional: Vec<Value>,
    },
}

/// See [`DescriptorAccess`].
#[verifier::ext_equal]
pub enum Access {
    Value(Value),
    Call { callable: Value, receiver: Option<Value>, positional: Seq<Value> },
}

impl View for DescriptorAccess {
    type V = Access;

    open spec fn view(&self) -> Access {
        match self {
            DescriptorAccess::Value(value) => Access::Value(*value),
            DescriptorAccess::Call { callable, receiver, positional } => Access::Call {
                callable: *callable,
                receiver: *receiver,
                positional: positional@,
            },
        }
    }
}

#[derive(Clone, Copy, Debug, PartialEq, Eq, Structural)]
pub enum DirectMethodKind {
    Static,
    Instance,
    Class,
}

/// A result of a lookup with its diagnostic reduced to what it says.
pub type Outcome<T> = core::result::Result<T, Fault>;

/// The fault of an attribute that is not there.
pub open spec fn missing(name: Seq<char>) -> Fault {
    fault_text("AttributeError", "object has no attribute '"@ + name + "'"@)
}

/// The fault of a property without the wanted accessor.
pub open spec fn no_accessor(name: Seq<char>, accessor: &str) -> Fault {
    fault_text("AttributeError", "property '"@ + name + accessor@)
}

pub fn missing_attribute(name: &str) -> (r: Diagnostic)
    ensures
        r@ == missing(name@),
{
    Diagnostic::with_text("AttributeError", join3("object has no attribute '", name, "'"))
}

fn accessor_missing(name: &str, accessor: &str) -> (r: Diagnostic)
    ensures
        r@ == no_accessor(name@, accessor),
{
    Diagnostic::with_text("AttributeError", join3("property '", name, accessor))
}

/// Whether a builtin is a method of its receiver.
pub open spec fn binds_receiver(builtin: Builtin) -> bool {
    match builtin {
        Builtin::ObjectGetAttribute => true,
        Builtin::ObjectSetAttr => true,
        Builtin::ObjectDelAttr => true,
        Builtin::TypeGetAttribute => true,
        Builtin::TypeSetAttr => true,
        Builtin::TypeDelAttr => true,
        _ => false,
    }
}

/// See [`binds_receiver`].
pub fn is_method(builtin: Builtin) -> (r: bool)
    ensures
        r == binds_receiver(builtin),
{
    match builtin {
        Builtin::ObjectGetAttribute
        | Builtin::ObjectSetAttr
        | Builtin::ObjectDelAttr
        | Builtin::TypeGetAttribute
        | Builtin::TypeSetAttr
        | Builtin::TypeDelAttr => true,
        _ => false,
    }
}

impl HeapView {
    /// The class behind a value.
    pub open spec fn class_at(self, value: Value) -> Outcome<ClassView> {
        match self.found(value) {
            Ok(ObjectView::Class(class)) => Ok(class),
            Ok(_) => Err(fault("TypeError", "expected a Tonic class")),
            Err(error) => Err(error),
        }
    }

    /// The first attribute of a name along a lineage, from a position on.
    pub open spec fn lookup_from(self, lineage: Seq<Value>, name: Seq<char>, from: int) -> Outcome<
        Option<Value>,
    >
        decreases lineage.len() - from,
    {
        if from < 0 || from >= lineage.len() {
            Ok(None)
        } else {
            match self.class_at(lineage[from]) {
                Err(error) => Err(error),
                Ok(class) => match class.own(name) {
                    Some(value) => Ok(Some(value)),
                    None => self.lookup_from(lineage, name, from + 1),
                },
            }
        }
    }

    /// The attribute a class has, from itself or from an ancestor.
    pub open spec fn class_lookup(self, owner: Value, name: Seq<char>) -> Outcome<Option<Value>> {
        match self.class_at(owner) {
            Err(error) => Err(error),
            Ok(class) => self.lookup_from(seq![owner] + class.mro, name, 0),
        }
    }

    /// Whether a class is another or descends from it.
    pub open spec fn class_is_subclass(self, class: Value, target: Value) -> Outcome<bool> {
        match self.class_at(class) {
            Err(error) => Err(error),
            Ok(held) => match self.class_at(target) {
                Err(error) => Err(error),
                Ok(wanted) => Ok(held.id == wanted.id || held.mro.contains(target)),
            },
        }
    }

    /// How a class attribute is called through a descriptor's owner.
    pub open spec fn descriptor_callable(
        self,
        value: Value,
        descriptor: Value,
        descriptor_class: Value,
    ) -> DescriptorCall {
        match self.at(value) {
            Some(ObjectView::StaticMethod(function)) => DescriptorCall {
                callable: function,
                receiver: None,
            },
            Some(ObjectView::ClassMethod(function)) => DescriptorCall {
                callable: function,
                receiver: Some(descriptor_class),
            },
            Some(ObjectView::Function { .. }) => DescriptorCall {
                callable: value,
                receiver: Some(descriptor),
            },
            Some(ObjectView::Builtin(builtin)) => DescriptorCall {
                callable: value,
                receiver: if binds_receiver(builtin) {
                    Some(descriptor)
                } else {
                    None
                },
            },
            _ => DescriptorCall { callable: value, receiver: None },
        }
    }

    /// The class of an instance or exception.
    pub open spec fn class_of(self, value: Value) -> Option<Value> {
        match self.at(value) {
            Some(object) => object.class_of(),
            None => None,
        }
    }

    /// The metaclass of a class that has one.
    pub open spec fn metaclass_of(self, value: Value) -> Option<Value> {
        match self.at(value) {
            Some(ObjectView::Class(class)) => if class.metaclass != Value::unbound() {
                Some(class.metaclass)
            } else {
                None
            },
            _ => None,
        }
    }

    /// The protocol method that an instance's class defines. Attributes of the
    /// instance itself do not count.
    pub open spec fn special_method_call(self, instance: Value, name: Seq<char>) -> Outcome<
        Option<DescriptorCall>,
    > {
        match self.class_of(instance) {
            None => Ok(None),
            Some(class) => match self.class_lookup(class, name) {
                Err(error) => Err(error),
                Ok(None) => Ok(None),
                Ok(Some(callable)) => Ok(
                    Some(self.descriptor_callable(callable, instance, class)),
                ),
            },
        }
    }

    /// The protocol method that a class object's metaclass defines.
    pub open spec fn metaclass_method_call(self, class: Value, name: Seq<char>) -> Outcome<
        Option<DescriptorCall>,
    > {
        match self.class_at(class) {
            Err(error) => Err(error),
            Ok(held) => if held.metaclass == Value::unbound() {
                Ok(None)
            } else {
                match self.class_lookup(held.metaclass, name) {
                    Err(error) => Err(error),
                    Ok(None) => Ok(None),
                    Ok(Some(callable)) => Ok(
                        Some(self.descriptor_callable(callable, class, held.metaclass)),
                    ),
                }
            },
        }
    }

    /// An attribute interception hook other than the canonical one.
    pub open spec fn custom_attribute_method(
        self,
        owner: Value,
        name: Seq<char>,
        default: Builtin,
    ) -> Outcome<Option<DescriptorCall>> {
        let call = if self.at(owner) matches Some(ObjectView::Class(_)) {
            self.metaclass_method_call(owner, name)
        } else {
            self.special_method_call(owner, name)
        };
        match call {
            Err(error) => Err(error),
            Ok(None) => Ok(None),
            Ok(Some(call)) => if call.receiver == Some(owner) && self.at(call.callable) == Some(
                ObjectView::Builtin(default),
            ) {
                Ok(None)
            } else {
                Ok(Some(call))
            },
        }
    }

    /// Whether attribute reads of an owner are intercepted.
    pub open spec fn has_custom_getattribute(self, owner: Value) -> bool {
        let default = if self.at(owner) matches Some(ObjectView::Class(_)) {
            Builtin::TypeGetAttribute
        } else {
            Builtin::ObjectGetAttribute
        };
        self.custom_attribute_method(owner, "__getattribute__"@, default) matches Ok(Some(_))
    }

    /// The class attribute that an instance's attribute name leads to.
    pub open spec fn instance_descriptor(self, owner: Value, name: Seq<char>) -> Outcome<
        Option<Value>,
    > {
        match self.class_of(owner) {
            None => Ok(None),
            Some(class) => self.class_lookup(class, name),
        }
    }

    /// The class attribute that a class's attribute name leads to on its
    /// metaclass.
    pub open spec fn metaclass_descriptor(self, owner: Value, name: Seq<char>) -> Outcome<
        Option<Value>,
    > {
        match self.metaclass_of(owner) {
            None => Ok(None),
            Some(metaclass) => self.class_lookup(metaclass, name),
        }
    }

    /// The getter of a property.
    pub open spec fn getter_of(self, descriptor: Outcome<Option<Value>>, name: Seq<char>) -> Outcome<
        Option<Value>,
    > {
        match descriptor {
            Err(error) => Err(error),
            Ok(None) => Ok(None),
            Ok(Some(value)) => match self.at(value) {
                Some(ObjectView::Property { getter: Some(f), .. }) => Ok(Some(f)),
                Some(ObjectView::Property { getter: None, .. }) => Err(missing(name)),
                _ => Ok(None),
            },
        }
    }

    /// The setter of a property.
    pub open spec fn setter_of(self, descriptor: Outcome<Option<Value>>, name: Seq<char>) -> Outcome<
        Option<Value>,
    > {
        match descriptor {
            Err(error) => Err(error),
            Ok(None) => Ok(None),
            Ok(Some(value)) => match self.at(value) {
                Some(ObjectView::Property { setter: Some(f), .. }) => Ok(Some(f)),
                Some(ObjectView::Property { setter: None, .. }) => Err(
                    no_accessor(name, "' has no setter"),
                ),
                _ => Ok(None),
            },
        }
    }

    /// The deleter of a property.
    pub open spec fn deleter_of(
        self,
        descriptor: Outcome<Option<Value>>,
        name: Seq<char>,
    ) -> Outcome<Option<Value>> {
        match descriptor {
            Err(error) => Err(error),
            Ok(None) => Ok(None),
            Ok(Some(value)) => match self.at(value) {
                Some(ObjectView::Property { deleter: Some(f), .. }) => Ok(Some(f)),
                Some(ObjectView::Property { deleter: None, .. }) => Err(
                    no_accessor(name, "' has no deleter"),
                ),
                _ => Ok(None),
            },
        }
    }

    /// The `wanted` hook of a descriptor; one that has only the `other` hook
    /// refuses.
    pub open spec fn hook_of(
        self,
        descriptor: Outcome<Option<Value>>,
        wanted: &str,
        other: &str,
    ) -> Outcome<Option<DescriptorCall>> {
        match descriptor {
            Err(error) => Err(error),
            Ok(None) => Ok(None),
            Ok(Some(value)) => match self.class_of(value) {
                None => Ok(None),
                Some(class) => match self.class_lookup(class, wanted@) {
                    Err(error) => Err(error),
                    Ok(Some(hook)) => Ok(Some(self.descriptor_callable(hook, value, class))),
                    Ok(None) => match self.class_lookup(class, other@) {
                        Err(error) => Err(error),
                        Ok(Some(_)) => Err(fault("AttributeError", wanted)),
                        Ok(None) => Ok(None),
                    },
                },
            },
        }
    }

    /// How a descriptor is read through its `__get__` hook.
    pub open spec fn get_hook(
        self,
        getter: Value,
        descriptor: Value,
        descriptor_class: Value,
        instance: Value,
        owner_class: Value,
    ) -> Access {
        let call = self.descriptor_callable(getter, descriptor, descriptor_class);
        Access::Call {
            callable: call.callable,
            receiver: call.receiver,
            positional: seq![instance, owner_class],
        }
    }

    /// How a descriptor of `descriptor_class` is read where an instance may
    /// shadow it.
    pub open spec fn read_descriptor(
        self,
        descriptor: Value,
        descriptor_class: Value,
        instance: Value,
        owner_class: Value,
        shadowed: bool,
    ) -> Outcome<Option<Access>> {
        match self.class_lookup(descriptor_class, "__set__"@) {
            Err(error) => Err(error),
            Ok(setter) => match self.class_lookup(descriptor_class, "__delete__"@) {
                Err(error) => Err(error),
                Ok(deleter) => if shadowed && setter is None && deleter is None {
                    Ok(None)
                } else {
                    match self.class_lookup(descriptor_class, "__get__"@) {
                        Err(error) => Err(error),
                        Ok(None) => if setter is Some || deleter is Some {
                            Ok(Some(Access::Value(descriptor)))
                        } else {
                            Ok(None)
                        },
                        Ok(Some(getter)) => Ok(
                            Some(
                                self.get_hook(
                                    getter,
                                    descriptor,
                                    descriptor_class,
                                    instance,
                                    owner_class,
                                ),
                            ),
                        ),
                    }
                },
            },
        }
    }

    /// How a name is read through a descriptor on the owner's class, or on the
    /// owner if it is a class.
    pub open spec fn descriptor_getter(self, owner: Value, name: Seq<char>) -> Outcome<
        Option<Access>,
    > {
        match self.class_of(owner) {
            Some(class) => match self.class_lookup(class, name) {
                Err(error) => Err(error),
                Ok(None) => Ok(None),
                Ok(Some(descriptor)) => match self.class_of(descriptor) {
                    None => Ok(None),
                    Some(descriptor_class) => self.read_descriptor(
                        descriptor,
                        descriptor_class,
                        owner,
                        class,
                        self.attribute(owner, name) is Some,
                    ),
                },
            },
            None => if self.at(owner) matches Some(ObjectView::Class(_)) {
                match self.class_lookup(owner, name) {
                    Err(error) => Err(error),
                    Ok(None) => Ok(None),
                    Ok(Some(descriptor)) => match self.class_of(descriptor) {
                        None => Ok(None),
                        Some(descriptor_class) => self.read_descriptor(
                            descriptor,
                            descriptor_class,
                            Value::none(),
                            owner,
                            false,
                        ),
                    },
                }
            } else {
                Ok(None)
            },
        }
    }

    /// The method that ordinary access leads to without a bound method object.
    pub open spec fn direct_method(self, owner: Value, name: Seq<char>) -> Option<
        (Value, DirectMethodKind, Option<Value>),
    > {
        if self.has_custom_getattribute(owner) {
            None
        } else {
            match self.at(owner) {
                None => None,
                Some(object) => {
                    let instance = object.class_of() is Some;
                    let class = match object.class_of() {
                        Some(class) => class,
                        None => owner,
                    };
                    if instance && self.attribute(owner, name) is Some {
                        None
                    } else if !instance && !(object is Class) {
                        None
                    } else {
                        match self.class_lookup(class, name) {
                            Ok(Some(descriptor)) => match self.at(descriptor) {
                                Some(ObjectView::Function { .. }) => if instance {
                                    Some((descriptor, DirectMethodKind::Instance, Some(owner)))
                                } else {
                                    Some((descriptor, DirectMethodKind::Static, None))
                                },
                                Some(ObjectView::StaticMethod(function)) => if self.at(
                                    function,
                                ) matches Some(ObjectView::Function { .. }) {
                                    Some((function, DirectMethodKind::Static, None))
                                } else {
                                    None
                                },
                                Some(ObjectView::ClassMethod(function)) => if self.at(
                                    function,
                                ) matches Some(ObjectView::Function { .. }) {
                                    Some((function, DirectMethodKind::Class, Some(class)))
                                } else {
                                    None
                                },
                                _ => None,
                            },
                            _ => None,
                        }
                    }
                },
            }
        }
    }

    /// Whether a name is answered by the object itself before its attributes.
    pub open spec fn reserved(name: Seq<char>) -> bool {
        name == "__class__"@ || name == "__cause__"@ || name == "__context__"@ || name
            == "__suppress_context__"@ || name == "__traceback__"@ || name == "args"@
    }

    /// What a slot cache holds of an instance attribute: the class, the
    /// layout, the slot and the class version. Only names that the whole
    /// lineage lacks are cached: a class value that is inert today may become
    /// a data descriptor when its own class changes.
    pub open spec fn instance_slot_cache(self, owner: Value, name: Seq<char>) -> Option<
        (Value, ShapeId, int, u64),
    > {
        if self.has_custom_getattribute(owner) || HeapView::reserved(name) {
            None
        } else {
            match self.class_of(owner) {
                None => None,
                Some(class) => if self.class_lookup(class, name) matches Ok(Some(_)) {
                    None
                } else {
                    match self.objects[owner].attributes_of() {
                        Some(AttributesView::Slots { shape, .. }) => match (
                            last_slot(self.shapes.layout(shape), name),
                            self.class_at(class),
                        ) {
                            (Some(slot), Ok(held)) => Some((class, shape, slot, held.version)),
                            _ => None,
                        },
                        _ => None,
                    }
                },
            }
        }
    }

    /// What a slot cache entry leads to, while its class and layout hold.
    pub open spec fn cached_instance_slot(
        self,
        owner: Value,
        class: Value,
        shape: ShapeId,
        slot: int,
        epoch: u64,
    ) -> Option<Value> {
        match self.class_of(owner) {
            Some(actual) => if actual == class && (self.class_at(actual) matches Ok(held)
                && held.version == epoch) {
                match self.objects[owner].attributes_of() {
                    Some(AttributesView::Slots { shape: held, values }) => if held == shape && 0
                        <= slot < values.len() {
                        Some(values[slot])
                    } else {
                        None
                    },
                    _ => None,
                }
            } else {
                None
            },
            None => None,
        }
    }
}

/// A cached slot gives what the attribute lookup would: the cache never
/// changes an answer while its guards hold.
pub proof fn cached_slots_are_faithful(heap: HeapView, owner: Value, name: Seq<char>)
    requires
        heap.wf(),
        heap.instance_slot_cache(owner, name) is Some,
    ensures
        ({
            let (class, shape, slot, epoch) = heap.instance_slot_cache(owner, name).unwrap();
            heap.cached_instance_slot(owner, class, shape, slot, epoch) == heap.attribute(
                owner,
                name,
            ) && heap.attribute(owner, name) is Some
        }),
{
    let (class, shape, slot, epoch) = heap.instance_slot_cache(owner, name).unwrap();
    assert(heap.objects[owner].wf(&heap.shapes));
    crate::shapes::lemma_last_slot(heap.shapes.layout(shape), name);
}

impl Heap {
    /// The class behind a value.
    pub fn class(&self, value: Value) -> (r: Result<&Class>)
        requires
            self.wf(),
        ensures
            match r {
                Ok(class) => self@.class_at(value) == Ok::<ClassView, Fault>(class@),
                Err(error) => self@.class_at(value) == Err::<ClassView, Fault>(error@),
            },
    {
        match self.get(value)? {
            Object::Class(class) => Ok(class),
            _ => Err(Diagnostic::new("TypeError", "expected a Tonic class")),
        }
    }

    fn lookup_in(&self, lineage: &Vec<Value>, name: &str, from: usize) -> (r: Result<Option<Value>>)
        requires
            self.wf(),
            from <= lineage.len(),
        ensures
            outcome(r) == self@.lookup_from(lineage@, name@, from as int),
    {
        let mut i: usize = from;
        while i < lineage.len()
            invariant
                self.wf(),
                i <= lineage.len(),
                self@.lookup_from(lineage@, name@, from as int) == self@.lookup_from(
                    lineage@,
                    name@,
                    i as int,
                ),
            decreases lineage.len() - i,
        {
            let class = self.class(lineage[i])?;
            if let Some(value) = lookup(&class.attributes, name) {
                return Ok(Some(value));
            }
            i += 1;
        }
        Ok(None)
    }

    /// A class followed by its ancestors.
    pub fn lineage(&self, owner: Value) -> (r: Result<Vec<Value>>)
        requires
            self.wf(),
        ensures
            match r {
                Ok(lineage) => self@.class_at(owner) matches Ok(class) && lineage@ == seq![owner]
                    + class.mro,
                Err(error) => self@.class_at(owner) == Err::<ClassView, Fault>(error@),
            },
    {
        let class = self.class(owner)?;
        let mut lineage: Vec<Value> = Vec::new();
        lineage.push(owner);
        crate::shapes::visit_all(&class.mro, &mut lineage);
        assert(lineage@ =~= seq![owner] + class@.mro);
        Ok(lineage)
    }

    pub fn class_lookup(&self, owner: Value, name: &str) -> (r: Result<Option<Value>>)
        requires
            self.wf(),
        ensures
            outcome(r) == self@.class_lookup(owner, name@),
    {
        let lineage = self.lineage(owner)?;
        self.lookup_in(&lineage, name, 0)
    }

    /// The class attribute of a name behind a position of a lineage.
    pub(crate) fn lookup_behind(&self, lineage: &Vec<Value>, name: &str, from: usize) -> (r: Result<
        Option<Value>,
    >)
        requires
            self.wf(),
            from <= lineage.len(),
        ensures
            outcome(r) == self@.lookup_from(lineage@, name@, from as int),
    {
        self.lookup_in(lineage, name, from)
    }

    pub fn class_is_subclass(&self, class: Value, target: Value) -> (r: Result<bool>)
        requires
            self.wf(),
        ensures
            outcome(r) == self@.class_is_subclass(class, target),
    {
        let held = self.class(class)?;
        let wanted = self.class(target)?;
        Ok(held.id == wanted.id || contains(&held.mro, target))
    }

    /// The class of an instance or exception.
    pub fn class_of(&self, value: Value) -> (r: Option<Value>)
        requires
            self.wf(),
        ensures
            r == self@.class_of(value),
    {
        match self.try_get(value) {
            Some(object) => object.instance_class(),
            None => None,
        }
    }

    /// The metaclass of a class that has one.
    pub fn metaclass_of(&self, value: Value) -> (r: Option<Value>)
        requires
            self.wf(),
        ensures
            r == self@.metaclass_of(value),
    {
        match self.try_get(value) {
            Some(Object::Class(class)) => if class.metaclass != Value::unbound() {
                Some(class.metaclass)
            } else {
                None
            },
            _ => None,
        }
    }

    /// Whether a value is a class.
    pub fn is_class(&self, value: Value) -> (r: bool)
        requires
            self.wf(),
        ensures
            r == (self@.at(value) matches Some(ObjectView::Class(_))),
    {
        match self.try_get(value) {
            Some(Object::Class(_)) => true,
            _ => false,
        }
    }

    /// Whether a value is a function of the language.
    pub fn is_function(&self, value: Value) -> (r: bool)
        requires
            self.wf(),
        ensures
            r == (self@.at(value) matches Some(ObjectView::Function { .. })),
    {
        match self.try_get(value) {
            Some(Object::Function { .. }) => true,
            _ => false,
        }
    }

    /// The attribute an instance or exception itself holds.
    pub fn own_attribute(&self, owner: Value, name: &str) -> (r: Option<Value>)
        requires
            self.wf(),
            self@.live(owner),
        ensures
            r == self@.attribute(owner, name@),
    {
        proof {
            self.lemma_view();
        }
        match self.try_get(owner) {
            Some(object) => match object.instance_parts() {
                Some((_, attributes)) => attributes.get(self.shapes(), name),
                None => {
                    assert(object@.attributes_of() is None);
                    None
                },
            },
            None => None,
        }
    }

    pub fn descriptor_callable(
        &self,
        value: Value,
        descriptor: Value,
        descriptor_class: Value,
    ) -> (r: DescriptorCall)
        requires
            self.wf(),
        ensures
            r == self@.descriptor_callable(value, descriptor, descriptor_class),
    {
        match self.try_get(value) {
            Some(Object::StaticMethod(function)) => DescriptorCall {
                callable: *function,
                receiver: None,
            },
            Some(Object::ClassMethod(function)) => DescriptorCall {
                callable: *function,
                receiver: Some(descriptor_class),
            },
            Some(Object::Function { .. }) => DescriptorCall {
                callable: value,
                receiver: Some(descriptor),
            },
            Some(Object::Builtin(builtin)) => DescriptorCall {
                callable: value,
                receiver: if is_method(*builtin) {
                    Some(descriptor)
                } else {
                    None
                },
            },
            _ => DescriptorCall { callable: value, receiver: None },
        }
    }

    /// Resolve an implicitly invoked protocol on the instance's class.
    pub fn special_method_call(&self, instance: Value, name: &str) -> (r: Result<
        Option<DescriptorCall>,
    >)
        requires
            self.wf(),
        ensures
            outcome(r) == self@.special_method_call(instance, name@),
    {
        let class = match self.class_of(instance) {
            None => {
                return Ok(None);
            },
            Some(class) => class,
        };
        match self.class_lookup(class, name)? {
            None => Ok(None),
            Some(callable) => Ok(Some(self.descriptor_callable(callable, instance, class))),
        }
    }

    /// Resolve a protocol implemented by a class object's metaclass.
    pub fn metaclass_method_call(&self, class: Value, name: &str) -> (r: Result<
        Option<DescriptorCall>,
    >)
        requires
            self.wf(),
        ensures
            outcome(r) == self@.metaclass_method_call(class, name@),
    {
        let metaclass = self.class(class)?.metaclass;
        if metaclass == Value::unbound() {
            return Ok(None);
        }
        match self.class_lookup(metaclass, name)? {
            None => Ok(None),
            Some(callable) => Ok(Some(self.descriptor_callable(callable, class, metaclass))),
        }
    }

    fn is_builtin(&self, value: Value, expected: Builtin) -> (r: bool)
        requires
            self.wf(),
        ensures
            r == (self@.at(value) == Some(ObjectView::Builtin(expected))),
    {
        match self.try_get(value) {
            Some(Object::Builtin(actual)) => *actual == expected,
            _ => false,
        }
    }

    /// Resolve an attribute interception hook, excluding the canonical
    /// implementation. The receiver comparison distinguishes the inherited
    /// method descriptor from static and class method wrappers around it.
    pub fn custom_attribute_method(&self, owner: Value, name: &str, default: Builtin) -> (r: Result<
        Option<DescriptorCall>,
    >)
        requires
            self.wf(),
        ensures
            outcome(r) == self@.custom_attribute_method(owner, name@, default),
    {
        let call = if self.is_class(owner) {
            self.metaclass_method_call(owner, name)?
        } else {
            self.special_method_call(owner, name)?
        };
        match call {
            None => Ok(None),
            Some(call) => {
                let bound = match call.receiver {
                    Some(receiver) => receiver == owner,
                    None => false,
                };
                if bound && self.is_builtin(call.callable, default) {
                    Ok(None)
                } else {
                    Ok(Some(call))
                }
            },
        }
    }

    pub fn has_custom_getattribute(&self, owner: Value) -> (r: bool)
        requires
            self.wf(),
        ensures
            r == self@.has_custom_getattribute(owner),
    {
        let default = if self.is_class(owner) {
            Builtin::TypeGetAttribute
        } else {
            Builtin::ObjectGetAttribute
        };
        match self.custom_attribute_method(owner, "__getattribute__", default) {
            Ok(Some(_)) => true,
            _ => false,
        }
    }

    fn instance_descriptor(&self, owner: Value, name: &str) -> (r: Result<Option<Value>>)
        requires
            self.wf(),
        ensures
            outcome(r) == self@.instance_descriptor(owner, name@),
    {
        match self.class_of(owner) {
            None => Ok(None),
            Some(class) => self.class_lookup(class, name),
        }
    }

    fn metaclass_descriptor(&self, owner: Value, name: &str) -> (r: Result<Option<Value>>)
        requires
            self.wf(),
        ensures
            outcome(r) == self@.metaclass_descriptor(owner, name@),
    {
        match self.metaclass_of(owner) {
            None => Ok(None),
            Some(metaclass) => self.class_lookup(metaclass, name),
        }
    }

    fn setter_of(&self, descriptor: Option<Value>, name: &str) -> (r: Result<Option<Value>>)
        requires
            self.wf(),
        ensures
            outcome(r) == self@.setter_of(Ok(descriptor), name@),
    {
        let value = match descriptor {
            None => {
                return Ok(None);
            },
            Some(value) => value,
        };
        match self.try_get(value) {
            Some(Object::Property { setter: Some(f), .. }) => Ok(Some(*f)),
            Some(Object::Property { setter: None, .. }) => Err(
                accessor_missing(name, "' has no setter"),
            ),
            _ => Ok(None),
        }
    }

    fn deleter_of(&self, descriptor: Option<Value>, name: &str) -> (r: Result<Option<Value>>)
        requires
            self.wf(),
        ensures
            outcome(r) == self@.deleter_of(Ok(descriptor), name@),
    {
        let value = match descriptor {
            None => {
                return Ok(None);
            },
            Some(value) => value,
        };
        match self.try_get(value) {
            Some(Object::Property { deleter: Some(f), .. }) => Ok(Some(*f)),
            Some(Object::Property { deleter: None, .. }) => Err(
                accessor_missing(name, "' has no deleter"),
            ),
            _ => Ok(None),
        }
    }

    fn hook_of(&self, descriptor: Option<Value>, wanted: &'static str, other: &'static str) -> (r:
        Result<Option<DescriptorCall>>)
        requires
            self.wf(),
        ensures
            outcome(r) == self@.hook_of(Ok(descriptor), wanted, other),
    {
        let value = match descriptor {
            None => {
                return Ok(None);
            },
            Some(value) => value,
        };
        let class = match self.class_of(value) {
            None => {
                return Ok(None);
            },
            Some(class) => class,
        };
        match self.class_lookup(class, wanted)? {
            Some(hook) => Ok(Some(self.descriptor_callable(hook, value, class))),
            None => match self.class_lookup(class, other)? {
                Some(_) => Err(Diagnostic::new("AttributeError", wanted)),
                None => Ok(None),
            },
        }
    }

    pub fn property_getter(&self, owner: Value, name: &str) -> (r: Result<Option<Value>>)
        requires
            self.wf(),
        ensures
            outcome(r) == self@.getter_of(self@.instance_descriptor(owner, name@), name@),
    {
        let value = match self.instance_descriptor(owner, name)? {
            None => {
                return Ok(None);
            },
            Some(value) => value,
        };
        match self.try_get(value) {
            Some(Object::Property { getter: Some(f), .. }) => Ok(Some(*f)),
            Some(Object::Property { getter: None, .. }) => Err(missing_attribute(name)),
            _ => Ok(None),
        }
    }

    pub fn property_setter(&self, owner: Value, name: &str) -> (r: Result<Option<Value>>)
        requires
            self.wf(),
        ensures
            outcome(r) == self@.setter_of(self@.instance_descriptor(owner, name@), name@),
    {
        let descriptor = self.instance_descriptor(owner, name)?;
        self.setter_of(descriptor, name)
    }

    pub fn property_deleter(&self, owner: Value, name: &str) -> (r: Result<Option<Value>>)
        requires
            self.wf(),
        ensures
            outcome(r) == self@.deleter_of(self@.instance_descriptor(owner, name@), name@),
    {
        let descriptor = self.instance_descriptor(owner, name)?;
        self.deleter_of(descriptor, name)
    }

    pub fn metaclass_property_setter(&self, owner: Value, name: &str) -> (r: Result<Option<Value>>)
        requires
            self.wf(),
        ensures
            outcome(r) == self@.setter_of(self@.metaclass_descriptor(owner, name@), name@),
    {
        let descriptor = self.metaclass_descriptor(owner, name)?;
        self.setter_of(descriptor, name)
    }

    pub fn metaclass_property_deleter(&self, owner: Value, name: &str) -> (r: Result<
        Option<Value>,
    >)
        requires
            self.wf(),
        ensures
            outcome(r) == self@.deleter_of(self@.metaclass_descriptor(owner, name@), name@),
    {
        let descriptor = self.metaclass_descriptor(owner, name)?;
        self.deleter_of(descriptor, name)
    }

    pub fn metaclass_descriptor_setter(&self, owner: Value, name: &str) -> (r: Result<
        Option<DescriptorCall>,
    >)
        requires
            self.wf(),
        ensures
            outcome(r) == self@.hook_of(
                self@.metaclass_descriptor(owner, name@),
                "__set__",
                "__delete__",
            ),
    {
        let descriptor = self.metaclass_descriptor(owner, name)?;
        self.hook_of(descriptor, "__set__", "__delete__")
    }

    pub fn metaclass_descriptor_deleter(&self, owner: Value, name: &str) -> (r: Result<
        Option<DescriptorCall>,
    >)
        requires
            self.wf(),
        ensures
            outcome(r) == self@.hook_of(
                self@.metaclass_descriptor(owner, name@),
                "__delete__",
                "__set__",
            ),
    {
        let descriptor = self.metaclass_descriptor(owner, name)?;
        self.hook_of(descriptor, "__delete__", "__set__")
    }

    pub fn descriptor_setter(&self, owner: Value, name: &str) -> (r: Result<Option<DescriptorCall>>)
        requires
            self.wf(),
        ensures
            outcome(r) == self@.hook_of(
                self@.instance_descriptor(owner, name@),
                "__set__",
                "__delete__",
            ),
    {
        let descriptor = self.instance_descriptor(owner, name)?;
        self.hook_of(descriptor, "__set__", "__delete__")
    }

    pub fn descriptor_deleter(&self, owner: Value, name: &str) -> (r: Result<
        Option<DescriptorCall>,
    >)
        requires
            self.wf(),
        ensures
            outcome(r) == self@.hook_of(
                self@.instance_descriptor(owner, name@),
                "__delete__",
                "__set__",
            ),
    {
        let descriptor = self.instance_descriptor(owner, name)?;
        self.hook_of(descriptor, "__delete__", "__set__")
    }

    /// A read through a descriptor's `__get__` hook.
    pub(crate) fn get_hook(
        &self,
        getter: Value,
        descriptor: Value,
        descriptor_class: Value,
        instance: Value,
        owner_class: Value,
    ) -> (r: DescriptorAccess)
        requires
            self.wf(),
        ensures
            r@ == self@.get_hook(getter, descriptor, descriptor_class, instance, owner_class),
    {
        let call = self.descriptor_callable(getter, descriptor, descriptor_class);
        let mut positional: Vec<Value> = Vec::new();
        positional.push(instance);
        positional.push(owner_class);
        assert(positional@ =~= seq![instance, owner_class]);
        DescriptorAccess::Call { callable: call.callable, receiver: call.receiver, positional }
    }

    fn read_descriptor(
        &self,
        descriptor: Value,
        descriptor_class: Value,
        instance: Value,
        owner_class: Value,
        shadowed: bool,
    ) -> (r: Result<Option<DescriptorAccess>>)
        requires
            self.wf(),
        ensures
            accessed(r) == self@.read_descriptor(
                descriptor,
                descriptor_class,
                instance,
                owner_class,
                shadowed,
            ),
    {
        let setter = self.class_lookup(descriptor_class, "__set__")?;
        let deleter = self.class_lookup(descriptor_class, "__delete__")?;
        if shadowed && setter.is_none() && deleter.is_none() {
            return Ok(None);
        }
        match self.class_lookup(descriptor_class, "__get__")? {
            None => if setter.is_some() || deleter.is_some() {
                Ok(Some(DescriptorAccess::Value(descriptor)))
            } else {
                Ok(None)
            },
            Some(getter) => Ok(
                Some(
                    self.get_hook(getter, descriptor, descriptor_class, instance, owner_class),
                ),
            ),
        }
    }

    pub fn descriptor_getter(&self, owner: Value, name: &str) -> (r: Result<
        Option<DescriptorAccess>,
    >)
        requires
            self.wf(),
        ensures
            accessed(r) == self@.descriptor_getter(owner, name@),
    {
        if let Some(class) = self.class_of(owner) {
            let descriptor = match self.class_lookup(class, name)? {
                None => {
                    return Ok(None);
                },
                Some(descriptor) => descriptor,
            };
            return match self.class_of(descriptor) {
                None => Ok(None),
                Some(descriptor_class) => self.read_descriptor(
                    descriptor,
                    descriptor_class,
                    owner,
                    class,
                    self.own_attribute(owner, name).is_some(),
                ),
            };
        }
        if !self.is_class(owner) {
            return Ok(None);
        }
        let descriptor = match self.class_lookup(owner, name)? {
            None => {
                return Ok(None);
            },
            Some(descriptor) => descriptor,
        };
        match self.class_of(descriptor) {
            None => Ok(None),
            Some(descriptor_class) => self.read_descriptor(
                descriptor,
                descriptor_class,
                Value::none(),
                owner,
                false,
            ),
        }
    }

    /// Returns an allocation-free description when ordinary instance or class
    /// access resolves directly to a function wrapper. Instance shadowing and
    /// every custom descriptor remain on the generic path.
    pub fn direct_method(&self, owner: Value, name: &str) -> (r: Option<
        (Value, DirectMethodKind, Option<Value>),
    >)
        requires
            self.wf(),
        ensures
            r == self@.direct_method(owner, name@),
    {
        if self.has_custom_getattribute(owner) {
            return None;
        }
        let object = match self.try_get(owner) {
            None => {
                return None;
            },
            Some(object) => object,
        };
        let (class, instance) = match object.instance_class() {
            Some(class) => {
                if self.own_attribute(owner, name).is_some() {
                    return None;
                }
                (class, true)
            },
            None => match object {
                Object::Class(_) => (owner, false),
                _ => {
                    return None;
                },
            },
        };
        let descriptor = match self.class_lookup(class, name) {
            Ok(Some(descriptor)) => descriptor,
            _ => {
                return None;
            },
        };
        match self.try_get(descriptor) {
            Some(Object::Function { .. }) => if instance {
                Some((descriptor, DirectMethodKind::Instance, Some(owner)))
            } else {
                Some((descriptor, DirectMethodKind::Static, None))
            },
            Some(Object::StaticMethod(function)) => if self.is_function(*function) {
                Some((*function, DirectMethodKind::Static, None))
            } else {
                None
            },
            Some(Object::ClassMethod(function)) => if self.is_function(*function) {
                Some((*function, DirectMethodKind::Class, Some(class)))
            } else {
                None
            },
            _ => None,
        }
    }

    pub fn instance_slot_cache(&self, owner: Value, name: &str) -> (r: Option<
        (Value, ShapeId, usize, u64),
    >)
        requires
            self.wf(),
        ensures
            match r {
                Some((class, shape, slot, epoch)) => self@.instance_slot_cache(owner, name@)
                    == Some((class, shape, slot as int, epoch)),
                None => self@.instance_slot_cache(owner, name@) is None,
            },
    {
        proof {
            self.lemma_view();
        }
        if self.has_custom_getattribute(owner) {
            return None;
        }
        if is_reserved(name) {
            return None;
        }
        let object = match self.try_get(owner) {
            None => {
                return None;
            },
            Some(object) => object,
        };
        let (class, attributes) = match object.instance_parts() {
            None => {
                return None;
            },
            Some(parts) => parts,
        };
        if let Ok(Some(_)) = self.class_lookup(class, name) {
            return None;
        }
        let (shape, slot) = match attributes.slot_cache(self.shapes(), name) {
            None => {
                return None;
            },
            Some(found) => found,
        };
        match self.class(class) {
            Ok(held) => Some((class, shape, slot, held.version)),
            Err(_) => None,
        }
    }

    pub fn cached_instance_slot(
        &self,
        owner: Value,
        class: Value,
        shape: ShapeId,
        slot: usize,
        epoch: u64,
    ) -> (r: Option<Value>)
        requires
            self.wf(),
        ensures
            r == self@.cached_instance_slot(owner, class, shape, slot as int, epoch),
    {
        let object = match self.try_get(owner) {
            None => {
                return None;
            },
            Some(object) => object,
        };
        let (actual, attributes) = match object.instance_parts() {
            None => {
                return None;
            },
            Some(parts) => parts,
        };
        if actual != class {
            return None;
        }
        match self.class(actual) {
            Ok(held) => if held.version != epoch {
                None
            } else {
                attributes.cached_slot(shape, slot)
            },
            Err(_) => None,
        }
    }

    /// The metaclass of a new class: the explicit one or that of the first
    /// base, narrowed by the bases' metaclasses.
    pub fn select_metaclass(
        &self,
        explicit: Option<Value>,
        bases: &Vec<Value>,
        default: Value,
    ) -> (r: Result<Value>)
        requires
            self.wf(),
        ensures
            outcome(r) == self@.select_metaclass(explicit, bases@, default),
    {
        self.class(default)?;
        let mut candidate = match explicit {
            Some(explicit) => {
                if !self.class_is_subclass(explicit, default)? {
                    return Err(Diagnostic::new("TypeError", "metaclass must derive from type"));
                }
                explicit
            },
            None => if bases.len() > 0 {
                self.base_metaclass(bases[0], default)
            } else {
                default
            },
        };
        let ghost first = candidate;
        let mut i: usize = 0;
        while i < bases.len()
            invariant
                self.wf(),
                i <= bases.len(),
                self@.narrowed(first, bases@, default, 0) == self@.narrowed(
                    candidate,
                    bases@,
                    default,
                    i as int,
                ),
                self@.select_metaclass(explicit, bases@, default) == self@.narrowed(
                    first,
                    bases@,
                    default,
                    0,
                ),
            decreases bases.len() - i,
        {
            let metaclass = self.base_metaclass(bases[i], default);
            if !self.class_is_subclass(candidate, metaclass)? {
                if !self.class_is_subclass(metaclass, candidate)? {
                    return Err(
                        Diagnostic::new(
                            "TypeError",
                            "metaclass conflict: derived class requires a common metaclass subclass",
                        ),
                    );
                }
                candidate = metaclass;
            }
            i += 1;
        }
        Ok(candidate)
    }

    /// The metaclass of a base; primitive and other non-class bases have the
    /// default one, and are rejected only when the class is completed.
    fn base_metaclass(&self, base: Value, default: Value) -> (r: Value)
        requires
            self.wf(),
        ensures
            r == self@.base_metaclass(base, default),
    {
        match self.metaclass_of(base) {
            Some(metaclass) => metaclass,
            None => default,
        }
    }

    pub fn has_custom_metaclass_hook(&self, metaclass: Value, default: Value, name: &str) -> (r:
        Result<bool>)
        requires
            self.wf(),
        ensures
            outcome(r) == match self@.class_at(metaclass) {
                Err(error) => Err(error),
                Ok(class) => self@.hooked_before(
                    seq![metaclass] + class.mro,
                    default,
                    name@,
                    0,
                ),
            },
    {
        let lineage = self.lineage(metaclass)?;
        let mut i: usize = 0;
        while i < lineage.len()
            invariant
                self.wf(),
                i <= lineage.len(),
                self@.class_at(metaclass) matches Ok(class) && lineage@ == seq![metaclass]
                    + class.mro,
                self@.hooked_before(lineage@, default, name@, 0) == self@.hooked_before(
                    lineage@,
                    default,
                    name@,
                    i as int,
                ),
            decreases lineage.len() - i,
        {
            if lineage[i] == default {
                return Ok(false);
            }
            let class = self.class(lineage[i])?;
            if lookup(&class.attributes, name).is_some() {
                return Ok(true);
            }
            i += 1;
        }
        Ok(false)
    }
}

impl HeapView {
    /// The metaclass of a base, or the default one.
    pub open spec fn base_metaclass(self, base: Value, default: Value) -> Value {
        match self.metaclass_of(base) {
            Some(metaclass) => metaclass,
            None => default,
        }
    }

    /// A metaclass narrowed by the metaclasses of the bases from a position
    /// on: of two, the one that descends from the other.
    pub open spec fn narrowed(
        self,
        candidate: Value,
        bases: Seq<Value>,
        default: Value,
        from: int,
    ) -> Outcome<Value>
        decreases bases.len() - from,
    {
        if from < 0 || from >= bases.len() {
            Ok(candidate)
        } else {
            let metaclass = self.base_metaclass(bases[from], default);
            match self.class_is_subclass(candidate, metaclass) {
                Err(error) => Err(error),
                Ok(true) => self.narrowed(candidate, bases, default, from + 1),
                Ok(false) => match self.class_is_subclass(metaclass, candidate) {
                    Err(error) => Err(error),
                    Ok(true) => self.narrowed(metaclass, bases, default, from + 1),
                    Ok(false) => Err(
                        fault(
                            "TypeError",
                            "metaclass conflict: derived class requires a common metaclass subclass",
                        ),
                    ),
                },
            }
        }
    }

    /// See [`Heap::select_metaclass`].
    pub open spec fn select_metaclass(
        self,
        explicit: Option<Value>,
        bases: Seq<Value>,
        default: Value,
    ) -> Outcome<Value> {
        match self.class_at(default) {
            Err(error) => Err(error),
            Ok(_) => match explicit {
                Some(explicit) => match self.class_is_subclass(explicit, default) {
                    Err(error) => Err(error),
                    Ok(false) => Err(fault("TypeError", "metaclass must derive from type")),
                    Ok(true) => self.narrowed(explicit, bases, default, 0),
                },
                None => self.narrowed(
                    if bases.len() > 0 {
                        self.base_metaclass(bases[0], default)
                    } else {
                        default
                    },
                    bases,
                    default,
                    0,
                ),
            },
        }
    }

    /// Whether a lineage holds an attribute before it comes to `default`.
    pub open spec fn hooked_before(
        self,
        lineage: Seq<Value>,
        default: Value,
        name: Seq<char>,
        from: int,
    ) -> Outcome<bool>
        decreases lineage.len() - from,
    {
        if from < 0 || from >= lineage.len() || lineage[from] == default {
            Ok(false)
        } else {
            match self.class_at(lineage[from]) {
                Err(error) => Err(error),
                Ok(class) => if class.own(name) is Some {
                    Ok(true)
                } else {
                    self.hooked_before(lineage, default, name, from + 1)
                },
            }
        }
    }
}

/// See [`HeapView::reserved`].
fn is_reserved(name: &str) -> (r: bool)
    ensures
        r == HeapView::reserved(name@),
{
    same(name, "__class__") || same(name, "__cause__") || same(name, "__context__") || same(
        name,
        "__suppress_context__",
    ) || same(name, "__traceback__") || same(name, "args")
}

/// What a lookup by descriptor found.
pub open spec fn accessed(
    result: core::result::Result<Option<DescriptorAccess>, Diagnostic>,
) -> Outcome<Option<Access>> {
    match result {
        Err(error) => Err(error@),
        Ok(None) => Ok(None),
        Ok(Some(access)) => Ok(Some(access@)),
    }
}

} // verus!
