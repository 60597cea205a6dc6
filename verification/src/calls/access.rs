//! Attributes through protocols.
use vstd::prelude::*;
use crate::assignment::{attr_deleted, attr_set};
use crate::attributes::{as_reading, reads, Answer, Reading};
use crate::calls::arguments::ArgsView;
use crate::calls::state::{AttributeGet, AttributeMissing, AttributePhase, Continuation, Step};
use crate::calls::walk::is_kind;
use crate::calls::{call_step, calls, goes, refuses};
use crate::diagnostic::{Diagnostic, Fault, Result};
use crate::heap::{Heap, HeapView};
use crate::lookup::{Access, DescriptorAccess, DescriptorCall, Outcome};
use crate::namespaces::allocates;
use crate::object::{Builtin, Object, ObjectView};
use crate::text::same;
use crate::value::Value;

verus! {

/// See [`AttributeGet`].
#[verifier::ext_equal]
pub struct GetView {
    pub owner: Value,
    pub name: Seq<char>,
    pub missing: AttributeMissing,
    pub phase: AttributePhase,
}

impl View for AttributeGet {
    type V = GetView;

    open spec fn view(&self) -> GetView {
        GetView { owner: self.owner, name: self.name@, missing: self.missing, phase: self.phase }
    }
}

/// The view of a reading that may be none.
pub open spec fn get_view(get: Option<AttributeGet>) -> Option<GetView> {
    match get {
        Some(get) => Some(get@),
        None => None,
    }
}

/// What a reading that succeeded leaves: the attribute, or that it is there.
pub open spec fn succeeded(value: Value, get: Option<GetView>) -> Value {
    match get {
        Some(get) => if get.missing is HasAttr {
            Value::of_bool(true)
        } else {
            value
        },
        None => value,
    }
}

/// What a reading leaves that found nothing.
pub open spec fn unsuccessful(
    result: core::result::Result<Step, Diagnostic>,
    missing: AttributeMissing,
    error: Fault,
) -> bool {
    match missing {
        AttributeMissing::Raise => refuses(result, error),
        AttributeMissing::Default(value) => goes(result, Step::Done(value)),
        AttributeMissing::HasAttr => goes(result, Step::Done(Value::of_bool(false))),
    }
}

/// How an attribute is looked up without hooks: it is read, or it is the class
/// of a value that does not hold it.
#[verifier::ext_equal]
pub enum Lookup {
    Read(Reading),
    ClassOf,
}

impl HeapView {
    /// Whether a value is a class.
    pub open spec fn is_class(self, value: Value) -> bool {
        self.at(value) matches Some(ObjectView::Class(_))
    }

    /// How an attribute is looked up without hooks.
    pub open spec fn default_lookup(self, owner: Value, name: Seq<char>) -> Lookup {
        match self.super_getter(owner, name) {
            Reading::Nothing => {
                let data = if self.is_class(owner) {
                    self.metaclass_getter(owner, name, true)
                } else {
                    Reading::Nothing
                };
                match data {
                    Reading::Nothing => self.own_lookup(owner, name),
                    found => Lookup::Read(found),
                }
            },
            found => Lookup::Read(found),
        }
    }

    /// The lookup behind super objects and data descriptors of a metaclass.
    pub open spec fn own_lookup(self, owner: Value, name: Seq<char>) -> Lookup {
        match self.getter_of(self.instance_descriptor(owner, name), name) {
            Err(error) => Lookup::Read(Reading::Fault(error)),
            Ok(Some(getter)) => Lookup::Read(
                Reading::Access(
                    Access::Call {
                        callable: getter,
                        receiver: Some(owner),
                        positional: Seq::empty(),
                    },
                ),
            ),
            Ok(None) => match self.descriptor_getter(owner, name) {
                Err(error) => Lookup::Read(Reading::Fault(error)),
                Ok(Some(access)) => Lookup::Read(Reading::Access(access)),
                Ok(None) => self.plain_lookup(owner, name),
            },
        }
    }

    /// The lookup behind every descriptor.
    pub open spec fn plain_lookup(self, owner: Value, name: Seq<char>) -> Lookup {
        match self.attr(owner, name) {
            Answer::Fault(error) => if is_kind(error, "AttributeError") {
                if name == "__class__"@ {
                    Lookup::ClassOf
                } else if self.is_class(owner) {
                    match self.metaclass_getter(owner, name, false) {
                        Reading::Nothing => Lookup::Read(Reading::Fault(error)),
                        found => Lookup::Read(found),
                    }
                } else {
                    Lookup::Read(Reading::Fault(error))
                }
            } else {
                Lookup::Read(Reading::Fault(error))
            },
            answer => Lookup::Read(as_reading(answer)),
        }
    }

    /// The call that sets an attribute, and its arguments.
    pub open spec fn set_call(self, owner: Value, name: Seq<char>, value: Value) -> Outcome<
        Option<(DescriptorCall, Seq<Value>)>,
    > {
        let descriptor = if self.is_class(owner) {
            self.metaclass_descriptor(owner, name)
        } else {
            self.instance_descriptor(owner, name)
        };
        match self.setter_of(descriptor, name) {
            Err(error) => Err(error),
            Ok(Some(setter)) => Ok(
                Some((DescriptorCall { callable: setter, receiver: Some(owner) }, seq![value])),
            ),
            Ok(None) => match self.hook_of(descriptor, "__set__", "__delete__") {
                Err(error) => Err(error),
                Ok(Some(call)) => Ok(Some((call, seq![owner, value]))),
                Ok(None) => Ok(None),
            },
        }
    }

    /// The call that deletes an attribute, and its arguments.
    pub open spec fn delete_call(self, owner: Value, name: Seq<char>) -> Outcome<
        Option<(DescriptorCall, Seq<Value>)>,
    > {
        let descriptor = if self.is_class(owner) {
            self.metaclass_descriptor(owner, name)
        } else {
            self.instance_descriptor(owner, name)
        };
        match self.deleter_of(descriptor, name) {
            Err(error) => Err(error),
            Ok(Some(deleter)) => Ok(
                Some(
                    (DescriptorCall { callable: deleter, receiver: Some(owner) }, Seq::empty()),
                ),
            ),
            Ok(None) => match self.hook_of(descriptor, "__delete__", "__set__") {
                Err(error) => Err(error),
                Ok(Some(call)) => Ok(Some((call, seq![owner]))),
                Ok(None) => Ok(None),
            },
        }
    }

    /// The hook of an attribute operation, other than the canonical one.
    pub open spec fn attribute_hook(
        self,
        owner: Value,
        name: Seq<char>,
        of_class: Builtin,
        of_object: Builtin,
    ) -> Outcome<Option<DescriptorCall>> {
        self.custom_attribute_method(
            owner,
            name,
            if self.is_class(owner) {
                of_class
            } else {
                of_object
            },
        )
    }
}

/// Whether a call that reads an attribute comes next.
pub open spec fn attribute_call(
    result: core::result::Result<Step, Diagnostic>,
    call: DescriptorCall,
    positional: Seq<Value>,
    get: Option<GetView>,
) -> bool {
    result matches Ok(Step::Call { callable, arguments, then: Continuation::Attribute(found) })
        && callable == call.callable && arguments@ == ArgsView::of(call.receiver, positional)
        && get_view(found) == get
}

/// Whether a call comes next whose first argument is a new string.
pub open spec fn named_call(
    before: HeapView,
    after: HeapView,
    result: core::result::Result<Step, Diagnostic>,
    call: DescriptorCall,
    name: Seq<char>,
    rest: Seq<Value>,
) -> bool {
    match result {
        Ok(Step::Call { callable, arguments, .. }) => {
            let named = arguments@.positional[0];
            &&& callable == call.callable
            &&& arguments@ == ArgsView::of(call.receiver, seq![named] + rest)
            &&& allocates(before, after, Ok(named), ObjectView::Str(name))
        },
        Ok(_) => false,
        Err(error) => allocates(before, after, Err(error), ObjectView::Str(name)),
    }
}

/// What a lookup does.
pub open spec fn looked_up(
    before: HeapView,
    after: HeapView,
    result: core::result::Result<Step, Diagnostic>,
    lookup: Lookup,
    owner: Value,
    get: Option<GetView>,
) -> bool {
    match lookup {
        Lookup::ClassOf => after == before && (result matches Ok(
            Step::ClassOf { value, get: found },
        ) && value == owner && get_view(found) == get),
        Lookup::Read(Reading::Nothing) => false,
        Lookup::Read(Reading::Fault(error)) => after == before && refuses(result, error),
        Lookup::Read(Reading::Access(Access::Value(value))) => after == before && goes(
            result,
            Step::Done(succeeded(value, get)),
        ),
        Lookup::Read(Reading::Access(Access::Call { callable, receiver, positional })) => after
            == before && attribute_call(
            result,
            DescriptorCall { callable, receiver },
            positional,
            get,
        ),
        Lookup::Read(Reading::New(object)) => match result {
            Ok(step) => exists|made: Value|
                #![trigger before.fresh(made)]
                allocates(before, after, Ok(made), object) && step == Step::Done(
                    succeeded(made, get),
                ),
            Err(error) => allocates(before, after, Err(error), object),
        },
    }
}

/// What a reading does that found nothing so far.
pub open spec fn missed(
    before: HeapView,
    after: HeapView,
    result: core::result::Result<Step, Diagnostic>,
    get: GetView,
    error: Fault,
) -> bool {
    if get.phase == AttributePhase::Primary {
        match before.operator_method(get.owner, "__getattr__"@) {
            Err(error) => after == before && refuses(result, error),
            Ok(None) => after == before && unsuccessful(result, get.missing, error),
            Ok(Some(call)) => {
                &&& named_call(before, after, result, call, get.name, Seq::empty())
                &&& result matches Ok(Step::Call { then, .. }) ==> (
                then matches Continuation::Attribute(found) && get_view(found) == Some(
                    (GetView { phase: AttributePhase::Fallback, ..get }),
                ))
            },
        }
    } else {
        after == before && unsuccessful(result, get.missing, error)
    }
}

/// What a lookup without hooks does for a reading.
pub open spec fn looked_up_or_missed(
    before: HeapView,
    after: HeapView,
    result: core::result::Result<Step, Diagnostic>,
    get: GetView,
) -> bool {
    let lookup = before.default_lookup(get.owner, get.name);
    if lookup matches Lookup::Read(Reading::Fault(error)) && is_kind(error, "AttributeError") {
        missed(before, after, result, get, lookup->Read_0->Fault_0)
    } else {
        looked_up(before, after, result, lookup, get.owner, Some(get))
    }
}

/// What a reading that succeeded leaves.
pub fn finish_attribute_success(value: Value, get: &Option<AttributeGet>) -> (r: Value)
    ensures
        r == succeeded(value, get_view(*get)),
{
    match get {
        Some(get) => match get.missing {
            AttributeMissing::HasAttr => Value::bool(true),
            _ => value,
        },
        None => value,
    }
}

/// A call that reads an attribute.
fn attribute_step(
    call: DescriptorCall,
    positional: Vec<Value>,
    get: Option<AttributeGet>,
) -> (r: Step)
    ensures
        attribute_call(Ok(r), call, positional@, get_view(get)),
{
    call_step(call, positional, Continuation::Attribute(get))
}

/// An access to an attribute as a step.
fn access_step(access: DescriptorAccess, get: Option<AttributeGet>) -> (r: Step)
    ensures
        match access@ {
            Access::Value(value) => r == Step::Done(succeeded(value, get_view(get))),
            Access::Call { callable, receiver, positional } => attribute_call(
                Ok(r),
                DescriptorCall { callable, receiver },
                positional,
                get_view(get),
            ),
        },
{
    match access {
        DescriptorAccess::Value(value) => Step::Done(finish_attribute_success(value, &get)),
        DescriptorAccess::Call { callable, receiver, positional } => attribute_step(
            DescriptorCall { callable, receiver },
            positional,
            get,
        ),
    }
}

/// What asking for an attribute leads to.
pub open spec fn attribute_got(
    before: HeapView,
    after: HeapView,
    result: core::result::Result<Step, Diagnostic>,
    owner: Value,
    name: Seq<char>,
    missing: AttributeMissing,
) -> bool {
    let get = GetView {
        owner,
        name: name,
        missing,
        phase: AttributePhase::Primary,
    };
    match before.attribute_hook(
        owner,
        "__getattribute__"@,
        Builtin::TypeGetAttribute,
        Builtin::ObjectGetAttribute,
    ) {
        Err(error) => refuses(result, error) && after == before,
        Ok(Some(call)) => {
            &&& named_call(
                before,
                after,
                result,
                call,
                name,
                Seq::empty(),
            )
            &&& result matches Ok(Step::Call { then, .. }) ==> (
            then matches Continuation::Attribute(found) && get_view(found) == Some(
                get,
            ))
        },
        Ok(None) => looked_up_or_missed(before, after, result, get),
    }
}

/// What assigning an attribute leads to.
pub open spec fn attribute_assigned(
    before: HeapView,
    after: HeapView,
    result: core::result::Result<Step, Diagnostic>,
    owner: Value,
    name: Seq<char>,
    value: Value,
) -> bool {
    match before.attribute_hook(
        owner,
        "__setattr__"@,
        Builtin::TypeSetAttr,
        Builtin::ObjectSetAttr,
    ) {
        Err(error) => refuses(result, error) && after == before,
        Ok(Some(call)) => {
            &&& named_call(before, after, result, call, name, seq![value])
            &&& result matches Ok(Step::Call { then, .. }) ==> then is Setter
        },
        Ok(None) => default_set(before, after, result, owner, name, value),
    }
}

/// What deleting an attribute leads to.
pub open spec fn attribute_dropped(
    before: HeapView,
    after: HeapView,
    result: core::result::Result<Step, Diagnostic>,
    owner: Value,
    name: Seq<char>,
) -> bool {
    match before.attribute_hook(
        owner,
        "__delattr__"@,
        Builtin::TypeDelAttr,
        Builtin::ObjectDelAttr,
    ) {
        Err(error) => refuses(result, error) && after == before,
        Ok(Some(call)) => {
            &&& named_call(before, after, result, call, name, Seq::empty())
            &&& result matches Ok(Step::Call { then, .. }) ==> then is Setter
        },
        Ok(None) => default_delete(before, after, result, owner, name),
    }
}

impl Heap {
    /// Looks up an attribute without hooks.
    pub fn invoke_default_attribute_get(
        &mut self,
        owner: Value,
        name: &str,
        get: Option<AttributeGet>,
    ) -> (r: Result<Step>)
        requires
            old(self).wf(),
        ensures
            final(self).wf(),
            looked_up(
                old(self)@,
                final(self)@,
                r,
                old(self)@.default_lookup(owner, name@),
                owner,
                get_view(get),
            ),
            old(self)@.sound() ==> final(self)@.sound(),
    {
        let ghost before = self@;
        let class_owner = self.is_class(owner);
        if let Some(access) = self.super_getter(owner, name)? {
            return Ok(access_step(access, get));
        }
        if class_owner {
            if let Some(access) = self.metaclass_getter(owner, name, true)? {
                return Ok(access_step(access, get));
            }
        }
        if let Some(getter) = self.property_getter(owner, name)? {
            let none: Vec<Value> = Vec::new();
            assert(none@ =~= Seq::<Value>::empty());
            return Ok(
                attribute_step(
                    DescriptorCall { callable: getter, receiver: Some(owner) },
                    none,
                    get,
                ),
            );
        }
        if let Some(access) = self.descriptor_getter(owner, name)? {
            return Ok(access_step(access, get));
        }
        proof {
            reveal_strlit("AttributeError");
            reveal_strlit("MemoryError");
            assert("MemoryError"@.len() != "AttributeError"@.len());
        }
        match self.attr(owner, name) {
            Ok(value) => Ok(Step::Done(finish_attribute_success(value, &get))),
            Err(error) => {
                if !same(error.kind, "AttributeError") {
                    return Err(error);
                }
                if same(name, "__class__") {
                    return Ok(Step::ClassOf { value: owner, get });
                }
                if class_owner {
                    if let Some(access) = self.metaclass_getter(owner, name, false)? {
                        return Ok(access_step(access, get));
                    }
                }
                Err(error)
            },
        }
    }

    /// Reads an attribute, by the hooks of its owner first.
    pub fn invoke_attribute_get(&mut self, owner: Value, name: &str, missing: AttributeMissing) -> (r:
        Result<Step>)
        requires
            old(self).wf(),
        ensures
            final(self).wf(),
            attribute_got(old(self)@, final(self)@, r, owner, name@, missing),
            old(self)@.sound() ==> final(self)@.sound(),
    {
        let ghost before = self@;
        let get = AttributeGet {
            owner,
            name: name.to_owned(),
            missing,
            phase: AttributePhase::Primary,
        };
        let default = if self.is_class(owner) {
            Builtin::TypeGetAttribute
        } else {
            Builtin::ObjectGetAttribute
        };
        if let Some(call) = self.custom_attribute_method(owner, "__getattribute__", default)? {
            let named = self.allocate(Object::Str(name.to_owned()))?;
            let mut positional: Vec<Value> = Vec::new();
            positional.push(named);
            assert(positional@ =~= seq![named] + Seq::<Value>::empty());
            assert(positional@[0] == named);
            return Ok(attribute_step(call, positional, Some(get)));
        }
        let again = AttributeGet {
            owner,
            name: name.to_owned(),
            missing,
            phase: AttributePhase::Primary,
        };
        assert(again@ == get@);
        match self.invoke_default_attribute_get(owner, name, Some(get)) {
            Ok(step) => Ok(step),
            Err(error) => {
                if same(error.kind, "AttributeError") {
                    proof {
                        reveal_strlit("AttributeError");
                        reveal_strlit("MemoryError");
                        assert("MemoryError"@.len() != "AttributeError"@.len());
                    }
                    return self.continue_attribute_missing(again, error);
                }
                Err(error)
            },
        }
    }

    /// Goes on where an attribute was not found: by the owner's fallback, or
    /// with what the reading wants then.
    pub fn continue_attribute_missing(&mut self, get: AttributeGet, error: Diagnostic) -> (r: Result<
        Step,
    >)
        requires
            old(self).wf(),
        ensures
            final(self).wf(),
            missed(old(self)@, final(self)@, r, get@, error@),
            old(self)@.sound() ==> final(self)@.sound(),
    {
        if get.phase == AttributePhase::Primary {
            if let Some(call) = self.operator_method_call(get.owner, "__getattr__")? {
                let named = self.allocate(Object::Str(get.name.clone()))?;
                let mut positional: Vec<Value> = Vec::new();
                positional.push(named);
                assert(positional@ =~= seq![named] + Seq::<Value>::empty());
                assert(positional@[0] == named);
                let mut get = get;
                get.phase = AttributePhase::Fallback;
                return Ok(attribute_step(call, positional, Some(get)));
            }
        }
        match get.missing {
            AttributeMissing::Raise => Err(error),
            AttributeMissing::Default(value) => Ok(Step::Done(value)),
            AttributeMissing::HasAttr => Ok(Step::Done(Value::bool(false))),
        }
    }

    /// Sets an attribute without hooks.
    pub fn invoke_default_attribute_set(&mut self, owner: Value, name: &str, value: Value) -> (r:
        Result<Step>)
        requires
            old(self).wf(),
        ensures
            final(self).wf(),
            default_set(old(self)@, final(self)@, r, owner, name@, value),
            old(self)@.sound() && old(self)@.known(value) ==> final(self)@.sound(),
    {
        let class_owner = self.is_class(owner);
        let mut positional: Vec<Value> = Vec::new();
        let setter = if class_owner {
            self.metaclass_property_setter(owner, name)?
        } else {
            self.property_setter(owner, name)?
        };
        if let Some(setter) = setter {
            positional.push(value);
            assert(positional@ =~= seq![value]);
            return Ok(
                call_step(
                    DescriptorCall { callable: setter, receiver: Some(owner) },
                    positional,
                    Continuation::Setter,
                ),
            );
        }
        let hook = if class_owner {
            self.metaclass_descriptor_setter(owner, name)?
        } else {
            self.descriptor_setter(owner, name)?
        };
        if let Some(call) = hook {
            positional.push(owner);
            positional.push(value);
            assert(positional@ =~= seq![owner, value]);
            return Ok(call_step(call, positional, Continuation::Setter));
        }
        self.set_attr(owner, name, value)?;
        Ok(Step::Done(Value::none()))
    }

    /// Sets an attribute, by the hooks of its owner first.
    pub fn invoke_attribute_set(&mut self, owner: Value, name: &str, value: Value) -> (r: Result<
        Step,
    >)
        requires
            old(self).wf(),
        ensures
            final(self).wf(),
            attribute_assigned(old(self)@, final(self)@, r, owner, name@, value),
            old(self)@.sound() && old(self)@.known(value) ==> final(self)@.sound(),
    {
        let default = if self.is_class(owner) {
            Builtin::TypeSetAttr
        } else {
            Builtin::ObjectSetAttr
        };
        if let Some(call) = self.custom_attribute_method(owner, "__setattr__", default)? {
            let named = self.allocate(Object::Str(name.to_owned()))?;
            let mut positional: Vec<Value> = Vec::new();
            positional.push(named);
            positional.push(value);
            assert(positional@ =~= seq![named] + seq![value]);
            assert(positional@[0] == named);
            return Ok(call_step(call, positional, Continuation::Setter));
        }
        self.invoke_default_attribute_set(owner, name, value)
    }

    /// Deletes an attribute without hooks.
    pub fn invoke_default_attribute_delete(&mut self, owner: Value, name: &str) -> (r: Result<Step>)
        requires
            old(self).wf(),
        ensures
            final(self).wf(),
            default_delete(old(self)@, final(self)@, r, owner, name@),
            old(self)@.sound() ==> final(self)@.sound(),
    {
        let class_owner = self.is_class(owner);
        let mut positional: Vec<Value> = Vec::new();
        let deleter = if class_owner {
            self.metaclass_property_deleter(owner, name)?
        } else {
            self.property_deleter(owner, name)?
        };
        if let Some(deleter) = deleter {
            assert(positional@ =~= Seq::<Value>::empty());
            return Ok(
                call_step(
                    DescriptorCall { callable: deleter, receiver: Some(owner) },
                    positional,
                    Continuation::Setter,
                ),
            );
        }
        let hook = if class_owner {
            self.metaclass_descriptor_deleter(owner, name)?
        } else {
            self.descriptor_deleter(owner, name)?
        };
        if let Some(call) = hook {
            positional.push(owner);
            assert(positional@ =~= seq![owner]);
            return Ok(call_step(call, positional, Continuation::Setter));
        }
        self.del_attr(owner, name)?;
        Ok(Step::Done(Value::none()))
    }

    /// Deletes an attribute, by the hooks of its owner first.
    pub fn invoke_attribute_delete(&mut self, owner: Value, name: &str) -> (r: Result<Step>)
        requires
            old(self).wf(),
        ensures
            final(self).wf(),
            attribute_dropped(old(self)@, final(self)@, r, owner, name@),
            old(self)@.sound() ==> final(self)@.sound(),
    {
        let default = if self.is_class(owner) {
            Builtin::TypeDelAttr
        } else {
            Builtin::ObjectDelAttr
        };
        if let Some(call) = self.custom_attribute_method(owner, "__delattr__", default)? {
            let named = self.allocate(Object::Str(name.to_owned()))?;
            let mut positional: Vec<Value> = Vec::new();
            positional.push(named);
            assert(positional@ =~= seq![named] + Seq::<Value>::empty());
            assert(positional@[0] == named);
            return Ok(call_step(call, positional, Continuation::Setter));
        }
        self.invoke_default_attribute_delete(owner, name)
    }
}

/// Whether a change was made, with none as the result.
pub open spec fn settled_change(
    result: core::result::Result<Step, Diagnostic>,
    change: core::result::Result<(), Diagnostic>,
) -> bool {
    match change {
        Ok(_) => goes(result, Step::Done(Value::none())),
        Err(error) => refuses(result, error@),
    }
}

/// What setting an attribute without hooks does.
pub open spec fn default_set(
    before: HeapView,
    after: HeapView,
    result: core::result::Result<Step, Diagnostic>,
    owner: Value,
    name: Seq<char>,
    value: Value,
) -> bool {
    match before.set_call(owner, name, value) {
        Err(error) => after == before && refuses(result, error),
        Ok(Some((call, positional))) => after == before && calls(
            result,
            call,
            positional,
            Continuation::Setter,
        ),
        Ok(None) => exists|change: core::result::Result<(), Diagnostic>|
            #![trigger attr_set(before, after, change, owner, name, value)]
            attr_set(before, after, change, owner, name, value) && settled_change(result, change),
    }
}

/// What deleting an attribute without hooks does.
pub open spec fn default_delete(
    before: HeapView,
    after: HeapView,
    result: core::result::Result<Step, Diagnostic>,
    owner: Value,
    name: Seq<char>,
) -> bool {
    match before.delete_call(owner, name) {
        Err(error) => after == before && refuses(result, error),
        Ok(Some((call, positional))) => after == before && calls(
            result,
            call,
            positional,
            Continuation::Setter,
        ),
        Ok(None) => exists|change: core::result::Result<(), Diagnostic>|
            #![trigger attr_deleted(before, after, change, owner, name)]
            attr_deleted(before, after, change, owner, name) && settled_change(result, change),
    }
}

} // verus!
