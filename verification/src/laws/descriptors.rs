//! Properties, descriptors and methods.
use vstd::prelude::*;
use crate::diagnostic::{Fault, Result};
use crate::heap::{Heap, HeapView};
use crate::laws::classes::{is_class, is_instance, line, takes_receiver};
use crate::laws::{is_object, leads_nowhere, leads_to, lemma_leads, lemma_object_word};
use crate::lookup::{Access, DescriptorAccess, DescriptorCall, DirectMethodKind};
use crate::object::{Builtin, ObjectView};
use crate::value::Value;

verus! {

/// Whether the class of an instance leads a name to an object.
pub open spec fn managed_by(
    heap: HeapView,
    owner: Value,
    name: Seq<char>,
    descriptor: Value,
    object: ObjectView,
) -> bool {
    exists|class: Value| #[trigger]
        is_instance(heap, owner, class) && is_class(heap, class) && leads_to(
            heap,
            line(heap, class),
            0,
            name,
            descriptor,
        ) && is_object(heap, descriptor, object)
}

/// Whether the metaclass of a class leads a name to an object.
pub open spec fn managed_above(
    heap: HeapView,
    owner: Value,
    name: Seq<char>,
    descriptor: Value,
    object: ObjectView,
) -> bool {
    &&& is_class(heap, owner)
    &&& !(heap.objects[owner]->Class_0.metaclass@ is Unbound)
    &&& is_class(heap, heap.objects[owner]->Class_0.metaclass)
    &&& leads_to(
        heap,
        line(heap, heap.objects[owner]->Class_0.metaclass),
        0,
        name,
        descriptor,
    )
    &&& is_object(heap, descriptor, object)
}

proof fn lemma_managed(
    heap: Heap,
    owner: Value,
    name: Seq<char>,
    descriptor: Value,
    object: ObjectView,
)
    requires
        heap.wf(),
    ensures
        managed_by(heap@, owner, name, descriptor, object) ==> heap@.instance_descriptor(owner, name)
            == Ok::<Option<Value>, Fault>(Some(descriptor)),
        managed_above(heap@, owner, name, descriptor, object) ==> heap@.metaclass_descriptor(
            owner,
            name,
        ) == Ok::<Option<Value>, Fault>(Some(descriptor)),
{
    assert(5u64 & 7 == 5) by (bit_vector);
    if managed_by(heap@, owner, name, descriptor, object) {
        let class = choose|class: Value| #[trigger]
            is_instance(heap@, owner, class) && is_class(heap@, class) && leads_to(
                heap@,
                line(heap@, class),
                0,
                name,
                descriptor,
            ) && is_object(heap@, descriptor, object);
        lemma_leads(heap@, line(heap@, class), 0, name);
    }
    if managed_above(heap@, owner, name, descriptor, object) {
        lemma_leads(heap@, line(heap@, heap@.objects[owner]->Class_0.metaclass), 0, name);
    }
}

/// Whether an accessor was given, or its lack refused.
pub open spec fn is_accessor(r: Result<Option<Value>>, accessor: Option<Value>) -> bool {
    match accessor {
        Some(f) => r matches Ok(found) && found == Some(f),
        None => r is Err && r->Err_0@.kind == "AttributeError"@,
    }
}

/// A property of an instance's class, or of a class's metaclass, is read by
/// its getter, set by its setter and deleted by its deleter; without the
/// accessor it refuses.
pub proof fn properties_use_their_accessors(
    heap: Heap,
    owner: Value,
    name: &str,
    descriptor: Value,
    getter: Option<Value>,
    setter: Option<Value>,
    deleter: Option<Value>,
    read: Result<Option<Value>>,
    set: Result<Option<Value>>,
    deleted: Result<Option<Value>>,
    set_above: Result<Option<Value>>,
    deleted_above: Result<Option<Value>>,
)
    requires
        heap.wf(),
        call_ensures(Heap::property_getter, (&heap, owner, name), read),
        call_ensures(Heap::property_setter, (&heap, owner, name), set),
        call_ensures(Heap::property_deleter, (&heap, owner, name), deleted),
        call_ensures(Heap::metaclass_property_setter, (&heap, owner, name), set_above),
        call_ensures(Heap::metaclass_property_deleter, (&heap, owner, name), deleted_above),
    ensures
        managed_by(
            heap@,
            owner,
            name@,
            descriptor,
            ObjectView::Property { getter, setter, deleter },
        ) ==> is_accessor(read, getter) && is_accessor(set, setter) && is_accessor(deleted, deleter),
        managed_above(
            heap@,
            owner,
            name@,
            descriptor,
            ObjectView::Property { getter, setter, deleter },
        ) ==> is_accessor(set_above, setter) && is_accessor(deleted_above, deleter),
{
    lemma_managed(
        heap,
        owner,
        name@,
        descriptor,
        ObjectView::Property { getter, setter, deleter },
    );
}

/// Whether an instance's class leads a hook's name to a function, or nowhere.
pub open spec fn hook(
    heap: HeapView,
    descriptor: Value,
    class: Value,
    name: Seq<char>,
    function: Option<Value>,
) -> bool {
    &&& is_instance(heap, descriptor, class)
    &&& is_class(heap, class)
    &&& match function {
        Some(f) => leads_to(heap, line(heap, class), 0, name, f) && heap.objects.dom().contains(f)
            && heap.objects[f] is Function,
        None => leads_nowhere(heap, line(heap, class), 0, name),
    }
}

proof fn lemma_hook(
    heap: HeapView,
    descriptor: Value,
    class: Value,
    name: Seq<char>,
    function: Option<Value>,
)
    requires
        hook(heap, descriptor, class, name, function),
    ensures
        heap.class_of(descriptor) == Some(class),
        heap.class_lookup(class, name) == Ok::<Option<Value>, Fault>(function),
        function matches Some(f) ==> heap.descriptor_callable(f, descriptor, class) == (
        DescriptorCall { callable: f, receiver: Some(descriptor) }),
{
    lemma_leads(heap, line(heap, class), 0, name);
}

/// Whether the hook that was wanted is called, a descriptor with only the
/// other one refuses, and one with neither is none.
pub open spec fn is_hook_call(
    r: Result<Option<DescriptorCall>>,
    descriptor: Value,
    wanted: Option<Value>,
    other: Option<Value>,
) -> bool {
    match wanted {
        Some(f) => r matches Ok(Some(call)) && call.callable == f && call.receiver == Some(
            descriptor,
        ),
        None => if other is Some {
            r is Err && r->Err_0@.kind == "AttributeError"@
        } else {
            r matches Ok(found) && found is None
        },
    }
}

/// A descriptor is set by its `__set__` and deleted by its `__delete__`, on
/// the class of an instance as on the metaclass of a class.
pub proof fn descriptors_use_their_hooks(
    heap: Heap,
    owner: Value,
    name: &str,
    descriptor: Value,
    object: ObjectView,
    class: Value,
    setter: Option<Value>,
    deleter: Option<Value>,
    set: Result<Option<DescriptorCall>>,
    deleted: Result<Option<DescriptorCall>>,
    set_above: Result<Option<DescriptorCall>>,
    deleted_above: Result<Option<DescriptorCall>>,
)
    requires
        heap.wf(),
        hook(heap@, descriptor, class, "__set__"@, setter),
        hook(heap@, descriptor, class, "__delete__"@, deleter),
        call_ensures(Heap::descriptor_setter, (&heap, owner, name), set),
        call_ensures(Heap::descriptor_deleter, (&heap, owner, name), deleted),
        call_ensures(Heap::metaclass_descriptor_setter, (&heap, owner, name), set_above),
        call_ensures(Heap::metaclass_descriptor_deleter, (&heap, owner, name), deleted_above),
    ensures
        managed_by(heap@, owner, name@, descriptor, object) ==> is_hook_call(
            set,
            descriptor,
            setter,
            deleter,
        ) && is_hook_call(deleted, descriptor, deleter, setter),
        managed_above(heap@, owner, name@, descriptor, object) ==> is_hook_call(
            set_above,
            descriptor,
            setter,
            deleter,
        ) && is_hook_call(deleted_above, descriptor, deleter, setter),
{
    lemma_managed(heap, owner, name@, descriptor, object);
    lemma_hook(heap@, descriptor, class, "__set__"@, setter);
    lemma_hook(heap@, descriptor, class, "__delete__"@, deleter);
}

/// A descriptor is read by its `__get__` with the instance and its class. One
/// that can also be set or deleted comes before the instance's own attribute,
/// another behind it.
pub proof fn descriptors_are_read(
    heap: Heap,
    owner: Value,
    owner_class: Value,
    name: &str,
    descriptor: Value,
    class: Value,
    getter: Option<Value>,
    setter: Option<Value>,
    deleter: Option<Value>,
    r: Result<Option<DescriptorAccess>>,
)
    requires
        heap.wf(),
        is_instance(heap@, owner, owner_class),
        is_class(heap@, owner_class),
        leads_to(heap@, line(heap@, owner_class), 0, name@, descriptor),
        hook(heap@, descriptor, class, "__get__"@, getter),
        hook(heap@, descriptor, class, "__set__"@, setter),
        hook(heap@, descriptor, class, "__delete__"@, deleter),
        call_ensures(Heap::descriptor_getter, (&heap, owner, name), r),
    ensures
        ({
            let data = setter is Some || deleter is Some;
            let shadowed = heap@.attribute(owner, name@) is Some;
            &&& (data || !shadowed) && getter is Some ==> (r matches Ok(Some(access)) && access@ == (
            Access::Call {
                callable: getter->0,
                receiver: Some(descriptor),
                positional: seq![owner, owner_class],
            }))
            &&& data && getter is None ==> (r matches Ok(Some(access)) && access@ == Access::Value(
                descriptor,
            ))
            &&& !data && (shadowed || getter is None) ==> (r matches Ok(found) && found is None)
        }),
{
    heap.lemma_view();
    lemma_leads(heap@, line(heap@, owner_class), 0, name@);
    lemma_hook(heap@, descriptor, class, "__get__"@, getter);
    lemma_hook(heap@, descriptor, class, "__set__"@, setter);
    lemma_hook(heap@, descriptor, class, "__delete__"@, deleter);
}

/// A descriptor that a class has is read through the class with no instance.
pub proof fn descriptors_are_read_through_classes(
    heap: Heap,
    owner: Value,
    name: &str,
    descriptor: Value,
    class: Value,
    getter: Value,
    setter: Option<Value>,
    deleter: Option<Value>,
    r: Result<Option<DescriptorAccess>>,
)
    requires
        heap.wf(),
        is_class(heap@, owner),
        leads_to(heap@, line(heap@, owner), 0, name@, descriptor),
        hook(heap@, descriptor, class, "__get__"@, Some(getter)),
        hook(heap@, descriptor, class, "__set__"@, setter),
        hook(heap@, descriptor, class, "__delete__"@, deleter),
        call_ensures(Heap::descriptor_getter, (&heap, owner, name), r),
    ensures
        r matches Ok(Some(access)) && (access@ matches Access::Call {
            callable,
            receiver,
            positional,
        } && callable == getter && receiver == Some(descriptor) && positional.len() == 2
            && positional[0]@ is Nothing && positional[1] == owner),
{
    heap.lemma_view();
    assert(4u64 & 7 == 4) by (bit_vector);
    lemma_leads(heap@, line(heap@, owner), 0, name@);
    lemma_hook(heap@, descriptor, class, "__get__"@, Some(getter));
    lemma_hook(heap@, descriptor, class, "__set__"@, setter);
    lemma_hook(heap@, descriptor, class, "__delete__"@, deleter);
}

/// How a class attribute is called: a function with the object before the
/// arguments, a static method without, a class method with the class.
pub proof fn callables_get_their_receivers(
    heap: Heap,
    value: Value,
    object: ObjectView,
    descriptor: Value,
    class: Value,
    r: DescriptorCall,
)
    requires
        heap.wf(),
        is_object(heap@, value, object),
        call_ensures(Heap::descriptor_callable, (&heap, value, descriptor, class), r),
    ensures
        match object {
            ObjectView::Function { .. } => r.callable == value && r.receiver == Some(descriptor),
            ObjectView::StaticMethod(f) => r.callable == f && r.receiver is None,
            ObjectView::ClassMethod(f) => r.callable == f && r.receiver == Some(class),
            ObjectView::Builtin(builtin) => r.callable == value && r.receiver == (
            if takes_receiver(builtin) {
                Some(descriptor)
            } else {
                None
            }),
            _ => r.callable == value && r.receiver is None,
        },
{
}

/// A method of a class object is that of its metaclass, with the class before
/// the arguments; a method of an instance is that of its class, not one of its
/// own attributes.
pub proof fn special_methods_belong_to_the_type(
    heap: Heap,
    value: Value,
    name: &str,
    class: Value,
    method: Option<Value>,
    of_class: Result<Option<DescriptorCall>>,
    of_instance: Result<Option<DescriptorCall>>,
)
    requires
        heap.wf(),
        is_class(heap@, class),
        match method {
            Some(f) => leads_to(heap@, line(heap@, class), 0, name@, f)
                && heap@.objects.dom().contains(f) && heap@.objects[f] is Function,
            None => leads_nowhere(heap@, line(heap@, class), 0, name@),
        },
        call_ensures(Heap::metaclass_method_call, (&heap, value, name), of_class),
        call_ensures(Heap::special_method_call, (&heap, value, name), of_instance),
    ensures
        is_class(heap@, value) && heap@.objects[value]->Class_0.metaclass == class ==> (of_class
            matches Ok(found) && found == match method {
            Some(f) => Some(DescriptorCall { callable: f, receiver: Some(value) }),
            None => None,
        }),
        is_instance(heap@, value, class) ==> (of_instance matches Ok(found) && found
            == match method {
            Some(f) => Some(DescriptorCall { callable: f, receiver: Some(value) }),
            None => None,
        }),
{
    heap.lemma_view();
    crate::value::lemma_not_heap();
    lemma_object_word(heap@, class);
    lemma_leads(heap@, line(heap@, class), 0, name@);
}

/// A method that is called at once is the one that the attribute would be
/// bound from: not one that the instance shadows.
pub proof fn direct_methods_are_class_functions(
    heap: Heap,
    owner: Value,
    class: Value,
    name: &str,
    value: Value,
    object: ObjectView,
    hooked: bool,
    r: Option<(Value, DirectMethodKind, Option<Value>)>,
)
    requires
        heap.wf(),
        is_instance(heap@, owner, class),
        is_class(heap@, class),
        leads_to(heap@, line(heap@, class), 0, name@, value),
        is_object(heap@, value, object),
        call_ensures(Heap::has_custom_getattribute, (&heap, owner), hooked),
        call_ensures(Heap::direct_method, (&heap, owner, name), r),
    ensures
        hooked || heap@.attribute(owner, name@) is Some ==> r is None,
        !hooked && heap@.attribute(owner, name@) is None ==> match object {
            ObjectView::Function { .. } => r == Some(
                (value, DirectMethodKind::Instance, Some(owner)),
            ),
            ObjectView::StaticMethod(f) => heap@.objects.dom().contains(f)
                && heap@.objects[f] is Function ==> r == Some(
                (f, DirectMethodKind::Static, None::<Value>),
            ),
            ObjectView::ClassMethod(f) => heap@.objects.dom().contains(f)
                && heap@.objects[f] is Function ==> r == Some(
                (f, DirectMethodKind::Class, Some(class)),
            ),
            _ => r is None,
        },
{
    heap.lemma_view();
    lemma_leads(heap@, line(heap@, class), 0, name@);
}

/// Attribute reads are intercepted by a `__getattribute__` other than the
/// builtin one.
pub proof fn interception_is_by_other_methods(
    heap: Heap,
    owner: Value,
    class: Value,
    method: Value,
    r: bool,
)
    requires
        heap.wf(),
        is_instance(heap@, owner, class),
        is_class(heap@, class),
        leads_to(heap@, line(heap@, class), 0, "__getattribute__"@, method),
        call_ensures(Heap::has_custom_getattribute, (&heap, owner), r),
    ensures
        heap@.objects.dom().contains(method) && heap@.objects[method] is Function ==> r,
        is_object(heap@, method, ObjectView::Builtin(Builtin::ObjectGetAttribute)) ==> !r,
{
    lemma_leads(heap@, line(heap@, class), 0, "__getattribute__"@);
}

} // verus!
