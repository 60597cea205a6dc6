//! Calls: whom they reach, and with what.
use vstd::prelude::*;
use crate::calls::access::finish_attribute_success;
use crate::calls::arguments::{ArgsView, ExpandedArgs};
use crate::calls::construct::ClassFacts;
use crate::calls::state::{AttributeGet, AttributeMissing, Continuation, Step};
use crate::calls::target::World;
use crate::diagnostic::Result;
use crate::heap::{Heap, HeapView};
use crate::laws::classes::{is_class, is_instance, line};
use crate::laws::converting::finished;
use crate::laws::descriptors::{hook, managed_by};
use crate::laws::operators::has_method;
use crate::laws::{gives_new, gives_number, is_object, leads_to, lemma_leads, raises, truth_words};
use crate::lookup::DescriptorCall;
use crate::object::{Builtin, ObjectView};
use crate::value::{Meaning, Value};

verus! {

/// A call reaches a function itself, a static method's function, a bound
/// method's function with its receiver, and an instance's `__call__` with the
/// instance.
pub proof fn calls_reach_functions(
    heap: Heap,
    callee: Value,
    object: ObjectView,
    receiver: Option<Value>,
    class: Value,
    r: Result<DescriptorCall>,
)
    requires
        heap.wf(),
        is_object(heap@, callee, object),
        call_ensures(Heap::resolve_target, (&heap, callee, receiver), r),
    ensures
        match object {
            ObjectView::Function { .. } => r matches Ok(end) && end.callable == callee
                && end.receiver == receiver,
            ObjectView::Class(_) => r matches Ok(end) && end.callable == callee && end.receiver
                == receiver,
            ObjectView::StaticMethod(f) => heap@.objects.dom().contains(f)
                && heap@.objects[f] is Function ==> (r matches Ok(end) && end.callable == f
                && end.receiver == receiver),
            ObjectView::BoundMethod { function: f, receiver: held } => heap@.objects.dom().contains(
                f,
            ) && heap@.objects[f] is Function ==> {
                &&& receiver is None ==> (r matches Ok(end) && end.callable == f && end.receiver
                    == Some(held))
                &&& receiver is Some ==> r is Err
            },
            ObjectView::Instance { .. } => {
                &&& forall|f: Value| #[trigger]
                    has_method(heap@, callee, class, "__call__"@, Some(f)) && receiver is None ==> (
                    r matches Ok(end) && end.callable == f && end.receiver == Some(callee))
                &&& has_method(heap@, callee, class, "__call__"@, None) ==> r is Err
                    && r->Err_0@.kind == "TypeError"@
            },
            _ => true,
        },
{
    reveal_with_fuel(HeapView::resolved, 3);
    if object is Instance {
        assert forall|f: Value| #[trigger]
            has_method(heap@, callee, class, "__call__"@, Some(f)) && receiver is None implies (
        r matches Ok(end) && end.callable == f && end.receiver == Some(callee)) by {
            lemma_leads(
                heap@,
                seq![class] + heap@.objects[class]->Class_0.mro,
                0,
                "__call__"@,
            );
        }
        if has_method(heap@, callee, class, "__call__"@, None) {
            lemma_leads(
                heap@,
                seq![class] + heap@.objects[class]->Class_0.mro,
                0,
                "__call__"@,
            );
        }
    }
}

/// A function of the running program gets a frame with the arguments it was
/// called with; one of an earlier run, the body of a class, and a call with
/// keys that are no texts are refused.
pub proof fn functions_get_frames(
    heap: &mut Heap,
    callee: Value,
    code: u16,
    execution: u64,
    captures: Seq<Value>,
    defaults: Seq<Value>,
    arguments: ExpandedArgs,
    world: World,
    r: Result<Step>,
)
    requires
        old(heap).wf(),
        is_object(
            old(heap)@,
            callee,
            ObjectView::Function { code, execution, captures, defaults },
        ),
        code < world.class_bodies@.len(),
        call_ensures(Heap::invoke_target, (heap, callee, arguments, &world), r),
    ensures
        final(heap)@ == old(heap)@,
        arguments@.invalid_keywords.len() > 0 ==> r is Err && r->Err_0@.kind == "TypeError"@,
        arguments@.invalid_keywords.len() == 0 && execution != world.execution ==> r is Err,
        arguments@.invalid_keywords.len() == 0 && execution == world.execution
            && world.class_bodies@[code as int] ==> r is Err,
        arguments@.invalid_keywords.len() == 0 && execution == world.execution
            && !world.class_bodies@[code as int] ==> (r matches Ok(
            Step::Frame { code: c, callable, arguments: a },
        ) && c == code && callable == callee && a@ == arguments@),
{
    reveal_with_fuel(HeapView::resolved, 2);
}

/// A bound method is called with its receiver before the arguments.
pub proof fn bound_methods_get_their_receiver(
    heap: &mut Heap,
    callee: Value,
    function: Value,
    receiver: Value,
    arguments: ExpandedArgs,
    world: World,
    r: Result<Step>,
)
    requires
        old(heap).wf(),
        is_object(old(heap)@, callee, ObjectView::BoundMethod { function, receiver }),
        old(heap)@.objects.dom().contains(function),
        old(heap)@.objects[function] is Function,
        old(heap)@.objects[function]->Function_execution == world.execution,
        !world.class_bodies@[old(heap)@.objects[function]->Function_code as int],
        arguments@.receiver is None,
        arguments@.invalid_keywords.len() == 0,
        call_ensures(Heap::invoke_target, (heap, callee, arguments, &world), r),
    ensures
        r matches Ok(Step::Frame { callable, arguments: a, .. }) && callable == function && a@
            == (ArgsView { receiver: Some(receiver), ..arguments@ }),
{
    reveal_with_fuel(HeapView::resolved, 3);
}

/// A native function gets exactly as many arguments as it takes, and no
/// keywords; a class is called as a class; and other objects are not called.
pub proof fn other_callables_are_called(
    heap: &mut Heap,
    callee: Value,
    object: ObjectView,
    arguments: ExpandedArgs,
    world: World,
    r: Result<Step>,
)
    requires
        old(heap).wf(),
        is_object(old(heap)@, callee, object),
        arguments@.invalid_keywords.len() == 0,
        arguments@.receiver is None,
        call_ensures(Heap::invoke_target, (heap, callee, arguments, &world), r),
    ensures
        match object {
            ObjectView::Native(index) => {
                &&& arguments@.keywords.len() > 0 ==> raises(
                    old(heap)@,
                    final(heap)@,
                    r,
                    "TypeError",
                )
                &&& arguments@.keywords.len() == 0 && arguments@.positional.len()
                    != world.arities@[index as int] ==> raises(
                    old(heap)@,
                    final(heap)@,
                    r,
                    "TypeError",
                )
                &&& arguments@.keywords.len() == 0 && arguments@.positional.len()
                    == world.arities@[index as int] ==> (r matches Ok(
                    Step::Native { index: i, arguments: a },
                ) && i == index && a@ == arguments@.positional)
            },
            ObjectView::Class(_) => r matches Ok(Step::Class { class, arguments: a }) && class
                == callee && a@ == arguments@,
            ObjectView::List(_) => raises(old(heap)@, final(heap)@, r, "TypeError"),
            ObjectView::Str(_) => raises(old(heap)@, final(heap)@, r, "TypeError"),
            ObjectView::Int(_) => raises(old(heap)@, final(heap)@, r, "TypeError"),
            _ => true,
        },
{
    reveal_with_fuel(HeapView::resolved, 2);
    assert(arguments@.all() =~= arguments@.positional);
}

/// A property's setter and deleter decorators make a property with the other
/// accessor and leave the rest.
pub proof fn decorators_replace_one_accessor(
    heap: &mut Heap,
    callee: Value,
    property: Value,
    getter: Option<Value>,
    setter: Option<Value>,
    deleter: Option<Value>,
    arguments: ExpandedArgs,
    world: World,
    r: Result<Step>,
)
    requires
        old(heap).wf(),
        is_object(old(heap)@, property, ObjectView::Property { getter, setter, deleter }),
        arguments@.receiver is None,
        arguments@.positional.len() == 1,
        arguments@.keywords.len() == 0,
        arguments@.invalid_keywords.len() == 0,
        call_ensures(Heap::invoke_target, (heap, callee, arguments, &world), r),
    ensures
        is_object(old(heap)@, callee, ObjectView::PropertySetter(property)) ==> (finished(
            r,
        ) matches Some(made) && gives_new(
            old(heap)@,
            final(heap)@,
            made,
            ObjectView::Property { getter, setter: Some(arguments@.positional[0]), deleter },
        )),
        is_object(old(heap)@, callee, ObjectView::PropertyDeleter(property)) ==> (finished(
            r,
        ) matches Some(made) && gives_new(
            old(heap)@,
            final(heap)@,
            made,
            ObjectView::Property { getter, setter, deleter: Some(arguments@.positional[0]) },
        )),
{
    old(heap).lemma_view();
    reveal_with_fuel(HeapView::resolved, 2);
    assert(arguments@.all() =~= arguments@.positional);
}

/// What the descriptor builtins make of their arguments, each in its place.
pub proof fn descriptor_builtins_make_descriptors(
    heap: &mut Heap,
    builtin: Builtin,
    arguments: ExpandedArgs,
    r: Result<Step>,
)
    requires
        old(heap).wf(),
        arguments@.receiver is None,
        arguments@.keywords.len() == 0,
        call_ensures(Heap::call_builtin, (heap, builtin, &arguments), r),
    ensures
        builtin == Builtin::StaticMethod && arguments@.positional.len() == 1 ==> (finished(
            r,
        ) matches Some(made) && gives_new(
            old(heap)@,
            final(heap)@,
            made,
            ObjectView::StaticMethod(arguments@.positional[0]),
        )),
        builtin == Builtin::ClassMethod && arguments@.positional.len() == 1 ==> (finished(
            r,
        ) matches Some(made) && gives_new(
            old(heap)@,
            final(heap)@,
            made,
            ObjectView::ClassMethod(arguments@.positional[0]),
        )),
        builtin == Builtin::Property && arguments@.positional.len() == 3 && (forall|i: int|
            0 <= i < 3 ==> !((#[trigger] arguments@.positional[i])@ is Nothing)) ==> (finished(
            r,
        ) matches Some(made) && gives_new(
            old(heap)@,
            final(heap)@,
            made,
            ObjectView::Property {
                getter: Some(arguments@.positional[0]),
                setter: Some(arguments@.positional[1]),
                deleter: Some(arguments@.positional[2]),
            },
        )),
        builtin == Builtin::Property && arguments@.positional.len() == 1
            && !(arguments@.positional[0]@ is Nothing) ==> (finished(r) matches Some(made)
            && gives_new(
            old(heap)@,
            final(heap)@,
            made,
            ObjectView::Property {
                getter: Some(arguments@.positional[0]),
                setter: None,
                deleter: None,
            },
        )),
        (builtin == Builtin::IsInstance || builtin == Builtin::IsSubclass)
            && arguments@.positional.len() == 2 ==> (r matches Ok(
            Step::InstanceCheck { value, class, subclass },
        ) && value == arguments@.positional[0] && class == arguments@.positional[1] && subclass == (
        builtin == Builtin::IsSubclass)),
        builtin == Builtin::ObjectNew && arguments@.positional.len() == 1 ==> (r matches Ok(
            Step::ObjectNew { class },
        ) && class == arguments@.positional[0]),
{
    old(heap).lemma_view();
    crate::laws::subscripts::lemma_none_word();
    assert(arguments@.all() =~= arguments@.positional);
}

/// The attribute builtins act on their first argument by the name that the
/// second spells, with the third as the value or what stands for a missing
/// one.
pub proof fn attribute_builtins_act_by_name(
    heap: &mut Heap,
    builtin: Builtin,
    arguments: ExpandedArgs,
    spelled: Seq<char>,
    r: Result<Step>,
)
    requires
        old(heap).wf(),
        arguments@.receiver is None,
        arguments@.keywords.len() == 0,
        arguments@.positional.len() >= 2,
        is_object(old(heap)@, arguments@.positional[1], ObjectView::Str(spelled)),
        call_ensures(Heap::invoke_builtin, (heap, builtin, arguments), r),
    ensures
        ({
            let values = arguments@.positional;
            &&& builtin == Builtin::GetAttr && values.len() == 2 ==> (r matches Ok(
                Step::Attribute { owner, name, missing },
            ) && owner == values[0] && name@ == spelled && missing == AttributeMissing::Raise)
            &&& builtin == Builtin::GetAttr && values.len() == 3 ==> (r matches Ok(
                Step::Attribute { owner, name, missing },
            ) && owner == values[0] && name@ == spelled && missing == AttributeMissing::Default(
                values[2],
            ))
            &&& builtin == Builtin::HasAttr && values.len() == 2 ==> (r matches Ok(
                Step::Attribute { owner, name, missing },
            ) && owner == values[0] && name@ == spelled && missing == AttributeMissing::HasAttr)
            &&& builtin == Builtin::SetAttr && values.len() == 3 ==> (r matches Ok(
                Step::SetAttribute { owner, name, value },
            ) && owner == values[0] && name@ == spelled && value == values[2])
            &&& builtin == Builtin::DelAttr && values.len() == 2 ==> (r matches Ok(
                Step::DeleteAttribute { owner, name },
            ) && owner == values[0] && name@ == spelled)
        }),
{
    assert(arguments@.all() =~= arguments@.positional);
}

/// `len` asks an instance for its `__len__`, and else counts.
pub proof fn lengths_are_asked_or_counted(
    heap: &mut Heap,
    arguments: ExpandedArgs,
    class: Value,
    method: Value,
    items: Seq<Value>,
    r: Result<Step>,
)
    requires
        old(heap).wf(),
        arguments@.receiver is None,
        arguments@.keywords.len() == 0,
        arguments@.positional.len() == 1,
        call_ensures(Heap::invoke_builtin, (heap, Builtin::Len, arguments), r),
    ensures
        has_method(old(heap)@, arguments@.positional[0], class, "__len__"@, Some(method)) ==> (
        r matches Ok(Step::Call { callable, arguments: a, then }) && callable == method
            && a@.receiver == Some(arguments@.positional[0]) && a@.positional.len() == 0 && then
            is Length),
        is_object(old(heap)@, arguments@.positional[0], ObjectView::List(items)) ==> (finished(
            r,
        ) matches Some(made) && gives_number(
            old(heap)@,
            final(heap)@,
            made,
            items.len() as int,
        )),
{
    old(heap).lemma_view();
    assert(arguments@.all() =~= arguments@.positional);
    if has_method(old(heap)@, arguments@.positional[0], class, "__len__"@, Some(method)) {
        lemma_leads(
            old(heap)@,
            seq![class] + old(heap)@.objects[class]->Class_0.mro,
            0,
            "__len__"@,
        );
    }
}

/// What was found is the answer, but to the question whether it is there.
pub proof fn found_attributes_are_answers(value: Value, get: Option<AttributeGet>, r: Value)
    requires
        call_ensures(finish_attribute_success, (value, &get), r),
    ensures
        get is None ==> r == value,
        get matches Some(held) ==> !(held.missing is HasAttr) ==> r == value,
        get matches Some(held) ==> held.missing is HasAttr ==> r@ == Meaning::Bool(true),
{
    truth_words();
}

/// Setting an attribute that a property of the class manages calls its setter
/// with the instance and the value; one that a descriptor manages calls its
/// `__set__` with the instance and the value.
pub proof fn managed_attributes_are_set_by_calls(
    heap: &mut Heap,
    owner: Value,
    name: &str,
    value: Value,
    descriptor: Value,
    getter: Option<Value>,
    setter: Value,
    deleter: Option<Value>,
    object: ObjectView,
    class: Value,
    r: Result<Step>,
)
    requires
        old(heap).wf(),
        call_ensures(Heap::invoke_default_attribute_set, (heap, owner, name, value), r),
    ensures
        managed_by(
            old(heap)@,
            owner,
            name@,
            descriptor,
            ObjectView::Property { getter, setter: Some(setter), deleter },
        ) ==> final(heap)@ == old(heap)@ && (r matches Ok(Step::Call { callable, arguments, then })
            && callable == setter && arguments@.receiver == Some(owner) && arguments@.positional
            == seq![value] && then is Setter),
        managed_by(old(heap)@, owner, name@, descriptor, object) && hook(
            old(heap)@,
            descriptor,
            class,
            "__set__"@,
            Some(setter),
        ) ==> final(heap)@ == old(heap)@ && (r matches Ok(Step::Call { callable, arguments, then })
            && callable == setter && arguments@.receiver == Some(descriptor) && arguments@.positional
            == seq![owner, value] && then is Setter),
{
    let property = ObjectView::Property { getter, setter: Some(setter), deleter };
    if managed_by(old(heap)@, owner, name@, descriptor, property) {
        let owner_class = choose|owner_class: Value| #[trigger]
            is_instance(old(heap)@, owner, owner_class) && is_class(old(heap)@, owner_class)
                && leads_to(
                old(heap)@,
                line(old(heap)@, owner_class),
                0,
                name@,
                descriptor,
            ) && is_object(old(heap)@, descriptor, property);
        lemma_leads(old(heap)@, line(old(heap)@, owner_class), 0, name@);
    }
    if managed_by(old(heap)@, owner, name@, descriptor, object) && hook(
        old(heap)@,
        descriptor,
        class,
        "__set__"@,
        Some(setter),
    ) {
        let owner_class = choose|owner_class: Value| #[trigger]
            is_instance(old(heap)@, owner, owner_class) && is_class(old(heap)@, owner_class)
                && leads_to(
                old(heap)@,
                line(old(heap)@, owner_class),
                0,
                name@,
                descriptor,
            ) && is_object(old(heap)@, descriptor, object);
        lemma_leads(old(heap)@, line(old(heap)@, owner_class), 0, name@);
        lemma_leads(old(heap)@, line(old(heap)@, class), 0, "__set__"@);
    }
}

/// Deleting an attribute that a property of the class manages calls its deleter
/// with the instance; one that a descriptor manages calls its `__delete__` with
/// the instance.
pub proof fn managed_attributes_are_deleted_by_calls(
    heap: &mut Heap,
    owner: Value,
    name: &str,
    descriptor: Value,
    getter: Option<Value>,
    setter: Option<Value>,
    deleter: Value,
    object: ObjectView,
    class: Value,
    r: Result<Step>,
)
    requires
        old(heap).wf(),
        call_ensures(Heap::invoke_default_attribute_delete, (heap, owner, name), r),
    ensures
        managed_by(
            old(heap)@,
            owner,
            name@,
            descriptor,
            ObjectView::Property { getter, setter, deleter: Some(deleter) },
        ) ==> final(heap)@ == old(heap)@ && (r matches Ok(Step::Call { callable, arguments, then })
            && callable == deleter && arguments@.receiver == Some(owner) && arguments@.positional
            == Seq::<Value>::empty() && then is Setter),
        managed_by(old(heap)@, owner, name@, descriptor, object) && hook(
            old(heap)@,
            descriptor,
            class,
            "__delete__"@,
            Some(deleter),
        ) ==> final(heap)@ == old(heap)@ && (r matches Ok(Step::Call { callable, arguments, then })
            && callable == deleter && arguments@.receiver == Some(descriptor) && arguments@.positional
            == seq![owner] && then is Setter),
{
    let property = ObjectView::Property { getter, setter, deleter: Some(deleter) };
    if managed_by(old(heap)@, owner, name@, descriptor, property) {
        let owner_class = choose|owner_class: Value| #[trigger]
            is_instance(old(heap)@, owner, owner_class) && is_class(old(heap)@, owner_class)
                && leads_to(
                old(heap)@,
                line(old(heap)@, owner_class),
                0,
                name@,
                descriptor,
            ) && is_object(old(heap)@, descriptor, property);
        lemma_leads(old(heap)@, line(old(heap)@, owner_class), 0, name@);
    }
    if managed_by(old(heap)@, owner, name@, descriptor, object) && hook(
        old(heap)@,
        descriptor,
        class,
        "__delete__"@,
        Some(deleter),
    ) {
        let owner_class = choose|owner_class: Value| #[trigger]
            is_instance(old(heap)@, owner, owner_class) && is_class(old(heap)@, owner_class)
                && leads_to(
                old(heap)@,
                line(old(heap)@, owner_class),
                0,
                name@,
                descriptor,
            ) && is_object(old(heap)@, descriptor, object);
        lemma_leads(old(heap)@, line(old(heap)@, owner_class), 0, name@);
        lemma_leads(old(heap)@, line(old(heap)@, class), 0, "__delete__"@);
    }
}

/// Whether a class has nothing to do with builtin types.
pub open spec fn is_ordinary(facts: ClassFacts) -> bool {
    !facts.type_class && facts.builtin is None && !facts.exception && !facts.metaclass
        && facts.storage is None
}

/// Calling a class without a constructor of its own makes an empty instance of
/// it and initializes that with the arguments; one with a constructor calls it
/// with the class before the arguments.
pub proof fn classes_make_instances(
    heap: &mut Heap,
    class: Value,
    constructor: Value,
    arguments: ExpandedArgs,
    facts: ClassFacts,
    r: Result<Step>,
)
    requires
        old(heap).wf(),
        is_ordinary(facts),
        is_class(old(heap)@, class),
        leads_to(old(heap)@, line(old(heap)@, class), 0, "__new__"@, constructor),
        arguments@.receiver is None,
        call_ensures(Heap::invoke_class, (heap, class, arguments, facts), r),
    ensures
        is_object(old(heap)@, constructor, ObjectView::Builtin(Builtin::ObjectNew)) ==> match r {
            Ok(Step::New { class: c, instance, arguments: a }) => c == class && a@ == arguments@
                && !old(heap)@.objects.dom().contains(instance) && final(heap)@.objects.dom().contains(instance) && final(heap)@.objects[instance] is Instance
                && is_instance(final(heap)@, instance, class) && final(heap)@.objects[instance]->Instance_native is None,
            Ok(_) => false,
            Err(error) => old(heap)@.room == 0,
        },
        old(heap)@.objects.dom().contains(constructor) && old(heap)@.objects[constructor] is Function
            ==> (r matches Ok(Step::Call { callable, arguments: a, then }) && callable
            == constructor && a@ == (ArgsView { receiver: Some(class), ..arguments@ }) && (
        then matches Continuation::New { class: c, arguments: held } && c == class && held@
            == arguments@)),
{
    old(heap).lemma_view();
    lemma_leads(old(heap)@, line(old(heap)@, class), 0, "__new__"@);
}

/// A new instance is initialized by its class's `__init__` with the arguments,
/// and is the result; what is no instance of the class is the result as it is.
pub proof fn instances_are_initialized(
    heap: &mut Heap,
    class: Value,
    instance: Value,
    initializer: Value,
    arguments: ExpandedArgs,
    fits: bool,
    r: Result<Step>,
)
    requires
        old(heap).wf(),
        is_class(old(heap)@, class),
        old(heap)@.objects.dom().contains(instance),
        old(heap)@.objects[instance] is Instance,
        is_instance(old(heap)@, instance, class),
        old(heap)@.attribute(instance, "__init__"@) is None,
        leads_to(old(heap)@, line(old(heap)@, class), 0, "__init__"@, initializer),
        old(heap)@.objects.dom().contains(initializer),
        old(heap)@.objects[initializer] is Function,
        old(heap)@.room > 0,
        call_ensures(Heap::finish_new, (heap, class, instance, arguments, fits), r),
    ensures
        !fits ==> r == Ok::<Step, crate::diagnostic::Diagnostic>(Step::Done(instance)) && final(heap)@ == old(heap)@,
        fits ==> (r matches Ok(Step::Call { callable, arguments: a, then }) && is_object(
            final(heap)@,
            callable,
            ObjectView::BoundMethod { function: initializer, receiver: instance },
        ) && a@ == arguments@ && then == Continuation::Initializer(instance)),
{
    old(heap).lemma_view();
    lemma_leads(old(heap)@, line(old(heap)@, class), 0, "__init__"@);
    reveal_strlit("__init__");
    reveal_strlit("__class__");
    reveal_strlit("__dict__");
    assert("__init__"@[2] == 'i' && "__class__"@[2] == 'c' && "__dict__"@[2] == 'd');
}

} // verus!
