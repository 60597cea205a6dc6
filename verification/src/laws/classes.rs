//! Attributes: where they are found and how they are bound.
use vstd::prelude::*;
use crate::diagnostic::Result;
use crate::heap::{Heap, HeapView};
use crate::laws::{gives, gives_new, is_object, leads_nowhere, leads_to, lemma_leads, raises};
use crate::lookup::{Access, DescriptorAccess};
use crate::object::{Builtin, ObjectView};
use crate::value::{Meaning, Value};

verus! {

/// Whether a value is a live class.
pub open spec fn is_class(heap: HeapView, class: Value) -> bool {
    heap.objects.dom().contains(class) && heap.objects[class] is Class
}

/// A class and its ancestors, in the order in which they are searched.
pub open spec fn line(heap: HeapView, class: Value) -> Seq<Value> {
    seq![class] + heap.objects[class]->Class_0.mro
}

/// Whether a value is an instance of exactly this class.
pub open spec fn is_instance(heap: HeapView, value: Value, class: Value) -> bool {
    heap.objects.dom().contains(value) && match heap.objects[value] {
        ObjectView::Instance { class: held, .. } => held == class,
        ObjectView::Exception { class: held, .. } => held == class,
        _ => false,
    }
}

/// The native functions that are methods: those by which objects and classes
/// have their attributes read, set and deleted.
pub open spec fn takes_receiver(builtin: Builtin) -> bool {
    ||| builtin == Builtin::ObjectGetAttribute || builtin == Builtin::TypeGetAttribute
    ||| builtin == Builtin::ObjectSetAttr || builtin == Builtin::TypeSetAttr
    ||| builtin == Builtin::ObjectDelAttr || builtin == Builtin::TypeDelAttr
}

/// Whether a class attribute was seen as it should be through an instance or
/// through a class: a function as a method of the instance, a static method as
/// its function, a class method as a method of the class, and other values as
/// they stand.
pub open spec fn is_bound(
    before: HeapView,
    after: HeapView,
    result: Result<Value>,
    value: Value,
    instance: Option<Value>,
    class: Value,
) -> bool {
    if !before.objects.dom().contains(value) {
        gives(before, after, result, value)
    } else {
        match before.objects[value] {
            ObjectView::Function { .. } => match instance {
                Some(receiver) => gives_new(
                    before,
                    after,
                    result,
                    ObjectView::BoundMethod { function: value, receiver },
                ),
                None => gives(before, after, result, value),
            },
            ObjectView::StaticMethod(function) => gives(before, after, result, function),
            ObjectView::ClassMethod(function) => gives_new(
                before,
                after,
                result,
                ObjectView::BoundMethod { function, receiver: class },
            ),
            ObjectView::Builtin(builtin) => match instance {
                Some(receiver) => if takes_receiver(builtin) {
                    gives_new(
                        before,
                        after,
                        result,
                        ObjectView::BoundMethod { function: value, receiver },
                    )
                } else {
                    gives(before, after, result, value)
                },
                None => gives(before, after, result, value),
            },
            _ => gives(before, after, result, value),
        }
    }
}

/// A class attribute is that of the first class of the line that has it.
pub proof fn class_lookups_search_the_line(
    heap: Heap,
    class: Value,
    name: &str,
    r: Result<Option<Value>>,
)
    requires
        heap.wf(),
        is_class(heap@, class),
        call_ensures(Heap::class_lookup, (&heap, class, name), r),
    ensures
        forall|value: Value| #[trigger]
            leads_to(heap@, line(heap@, class), 0, name@, value) ==> (r matches Ok(found) && found
                == Some(value)),
        leads_nowhere(heap@, line(heap@, class), 0, name@) ==> (r matches Ok(found) && found
            is None),
{
    lemma_leads(heap@, line(heap@, class), 0, name@);
}

/// A class is a subclass of itself and of the classes in its line.
pub proof fn subclasses_have_the_class_in_their_line(
    heap: Heap,
    class: Value,
    target: Value,
    r: Result<bool>,
)
    requires
        heap.wf(),
        is_class(heap@, class),
        is_class(heap@, target),
        class != target ==> heap@.objects[class]->Class_0.id != heap@.objects[target]->Class_0.id,
        call_ensures(Heap::class_is_subclass, (&heap, class, target), r),
    ensures
        r matches Ok(answer) && answer == line(heap@, class).contains(target),
{
    let mro = heap@.objects[class]->Class_0.mro;
    let all = line(heap@, class);
    assert(all[0] == class);
    if mro.contains(target) {
        let i = choose|i: int| 0 <= i < mro.len() && mro[i] == target;
        assert(all[i + 1] == target);
    }
    if all.contains(target) && class != target {
        let i = choose|i: int| 0 <= i < all.len() && all[i] == target;
        assert(mro[i - 1] == target);
    }
}

/// An attribute of an instance is its own, else that which its class has,
/// bound to it; one that neither has is missing.
pub proof fn instance_attributes_come_before_class_attributes(
    heap: &mut Heap,
    owner: Value,
    class: Value,
    name: &str,
    value: Value,
    r: Result<Value>,
)
    requires
        old(heap).wf(),
        old(heap)@.objects.dom().contains(owner),
        old(heap)@.objects[owner] is Instance,
        is_instance(old(heap)@, owner, class),
        is_class(old(heap)@, class),
        name@ != "__class__"@,
        name@ != "__dict__"@,
        call_ensures(Heap::attr, (heap, owner, name), r),
    ensures
        old(heap)@.attribute(owner, name@) == Some(value) ==> gives(
            old(heap)@,
            final(heap)@,
            r,
            value,
        ),
        old(heap)@.attribute(owner, name@) is None && leads_to(
            old(heap)@,
            line(old(heap)@, class),
            0,
            name@,
            value,
        ) ==> is_bound(old(heap)@, final(heap)@, r, value, Some(owner), class),
        old(heap)@.attribute(owner, name@) is None && leads_nowhere(
            old(heap)@,
            line(old(heap)@, class),
            0,
            name@,
        ) ==> raises(old(heap)@, final(heap)@, r, "AttributeError"),
{
    old(heap).lemma_view();
    lemma_leads(old(heap)@, line(old(heap)@, class), 0, name@);
}

/// An attribute of a class is that of the first class of its line that has it,
/// bound to no instance; one that none has is missing.
pub proof fn class_attributes_are_inherited(
    heap: &mut Heap,
    owner: Value,
    name: &str,
    value: Value,
    r: Result<Value>,
)
    requires
        old(heap).wf(),
        is_class(old(heap)@, owner),
        name@ != "__class__"@,
        name@ != "__dict__"@,
        name@ != "__name__"@,
        name@ != "__bases__"@,
        name@ != "__mro__"@,
        call_ensures(Heap::attr, (heap, owner, name), r),
    ensures
        leads_to(old(heap)@, line(old(heap)@, owner), 0, name@, value) ==> is_bound(
            old(heap)@,
            final(heap)@,
            r,
            value,
            None,
            owner,
        ),
        leads_nowhere(old(heap)@, line(old(heap)@, owner), 0, name@) ==> raises(
            old(heap)@,
            final(heap)@,
            r,
            "AttributeError",
        ),
{
    old(heap).lemma_view();
    lemma_leads(old(heap)@, line(old(heap)@, owner), 0, name@);
}

proof fn lemma_special_names()
    ensures
        "__class__"@ != "__dict__"@,
        "__class__"@ != "__name__"@,
        "__class__"@ != "__bases__"@,
        "__class__"@ != "__mro__"@,
        "__dict__"@ != "__name__"@,
        "__dict__"@ != "__bases__"@,
        "__dict__"@ != "__mro__"@,
        "__name__"@ != "__bases__"@,
        "__name__"@ != "__mro__"@,
        "__bases__"@ != "__mro__"@,
{
    reveal_strlit("__class__");
    reveal_strlit("__dict__");
    reveal_strlit("__name__");
    reveal_strlit("__bases__");
    reveal_strlit("__mro__");
    assert("__class__"@[2] == 'c' && "__dict__"@[2] == 'd' && "__name__"@[2] == 'n'
        && "__bases__"@[2] == 'b' && "__mro__"@[2] == 'm');
}

/// What a class says of itself: its name, its bases, its line with itself at
/// the head, and its dictionary.
pub proof fn classes_describe_themselves(heap: &mut Heap, owner: Value, name: &str, r: Result<Value>)
    requires
        old(heap).wf(),
        is_class(old(heap)@, owner),
        call_ensures(Heap::attr, (heap, owner, name), r),
    ensures
        ({
            let class = old(heap)@.objects[owner]->Class_0;
            &&& name@ == "__name__"@ ==> gives_new(
                old(heap)@,
                final(heap)@,
                r,
                ObjectView::Str(class.name),
            )
            &&& name@ == "__bases__"@ ==> gives_new(
                old(heap)@,
                final(heap)@,
                r,
                ObjectView::Tuple(class.bases),
            )
            &&& name@ == "__mro__"@ ==> gives_new(
                old(heap)@,
                final(heap)@,
                r,
                ObjectView::Tuple(line(old(heap)@, owner)),
            )
            &&& name@ == "__dict__"@ ==> gives_new(
                old(heap)@,
                final(heap)@,
                r,
                ObjectView::MappingProxy { class: owner },
            )
            &&& name@ == "__class__"@ && !(class.metaclass@ is Unbound) ==> gives(
                old(heap)@,
                final(heap)@,
                r,
                class.metaclass,
            )
        }),
{
    old(heap).lemma_view();
    lemma_special_names();
    lemma_unbound_word();
}

proof fn lemma_unbound_word()
    ensures
        Value::unbound()@ is Unbound,
{
    assert(5u64 & 7 == 5) by (bit_vector);
}

/// What instances, methods, properties and modules say of themselves.
pub proof fn objects_describe_themselves(heap: &mut Heap, owner: Value, name: &str, r: Result<Value>)
    requires
        old(heap).wf(),
        old(heap)@.objects.dom().contains(owner),
        call_ensures(Heap::attr, (heap, owner, name), r),
    ensures
        match old(heap)@.objects[owner] {
            ObjectView::Instance { class, .. } => name@ == "__class__"@ ==> gives(
                old(heap)@,
                final(heap)@,
                r,
                class,
            ),
            ObjectView::BoundMethod { function, receiver } => {
                &&& name@ == "__func__"@ ==> gives(old(heap)@, final(heap)@, r, function)
                &&& name@ == "__self__"@ ==> gives(old(heap)@, final(heap)@, r, receiver)
                &&& name@ != "__func__"@ && name@ != "__self__"@ ==> raises(
                    old(heap)@,
                    final(heap)@,
                    r,
                    "AttributeError",
                )
            },
            ObjectView::StaticMethod(function) => name@ == "__func__"@ ==> gives(
                old(heap)@,
                final(heap)@,
                r,
                function,
            ),
            ObjectView::ClassMethod(function) => name@ == "__func__"@ ==> gives(
                old(heap)@,
                final(heap)@,
                r,
                function,
            ),
            ObjectView::Property { getter, setter, deleter } => {
                &&& name@ == "fget"@ && getter is Some ==> gives(
                    old(heap)@,
                    final(heap)@,
                    r,
                    getter->0,
                )
                &&& name@ == "fset"@ && setter is Some ==> gives(
                    old(heap)@,
                    final(heap)@,
                    r,
                    setter->0,
                )
                &&& name@ == "fdel"@ && deleter is Some ==> gives(
                    old(heap)@,
                    final(heap)@,
                    r,
                    deleter->0,
                )
                &&& name@ == "setter"@ ==> gives_new(
                    old(heap)@,
                    final(heap)@,
                    r,
                    ObjectView::PropertySetter(owner),
                )
                &&& name@ == "deleter"@ ==> gives_new(
                    old(heap)@,
                    final(heap)@,
                    r,
                    ObjectView::PropertyDeleter(owner),
                )
            },
            ObjectView::Module(members) => {
                &&& forall|i: int| #[trigger]
                    crate::laws::first_named(members, name@, i) ==> gives(
                        old(heap)@,
                        final(heap)@,
                        r,
                        members[i].1,
                    )
                &&& (forall|i: int| 0 <= i < members.len() ==> (#[trigger] members[i]).0 != name@)
                    ==> raises(old(heap)@, final(heap)@, r, "AttributeError")
            },
            ObjectView::Exception {
                class,
                arguments,
                cause,
                context,
                suppress_context,
                traceback,
                ..
            } => {
                &&& name@ == "__class__"@ ==> gives(old(heap)@, final(heap)@, r, class)
                &&& name@ == "args"@ ==> gives_new(
                    old(heap)@,
                    final(heap)@,
                    r,
                    ObjectView::Tuple(arguments),
                )
                &&& name@ == "__cause__"@ && cause is Some ==> gives(
                    old(heap)@,
                    final(heap)@,
                    r,
                    cause->0,
                )
                &&& name@ == "__context__"@ && context is Some ==> gives(
                    old(heap)@,
                    final(heap)@,
                    r,
                    context->0,
                )
                &&& name@ == "__traceback__"@ && traceback is Some ==> gives(
                    old(heap)@,
                    final(heap)@,
                    r,
                    traceback->0,
                )
                &&& name@ == "__suppress_context__"@ ==> r is Ok && r->Ok_0@ == Meaning::Bool(
                    suppress_context,
                )
            },
            _ => true,
        },
{
    old(heap).lemma_view();
    crate::laws::truth_words();
    reveal_strlit("__func__");
    reveal_strlit("__self__");
    reveal_strlit("fget");
    reveal_strlit("fset");
    reveal_strlit("fdel");
    reveal_strlit("setter");
    reveal_strlit("deleter");
    reveal_strlit("__class__");
    reveal_strlit("args");
    reveal_strlit("__cause__");
    reveal_strlit("__context__");
    reveal_strlit("__traceback__");
    reveal_strlit("__suppress_context__");
    assert("__func__"@[2] == 'f' && "__self__"@[2] == 's');
    assert("fget"@[1] == 'g' && "fset"@[1] == 's' && "fdel"@[1] == 'd');
    assert("setter"@.len() == 6 && "deleter"@.len() == 7);
    assert("__class__"@[3] == 'l' && "__cause__"@[3] == 'a' && "__context__"@.len() == 11
        && "__traceback__"@.len() == 13 && "__suppress_context__"@.len() == 20);
    if let ObjectView::Module(members) = old(heap)@.objects[owner] {
        crate::text::lemma_name_position(members, name@);
    }
}

/// Whether a descriptor that `super` found was read as it should be.
pub open spec fn is_read_by_super(
    before: HeapView,
    after: HeapView,
    result: Result<Option<DescriptorAccess>>,
    value: Value,
    instance: Option<Value>,
    class: Value,
) -> bool {
    if before.objects.dom().contains(value) && before.objects[value] is Property {
        match before.objects[value]->Property_getter {
            Some(getter) => match instance {
                Some(receiver) => (result matches Ok(Some(access)) && access@ == (Access::Call {
                    callable: getter,
                    receiver: Some(receiver),
                    positional: Seq::empty(),
                })) && after == before,
                None => (result matches Ok(Some(access)) && access@ == Access::Value(value))
                    && after == before,
            },
            None => instance is Some ==> raises(before, after, result, "AttributeError"),
        }
    } else if before.objects.dom().contains(value) && (before.objects[value] is Instance
        || before.objects[value] is Exception) {
        true
    } else {
        match result {
            Ok(Some(DescriptorAccess::Value(seen))) => is_bound(
                before,
                after,
                Ok(seen),
                value,
                instance,
                class,
            ),
            Ok(_) => false,
            Err(error) => is_bound(before, after, Err(error), value, instance, class),
        }
    }
}

/// A name read through `super` is found in the first class behind the start
/// class, in the line of the receiver's class, that has it; what only the
/// start class and those before it have is missing.
pub proof fn super_searches_behind_the_start_class(
    heap: &mut Heap,
    owner: Value,
    name: &str,
    start_class: Value,
    receiver: Value,
    class: Value,
    at: int,
    value: Value,
    r: Result<Option<DescriptorAccess>>,
)
    requires
        old(heap).wf(),
        is_object(old(heap)@, owner, ObjectView::Super { start_class, receiver }),
        is_instance(old(heap)@, receiver, class) || (receiver == class),
        is_class(old(heap)@, class),
        0 <= at < line(old(heap)@, class).len(),
        line(old(heap)@, class)[at] == start_class,
        forall|i: int| 0 <= i < at ==> #[trigger] line(old(heap)@, class)[i] != start_class,
        name@ != "__self__"@,
        name@ != "__thisclass__"@,
        name@ != "__self_class__"@,
        call_ensures(Heap::super_getter, (heap, owner, name), r),
    ensures
        leads_to(old(heap)@, line(old(heap)@, class), at + 1, name@, value) ==> is_read_by_super(
            old(heap)@,
            final(heap)@,
            r,
            value,
            if receiver == class {
                None
            } else {
                Some(receiver)
            },
            class,
        ),
        leads_nowhere(old(heap)@, line(old(heap)@, class), at + 1, name@) ==> raises(
            old(heap)@,
            final(heap)@,
            r,
            "AttributeError",
        ),
{
    old(heap).lemma_view();
    let all = line(old(heap)@, class);
    lemma_leads(old(heap)@, all, at + 1, name@);
    all.index_of_first_ensures(start_class);
    assert(all.contains(start_class));
    assert(all.index_of_first(start_class) == Some(at)) by {
        let found = all.index_of_first(start_class)->0;
        if found < at {
            assert(all[found] != start_class);
        }
    }
}

/// What a `super` object says of itself.
pub proof fn super_objects_describe_themselves(
    heap: &mut Heap,
    owner: Value,
    name: &str,
    start_class: Value,
    receiver: Value,
    class: Value,
    r: Result<Option<DescriptorAccess>>,
)
    requires
        old(heap).wf(),
        is_object(old(heap)@, owner, ObjectView::Super { start_class, receiver }),
        is_instance(old(heap)@, receiver, class) || (receiver == class && is_class(
            old(heap)@,
            class,
        )),
        call_ensures(Heap::super_getter, (heap, owner, name), r),
    ensures
        final(heap)@ == old(heap)@ || name@ != "__self__"@ && name@ != "__thisclass__"@ && name@
            != "__self_class__"@,
        name@ == "__self__"@ ==> (r matches Ok(Some(access)) && access@ == Access::Value(receiver)),
        name@ == "__thisclass__"@ ==> (r matches Ok(Some(access)) && access@ == Access::Value(
            start_class,
        )),
        name@ == "__self_class__"@ ==> (r matches Ok(Some(access)) && access@ == Access::Value(
            class,
        )),
{
    old(heap).lemma_view();
    reveal_strlit("__self__");
    reveal_strlit("__thisclass__");
    reveal_strlit("__self_class__");
    assert("__self__"@.len() == 8 && "__thisclass__"@.len() == 13 && "__self_class__"@.len() == 14);
}

/// A `super` object is made only where the receiver's line has the start
/// class.
pub proof fn super_needs_the_start_class_in_the_line(
    heap: &mut Heap,
    start_class: Value,
    receiver: Value,
    class: Value,
    r: Result<Value>,
)
    requires
        old(heap).wf(),
        is_class(old(heap)@, start_class),
        is_instance(old(heap)@, receiver, class) || (receiver == class),
        is_class(old(heap)@, class),
        call_ensures(Heap::super_value, (heap, start_class, receiver), r),
    ensures
        line(old(heap)@, class).contains(start_class) ==> gives_new(
            old(heap)@,
            final(heap)@,
            r,
            ObjectView::Super { start_class, receiver },
        ),
        !line(old(heap)@, class).contains(start_class) ==> raises(
            old(heap)@,
            final(heap)@,
            r,
            "TypeError",
        ),
{
    old(heap).lemma_view();
    let mro = old(heap)@.objects[class]->Class_0.mro;
    let all = line(old(heap)@, class);
    assert(all[0] == class);
    if mro.contains(start_class) {
        let i = choose|i: int| 0 <= i < mro.len() && mro[i] == start_class;
        assert(all[i + 1] == start_class);
    }
    if all.contains(start_class) && class != start_class {
        let i = choose|i: int| 0 <= i < all.len() && all[i] == start_class;
        assert(mro[i - 1] == start_class);
    }
}

} // verus!
