//! How new objects get what they begin with.
use vstd::prelude::*;
use crate::calls::arguments::ExpandedArgs;
use crate::calls::construct::native_new_kind;
use crate::calls::frames::SuperFrame;
use crate::calls::hashes::native_hash_kind;
use crate::calls::state::{IterableCollectionKind, RuntimeTypeKind, Step};
use crate::class::ClassView;
use crate::diagnostic::Result;
use crate::heap::{Heap, HeapView};
use crate::laws::classes::{is_class, is_instance, line};
use crate::laws::{is_object, leads_nowhere, leads_to, lemma_leads, stores};
use crate::lookup::DescriptorCall;
use crate::object::{Builtin, ObjectView};
use crate::value::Value;

verus! {

/// The constructor and the hash function of a builtin type are those of that
/// type.
pub proof fn builtin_functions_belong_to_their_types(
    builtin: Builtin,
    made: Option<RuntimeTypeKind>,
    hashed: Option<RuntimeTypeKind>,
)
    requires
        call_ensures(native_new_kind, (builtin,), made),
        call_ensures(native_hash_kind, (builtin,), hashed),
    ensures
        made == Some(RuntimeTypeKind::Int) <==> builtin == Builtin::IntNew,
        made == Some(RuntimeTypeKind::Bool) <==> builtin == Builtin::BoolNew,
        made == Some(RuntimeTypeKind::Float) <==> builtin == Builtin::FloatNew,
        made == Some(RuntimeTypeKind::Str) <==> builtin == Builtin::StrNew,
        made == Some(RuntimeTypeKind::List) <==> builtin == Builtin::ListNew,
        made == Some(RuntimeTypeKind::Tuple) <==> builtin == Builtin::TupleNew,
        made == Some(RuntimeTypeKind::Dict) <==> builtin == Builtin::DictNew,
        made == Some(RuntimeTypeKind::Range) <==> builtin == Builtin::RangeNew,
        hashed == Some(RuntimeTypeKind::Int) <==> builtin == Builtin::IntHash,
        hashed == Some(RuntimeTypeKind::Float) <==> builtin == Builtin::FloatHash,
        hashed == Some(RuntimeTypeKind::Str) <==> builtin == Builtin::StrHash,
        hashed == Some(RuntimeTypeKind::Tuple) <==> builtin == Builtin::TupleHash,
        hashed == Some(RuntimeTypeKind::Range) <==> builtin == Builtin::RangeHash,
{
}

/// A new exception has its message and arguments, and neither cause, context
/// nor traceback yet.
pub proof fn exceptions_begin_without_origin(
    heap: &mut Heap,
    class: Value,
    arguments: ExpandedArgs,
    message: String,
    r: Result<Step>,
)
    requires
        old(heap).wf(),
        call_ensures(Heap::finish_exception, (heap, class, arguments, false, message), r),
    ensures
        match r {
            Ok(Step::Done(value)) => {
                &&& !old(heap)@.objects.dom().contains(value)
                &&& old(heap)@.objects.submap_of(final(heap)@.objects)
                &&& final(heap)@.objects.dom().contains(value)
                &&& final(heap)@.objects[value] matches ObjectView::Exception {
                    class: of,
                    message: text,
                    arguments: held,
                    cause,
                    context,
                    suppress_context,
                    traceback,
                    ..
                } && of == class && text == message@ && held == arguments@.positional && cause is None
                    && context is None && !suppress_context && traceback is None
            },
            Ok(_) => false,
            Err(error) => old(heap)@.room == 0,
        },
{
    old(heap).lemma_view();
}

/// Initializing a list empties it, and fills it with the items of the argument
/// if there is one.
pub proof fn lists_are_initialized_anew(
    heap: &mut Heap,
    owner: Value,
    items: Seq<Value>,
    arguments: ExpandedArgs,
    result: Value,
    r: Result<Step>,
)
    requires
        old(heap).wf(),
        stores(old(heap)@, owner, ObjectView::List(items)),
        arguments@.receiver == Some(owner),
        arguments@.keywords.len() == 0,
        arguments@.positional.len() <= 1,
        call_ensures(
            Heap::invoke_native_initializer,
            (heap, Builtin::ListInit, &arguments, result),
            r,
        ),
    ensures
        exists|list: Value| #[trigger]
            is_object(old(heap)@, list, ObjectView::List(items)) && final(heap)@.objects
                == old(heap)@.objects.insert(list, ObjectView::List(Seq::empty())),
        arguments@.positional.len() == 0 ==> r == Ok::<Step, crate::diagnostic::Diagnostic>(
            Step::Done(result),
        ),
        arguments@.positional.len() == 1 ==> (r matches Ok(
            Step::Collect { kind: IterableCollectionKind::ListInit { owner: to, result: end }, source },
        ) && to == owner && end == result && source == arguments@.positional[0]),
{
    old(heap).lemma_view();
    let values = arguments@.all();
    assert(values[0] == owner);
    assert(values.len() == 1 + arguments@.positional.len());
    if arguments@.positional.len() == 1 {
        assert(values[1] == arguments@.positional[0]);
    }
    let list = old(heap)@.native(owner);
    assert(is_object(old(heap)@, list, ObjectView::List(items)));
}

/// `super()` in a method starts behind the class whose body the method is in,
/// which the method's cell holds, with the method's first argument.
pub proof fn frames_know_their_class(
    heap: &mut Heap,
    other: &mut Heap,
    frame: SuperFrame,
    at: int,
    class: Value,
    r: Result<Value>,
    s: Result<Value>,
)
    requires
        old(heap).wf(),
        old(other)@ == old(heap)@,
        frame.wf(),
        frame.params > 0,
        0 <= at < frame.free_vars@.len(),
        frame.free_vars@[at]@ == "__class__"@,
        forall|i: int| 0 <= i < at ==> (#[trigger] frame.free_vars@[i])@ != "__class__"@,
        is_object(old(heap)@, frame.cells@[frame.own_cells + at], ObjectView::Cell(class)),
        is_class(old(heap)@, class),
        call_ensures(Heap::frame_super, (heap, &Some(frame)), r),
        call_ensures(Heap::super_value, (other, class, frame.receiver), s),
    ensures
        r is Ok == s is Ok,
        r is Err ==> r->Err_0@ == s->Err_0@ && final(heap)@ == final(other)@,
        r is Ok ==> final(heap)@.objects.dom().contains(r->Ok_0)
            && final(other)@.objects.dom().contains(s->Ok_0) && final(heap)@.objects[r->Ok_0]
            == final(other)@.objects[s->Ok_0],
{
    old(heap).lemma_view();
    lemma_named(frame.free_vars@, "__class__"@, at, 0);
    crate::laws::lemma_object_word(old(heap)@, class);
}

proof fn lemma_named(names: Seq<String>, name: Seq<char>, at: int, from: int)
    requires
        0 <= from <= at < names.len(),
        names[at]@ == name,
        forall|i: int| from <= i < at ==> (#[trigger] names[i])@ != name,
    ensures
        crate::calls::frames::name_at(names, name, from) == Some(at),
    decreases at - from,
{
    if from < at {
        lemma_named(names, name, at, from + 1);
    }
}

/// Whether the class of an attribute has a `__set_name__` function, or none.
pub open spec fn named_by(heap: HeapView, value: Value, class: Value, method: Option<Value>) -> bool {
    is_instance(heap, value, class) && is_class(heap, class) && match method {
        Some(f) => leads_to(heap, line(heap, class), 0, "__set_name__"@, f)
            && heap.objects.dom().contains(f) && heap.objects[f] is Function,
        None => leads_nowhere(heap, line(heap, class), 0, "__set_name__"@),
    }
}

/// A class tells each of its descriptors the name under which it has it: the
/// call goes to the descriptor, with that name.
pub proof fn descriptors_learn_their_names(
    heap: &mut Heap,
    owner: Value,
    class: ClassView,
    first: Value,
    methods: (Option<Value>, Option<Value>),
    kinds: (Value, Value),
    calls: Vec<(DescriptorCall, Value)>,
)
    requires
        old(heap).wf(),
        is_object(old(heap)@, owner, ObjectView::Class(class)),
        class.attributes.len() == 2,
        named_by(old(heap)@, class.attributes[0].1, kinds.0, methods.0),
        named_by(old(heap)@, class.attributes[1].1, kinds.1, methods.1),
        call_ensures(Heap::descriptor_set_names, (heap, owner), Ok(calls)),
    ensures
        ({
            let count: int = (if methods.0 is Some {
                1int
            } else {
                0int
            }) + (if methods.1 is Some {
                1int
            } else {
                0int
            });
            &&& calls@.len() == count
            &&& methods.0 matches Some(f) ==> calls@[0].0 == (DescriptorCall {
                callable: f,
                receiver: Some(class.attributes[0].1),
            }) && is_object(
                final(heap)@,
                calls@[0].1,
                ObjectView::Str(class.attributes[0].0),
            )
            &&& methods.1 matches Some(f) ==> calls@[count - 1].0 == (DescriptorCall {
                callable: f,
                receiver: Some(class.attributes[1].1),
            }) && is_object(
                final(heap)@,
                calls@[count - 1].1,
                ObjectView::Str(class.attributes[1].0),
            )
        }),
{
    old(heap).lemma_view();
    let before = old(heap)@;
    lemma_leads(before, line(before, kinds.0), 0, "__set_name__"@);
    lemma_leads(before, line(before, kinds.1), 0, "__set_name__"@);
    assert(before.live(owner));
    reveal_with_fuel(HeapView::set_name_calls, 3);
    let owed = before.set_name_calls(class.attributes, 0)->Ok_0;
    assert forall|i: int| 0 <= i < calls@.len() implies (#[trigger] calls@[i]).0 == owed[i].0
        && final(heap)@.at(calls@[i].1) == Some(ObjectView::Str(owed[i].1)) by {}
}

/// A class is initialized as its builtin type is where the initializer that it
/// has is that of the type: lists and dictionaries have their own, the others
/// that of every object.
pub proof fn initializers_belong_to_their_types(
    heap: Heap,
    class: Value,
    kind: RuntimeTypeKind,
    initializer: Value,
    builtin: Builtin,
    r: Result<bool>,
)
    requires
        heap.wf(),
        is_class(heap@, class),
        leads_to(heap@, line(heap@, class), 0, "__init__"@, initializer),
        is_object(heap@, initializer, ObjectView::Builtin(builtin)),
        call_ensures(Heap::has_canonical_native_initializer, (&heap, class, kind), r),
    ensures
        r matches Ok(answer) && answer == (if kind is List {
            builtin == Builtin::ListInit
        } else if kind is Dict {
            builtin == Builtin::DictInit
        } else {
            builtin == Builtin::ObjectInit
        }),
{
    heap.lemma_view();
    lemma_leads(heap@, line(heap@, class), 0, "__init__"@);
}

/// The constructor of a builtin type makes instances of that type itself, and
/// of classes over its storage; it refuses others.
pub proof fn constructors_refuse_other_classes(
    heap: Heap,
    class: Value,
    exact: Value,
    kind: RuntimeTypeKind,
    facts: crate::calls::construct::ClassFacts,
    r: Result<bool>,
)
    requires
        heap.wf(),
        is_class(heap@, class),
        call_ensures(Heap::validate_native_new_class, (&heap, class, exact, kind, facts), r),
    ensures
        class == exact ==> (r matches Ok(itself) && itself),
        class != exact && facts.builtin is None && facts.storage == Some(kind) ==> (r matches Ok(
            itself,
        ) && !itself),
        class != exact && (facts.builtin is Some || facts.storage != Some(kind)) ==> r is Err
            && r->Err_0@.kind == "TypeError"@,
{
    heap.lemma_view();
}

/// A metaclass has a hook of its own where a class of its line before the
/// default metaclass defines it.
pub proof fn metaclass_hooks_come_before_the_default(
    heap: Heap,
    metaclass: Value,
    default: Value,
    name: &str,
    k: int,
    r: Result<bool>,
)
    requires
        heap.wf(),
        is_class(heap@, metaclass),
        0 <= k <= line(heap@, metaclass).len(),
        forall|i: int|
            0 <= i < k ==> #[trigger] line(heap@, metaclass)[i] != default && is_class(
                heap@,
                line(heap@, metaclass)[i],
            ),
        k == line(heap@, metaclass).len() || line(heap@, metaclass)[k] == default,
        call_ensures(Heap::has_custom_metaclass_hook, (&heap, metaclass, default, name), r),
    ensures
        r matches Ok(answer) && answer == (exists|i: int|
            0 <= i < k && !crate::laws::lacks(
                heap@,
                #[trigger] line(heap@, metaclass)[i],
                name@,
            )),
{
    heap.lemma_view();
    assert(heap@.live(metaclass));
    lemma_hooked(heap@, line(heap@, metaclass), default, name@, k, 0);
}

proof fn lemma_hooked(
    heap: HeapView,
    all: Seq<Value>,
    default: Value,
    name: Seq<char>,
    k: int,
    from: int,
)
    requires
        heap.wf(),
        0 <= from <= k <= all.len(),
        forall|i: int| 0 <= i < k ==> #[trigger] all[i] != default && is_class(heap, all[i]),
        k == all.len() || all[k] == default,
    ensures
        heap.hooked_before(all, default, name, from) matches Ok(answer) && answer == (exists|
            i: int,
        |
            from <= i < k && !crate::laws::lacks(heap, #[trigger] all[i], name)),
    decreases k - from,
{
    if from < k {
        lemma_hooked(heap, all, default, name, k, from + 1);
        assert(all[from] != default);
        assert(heap.live(all[from]));
        crate::laws::lemma_own(heap, all[from], name);
        if heap.objects[all[from]]->Class_0.own(name) is Some {
            assert(!crate::laws::lacks(heap, all[from], name));
        }
    }
}

/// A namespace that becomes backed by a dictionary gives under each name what
/// it gave before.
pub proof fn backed_namespaces_keep_their_names(
    heap: &mut Heap,
    namespace: Value,
    body: ClassView,
    mapping: Value,
    name: &str,
    had: Result<Option<Value>>,
    has: Result<Option<Value>>,
)
    requires
        old(heap).wf(),
        is_object(old(heap)@, namespace, ObjectView::Namespace(body)),
        body.namespace_mapping is None,
        crate::shapes::distinct_names(body.attributes),
        call_ensures(Heap::namespace_mapping, (heap, namespace), Ok(mapping)),
        call_ensures(Heap::namespace_get, (old(heap), namespace, name), had),
        call_ensures(Heap::namespace_get, (final(heap), namespace, name), has),
    ensures
        had is Ok,
        has is Ok,
        has->Ok_0 == had->Ok_0,
        !old(heap)@.objects.dom().contains(mapping),
        final(heap)@.objects[mapping] is Dict,
{
    old(heap).lemma_view();
    final(heap).lemma_view();
    lemma_last_named(body.attributes, name@);
    assert(final(heap)@.named_in(mapping, name@) == crate::prepare::last_named(
        body.attributes,
        name@,
    ));
    assert(final(heap)@.live(namespace));
    assert(final(heap)@.live(mapping));
    crate::laws::lemma_object_word(final(heap)@, mapping);
    crate::text::lemma_name_position(body.attributes, name@);
}

proof fn lemma_last_named(entries: Seq<(Seq<char>, Value)>, name: Seq<char>)
    requires
        crate::shapes::distinct_names(entries),
    ensures
        crate::prepare::last_named(entries, name) == match crate::text::name_position(
            entries,
            name,
        ) {
            Some(i) => Some(entries[i].1),
            None => None,
        },
    decreases entries.len(),
{
    crate::text::lemma_name_position(entries, name);
    if entries.len() > 0 {
        let front = entries.drop_last();
        assert(crate::shapes::distinct_names(front)) by {
            assert forall|i: int| 0 <= i < front.len() implies front[i] == entries[i] by {}
        }
        lemma_last_named(front, name);
        crate::text::lemma_name_position(front, name);
        if entries.last().0 == name {
            let last = entries.len() - 1;
            crate::text::lemma_name_position_is(entries, name, last);
        } else if let Some(i) = crate::text::name_position(front, name) {
            crate::text::lemma_name_position_is(entries, name, i);
        } else if let Some(i) = crate::text::name_position(entries, name) {
            assert(front[i] == entries[i]);
        }
    }
}

} // verus!
