//! What native code puts in and gets back.
use vstd::prelude::*;
use crate::diagnostic::{Diagnostic, Fault, Result};
use crate::dict::DictView;
use crate::handles::{Handle, HandleKind, PersistentHandle};
use crate::laws::{is_object, lemma_object_word, truth_words};
use crate::native::{Context, Request, ValueKind};
use crate::object::ObjectView;
use crate::value::Value;

verus! {

/// Whether a good handle stands for a value.
pub open spec fn stands_for(context: Context, handle: Handle, value: Value) -> bool {
    crate::handles::held(context.handles@, handle) == Some((value, HandleKind::Local))
}

proof fn lemma_stands(context: Context, handle: Handle, value: Value)
    requires
        stands_for(context, handle, value),
    ensures
        context.value_of(handle) == Ok::<Value, Fault>(value),
{
}

/// A truth value, an integer, a binary64 number and a text come back as they
/// were put in.
pub proof fn plain_values_come_back(
    flags: &mut Context,
    numbers: &mut Context,
    floats: &mut Context,
    strings: &mut Context,
    b: bool,
    n: i64,
    x: u64,
    text: &str,
    handles: (Handle, Handle, Handle, Handle),
    got: (Result<bool>, Result<i64>, Result<u64>, Result<&String>),
)
    requires
        old(flags).wf(),
        old(numbers).wf(),
        old(floats).wf(),
        old(strings).wf(),
        call_ensures(Context::from_bool, (flags, b), Ok::<Handle, Diagnostic>(handles.0)),
        call_ensures(Context::from_i64, (numbers, n), Ok::<Handle, Diagnostic>(handles.1)),
        call_ensures(Context::from_f64_bits, (floats, x), Ok::<Handle, Diagnostic>(handles.2)),
        call_ensures(Context::from_str, (strings, text), Ok::<Handle, Diagnostic>(handles.3)),
        call_ensures(Context::to_bool, (final(flags), handles.0), got.0),
        call_ensures(Context::to_i64, (final(numbers), handles.1), got.1),
        call_ensures(Context::to_f64_bits, (final(floats), handles.2), got.2),
        call_ensures(Context::as_str, (final(strings), handles.3), got.3),
    ensures
        got.0 matches Ok(found) && found == b,
        got.1 matches Ok(found) && found == n,
        got.2 matches Ok(found) && found == x,
        got.3 matches Ok(found) && found@ == text@,
{
    truth_words();
    crate::value::lemma_not_heap();
    old(numbers).heap.lemma_view();
    old(floats).heap.lemma_view();
    final(numbers).heap.lemma_view();
    final(floats).heap.lemma_view();
}

/// What kind a value is said to be.
pub proof fn values_have_their_kinds(
    context: Context,
    handle: Handle,
    value: Value,
    r: Result<ValueKind>,
)
    requires
        context.wf(),
        stands_for(context, handle, value),
        call_ensures(Context::value_kind, (&context, handle), r),
    ensures
        value@ is Nothing ==> (r matches Ok(kind) && kind is Nothing),
        value@ is Bool ==> (r matches Ok(kind) && kind is Bool),
        value@ is Int ==> (r matches Ok(kind) && kind is Int),
        context.heap@.objects.dom().contains(value) ==> match context.heap@.objects[value] {
            ObjectView::Int(_) => r matches Ok(kind) && kind is Int,
            ObjectView::Float(_) => r matches Ok(kind) && kind is Float,
            ObjectView::Str(_) => r matches Ok(kind) && kind is Str,
            ObjectView::Foreign(_) => r matches Ok(kind) && kind is Foreign,
            ObjectView::List(_) => r matches Ok(kind) && kind is List,
            ObjectView::Tuple(_) => r matches Ok(kind) && kind is Tuple,
            ObjectView::Dict(_) => r matches Ok(kind) && kind is Dict,
            _ => r matches Ok(kind) && kind is Other,
        },
{
    context.heap.lemma_view();
    if context.heap@.objects.dom().contains(value) {
        lemma_object_word(context.heap@, value);
    }
}

/// Two handles are identical where they stand for one value.
pub proof fn identity_is_of_values(
    context: Context,
    left: Handle,
    right: Handle,
    x: Value,
    y: Value,
    r: Result<bool>,
)
    requires
        stands_for(context, left, x),
        stands_for(context, right, y),
        call_ensures(Context::is_identical, (&context, left, right), r),
    ensures
        r matches Ok(answer) && answer == (x == y),
{
}

/// The items of a list or tuple are got one by one, each under a handle of its
/// own, and counted.
pub proof fn items_are_got(
    context: &mut Context,
    handle: Handle,
    value: Value,
    items: Seq<Value>,
    index: usize,
    len: Result<usize>,
    r: Result<Handle>,
)
    requires
        old(context).wf(),
        stands_for(*old(context), handle, value),
        is_object(old(context).heap@, value, ObjectView::List(items)) || is_object(
            old(context).heap@,
            value,
            ObjectView::Tuple(items),
        ),
        call_ensures(Context::sequence_len, (old(context), handle), len),
        call_ensures(Context::sequence_get, (context, handle, index), r),
    ensures
        len matches Ok(n) && n == items.len(),
        index < items.len() ==> (r matches Ok(got) ==> stands_for(
            *final(context),
            got,
            items[index as int],
        )),
        index >= items.len() ==> r is Err && r->Err_0@.kind == "IndexError"@,
{
}

/// The entries of a dictionary are got in their order, the key and the value.
pub proof fn entries_are_got(
    context: &mut Context,
    handle: Handle,
    value: Value,
    dict: DictView,
    index: usize,
    len: Result<usize>,
    r: Result<(Handle, Handle)>,
)
    requires
        old(context).wf(),
        stands_for(*old(context), handle, value),
        is_object(old(context).heap@, value, ObjectView::Dict(dict)),
        call_ensures(Context::dict_len, (old(context), handle), len),
        call_ensures(Context::dict_entry, (context, handle, index), r),
    ensures
        len matches Ok(n) && n == dict.entries.len(),
        index < dict.entries.len() ==> (r matches Ok(got) ==> stands_for(
            *final(context),
            got.0,
            dict.entries[index as int].0,
        ) && stands_for(*final(context), got.1, dict.entries[index as int].1)),
        index >= dict.entries.len() ==> r is Err && r->Err_0@.kind == "IndexError"@,
{
}

/// An item that is appended to a list is its last.
pub proof fn appended_items_come_last(
    context: &mut Context,
    list: Handle,
    item: Handle,
    owner: Value,
    value: Value,
    items: Seq<Value>,
    r: Result<()>,
)
    requires
        old(context).wf(),
        stands_for(*old(context), list, owner),
        stands_for(*old(context), item, value),
        is_object(old(context).heap@, owner, ObjectView::List(items)),
        call_ensures(Context::list_append, (context, list, item), r),
    ensures
        r is Ok,
        final(context).heap@.objects == old(context).heap@.objects.insert(
            owner,
            ObjectView::List(items.push(value)),
        ),
{
}

proof fn lemma_each(context: Context, handles: Seq<Handle>, values: Seq<Value>)
    requires
        handles.len() == values.len(),
        forall|i: int|
            0 <= i < handles.len() ==> stands_for(context, #[trigger] handles[i], values[i]),
    ensures
        crate::native::resolved_each(context.handles@, handles) == Ok::<Seq<Value>, Fault>(values),
    decreases handles.len(),
{
    if handles.len() > 0 {
        let front = handles.drop_last();
        assert forall|i: int| 0 <= i < front.len() implies stands_for(
            context,
            #[trigger] front[i],
            values.drop_last()[i],
        ) by {
            assert(front[i] == handles[i]);
        }
        lemma_each(context, front, values.drop_last());
        assert(stands_for(context, handles[handles.len() - 1], values[values.len() - 1]));
        assert(values.drop_last().push(values.last()) =~= values);
    } else {
        assert(values =~= Seq::<Value>::empty());
    }
}

/// A new tuple has the items that the handles stand for, in their order; so
/// has a call its arguments.
pub proof fn handles_give_their_values_in_order(
    context: &mut Context,
    callable: Handle,
    target: Value,
    handles: Vec<Handle>,
    values: Seq<Value>,
    made: Result<Handle>,
    r: Result<Request>,
)
    requires
        old(context).wf(),
        stands_for(*old(context), callable, target),
        handles@.len() == values.len(),
        forall|i: int|
            0 <= i < handles@.len() ==> stands_for(
                *old(context),
                #[trigger] handles@[i],
                values[i],
            ),
        call_ensures(Context::call, (old(context), callable, &handles), r),
        call_ensures(Context::new_tuple, (context, &handles), made),
    ensures
        made matches Ok(handle) ==> exists|tuple: Value| #[trigger]
            stands_for(*final(context), handle, tuple) && is_object(
                final(context).heap@,
                tuple,
                ObjectView::Tuple(values),
            ),
        old(context).active ==> (r matches Ok(request) && request.callable == target
            && request.arguments@.positional == values && request.arguments@.receiver is None
            && request.arguments@.keywords.len() == 0),
        !old(context).active ==> r is Err && r->Err_0@.kind == "RuntimeError"@,
{
    lemma_each(*old(context), handles@, values);
    old(context).heap.lemma_view();
    if let Ok(handle) = made {
        let tuple = choose|tuple: core::result::Result<Value, Diagnostic>|
            #![trigger crate::namespaces::allocates(
                old(context).heap@,
                final(context).heap@,
                tuple,
                ObjectView::Tuple(values),
            )]
            crate::namespaces::allocates(
                old(context).heap@,
                final(context).heap@,
                tuple,
                ObjectView::Tuple(values),
            ) && crate::native::handed(*old(context), *final(context), made, tuple);
        assert(tuple is Ok);
        assert(stands_for(*final(context), handle, tuple->Ok_0));
    }
}

/// A handle that outlives the call is borrowed as the value it was made for,
/// until it is released.
pub proof fn persistent_handles_stand_for_their_value(
    context: &mut Context,
    later: &mut Context,
    handle: Handle,
    value: Value,
    kept: PersistentHandle,
    r: Result<Handle>,
)
    requires
        old(context).wf(),
        stands_for(*old(context), handle, value),
        call_ensures(
            Context::persist,
            (context, handle),
            Ok::<PersistentHandle, Diagnostic>(kept),
        ),
        *old(later) == *final(context),
        call_ensures(Context::borrow_persistent, (later, &kept), r),
    ensures
        r matches Ok(borrowed) ==> stands_for(*final(later), borrowed, value),
{
}

/// A reference that a foreign owner holds is borrowed as the value it was made
/// for.
pub proof fn foreign_references_stand_for_their_value(
    context: &mut Context,
    later: &mut Context,
    handle: Handle,
    value: Value,
    reference: Handle,
    r: Result<Handle>,
)
    requires
        old(context).wf(),
        stands_for(*old(context), handle, value),
        call_ensures(
            Context::create_foreign_reference,
            (context, handle),
            Ok::<Handle, Diagnostic>(reference),
        ),
        *old(later) == *final(context),
        call_ensures(Context::borrow_foreign_reference, (later, reference), r),
    ensures
        r matches Ok(borrowed) ==> stands_for(*final(later), borrowed, value),
{
}

/// The payload of a foreign object is given to its own adapter only.
pub proof fn payloads_are_for_their_adapter(
    context: Context,
    handle: Handle,
    value: Value,
    adapter: u64,
    r: Result<usize>,
)
    requires
        context.wf(),
        stands_for(context, handle, value),
        context.heap@.objects.dom().contains(value),
        context.heap@.objects[value] is Foreign,
        call_ensures(Context::foreign_payload, (&context, handle, adapter), r),
    ensures
        context.heap@.objects[value]->Foreign_0.adapter_id == adapter ==> (r matches Ok(found)
            && found == context.heap@.objects[value]->Foreign_0.payload),
        context.heap@.objects[value]->Foreign_0.adapter_id != adapter ==> r is Err && r->Err_0@.kind
            == "TypeError"@,
{
}

} // verus!
