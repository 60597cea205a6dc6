//! What is put into cells, lists, modules, exceptions and namespaces.
use vstd::prelude::*;
use crate::diagnostic::Result;
use crate::heap::{Heap, HeapView};
use crate::integer::Integer;
use crate::laws::{is_object, stores};
use crate::object::{ObjectView, TraceEntry, TracebackEntry};
use crate::storage::continued;
use crate::value::Value;

verus! {

/// Whether one object changed, to this, and no other did.
pub open spec fn changed(before: HeapView, after: HeapView, owner: Value, object: ObjectView) -> bool {
    after.objects == before.objects.insert(owner, object)
}

/// A cell gives back what was last stored in it.
pub proof fn cells_keep_values(
    heap: &mut Heap,
    owner: Value,
    held: Value,
    value: Value,
    r: Result<()>,
    had: Result<Value>,
    has: Result<Value>,
)
    requires
        old(heap).wf(),
        is_object(old(heap)@, owner, ObjectView::Cell(held)),
        call_ensures(Heap::store_cell, (heap, owner, value), r),
        call_ensures(Heap::cell, (old(heap), owner), had),
        call_ensures(Heap::cell, (final(heap), owner), has),
    ensures
        r is Ok,
        had == Ok::<Value, crate::diagnostic::Diagnostic>(held),
        has == Ok::<Value, crate::diagnostic::Diagnostic>(value),
        changed(old(heap)@, final(heap)@, owner, ObjectView::Cell(value)),
{
    old(heap).lemma_view();
}

/// A value appended to a list is its last item; a cleared list has none.
pub proof fn lists_grow_at_their_end(
    heap: &mut Heap,
    owner: Value,
    items: Seq<Value>,
    value: Value,
    r: Result<()>,
)
    requires
        old(heap).wf(),
        stores(old(heap)@, owner, ObjectView::List(items)),
        call_ensures(Heap::append_list, (heap, owner, value), r),
    ensures
        r is Ok,
        stores(final(heap)@, owner, ObjectView::List(items.push(value))),
        exists|list: Value|
            is_object(old(heap)@, list, ObjectView::List(items)) && #[trigger] changed(
                old(heap)@,
                final(heap)@,
                list,
                ObjectView::List(items.push(value)),
            ),
{
    old(heap).lemma_view();
    let before = old(heap)@;
    let after = final(heap)@;
    let list = before.native(owner);
    assert(changed(before, after, list, ObjectView::List(items.push(value))));
    if list != owner {
        if let ObjectView::Instance { class, attributes, native } = before.objects[owner] {
            assert(is_object(
                after,
                owner,
                ObjectView::Instance { class, attributes, native: Some(list) },
            ) && is_object(after, list, ObjectView::List(items.push(value))));
        }
    }
}

/// A cleared list has no items.
pub proof fn cleared_lists_are_empty(heap: &mut Heap, owner: Value, items: Seq<Value>, r: Result<()>)
    requires
        old(heap).wf(),
        stores(old(heap)@, owner, ObjectView::List(items)),
        call_ensures(Heap::clear_list, (heap, owner), r),
    ensures
        r is Ok,
        exists|list: Value|
            is_object(old(heap)@, list, ObjectView::List(items)) && #[trigger] changed(
                old(heap)@,
                final(heap)@,
                list,
                ObjectView::List(Seq::empty()),
            ),
{
    old(heap).lemma_view();
    let list = old(heap)@.native(owner);
    assert(changed(old(heap)@, final(heap)@, list, ObjectView::List(Seq::empty())));
}

/// A member added to a module comes after those that it had.
pub proof fn modules_gain_members(
    heap: &mut Heap,
    owner: Value,
    members: Seq<(Seq<char>, Value)>,
    name: &str,
    value: Value,
    r: Result<()>,
)
    requires
        old(heap).wf(),
        is_object(old(heap)@, owner, ObjectView::Module(members)),
        call_ensures(Heap::add_module_member, (heap, owner, name, value), r),
    ensures
        r is Ok,
        changed(
            old(heap)@,
            final(heap)@,
            owner,
            ObjectView::Module(members.push((name@, value))),
        ),
{
    old(heap).lemma_view();
}

/// An exception takes any cause that it is given, and only its first context;
/// the rest of it stays.
pub proof fn exceptions_remember_their_origin(
    heap: &mut Heap,
    other: &mut Heap,
    owner: Value,
    cause: Option<Value>,
    context: Value,
    suppress_context: bool,
    r: Result<()>,
    s: Result<()>,
)
    requires
        old(heap).wf(),
        old(other)@ == old(heap)@,
        old(heap)@.objects.dom().contains(owner),
        old(heap)@.objects[owner] is Exception,
        call_ensures(Heap::set_exception_cause, (heap, owner, cause, suppress_context), r),
        call_ensures(Heap::set_exception_context, (other, owner, context), s),
    ensures
        match old(heap)@.objects[owner] {
            ObjectView::Exception {
                class,
                message,
                arguments,
                attributes,
                cause: first_cause,
                context: first_context,
                suppress_context: suppressed,
                traceback,
            } => {
                &&& r is Ok
                &&& changed(
                    old(heap)@,
                    final(heap)@,
                    owner,
                    ObjectView::Exception {
                        class,
                        message,
                        arguments,
                        attributes,
                        cause,
                        context: first_context,
                        suppress_context,
                        traceback,
                    },
                )
                &&& s is Ok
                &&& first_context is None ==> changed(
                    old(heap)@,
                    final(other)@,
                    owner,
                    ObjectView::Exception {
                        class,
                        message,
                        arguments,
                        attributes,
                        cause: first_cause,
                        context: Some(context),
                        suppress_context: suppressed,
                        traceback,
                    },
                )
                &&& first_context is Some ==> final(other)@.objects == old(heap)@.objects
            },
            _ => false,
        },
{
    old(heap).lemma_view();
    let before = old(heap)@;
    assert(before.objects.insert(owner, before.objects[owner]) =~= before.objects);
}

/// Whether no entry repeats the one before it, from a position on.
pub open spec fn has_no_repeats(entries: Seq<TraceEntry>, from: int) -> bool {
    forall|i: int, j: int|
        from <= i && 0 <= i && j == i + 1 && j < entries.len() ==> #[trigger] entries[i]
            != #[trigger] entries[j]
}

proof fn lemma_continued(entries: Seq<TraceEntry>, further: Seq<TraceEntry>)
    ensures
        entries.is_prefix_of(continued(entries, further)),
        further.len() > 0 ==> continued(entries, further).len() > 0 && continued(
            entries,
            further,
        ).last() == further.last(),
        has_no_repeats(continued(entries, further), entries.len() - 1),
        has_no_repeats(entries + further, entries.len() - 1) ==> continued(entries, further)
            == entries + further,
        forall|i: int|
            0 <= i < further.len() ==> continued(entries, further).contains(
                #[trigger] further[i],
            ),
    decreases further.len(),
{
    if further.len() == 0 {
        assert(entries + further =~= entries);
    } else {
        let short = further.drop_last();
        let rest = continued(entries, short);
        let all = continued(entries, further);
        lemma_continued(entries, short);
        assert(entries + further =~= (entries + short).push(further.last()));
        if has_no_repeats(entries + further, entries.len() - 1) {
            assert forall|i: int, j: int|
                entries.len() - 1 <= i && 0 <= i && j == i + 1 && j < (entries
                    + short).len() implies #[trigger] (entries + short)[i]
                != #[trigger] (entries + short)[j] by {
                assert((entries + further)[i] == (entries + short)[i]);
                assert((entries + further)[j] == (entries + short)[j]);
            }
            let n = (entries + further).len() - 1;
            if n > 0 {
                assert((entries + further)[n - 1] != (entries + further)[n]);
            }
        }
        assert forall|i: int| 0 <= i < further.len() implies all.contains(#[trigger] further[i]) by {
            if i < short.len() {
                assert(short[i] == further[i]);
                let k = choose|k: int| 0 <= k < rest.len() && rest[k] == further[i];
                assert(all[k] == further[i]);
            } else {
                assert(all[all.len() - 1] == further[i]);
            }
        }
        assert(entries.is_prefix_of(all)) by {
            assert(rest.is_prefix_of(all));
            assert forall|i: int| 0 <= i < entries.len() implies entries[i] == all[i] by {
                assert(rest[i] == entries[i]);
            }
        }
    }
}

/// A traceback keeps its entries and takes all further ones, leaving out such
/// as only repeat the entry before them.
pub proof fn tracebacks_are_continued(
    heap: &mut Heap,
    owner: Value,
    traceback: Value,
    held: Seq<TraceEntry>,
    entries: Vec<TracebackEntry>,
    r: Result<()>,
)
    requires
        old(heap).wf(),
        old(heap)@.objects.dom().contains(owner),
        old(heap)@.objects[owner] is Exception,
        old(heap)@.objects[owner]->Exception_traceback == Some(traceback),
        is_object(old(heap)@, traceback, ObjectView::Traceback { entries: held }),
        call_ensures(Heap::record_exception_trace, (heap, owner, entries), r),
    ensures
        r is Ok,
        final(heap)@.objects.dom() == old(heap)@.objects.dom(),
        forall|v: Value|
            v != traceback ==> #[trigger] final(heap)@.objects[v] == old(heap)@.objects[v],
        final(heap)@.objects[traceback] matches ObjectView::Traceback { entries: all } && {
            &&& held.is_prefix_of(all)
            &&& forall|i: int| 0 <= i < entries@.len() ==> all.contains((#[trigger] entries@[i])@)
            &&& entries@.len() > 0 ==> all.len() > 0 && all.last() == entries@.last()@
            &&& entries@.len() > 0 ==> has_no_repeats(all, held.len() - 1)
            &&& has_no_repeats(
                held + Seq::new(entries@.len(), |i: int| entries@[i]@),
                held.len() - 1,
            ) ==> all == held + Seq::new(entries@.len(), |i: int| entries@[i]@)
        },
{
    old(heap).lemma_view();
    let further = crate::object::trace_entries(entries@);
    lemma_continued(held, further);
    assert(further =~= Seq::new(entries@.len(), |i: int| entries@[i]@));
    assert forall|i: int| 0 <= i < entries@.len() implies continued(held, further).contains(
        (#[trigger] entries@[i])@,
    ) by {
        assert(further[i] == entries@[i]@);
    }
    assert(old(heap)@.objects.insert(traceback, old(heap)@.objects[traceback]).dom()
        =~= old(heap)@.objects.dom());
    if entries@.len() == 0 {
        assert(continued(held, further) == held);
    }
}

/// An integer that was stored is read back, whatever its size.
pub proof fn integers_are_read_back(
    heap: &mut Heap,
    n: Integer,
    value: Value,
    got: Result<Integer>,
    small: Result<i64>,
)
    requires
        old(heap).wf(),
        call_ensures(Heap::int_value, (heap, n), Ok(value)),
        call_ensures(Heap::integer, (final(heap), value), got),
        call_ensures(Heap::to_i64, (final(heap), value), small),
    ensures
        got matches Ok(m) && m@ == n@,
        i64::MIN <= n@ <= i64::MAX ==> (small matches Ok(m) && m == n@),
        !(i64::MIN <= n@ <= i64::MAX) ==> small is Err && small->Err_0@.kind == "OverflowError"@,
{
    old(heap).lemma_view();
    final(heap).lemma_view();
}

} // verus!
