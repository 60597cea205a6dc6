//! The order of ancestors, and the classes that namespaces become.
use vstd::prelude::*;
use crate::class::ClassView;
use crate::diagnostic::Result;
use crate::heap::{Heap, HeapView};
use crate::laws::classes::{is_class, line};
use crate::laws::is_object;
use crate::mro::{lists, merge, next_head, stripped};
use crate::object::ObjectView;
use crate::value::Value;

verus! {

/// Whether no line has a class behind its first.
pub open spec fn may_come(lines: Seq<Vec<Value>>, class: Value) -> bool {
    forall|i: int, j: int|
        0 <= i < lines.len() && 1 <= j < lines[i]@.len() ==> #[trigger] lines[i]@[j] != class
}

proof fn lemma_free(lines: Seq<Vec<Value>>, class: Value)
    ensures
        may_come(lines, class) == crate::mro::free(lists(lines), class),
{
    let all = lists(lines);
    if may_come(lines, class) {
        assert forall|i: int| 0 <= i < all.len() && all[i].len() > 0 implies !(
        #[trigger] all[i]).skip(1).contains(class) by {
            if all[i].skip(1).contains(class) {
                let j = choose|j: int| 0 <= j < all[i].skip(1).len() && all[i].skip(1)[j] == class;
                assert(lines[i]@[j + 1] == class);
            }
        }
    }
    if crate::mro::free(all, class) {
        assert forall|i: int, j: int|
            0 <= i < lines.len() && 1 <= j < lines[i]@.len() implies #[trigger] lines[i]@[j]
            != class by {
            assert(all[i].len() > 0);
            assert(all[i].skip(1)[j - 1] == lines[i]@[j]);
        }
    }
}

proof fn lemma_first(lines: Seq<Vec<Value>>, k: int, from: int)
    requires
        0 <= from <= k < lines.len(),
        lines[k]@.len() > 0,
        may_come(lines, lines[k]@[0]),
        forall|i: int|
            from <= i < k && (#[trigger] lines[i])@.len() > 0 ==> !may_come(lines, lines[i]@[0]),
    ensures
        next_head(lists(lines), from) == Some(lines[k]@[0]),
    decreases k - from,
{
    lemma_free(lines, lines[from]@[0]);
    if from < k {
        lemma_first(lines, k, from + 1);
    }
}

/// Lines are merged by taking the first class, of those that the lines begin
/// with, that stands behind no other, and going on without it.
pub proof fn merging_takes_the_first_free_class(
    lines: Vec<Vec<Value>>,
    rest: Vec<Vec<Value>>,
    k: int,
    r: Option<Vec<Value>>,
    s: Option<Vec<Value>>,
)
    requires
        call_ensures(merge, (lines,), r),
        call_ensures(merge, (rest,), s),
        0 <= k < lines@.len(),
        lines@[k]@.len() > 0,
        may_come(lines@, lines@[k]@[0]),
        forall|i: int|
            0 <= i < k && (#[trigger] lines@[i])@.len() > 0 ==> !may_come(lines@, lines@[i]@[0]),
        rest@.len() == lines@.len(),
        forall|i: int|
            0 <= i < lines@.len() ==> (#[trigger] rest@[i])@ == if lines@[i]@.len() > 0
                && lines@[i]@[0] == lines@[k]@[0] {
                lines@[i]@.skip(1)
            } else {
                lines@[i]@
            },
    ensures
        match s {
            Some(tail) => r matches Some(order) && order@ == seq![lines@[k]@[0]] + tail@,
            None => r is None,
        },
{
    let all = lists(lines@);
    lemma_first(lines@, k, 0);
    assert(lists(rest@) =~= stripped(all, lines@[k]@[0]));
    crate::mro::lemma_total(all);
    assert(all[k].len() > 0);
}

/// Empty lines merge into an empty one; where every class stands behind
/// another, there is no order.
pub proof fn merging_ends(lines: Vec<Vec<Value>>, r: Option<Vec<Value>>)
    requires
        call_ensures(merge, (lines,), r),
    ensures
        (forall|i: int| 0 <= i < lines@.len() ==> (#[trigger] lines@[i])@.len() == 0) ==> (
        r matches Some(order) && order@.len() == 0),
        (exists|i: int| 0 <= i < lines@.len() && (#[trigger] lines@[i])@.len() > 0) && (forall|
            i: int,
        |
            0 <= i < lines@.len() && (#[trigger] lines@[i])@.len() > 0 ==> !may_come(
                lines@,
                lines@[i]@[0],
            )) ==> r is None,
{
    let all = lists(lines@);
    crate::mro::lemma_total(all);
    crate::mro::lemma_next_head(all, 0);
    if forall|i: int| 0 <= i < lines@.len() ==> (#[trigger] lines@[i])@.len() == 0 {
        assert forall|i: int| 0 <= i < all.len() implies (#[trigger] all[i]).len() == 0 by {
            assert(lines@[i]@.len() == 0);
        }
    }
    if exists|i: int| 0 <= i < lines@.len() && (#[trigger] lines@[i])@.len() > 0 {
        let i = choose|i: int| 0 <= i < lines@.len() && (#[trigger] lines@[i])@.len() > 0;
        assert(all[i].len() > 0);
        if let Some(head) = next_head(all, 0) {
            let j = choose|j: int|
                0 <= j < all.len() && (#[trigger] all[j]).len() > 0 && all[j][0] == head;
            assert(lines@[j]@[0] == head);
            lemma_free(lines@, head);
        }
    }
}

/// The bases' own lines, and last the bases.
pub open spec fn are_lines(heap: HeapView, bases: Seq<Value>, lines: Seq<Vec<Value>>) -> bool {
    &&& lines.len() == bases.len() + 1
    &&& forall|i: int|
        0 <= i < bases.len() ==> is_class(heap, #[trigger] bases[i]) && lines[i]@ == line(
            heap,
            bases[i],
        )
    &&& lines[bases.len() as int]@ == bases
}

proof fn lemma_lines(heap: HeapView, bases: Seq<Value>, lines: Seq<Vec<Value>>, from: int)
    requires
        heap.wf(),
        are_lines(heap, bases, lines),
        bases.no_duplicates(),
        0 <= from <= bases.len(),
    ensures
        heap.base_lineages(bases, from) == Ok::<Seq<Seq<Value>>, crate::diagnostic::Fault>(
            lists(lines).subrange(from, bases.len() as int),
        ),
    decreases bases.len() - from,
{
    let all = lists(lines);
    if from < bases.len() {
        lemma_lines(heap, bases, lines, from + 1);
        assert(heap.live(bases[from]));
        assert(!bases.take(from).contains(bases[from])) by {
            if bases.take(from).contains(bases[from]) {
                let i = choose|i: int| 0 <= i < from && bases.take(from)[i] == bases[from];
                assert(bases[i] == bases[from]);
            }
        }
        assert(seq![all[from]] + all.subrange(from + 1, bases.len() as int) =~= all.subrange(
            from,
            bases.len() as int,
        ));
        assert(all[from] == lines[from]@);
    } else {
        assert(all.subrange(from, bases.len() as int) =~= Seq::empty());
    }
}

proof fn lemma_names(attributes: Seq<(Seq<char>, Value)>, from: int)
    requires
        0 <= from,
        forall|i: int|
            0 <= i < attributes.len() ==> !crate::namespaces::dunder(
                (#[trigger] attributes[i]).0,
            ),
    ensures
        crate::completion::refused_name(attributes, from) is Ok,
    decreases attributes.len() - from,
{
    if from < attributes.len() {
        let _ = attributes[from];
        lemma_names(attributes, from + 1);
    }
}

proof fn lemma_dependents(heap: HeapView, class: Value, ancestors: Seq<Value>, from: int, i: int)
    requires
        0 <= from <= i < ancestors.len(),
        heap.with_dependent(class, ancestors, from).1 is Ok,
    ensures
        heap.with_dependent(class, ancestors, from).0.objects[ancestors[i]] matches ObjectView::Class(
            ancestor,
        ) && ancestor.dependents.contains(class),
    decreases ancestors.len() - from,
{
    let ancestor = heap.class_at(ancestors[from])->Ok_0;
    let next = heap.with(
        ancestors[from],
        ObjectView::Class(ClassView { dependents: ancestor.dependents.push(class), ..ancestor }),
    );
    if i > from {
        lemma_dependents(next, class, ancestors, from + 1, i);
    } else {
        let dependents = ancestor.dependents.push(class);
        assert(dependents[dependents.len() - 1] == class);
        lemma_kept(next, class, ancestors, from + 1, ancestors[i]);
    }
}

proof fn lemma_kept(heap: HeapView, class: Value, ancestors: Seq<Value>, from: int, owner: Value)
    requires
        0 <= from,
        heap.objects[owner] matches ObjectView::Class(held) && held.dependents.contains(class),
    ensures
        heap.with_dependent(class, ancestors, from).0.objects[owner] matches ObjectView::Class(held)
            && held.dependents.contains(class),
    decreases ancestors.len() - from,
{
    if from < ancestors.len() {
        if let Ok(ancestor) = heap.class_at(ancestors[from]) {
            let dependents = ancestor.dependents.push(class);
            let next = heap.with(
                ancestors[from],
                ObjectView::Class(ClassView { dependents, ..ancestor }),
            );
            assert(dependents[dependents.len() - 1] == class);
            lemma_kept(next, class, ancestors, from + 1, owner);
        }
    }
}

proof fn lemma_listed(heap: HeapView, class: Value, ancestors: Seq<Value>, from: int)
    requires
        0 <= from,
        forall|k: int| 0 <= k < ancestors.len() ==> heap.class_at(#[trigger] ancestors[k]) is Ok,
    ensures
        heap.with_dependent(class, ancestors, from).1 is Ok,
    decreases ancestors.len() - from,
{
    if from < ancestors.len() {
        let ancestor = heap.class_at(ancestors[from])->Ok_0;
        let next = heap.with(
            ancestors[from],
            ObjectView::Class(ClassView { dependents: ancestor.dependents.push(class), ..ancestor }),
        );
        assert forall|k: int| 0 <= k < ancestors.len() implies next.class_at(
            #[trigger] ancestors[k],
        ) is Ok by {
            assert(heap.class_at(ancestors[k]) is Ok);
            assert(next.live(ancestors[k]) == heap.live(ancestors[k]));
        }
        lemma_listed(next, class, ancestors, from + 1);
    }
}

/// A namespace becomes a class with what was bound in it, whose ancestors are
/// in the order into which the lines of its bases merge, and which each of
/// them counts among its dependents. Bases whose lines do not merge make no
/// class.
pub proof fn namespaces_become_classes(
    heap: &mut Heap,
    namespace: Value,
    body: ClassView,
    lines: Vec<Vec<Value>>,
    order: Option<Vec<Value>>,
    r: Result<()>,
    i: int,
)
    requires
        old(heap).wf(),
        is_object(old(heap)@, namespace, ObjectView::Namespace(body)),
        body.namespace_mapping is None,
        forall|i: int|
            0 <= i < body.attributes.len() ==> !crate::namespaces::dunder(
                (#[trigger] body.attributes[i]).0,
            ),
        are_lines(old(heap)@, body.bases, lines@),
        body.bases.no_duplicates(),
        call_ensures(merge, (lines,), order),
        call_ensures(Heap::finish_class, (heap, namespace), r),
    ensures
        order is None ==> r is Err && r->Err_0@.kind == "TypeError"@ && final(heap)@ == old(heap)@,
        order is Some && r is Ok ==> {
            let ancestors = order->Some_0;
            &&& final(heap)@.objects.dom().contains(namespace)
            &&& final(heap)@.objects[namespace] matches ObjectView::Class(class) && {
                &&& class.mro == ancestors@
                &&& class.name == body.name
                &&& class.bases == body.bases
                &&& class.metaclass == body.metaclass
                &&& class.attributes == body.attributes
                &&& class.dictionary_order == body.dictionary_order
            }
            &&& 0 <= i < ancestors@.len() ==> (
            final(heap)@.objects[ancestors@[i]] matches ObjectView::Class(ancestor)
                && ancestor.dependents.contains(namespace))
        },
        order is Some && old(heap)@.next_type < u32::MAX && (forall|k: int|
            0 <= k < order->Some_0@.len() ==> is_class(old(heap)@, #[trigger] order->Some_0@[k]))
            ==> r is Ok,
{
    old(heap).lemma_view();
    let before = old(heap)@;
    let after = final(heap)@;
    let all = lists(lines@);
    lemma_lines(before, body.bases, lines@, 0);
    lemma_names(body.attributes, 0);
    assert(all.subrange(0, body.bases.len() as int).push(body.bases) =~= all);
    reveal_strlit("__new__");
    reveal_strlit("__qualname__");
    crate::text::lemma_name_position(body.attributes, "__new__"@);
    crate::text::lemma_name_position(body.attributes, "__qualname__"@);
    assert(body.own("__new__"@) is None);
    assert(body.own("__qualname__"@) is None);
    assert((after, crate::diagnostic::outcome(r)) == before.completed(namespace));
    if let Some(ancestors) = order {
        assert(before.planned(body) == Ok::<Seq<Value>, crate::diagnostic::Fault>(ancestors@));
        let made = before.classed(namespace, body, ancestors@);
        if before.next_type < u32::MAX && (forall|k: int|
            0 <= k < ancestors@.len() ==> is_class(before, #[trigger] ancestors@[k])) {
            assert forall|k: int| 0 <= k < ancestors@.len() implies made.class_at(
                #[trigger] ancestors@[k],
            ) is Ok by {
                assert(before.live(ancestors@[k]));
                assert(made.live(ancestors@[k]));
            }
            lemma_listed(made, namespace, ancestors@, 0);
        }
        if r is Ok {
            crate::completion::completion_makes_a_class(before, namespace);
            let classed = before.classed(namespace, body, ancestors@);
            crate::completion::lemma_with_dependent(classed, namespace, ancestors@, 0);
            assert(classed.live(namespace));
            assert(crate::completion::same_but_dependents(
                classed.objects[namespace],
                after.objects[namespace],
            ));
            if 0 <= i < ancestors@.len() {
                lemma_dependents(classed, namespace, ancestors@, 0, i);
            }
        }
    }
}

/// The metaclass of a base, or the default one where it has none.
pub open spec fn made_by(heap: HeapView, base: Value, default: Value) -> Value {
    if is_class(heap, base) && !(heap.objects[base]->Class_0.metaclass@ is Unbound) {
        heap.objects[base]->Class_0.metaclass
    } else {
        default
    }
}

/// Whether a class is another or descends from it.
pub open spec fn descends(heap: HeapView, class: Value, from: Value) -> bool {
    &&& is_class(heap, class)
    &&& is_class(heap, from)
    &&& heap.objects[class]->Class_0.id == heap.objects[from]->Class_0.id
        || heap.objects[class]->Class_0.mro.contains(from)
}

proof fn lemma_made_by(heap: HeapView, base: Value, default: Value)
    requires
        heap.wf(),
    ensures
        heap.base_metaclass(base, default) == made_by(heap, base, default),
{
    assert(5u64 & 7 == 5) by (bit_vector);
    if is_class(heap, base) {
        assert(heap.live(base));
    }
}

proof fn lemma_narrowed(
    heap: HeapView,
    candidate: Value,
    bases: Seq<Value>,
    default: Value,
    from: int,
)
    requires
        heap.wf(),
        0 <= from,
        is_class(heap, candidate),
        forall|a: Value, b: Value, c: Value| #[trigger]
            descends(heap, a, b) && #[trigger] descends(heap, b, c) ==> descends(heap, a, c),
    ensures
        heap.narrowed(candidate, bases, default, from) matches Ok(made) ==> {
            &&& descends(heap, made, candidate)
            &&& forall|i: int|
                from <= i < bases.len() ==> descends(
                    heap,
                    made,
                    made_by(heap, #[trigger] bases[i], default),
                )
            &&& made == candidate || exists|i: int|
                from <= i < bases.len() && made == made_by(heap, #[trigger] bases[i], default)
        },
    decreases bases.len() - from,
{
    if from < bases.len() {
        let metaclass = made_by(heap, bases[from], default);
        lemma_made_by(heap, bases[from], default);
        assert(heap.live(candidate));
        if heap.class_is_subclass(candidate, metaclass) == Ok::<bool, crate::diagnostic::Fault>(
            true,
        ) {
            lemma_narrowed(heap, candidate, bases, default, from + 1);
            assert(descends(heap, candidate, metaclass));
        } else if heap.class_is_subclass(metaclass, candidate) == Ok::<
            bool,
            crate::diagnostic::Fault,
        >(true) {
            lemma_narrowed(heap, metaclass, bases, default, from + 1);
            assert(descends(heap, metaclass, candidate));
        }
        if let Ok(made) = heap.narrowed(candidate, bases, default, from) {
            assert forall|i: int| from <= i < bases.len() implies descends(
                heap,
                made,
                made_by(heap, #[trigger] bases[i], default),
            ) by {
                if i == from {
                    assert(descends(heap, made, metaclass));
                }
            }
        }
    }
}

/// The metaclass of a class under construction is the one that was asked for,
/// the default one or that of a base; it descends from the one that was asked
/// for and from that of every base. One that does not descend from the default
/// may not be asked for.
pub proof fn metaclasses_descend_from_those_of_the_bases(
    heap: Heap,
    explicit: Option<Value>,
    bases: Vec<Value>,
    default: Value,
    r: Result<Value>,
    i: int,
)
    requires
        heap.wf(),
        forall|a: Value, b: Value, c: Value| #[trigger]
            descends(heap@, a, b) && #[trigger] descends(heap@, b, c) ==> descends(heap@, a, c),
        bases@.len() > 0 && explicit is None ==> is_class(heap@, made_by(heap@, bases@[0], default)),
        call_ensures(Heap::select_metaclass, (&heap, explicit, &bases, default), r),
    ensures
        r is Ok && 0 <= i < bases@.len() ==> descends(
            heap@,
            r->Ok_0,
            made_by(heap@, bases@[i], default),
        ),
        r is Ok && explicit is Some ==> descends(heap@, r->Ok_0, explicit->Some_0) && descends(
            heap@,
            explicit->Some_0,
            default,
        ),
        r is Ok ==> r->Ok_0 == default || explicit == Some(r->Ok_0) || exists|k: int|
            0 <= k < bases@.len() && r->Ok_0 == made_by(heap@, #[trigger] bases@[k], default),
        bases@.len() == 0 && explicit is None && is_class(heap@, default) ==> (r matches Ok(made)
            && made == default),
        explicit is Some && is_class(heap@, default) && is_class(heap@, explicit->Some_0)
            && !descends(heap@, explicit->Some_0, default) ==> r is Err && r->Err_0@.kind
            == "TypeError"@,
{
    heap.lemma_view();
    if let Some(asked) = explicit {
        if is_class(heap@, asked) {
            assert(heap@.live(asked));
            lemma_narrowed(heap@, asked, bases@, default, 0);
        }
    } else if bases@.len() > 0 {
        lemma_made_by(heap@, bases@[0], default);
        lemma_narrowed(heap@, made_by(heap@, bases@[0], default), bases@, default, 0);
    }
    if is_class(heap@, default) {
        assert(heap@.live(default));
    }
}

} // verus!
