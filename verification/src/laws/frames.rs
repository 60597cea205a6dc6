//! Entering functions: where each argument ends.
use vstd::prelude::*;
use crate::calls::arguments::{ArgsView, ExpandedArgs};
use crate::calls::frames::{
    captures_of, cell_made, cells_made, default_count, defaulted, defaults_of, keyword_bound,
    keywords_bound, keywords_completed, kwarg_completed, placed, reaches, surplus, unbound_from,
    window_completed, windowed, CodeInfo, FrameBounds, Window,
};
use crate::calls::refuses;
use crate::diagnostic::{Diagnostic, Fault, Result};
use crate::dict::DictView;
use crate::heap::{Heap, HeapView};
use crate::key::KeyView;
use crate::laws::{is_object, raises};
use crate::lookup::Outcome;
use crate::mapping::lemma_dict_set_frame;
use crate::namespaces::allocates;
use crate::object::ObjectView;
use crate::value::Value;

verus! {

/// Whether a name is that of a parameter: the first of that name which can be
/// named at all.
pub open spec fn names(info: CodeInfo, name: Seq<char>, k: int) -> bool {
    info.posonly <= k < info.positional + info.keyword_only && info.locals@[k]@ == name
        && forall|j: int| info.posonly <= j < k ==> (#[trigger] info.locals@[j])@ != name
}

/// Whether some parameter can be named so.
pub open spec fn is_named(info: CodeInfo, name: Seq<char>) -> bool {
    exists|k: int| names(info, name, k)
}

/// Whether a keyword argument is for a parameter.
pub open spec fn is_given(info: CodeInfo, keywords: Seq<(Seq<char>, Value)>, k: int) -> bool {
    exists|j: int| 0 <= j < keywords.len() && names(info, (#[trigger] keywords[j]).0, k)
}

/// The keyword arguments that are for no parameter, in their order.
pub open spec fn unnamed(info: CodeInfo, keywords: Seq<(Seq<char>, Value)>) -> Seq<
    (Seq<char>, Value),
>
    decreases keywords.len(),
{
    if keywords.len() == 0 {
        keywords
    } else if is_named(info, keywords.last().0) {
        unnamed(info, keywords.drop_last())
    } else {
        unnamed(info, keywords.drop_last()).push(keywords.last())
    }
}

/// Whether no two keyword arguments have one name.
pub open spec fn names_differ(keywords: Seq<(Seq<char>, Value)>) -> bool {
    forall|i: int, j: int|
        0 <= i < j < keywords.len() ==> (#[trigger] keywords[i]).0 != (#[trigger] keywords[j]).0
}

/// Whether a dictionary holds some texts and values, in their order, and
/// nothing else.
pub open spec fn holds_pairs(heap: HeapView, dict: DictView, pairs: Seq<(Seq<char>, Value)>) -> bool {
    dict.entries.len() == pairs.len() && forall|i: int|
        0 <= i < pairs.len() ==> (#[trigger] dict.entries[i]).1 == pairs[i].1 && is_object(
            heap,
            dict.entries[i].0,
            ObjectView::Str(pairs[i].0),
        )
}

/// Whether no handle that is live can be given out again.
spec fn tidy(heap: HeapView) -> bool {
    forall|v: Value| #[trigger]
        heap.objects.dom().contains(v) ==> heap.issued.contains(v) && v.is_heap()
}

/// Whether all that was live is still there, unchanged but for one object.
pub open spec fn stays(before: HeapView, after: HeapView, but: Option<Value>) -> bool {
    forall|v: Value| #[trigger]
        before.objects.dom().contains(v) ==> after.objects.dom().contains(v) && (Some(v) != but
            ==> after.objects[v] == before.objects[v])
}

spec fn filed(dict: DictView, pairs: Seq<(Seq<char>, Value)>) -> bool {
    dict.materials.len() == dict.entries.len() && dict.hashes.len() == dict.entries.len()
        && dict.entries.len() <= usize::MAX && forall|i: int|
        0 <= i < pairs.len() ==> #[trigger] dict.materials[i] == KeyView::Text(pairs[i].0)
}

proof fn lemma_slot(info: CodeInfo, name: Seq<char>, from: int)
    requires
        0 <= from,
        info.posonly <= from,
        forall|j: int| info.posonly <= j < from ==> (#[trigger] info.locals@[j])@ != name,
    ensures
        match info.slot_from(name, from) {
            Some(k) => names(info, name, k) && forall|o: int| #[trigger]
                names(info, name, o) ==> o == k,
            None => forall|k: int| !#[trigger] names(info, name, k),
        },
    decreases info.named() - from,
{
    if from < info.named() {
        if info.locals@[from]@ == name {
            assert(names(info, name, from));
            assert forall|o: int| #[trigger] names(info, name, o) implies o == from by {}
        } else {
            lemma_slot(info, name, from + 1);
        }
    } else {
        assert forall|k: int| !#[trigger] names(info, name, k) by {}
    }
}

proof fn lemma_absent(dict: DictView, pairs: Seq<(Seq<char>, Value)>, name: Seq<char>)
    requires
        filed(dict, pairs),
        dict.entries.len() == pairs.len(),
        forall|i: int| 0 <= i < pairs.len() ==> (#[trigger] pairs[i]).0 != name,
    ensures
        dict.find(KeyView::Text(name)) is None,
{
    let material = KeyView::Text(name);
    let hash = crate::dict::bucket(material.hash());
    crate::dict::lemma_filed(dict.hashes, hash);
    crate::dict::lemma_first_match(dict.materials, dict.candidates(hash), material);
    if let Some(i) = dict.find(material) {
        assert(dict.materials[i] == KeyView::Text(pairs[i].0));
        assert(pairs[i].0 != name);
    }
}

proof fn lemma_text_set(
    heap: HeapView,
    owner: Value,
    key: Value,
    name: Seq<char>,
    value: Value,
    pairs: Seq<(Seq<char>, Value)>,
)
    requires
        tidy(heap),
        heap.objects.dom().contains(owner),
        heap.objects[owner] is Dict,
        is_object(heap, key, ObjectView::Str(name)),
        holds_pairs(heap, heap.objects[owner]->Dict_0, pairs),
        filed(heap.objects[owner]->Dict_0, pairs),
        forall|i: int| 0 <= i < pairs.len() ==> (#[trigger] pairs[i]).0 != name,
        heap.dict_set(owner, key, value).1 is Ok,
        pairs.len() < usize::MAX,
    ensures
        ({
            let after = heap.dict_set(owner, key, value).0;
            &&& after.objects.dom().contains(owner) && after.objects[owner] is Dict
            &&& holds_pairs(after, after.objects[owner]->Dict_0, pairs.push((name, value)))
            &&& filed(after.objects[owner]->Dict_0, pairs.push((name, value)))
        }),
{
    reveal(HeapView::dict_set);
    crate::value::lemma_not_heap();
    let dict = heap.objects[owner]->Dict_0;
    lemma_absent(dict, pairs, name);
    let after = heap.dict_set(owner, key, value).0;
    lemma_dict_set_frame(heap, owner, key, value);
    assert(heap.native(key) == key && heap.native(owner) == owner);
    assert(heap.dict_key(key, 0) == Ok::<KeyView, Fault>(KeyView::Text(name)));
    let held = after.objects[owner]->Dict_0;
    let all = pairs.push((name, value));
    assert(held.entries == dict.entries.push((key, value)));
    assert forall|i: int| 0 <= i < all.len() implies (#[trigger] held.entries[i]).1 == all[i].1
        && is_object(after, held.entries[i].0, ObjectView::Str(all[i].0)) by {
        if i < pairs.len() {
            assert(held.entries[i] == dict.entries[i]);
            assert(after.at(dict.entries[i].0) == heap.at(dict.entries[i].0));
        } else {
            assert(after.at(key) == heap.at(key));
        }
    }
}

proof fn lemma_keywords(
    before: HeapView,
    window: Seq<Value>,
    after: HeapView,
    held: Seq<Value>,
    info: CodeInfo,
    dict: Option<Value>,
    keywords: Seq<(Seq<char>, Value)>,
)
    requires
        keywords_bound(before, window, after, Ok(held), info, dict, keywords),
        info.wf(),
        window.len() == info.registers,
        tidy(before),
        keywords.len() < usize::MAX,
        names_differ(keywords),
        forall|j: int| 0 <= j < keywords.len() ==> (#[trigger] keywords[j]).1 != Value::unbound(),
        dict matches Some(d) ==> is_object(before, d, ObjectView::Dict(DictView::empty())),
    ensures
        tidy(after),
        stays(before, after, dict),
        held.len() == window.len(),
        forall|k: int|
            0 <= k < window.len() && !is_given(info, keywords, k) ==> #[trigger] held[k]
                == window[k],
        forall|j: int, k: int|
            0 <= j < keywords.len() && #[trigger] names(info, keywords[j].0, k) ==> held[k]
                == keywords[j].1 && window[k] == Value::unbound(),
        dict is None ==> unnamed(info, keywords).len() == 0,
        dict matches Some(d) ==> after.objects[d] is Dict && holds_pairs(
            after,
            after.objects[d]->Dict_0,
            unnamed(info, keywords),
        ) && filed(after.objects[d]->Dict_0, unnamed(info, keywords)),
        unnamed(info, keywords).len() <= keywords.len(),
        forall|i: int|
            0 <= i < unnamed(info, keywords).len() ==> keywords.contains(
                #[trigger] unnamed(info, keywords)[i],
            ),
    decreases keywords.len(),
{
    if keywords.len() > 0 {
        let front = keywords.drop_last();
        let (name, value) = keywords.last();
        let (between, mid) = choose|between: HeapView, mid: Outcome<Seq<Value>>|
            #![trigger reaches(between, mid)]
            reaches(between, mid) && keywords_bound(before, window, between, mid, info, dict, front)
                && match mid {
                Err(error) => after == between && Ok::<Seq<Value>, Fault>(held) == Err::<
                    Seq<Value>,
                    Fault,
                >(error),
                Ok(window) => keyword_bound(
                    between,
                    window,
                    after,
                    Ok(held),
                    info,
                    dict,
                    name,
                    value,
                ),
            };
        assert(mid is Ok);
        let first = mid->Ok_0;
        assert forall|i: int, j: int| 0 <= i < j < front.len() implies (#[trigger] front[i]).0 != (
        #[trigger] front[j]).0 by {
            assert(keywords[i].0 != keywords[j].0);
        }
        assert forall|j: int| 0 <= j < front.len() implies (#[trigger] front[j]).1
            != Value::unbound() by {
            assert(keywords[j].1 != Value::unbound());
        }
        lemma_keywords(before, window, between, first, info, dict, front);
        lemma_slot(info, name, info.posonly as int);
        let rest = unnamed(info, front);
        assert forall|i: int| 0 <= i < rest.len() implies (#[trigger] rest[i]).0 != name by {
            let j = choose|j: int| 0 <= j < front.len() && front[j] == rest[i];
            assert(keywords[j].0 != keywords[keywords.len() - 1].0);
        }
        match info.slot_of(name) {
            Some(slot) => {
                assert(names(info, name, slot));
                assert(first[slot] == Value::unbound());
                assert(!is_given(info, front, slot)) by {
                    if is_given(info, front, slot) {
                        let j = choose|j: int|
                            0 <= j < front.len() && names(info, (#[trigger] front[j]).0, slot);
                        assert(first[slot] == front[j].1);
                    }
                }
                assert(first[slot] == window[slot]);
                assert(held == first.update(slot, value));
                assert forall|k: int| 0 <= k < window.len() && !is_given(
                    info,
                    keywords,
                    k,
                ) implies #[trigger] held[k] == window[k] by {
                    assert(k != slot) by {
                        assert(names(info, keywords[keywords.len() - 1].0, slot));
                    }
                    lemma_given_front(info, keywords, k);
                    assert(first[k] == window[k]);
                }
                assert forall|j: int, k: int|
                    0 <= j < keywords.len() && #[trigger] names(
                        info,
                        keywords[j].0,
                        k,
                    ) implies held[k] == keywords[j].1 && window[k] == Value::unbound() by {
                    if j < front.len() {
                        assert(front[j] == keywords[j]);
                        assert(names(info, front[j].0, k));
                        assert(k != slot) by {
                            assert(keywords[j].0 != keywords[keywords.len() - 1].0);
                        }
                    }
                }
                lemma_contains_front(info, keywords);
            },
            None => {
                assert(!is_named(info, name));
                let d = dict->0;
                let (heap, made) = choose|
                    heap: HeapView,
                    made: core::result::Result<Value, Diagnostic>,
                |
                    #![trigger allocates(between, heap, made, ObjectView::Str(name))]
                    allocates(between, heap, made, ObjectView::Str(name)) && match made {
                        Err(error) => after == heap && Ok::<Seq<Value>, Fault>(held) == Err::<
                            Seq<Value>,
                            Fault,
                        >(error@),
                        Ok(key) => {
                            let change = heap.dict_set(d, key, value);
                            after == change.0 && Ok::<Seq<Value>, Fault>(held) == match change.1 {
                                Ok(_) => Ok(first),
                                Err(error) => Err(error),
                            }
                        },
                    };
                let key = made->Ok_0;
                assert(made is Ok);
                assert(!between.objects.dom().contains(key));
                assert(between.objects[d] == heap.objects[d]);
                assert(tidy(heap));
                let held_before = heap.objects[d]->Dict_0;
                assert forall|i: int| 0 <= i < rest.len() implies (
                #[trigger] held_before.entries[i]).1 == rest[i].1 && is_object(
                    heap,
                    held_before.entries[i].0,
                    ObjectView::Str(rest[i].0),
                ) by {
                    assert(is_object(
                        between,
                        held_before.entries[i].0,
                        ObjectView::Str(rest[i].0),
                    ));
                }
                lemma_text_set(heap, d, key, name, value, rest);
                lemma_dict_set_frame(heap, d, key, value);
                assert(held == first);
                assert forall|v: Value| #[trigger] before.objects.dom().contains(v) implies
                    after.objects.dom().contains(v) && (Some(v) != dict ==> after.objects[v]
                    == before.objects[v]) by {
                    assert(between.objects.dom().contains(v));
                    assert(after.live(v) == heap.live(v));
                    if v != d {
                        assert(after.at(v) == heap.at(v));
                    }
                }
                assert(tidy(after)) by {
                    assert forall|v: Value| #[trigger]
                        after.objects.dom().contains(v) implies after.issued.contains(v)
                        && v.is_heap() by {
                        assert(after.live(v) == heap.live(v));
                    }
                }
                assert forall|k: int| 0 <= k < window.len() && !is_given(
                    info,
                    keywords,
                    k,
                ) implies #[trigger] held[k] == window[k] by {
                    lemma_given_front(info, keywords, k);
                    assert(first[k] == window[k]);
                }
                assert forall|j: int, k: int|
                    0 <= j < keywords.len() && #[trigger] names(
                        info,
                        keywords[j].0,
                        k,
                    ) implies held[k] == keywords[j].1 && window[k] == Value::unbound() by {
                    if j < front.len() {
                        assert(front[j] == keywords[j]);
                        assert(names(info, front[j].0, k));
                    }
                }
                assert(unnamed(info, keywords) == rest.push((name, value)));
                lemma_contains_front(info, keywords);
            },
        }
    }
}

proof fn lemma_given_front(info: CodeInfo, keywords: Seq<(Seq<char>, Value)>, k: int)
    requires
        keywords.len() > 0,
        !is_given(info, keywords, k),
    ensures
        !is_given(info, keywords.drop_last(), k),
{
    let front = keywords.drop_last();
    if is_given(info, front, k) {
        let j = choose|j: int| 0 <= j < front.len() && names(info, (#[trigger] front[j]).0, k);
        assert(names(info, keywords[j].0, k));
    }
}

proof fn lemma_contains_front(info: CodeInfo, keywords: Seq<(Seq<char>, Value)>)
    requires
        keywords.len() > 0,
        forall|i: int|
            0 <= i < unnamed(info, keywords.drop_last()).len()
                ==> keywords.drop_last().contains(
                #[trigger] unnamed(info, keywords.drop_last())[i],
            ),
    ensures
        forall|i: int|
            0 <= i < unnamed(info, keywords).len() ==> keywords.contains(
                #[trigger] unnamed(info, keywords)[i],
            ),
{
    let (front, all) = (keywords.drop_last(), unnamed(info, keywords));
    let rest = unnamed(info, front);
    assert forall|i: int| 0 <= i < all.len() implies keywords.contains(#[trigger] all[i]) by {
        if i < rest.len() {
            assert(all[i] == rest[i]);
            assert(front.contains(rest[i]));
            let j = choose|j: int| 0 <= j < front.len() && front[j] == rest[i];
            assert(keywords[j] == all[i]);
        } else {
            assert(keywords[keywords.len() - 1] == all[i]);
        }
    }
}

/// Whether an entry of the defaults is the first for a register.
pub open spec fn is_default(slots: Seq<u16>, k: int, d: int) -> bool {
    0 <= d < slots.len() && slots[d] == k && forall|e: int|
        0 <= e < d ==> #[trigger] slots[e] != k
}

proof fn lemma_defaults(window: Seq<Value>, slots: Seq<u16>, defaults: Seq<Value>, count: int, k: int)
    requires
        0 <= k < window.len(),
        0 <= count <= slots.len(),
        count <= defaults.len(),
        forall|i: int| 0 <= i < slots.len() ==> #[trigger] slots[i] < window.len(),
    ensures
        defaulted(window, slots, defaults, count).len() == window.len(),
        window[k] != Value::unbound() ==> defaulted(window, slots, defaults, count)[k]
            == window[k],
        window[k] == Value::unbound() && (forall|d: int|
            0 <= d < count ==> #[trigger] slots[d] != k) ==> defaulted(
            window,
            slots,
            defaults,
            count,
        )[k] == Value::unbound(),
        forall|d: int|
            window[k] == Value::unbound() && d < count && #[trigger] is_default(slots, k, d)
                && defaults[d] != Value::unbound() ==> defaulted(window, slots, defaults, count)[k]
                == defaults[d],
    decreases count,
{
    if count > 0 {
        lemma_defaults(window, slots, defaults, count - 1, k);
        assert(slots[count - 1] < window.len());
        assert forall|d: int|
            window[k] == Value::unbound() && d < count && #[trigger] is_default(slots, k, d)
                && defaults[d] != Value::unbound() implies defaulted(
            window,
            slots,
            defaults,
            count,
        )[k] == defaults[d] by {
            if d == count - 1 {
                assert forall|e: int| 0 <= e < count - 1 implies #[trigger] slots[e] != k by {}
            }
        }
    }
}

proof fn lemma_cells(
    before: HeapView,
    window: Seq<Value>,
    after: HeapView,
    registers: Seq<Value>,
    cells: Seq<Value>,
    locals: Seq<u16>,
)
    requires
        cells_made(before, window, after, Ok((registers, cells)), locals),
        tidy(before),
        forall|i: int| 0 <= i < locals.len() ==> #[trigger] locals[i] < window.len(),
        forall|i: int, j: int|
            0 <= i < j < locals.len() ==> #[trigger] locals[i] != #[trigger] locals[j],
    ensures
        tidy(after),
        stays(before, after, None),
        registers.len() == window.len(),
        cells.len() == locals.len(),
        forall|k: int|
            0 <= k < window.len() && (forall|i: int|
                0 <= i < locals.len() ==> #[trigger] locals[i] != k) ==> #[trigger] registers[k]
                == window[k],
        forall|i: int|
            0 <= i < locals.len() ==> is_object(
                after,
                #[trigger] cells[i],
                ObjectView::Cell(window[locals[i] as int]),
            ) && registers[locals[i] as int] == Value::unbound(),
    decreases locals.len(),
{
    if locals.len() > 0 {
        let front = locals.drop_last();
        let slot = locals.last() as int;
        let (between, mid) = choose|between: HeapView, mid: Outcome<(Seq<Value>, Seq<Value>)>|
            #![trigger reaches(between, mid)]
            reaches(between, mid) && cells_made(before, window, between, mid, front) && match mid {
                Err(error) => after == between && Ok::<(Seq<Value>, Seq<Value>), Fault>(
                    (registers, cells),
                ) == Err::<(Seq<Value>, Seq<Value>), Fault>(error),
                Ok((window, held)) => cell_made(
                    between,
                    window,
                    held,
                    after,
                    Ok((registers, cells)),
                    slot,
                ),
            };
        assert(mid is Ok);
        let (first, held) = mid->Ok_0;
        assert forall|i: int| 0 <= i < front.len() implies #[trigger] front[i] < window.len() by {
            assert(front[i] == locals[i]);
        }
        assert forall|i: int, j: int| 0 <= i < j < front.len() implies #[trigger] front[i]
            != #[trigger] front[j] by {
            assert(locals[i] != locals[j]);
        }
        lemma_cells(before, window, between, first, held, front);
        assert(locals[locals.len() - 1] == slot);
        assert forall|i: int| 0 <= i < front.len() implies #[trigger] front[i] != slot by {
            assert(locals[i] != locals[locals.len() - 1]);
        }
        assert(first[slot] == window[slot]);
        let made = choose|made: core::result::Result<Value, Diagnostic>|
            #![trigger allocates(between, after, made, ObjectView::Cell(first[slot]))]
            allocates(between, after, made, ObjectView::Cell(first[slot])) && Ok::<
                (Seq<Value>, Seq<Value>),
                Fault,
            >((registers, cells)) == match made {
                Err(error) => Err(error@),
                Ok(cell) => Ok((first.update(slot, Value::unbound()), held.push(cell))),
            };
        assert(made is Ok);
        let cell = made->Ok_0;
        assert(cells == held.push(cell));
        assert(registers == first.update(slot, Value::unbound()));
        assert forall|k: int|
            0 <= k < window.len() && (forall|i: int|
                0 <= i < locals.len() ==> #[trigger] locals[i] != k) implies #[trigger] registers[k]
            == window[k] by {
            assert forall|i: int| 0 <= i < front.len() implies #[trigger] front[i] != k by {
                assert(front[i] == locals[i]);
            }
            assert(locals[locals.len() - 1] != k);
            assert(first[k] == window[k]);
        }
        assert forall|i: int| 0 <= i < locals.len() implies is_object(
            after,
            #[trigger] cells[i],
            ObjectView::Cell(window[locals[i] as int]),
        ) && registers[locals[i] as int] == Value::unbound() by {
            if i < front.len() {
                assert(cells[i] == held[i]);
                assert(front[i] == locals[i]);
            }
        }
    }
}

/// Whether a value is what a call gives a parameter: its positional argument,
/// its keyword argument, or its default.
pub open spec fn parameter_gets(
    info: CodeInfo,
    arguments: ArgsView,
    defaults: Seq<Value>,
    k: int,
    value: Value,
) -> bool {
    let positional = arguments.all();
    if k < info.positional && k < positional.len() {
        value == positional[k]
    } else if is_given(info, arguments.keywords, k) {
        exists|j: int|
            0 <= j < arguments.keywords.len() && names(
                info,
                (#[trigger] arguments.keywords[j]).0,
                k,
            ) && value == arguments.keywords[j].1
    } else {
        exists|d: int|
            d < defaults.len() && #[trigger] is_default(info.defaults@, k, d) && value
                == defaults[d]
    }
}

/// Whether the registers of a function are laid out apart: those of surplus
/// arguments behind those with names, and none of them shared with closures.
pub open spec fn laid_out(info: CodeInfo) -> bool {
    &&& info.wf()
    &&& info.vararg matches Some(slot) ==> slot >= info.positional + info.keyword_only && Some(slot)
        != info.kwarg && !info.cell_locals@.contains(slot) && !info.defaults@.contains(slot)
    &&& info.kwarg matches Some(slot) ==> slot >= info.positional + info.keyword_only
        && !info.cell_locals@.contains(slot) && !info.defaults@.contains(slot)
    &&& forall|i: int, j: int|
        0 <= i < j < info.cell_locals@.len() ==> #[trigger] info.cell_locals@[i]
            != #[trigger] info.cell_locals@[j]
}

/// Whether arguments can be told from registers that hold nothing, and no
/// keyword is given twice.
pub open spec fn are_arguments(arguments: ArgsView, defaults: Seq<Value>) -> bool {
    &&& forall|i: int|
        0 <= i < arguments.all().len() ==> #[trigger] arguments.all()[i] != Value::unbound()
    &&& forall|i: int|
        0 <= i < arguments.keywords.len() ==> (#[trigger] arguments.keywords[i]).1
            != Value::unbound()
    &&& forall|i: int| 0 <= i < defaults.len() ==> #[trigger] defaults[i] != Value::unbound()
    &&& names_differ(arguments.keywords)
    &&& arguments.keywords.len() < usize::MAX
}

proof fn lemma_bound(window: Seq<Value>, named: int, from: int, k: int)
    requires
        from <= k < named,
        unbound_from(window, named, from) is None,
    ensures
        window[k] != Value::unbound(),
    decreases named - from,
{
    if from < k {
        lemma_bound(window, named, from + 1, k);
    }
}

/// What a window with the arguments and the surplus in it is completed to.
proof fn lemma_filled(
    heap: HeapView,
    window: Seq<Value>,
    after: HeapView,
    result: core::result::Result<Window, Diagnostic>,
    info: CodeInfo,
    dict: Option<Value>,
    arguments: ArgsView,
    callable: Option<Value>,
    defaults: Seq<Value>,
)
    requires
        keywords_completed(
            heap,
            window,
            after,
            result,
            info,
            dict,
            arguments.keywords,
            callable,
        ),
        result is Ok,
        laid_out(info),
        are_arguments(arguments, defaults),
        tidy(heap),
        window.len() == info.registers,
        dict matches Some(d) ==> is_object(heap, d, ObjectView::Dict(DictView::empty())),
        callable matches Some(f) ==> heap.objects.dom().contains(f) && heap.objects[f] is Function,
        defaults_of(heap, callable) == defaults,
        forall|k: int|
            0 <= k < info.named() ==> #[trigger] window[k] == if k < info.positional && k
                < arguments.all().len() {
                arguments.all()[k]
            } else {
                Value::unbound()
            },
    ensures
        stays(heap, after, dict),
        result->Ok_0.registers@.len() == info.registers,
        forall|k: int|
            0 <= k < info.named() && !info.cell_locals@.contains(k as u16) ==> parameter_gets(
                info,
                arguments,
                defaults,
                k,
                #[trigger] result->Ok_0.registers@[k],
            ),
        result->Ok_0.cells@ == result->Ok_0.cells@.take(info.cell_locals@.len() as int)
            + captures_of(heap, callable),
        result->Ok_0.cells@.len() == info.cell_locals@.len() + captures_of(heap, callable).len(),
        forall|i: int|
            0 <= i < info.cell_locals@.len() && info.cell_locals@[i] < info.named()
                ==> after.objects.dom().contains(#[trigger] result->Ok_0.cells@[i])
                && after.objects[result->Ok_0.cells@[i]] is Cell && parameter_gets(
                info,
                arguments,
                defaults,
                info.cell_locals@[i] as int,
                after.objects[result->Ok_0.cells@[i]]->Cell_0,
            ),
        forall|k: int|
            info.named() <= k < info.registers && window[k] != Value::unbound()
                && !info.cell_locals@.contains(k as u16) ==> #[trigger] result->Ok_0.registers@[k]
                == window[k],
        dict is None ==> unnamed(info, arguments.keywords).len() == 0,
        dict matches Some(d) ==> after.objects.dom().contains(d) && after.objects[d] is Dict
            && holds_pairs(
            after,
            after.objects[d]->Dict_0,
            unnamed(info, arguments.keywords),
        ),
{
    let keywords = arguments.keywords;
    let (between, held) = choose|between: HeapView, held: Outcome<Seq<Value>>|
        #![trigger keywords_bound(heap, window, between, held, info, dict, keywords)]
        keywords_bound(heap, window, between, held, info, dict, keywords) && match held {
            Err(error) => after == between && refuses(result, error),
            Ok(window) => window_completed(between, window, after, result, info, callable),
        };
    assert(held is Ok);
    let bound = held->Ok_0;
    lemma_keywords(heap, window, between, bound, info, dict, keywords);
    assert(defaults_of(between, callable) == defaults);
    assert(captures_of(between, callable) == captures_of(heap, callable));
    let count = default_count(info.defaults@, defaults);
    let filled = defaulted(bound, info.defaults@, defaults, count);
    assert(unbound_from(filled, info.named(), 0) is None);
    let made = choose|made: Outcome<(Seq<Value>, Seq<Value>)>|
        #![trigger cells_made(between, filled, after, made, info.cell_locals@)]
        cells_made(between, filled, after, made, info.cell_locals@) && match made {
            Err(error) => refuses(result, error),
            Ok((registers, cells)) => windowed(
                result,
                registers,
                cells + captures_of(between, callable),
            ),
        };
    assert(made is Ok);
    let (registers, cells) = made->Ok_0;
    if info.registers > 0 {
        lemma_defaults(bound, info.defaults@, defaults, count, 0);
    } else {
        assert(info.defaults@.len() == 0) by {
            if info.defaults@.len() > 0 {
                assert(info.defaults@[0] < info.registers);
            }
        }
        assert(filled == bound);
    }
    lemma_cells(between, filled, after, registers, cells, info.cell_locals@);
    assert forall|k: int| 0 <= k < info.named() implies #[trigger] parameter_gets(
        info,
        arguments,
        defaults,
        k,
        filled[k],
    ) by {
        lemma_defaults(bound, info.defaults@, defaults, count, k);
        lemma_bound(filled, info.named(), 0, k);
        let _ = bound[k];
        if is_given(info, keywords, k) {
            let j = choose|j: int| 0 <= j < keywords.len() && names(info, (#[trigger] keywords[j]).0, k);
            assert(names(info, keywords[j].0, k));
            assert(bound[k] == keywords[j].1);
            assert(window[k] == Value::unbound());
            assert(keywords[j].1 != Value::unbound());
        } else {
            assert(bound[k] == window[k]);
            if k < info.positional && k < arguments.all().len() {
                assert(arguments.all()[k] != Value::unbound());
            } else {
                assert(!forall|d: int| 0 <= d < count ==> #[trigger] info.defaults@[d] != k);
                let d = lemma_first_default(info.defaults@, k, count);
                assert(defaults[d] != Value::unbound());
                assert(filled[k] == defaults[d]);
            }
        }
    }
    assert forall|k: int| 0 <= k < info.registers && !info.cell_locals@.contains(
        k as u16,
    ) implies #[trigger] registers[k] == filled[k] by {
        assert forall|i: int| 0 <= i < info.cell_locals@.len() implies #[trigger] info.cell_locals@[i]
            != k by {}
    }
    assert forall|k: int|
        info.named() <= k < info.registers && window[k] != Value::unbound()
            && !info.cell_locals@.contains(k as u16) implies #[trigger] result->Ok_0.registers@[k]
        == window[k] by {
        assert(!is_given(info, keywords, k));
        assert(bound[k] == window[k]);
        lemma_defaults(bound, info.defaults@, defaults, count, k);
        assert(registers[k] == filled[k]);
    }
    let all = result->Ok_0.cells@;
    assert(all.take(info.cell_locals@.len() as int) =~= cells);
    assert forall|i: int|
        0 <= i < info.cell_locals@.len() && info.cell_locals@[i] < info.named() implies
        after.objects.dom().contains(#[trigger] all[i]) && after.objects[all[i]] is Cell
        && parameter_gets(
        info,
        arguments,
        defaults,
        info.cell_locals@[i] as int,
        after.objects[all[i]]->Cell_0,
    ) by {
        assert(all[i] == cells[i]);
        assert(parameter_gets(
            info,
            arguments,
            defaults,
            info.cell_locals@[i] as int,
            filled[info.cell_locals@[i] as int],
        ));
    }
    if let Some(d) = dict {
        let pairs = unnamed(info, keywords);
        let dv = between.objects[d]->Dict_0;
        assert(between.objects.dom().contains(d));
        assert(after.objects[d] == between.objects[d]);
        assert forall|i: int| 0 <= i < pairs.len() implies (#[trigger] dv.entries[i]).1
            == pairs[i].1 && is_object(after, dv.entries[i].0, ObjectView::Str(pairs[i].0)) by {
            assert(is_object(between, dv.entries[i].0, ObjectView::Str(pairs[i].0)));
        }
    }
    assert forall|v: Value| #[trigger] heap.objects.dom().contains(v) implies
        after.objects.dom().contains(v) && (Some(v) != dict ==> after.objects[v]
        == heap.objects[v]) by {
        assert(between.objects.dom().contains(v));
    }
}

proof fn lemma_first_default(slots: Seq<u16>, k: int, count: int) -> (d: int)
    requires
        0 <= count <= slots.len(),
        exists|d: int| 0 <= d < count && #[trigger] slots[d] == k,
    ensures
        0 <= d < count,
        is_default(slots, k, d),
    decreases count,
{
    let last = choose|d: int| 0 <= d < count && #[trigger] slots[d] == k;
    if exists|d: int| 0 <= d < last && #[trigger] slots[d] == k {
        lemma_first_default(slots, k, last)
    } else {
        last
    }
}

/// Where a function was entered, every argument ended in its place: each
/// parameter, in its register or in the cell that closures share, has its
/// positional argument, its keyword argument or its default; the tuple of
/// surplus arguments has exactly the positional arguments behind the last
/// parameter, each at its place; the dictionary of surplus keywords has exactly
/// those that name no parameter; and behind the function's own cells stand
/// those it captured.
pub proof fn arguments_end_in_their_places(
    heap: &mut Heap,
    info: CodeInfo,
    arguments: ExpandedArgs,
    callable: Option<Value>,
    bounds: FrameBounds,
    defaults: Seq<Value>,
    captures: Seq<Value>,
    r: Result<Window>,
)
    requires
        old(heap).wf(),
        laid_out(info),
        match callable {
            Some(f) => old(heap)@.objects.dom().contains(f) && old(heap)@.objects[f] is Function
                && defaults == old(heap)@.objects[f]->Function_defaults && captures
                == old(heap)@.objects[f]->Function_captures,
            None => defaults.len() == 0 && captures.len() == 0,
        },
        are_arguments(arguments@, defaults),
        call_ensures(Heap::enter_frame, (heap, &info, &arguments, callable, bounds), r),
    ensures
        r matches Ok(window) ==> {
            let all = arguments@.all();
            let locals = info.cell_locals@;
            &&& window.registers@.len() == info.registers
            &&& forall|k: int|
                0 <= k < info.positional + info.keyword_only && !locals.contains(k as u16)
                    ==> parameter_gets(
                    info,
                    arguments@,
                    defaults,
                    k,
                    #[trigger] window.registers@[k],
                )
            &&& window.cells@.len() == locals.len() + captures.len()
            &&& window.cells@.skip(locals.len() as int) == captures
            &&& forall|i: int|
                0 <= i < locals.len() && locals[i] < info.positional + info.keyword_only
                    ==> final(heap)@.objects.dom().contains(#[trigger] window.cells@[i])
                    && final(heap)@.objects[window.cells@[i]] is Cell && parameter_gets(
                    info,
                    arguments@,
                    defaults,
                    locals[i] as int,
                    final(heap)@.objects[window.cells@[i]]->Cell_0,
                )
            &&& info.vararg is None ==> all.len() <= info.positional
            &&& info.vararg matches Some(slot) ==> {
                let object = final(heap)@.objects[window.registers@[slot as int]];
                let items = object->Tuple_0;
                &&& final(heap)@.objects.dom().contains(window.registers@[slot as int])
                &&& object is Tuple
                &&& all.len() > info.positional ==> items.len() == all.len() - info.positional
                &&& all.len() <= info.positional ==> items.len() == 0
                &&& forall|i: int|
                    info.positional <= i < all.len() ==> items[i - info.positional]
                        == #[trigger] all[i]
            }
            &&& info.kwarg is None ==> unnamed(info, arguments@.keywords).len() == 0
            &&& info.kwarg matches Some(slot) ==> {
                let object = final(heap)@.objects[window.registers@[slot as int]];
                &&& final(heap)@.objects.dom().contains(window.registers@[slot as int])
                &&& object is Dict
                &&& holds_pairs(
                    final(heap)@,
                    object->Dict_0,
                    unnamed(info, arguments@.keywords),
                )
            }
        },
{
    old(heap).lemma_view();
    crate::value::lemma_not_heap();
    let (before, after) = (old(heap)@, final(heap)@);
    if r is Ok {
        let window = placed(info, arguments@.all());
        let rest = surplus(info, arguments@.all());
        assert(defaults_of(before, callable) =~= defaults);
        assert(captures_of(before, callable) =~= captures);
        assert(tidy(before)) by {
            assert forall|v: Value| #[trigger]
                before.objects.dom().contains(v) implies before.issued.contains(v)
                && v.is_heap() by {}
        }
        match info.vararg {
            None => {
                lemma_surplus(
                    before,
                    window,
                    after,
                    r,
                    info,
                    arguments@,
                    callable,
                    defaults,
                );
            },
            Some(slot) => {
                let (between, made) = choose|
                    between: HeapView,
                    made: core::result::Result<Value, Diagnostic>,
                |
                    #![trigger allocates(before, between, made, ObjectView::Tuple(rest))]
                    allocates(before, between, made, ObjectView::Tuple(rest)) && match made {
                        Err(error) => after == between && refuses(r, error@),
                        Ok(tuple) => kwarg_completed(
                            between,
                            window.update(slot as int, tuple),
                            after,
                            r,
                            info,
                            arguments@.keywords,
                            callable,
                        ),
                    };
                let tuple = made->Ok_0;
                assert(made is Ok);
                let next = window.update(slot as int, tuple);
                assert(!before.objects.dom().contains(tuple));
                assert(defaults_of(between, callable) == defaults);
                assert(captures_of(between, callable) == captures);
                lemma_surplus(
                    between,
                    next,
                    after,
                    r,
                    info,
                    arguments@,
                    callable,
                    defaults,
                );
                assert(next[slot as int] == tuple);
                assert(r->Ok_0.registers@[slot as int] == tuple);
                assert(between.objects.dom().contains(tuple));
                assert(after.objects[tuple] == ObjectView::Tuple(rest));
            },
        }
        let cells = r->Ok_0.cells@;
        let n = info.cell_locals@.len() as int;
        assert(cells.skip(n) =~= captures);
    }
}

/// See [`arguments_end_in_their_places`].
proof fn lemma_surplus(
    heap: HeapView,
    window: Seq<Value>,
    after: HeapView,
    result: core::result::Result<Window, Diagnostic>,
    info: CodeInfo,
    arguments: ArgsView,
    callable: Option<Value>,
    defaults: Seq<Value>,
)
    requires
        kwarg_completed(heap, window, after, result, info, arguments.keywords, callable),
        result is Ok,
        laid_out(info),
        are_arguments(arguments, defaults),
        tidy(heap),
        window.len() == info.registers,
        callable matches Some(f) ==> heap.objects.dom().contains(f) && heap.objects[f] is Function,
        defaults_of(heap, callable) == defaults,
        forall|k: int|
            0 <= k < info.named() ==> #[trigger] window[k] == if k < info.positional && k
                < arguments.all().len() {
                arguments.all()[k]
            } else {
                Value::unbound()
            },
    ensures
        stays(heap, after, None),
        result->Ok_0.registers@.len() == info.registers,
        forall|k: int|
            0 <= k < info.named() && !info.cell_locals@.contains(k as u16) ==> parameter_gets(
                info,
                arguments,
                defaults,
                k,
                #[trigger] result->Ok_0.registers@[k],
            ),
        result->Ok_0.cells@ == result->Ok_0.cells@.take(info.cell_locals@.len() as int)
            + captures_of(heap, callable),
        result->Ok_0.cells@.len() == info.cell_locals@.len() + captures_of(heap, callable).len(),
        forall|i: int|
            0 <= i < info.cell_locals@.len() && info.cell_locals@[i] < info.named()
                ==> after.objects.dom().contains(#[trigger] result->Ok_0.cells@[i])
                && after.objects[result->Ok_0.cells@[i]] is Cell && parameter_gets(
                info,
                arguments,
                defaults,
                info.cell_locals@[i] as int,
                after.objects[result->Ok_0.cells@[i]]->Cell_0,
            ),
        forall|k: int|
            info.named() <= k < info.registers && Some(k as u16) != info.kwarg && window[k]
                != Value::unbound() && !info.cell_locals@.contains(k as u16)
                ==> #[trigger] result->Ok_0.registers@[k] == window[k],
        info.kwarg is None ==> unnamed(info, arguments.keywords).len() == 0,
        info.kwarg matches Some(slot) ==> after.objects.dom().contains(
            result->Ok_0.registers@[slot as int],
        ) && after.objects[result->Ok_0.registers@[slot as int]] is Dict && holds_pairs(
            after,
            after.objects[result->Ok_0.registers@[slot as int]]->Dict_0,
            unnamed(info, arguments.keywords),
        ),
{
    crate::value::lemma_not_heap();
    match info.kwarg {
        None => {
            lemma_filled(
                heap,
                window,
                after,
                result,
                info,
                None,
                arguments,
                callable,
                defaults,
            );
        },
        Some(slot) => {
            let (between, made) = choose|
                between: HeapView,
                made: core::result::Result<Value, Diagnostic>,
            |
                #![trigger allocates(heap, between, made, ObjectView::Dict(DictView::empty()))]
                allocates(heap, between, made, ObjectView::Dict(DictView::empty())) && match made {
                    Err(error) => after == between && refuses(result, error@),
                    Ok(dict) => keywords_completed(
                        between,
                        window.update(slot as int, dict),
                        after,
                        result,
                        info,
                        Some(dict),
                        arguments.keywords,
                        callable,
                    ),
                };
            let dict = made->Ok_0;
            assert(made is Ok);
            let next = window.update(slot as int, dict);
            assert(!heap.objects.dom().contains(dict));
            assert(defaults_of(between, callable) == defaults);
            assert(captures_of(between, callable) == captures_of(heap, callable));
            lemma_filled(
                between,
                next,
                after,
                result,
                info,
                Some(dict),
                arguments,
                callable,
                defaults,
            );
            assert(next[slot as int] == dict);
            assert(result->Ok_0.registers@[slot as int] == dict);
            assert(stays(heap, after, None)) by {
                assert forall|v: Value| #[trigger] heap.objects.dom().contains(v) implies
                    after.objects.dom().contains(v) && after.objects[v] == heap.objects[v] by {
                    assert(between.objects.dom().contains(v));
                }
            }
            assert forall|k: int|
                info.named() <= k < info.registers && Some(k as u16) != info.kwarg && window[k]
                    != Value::unbound() && !info.cell_locals@.contains(k as u16) implies
                #[trigger] result->Ok_0.registers@[k] == window[k] by {
                assert(next[k] == window[k]);
            }
        },
    }
}

/// A function is not entered with more positional arguments than it takes.
pub proof fn surplus_arguments_are_refused(
    heap: &mut Heap,
    info: CodeInfo,
    arguments: ExpandedArgs,
    callable: Option<Value>,
    bounds: FrameBounds,
    r: Result<Window>,
)
    requires
        old(heap).wf(),
        info.wf(),
        bounds.depth < bounds.frames,
        bounds.base + info.registers <= bounds.registers,
        arguments@.all().len() > info.positional,
        info.vararg is None,
        call_ensures(Heap::enter_frame, (heap, &info, &arguments, callable, bounds), r),
    ensures
        raises(old(heap)@, final(heap)@, r, "TypeError"),
{
}

/// A function is not entered beyond the depth of calls or the registers that
/// there are.
pub proof fn frames_keep_their_bounds(
    heap: &mut Heap,
    info: CodeInfo,
    arguments: ExpandedArgs,
    callable: Option<Value>,
    bounds: FrameBounds,
    r: Result<Window>,
)
    requires
        old(heap).wf(),
        info.wf(),
        call_ensures(Heap::enter_frame, (heap, &info, &arguments, callable, bounds), r),
    ensures
        bounds.depth >= bounds.frames ==> raises(old(heap)@, final(heap)@, r, "RecursionError"),
        bounds.depth < bounds.frames && bounds.base + info.registers > bounds.registers ==> raises(
            old(heap)@,
            final(heap)@,
            r,
            "MemoryError",
        ),
{
}

} // verus!
