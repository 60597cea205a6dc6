//! Arguments, collections and dictionary operations, step by step.
use vstd::prelude::*;
use crate::calls::arguments::{ArgsView, ExpandedArgs};
use crate::calls::dicts::{continue_dict_merge, finish_dict_pair};
use crate::calls::state::{
    DictMergeFinish, DictMergeState, DictOperation, DictOperationKind, DictOperationStart,
    DictPairConstruction, EqualityAction, IterableCollection, IterableCollectionKind, Step,
};
use crate::dict::{bucket, DictView};
use crate::diagnostic::{Fault, Result};
use crate::heap::{Heap, HeapView};
use crate::laws::{gives_new, is_object, raises};
use crate::object::ObjectView;
use crate::value::Value;

verus! {

/// Whether a name is among keyword arguments.
pub open spec fn is_there(keywords: Seq<(Seq<char>, Value)>, name: Seq<char>) -> bool {
    exists|i: int| 0 <= i < keywords.len() && (#[trigger] keywords[i]).0 == name
}

proof fn lemma_there(keywords: Seq<(Seq<char>, Value)>, name: Seq<char>)
    ensures
        crate::text::name_position(keywords, name) is Some <==> is_there(keywords, name),
{
    crate::text::lemma_name_position(keywords, name);
}

/// A positional argument comes behind those that are there, a named one too
/// unless its name is; beyond the limit none is taken.
pub proof fn arguments_are_appended(
    args: &mut ExpandedArgs,
    named: &mut ExpandedArgs,
    name: String,
    value: Value,
    limit: usize,
    r: Result<()>,
    s: Result<()>,
)
    requires
        old(named)@ == old(args)@,
        call_ensures(ExpandedArgs::push_expanded_positional, (args, value, limit), r),
        call_ensures(ExpandedArgs::push_named, (named, name, value, limit), s),
    ensures
        ({
            let held = old(args)@;
            let count = held.positional.len() + held.keywords.len() + held.invalid_keywords.len();
            &&& count < limit ==> r is Ok && final(args)@ == (ArgsView {
                positional: held.positional.push(value),
                ..held
            })
            &&& count >= limit ==> r is Err && s is Err && final(args)@ == held && final(named)@
                == held
            &&& count < limit && !is_there(held.keywords, name@) ==> s is Ok && final(named)@ == (
            ArgsView { keywords: held.keywords.push((name@, value)), ..held })
            &&& count < limit && is_there(held.keywords, name@) ==> s is Err && s->Err_0@.kind
                == "TypeError"@ && final(named)@ == held
        }),
{
    lemma_there(old(args)@.keywords, name@);
}

/// The receiver comes before the positional arguments, and there is only one.
pub proof fn receivers_come_first(
    args: &mut ExpandedArgs,
    receiver: Value,
    values: Vec<Value>,
    r: Result<()>,
)
    requires
        call_ensures(ExpandedArgs::values, (old(args),), values),
        call_ensures(ExpandedArgs::bind, (args, receiver), r),
    ensures
        old(args)@.receiver is None ==> values@ == old(args)@.positional,
        old(args)@.receiver matches Some(held) ==> values@.len() == old(args)@.positional.len() + 1
            && values@[0] == held && values@.skip(1) == old(args)@.positional,
        r is Ok <==> old(args)@.receiver is None,
        final(args)@.receiver == Some(receiver),
        final(args)@.positional == old(args)@.positional,
        final(args)@.keywords == old(args)@.keywords,
{
    let held = old(args)@;
    if held.receiver is None {
        assert(values@ =~= held.positional);
    } else {
        assert(values@.skip(1) =~= held.positional);
    }
}

/// Whether entries have texts for keys.
pub open spec fn are_named(
    heap: HeapView,
    entries: Seq<(Value, Value)>,
    named: Seq<(Seq<char>, Value)>,
) -> bool {
    entries.len() == named.len() && forall|i: int|
        0 <= i < entries.len() ==> is_object(
            heap,
            (#[trigger] entries[i]).0,
            ObjectView::Str(named[i].0),
        ) && named[i].1 == entries[i].1
}

proof fn lemma_entries(
    heap: HeapView,
    args: ArgsView,
    entries: Seq<(Value, Value)>,
    named: Seq<(Seq<char>, Value)>,
    limit: usize,
)
    requires
        are_named(heap, entries, named),
        args.positional.len() + args.keywords.len() + args.invalid_keywords.len() + entries.len()
            <= limit,
        crate::laws::frames::names_differ(args.keywords + named),
    ensures
        heap.with_entries(args, entries, limit) == (
            (ArgsView { keywords: args.keywords + named, ..args }),
            Ok::<(), Fault>(()),
        ),
    decreases entries.len(),
{
    let all = args.keywords + named;
    if entries.len() > 0 {
        let (front, first) = (entries.drop_last(), named.drop_last());
        assert forall|i: int| 0 <= i < front.len() implies is_object(
            heap,
            (#[trigger] front[i]).0,
            ObjectView::Str(first[i].0),
        ) && first[i].1 == front[i].1 by {
            assert(front[i] == entries[i]);
        }
        let short = args.keywords + first;
        assert forall|i: int, j: int| 0 <= i < j < short.len() implies (#[trigger] short[i]).0 != (
        #[trigger] short[j]).0 by {
            assert(all[i] == short[i] && all[j] == short[j]);
        }
        lemma_entries(heap, args, front, first, limit);
        let n = entries.len() - 1;
        let name = named[n].0;
        assert(entries[n].0 == entries.last().0);
        lemma_there(short, name);
        assert(!is_there(short, name)) by {
            if is_there(short, name) {
                let i = choose|i: int| 0 <= i < short.len() && (#[trigger] short[i]).0 == name;
                assert(all[i] == short[i]);
                assert(all[all.len() - 1] == named[n]);
            }
        }
        assert(short.push((name, entries.last().1)) =~= all);
    } else {
        assert(all =~= args.keywords);
    }
}

/// The entries of a mapping become keyword arguments, in their order, behind
/// those that are there.
pub proof fn mappings_become_keywords(
    heap: Heap,
    args: &mut ExpandedArgs,
    mapping: Value,
    dict: DictView,
    named: Seq<(Seq<char>, Value)>,
    limit: usize,
    r: Result<()>,
)
    requires
        heap.wf(),
        is_object(heap@, mapping, ObjectView::Dict(dict)),
        are_named(heap@, dict.entries, named),
        old(args)@.positional.len() + old(args)@.keywords.len() + old(args)@.invalid_keywords.len() + dict.entries.len() <= limit,
        crate::laws::frames::names_differ(old(args)@.keywords + named),
        call_ensures(Heap::push_mapping, (&heap, args, mapping, limit), r),
    ensures
        r is Ok,
        final(args)@ == (ArgsView { keywords: old(args)@.keywords + named, ..old(args)@ }),
{
    lemma_entries(heap@, old(args)@, dict.entries, named, limit);
}

/// Each item comes behind those that were collected before it.
pub proof fn items_are_collected_in_order(
    heap: &mut Heap,
    state: IterableCollection,
    item: Value,
    r: Result<Step>,
)
    requires
        old(heap).wf(),
        !(state.kind is ListInit),
        call_ensures(Heap::take_item, (heap, state, item), r),
    ensures
        final(heap)@ == old(heap)@,
        r matches Ok(Step::CollectItems(next)) && next.items@ == state.items@.push(item)
            && next.iterator == state.iterator && next.kind == state.kind,
{
}

/// A collection becomes a list or tuple of exactly its items, and is unpacked
/// only to as many places as it has items.
pub proof fn collections_become_what_they_are_for(
    heap: &mut Heap,
    kind: IterableCollectionKind,
    items: Vec<Value>,
    r: Result<Step>,
)
    requires
        old(heap).wf(),
        call_ensures(Heap::finish_iterable_collection, (heap, kind, items), r),
    ensures
        kind is List ==> match r {
            Ok(Step::BuiltinValue { value, finish }) => gives_new(
                old(heap)@,
                final(heap)@,
                Ok(value),
                ObjectView::List(items@),
            ) && finish is None,
            Ok(_) => false,
            Err(error) => old(heap)@.room == 0,
        },
        kind is Tuple ==> match r {
            Ok(Step::BuiltinValue { value, finish }) => gives_new(
                old(heap)@,
                final(heap)@,
                Ok(value),
                ObjectView::Tuple(items@),
            ) && finish is None,
            Ok(_) => false,
            Err(error) => old(heap)@.room == 0,
        },
        kind matches IterableCollectionKind::Unpack { first, count } ==> {
            &&& items@.len() == count ==> (r matches Ok(Step::Unpack { first: at, items: taken })
                && at == first && taken@ == items@)
            &&& items@.len() != count ==> raises(old(heap)@, final(heap)@, r, "ValueError")
        },
{
    old(heap).lemma_view();
}

/// An operation on a dictionary compares its key with exactly the entries that
/// are filed under the key's hash.
pub proof fn operations_look_at_the_hash(
    heap: Heap,
    start: DictOperationStart,
    hash: i64,
    dict: DictView,
    r: Result<Step>,
)
    requires
        heap.wf(),
        is_object(heap@, start.owner, ObjectView::Dict(dict)),
        call_ensures(Heap::begin_dict_operation, (&heap, start, hash), r),
    ensures
        r matches Ok(Step::DictCandidates(state)) && state.start == start && state.hash == hash
            && state.version == dict.version && state.next == 0 && forall|i: int|
            #![trigger dict.hashes[i]]
            0 <= i < dict.hashes.len() ==> state.candidates@.contains(i as usize) == (dict.hashes[i]
                == bucket(hash as int)),
{
    heap.lemma_view();
    assert(dict.wf());
    crate::dict::lemma_filed(dict.hashes, bucket(hash as int));
    let found = dict.candidates(bucket(hash as int));
    assert forall|i: int|
        #![trigger dict.hashes[i]]
        0 <= i < dict.hashes.len() implies found.contains(i as usize) == (dict.hashes[i] == bucket(
        hash as int,
    )) by {
        if found.contains(i as usize) {
            let k = choose|k: int| 0 <= k < found.len() && found[k] == i as usize;
            assert(dict.hashes[found[k] as int] == bucket(hash as int));
        }
    }
}

/// An entry with the very key is the one looked for; another is compared with
/// the key; where none is left, none was found; and a dictionary that changed
/// meanwhile is looked through no further.
pub proof fn operations_compare_each_candidate(
    heap: Heap,
    state: DictOperation,
    dict: DictView,
    r: Result<Step>,
)
    requires
        heap.wf(),
        is_object(heap@, state.start.owner, ObjectView::Dict(dict)),
        state.next < usize::MAX,
        call_ensures(Heap::continue_dict_operation, (&heap, state), r),
    ensures
        dict.version != state.version ==> r is Err && r->Err_0@.kind == "RuntimeError"@,
        dict.version == state.version && state.next >= state.candidates@.len() ==> (r matches Ok(
            Step::DictMatched { state: held, matched },
        ) && matched is None && held == state),
        dict.version == state.version && state.next < state.candidates@.len()
            && state.candidates@[state.next as int] < dict.entries.len() ==> {
            let index = state.candidates@[state.next as int];
            let key = dict.entries[index as int].0;
            &&& key == state.start.key ==> (r matches Ok(Step::DictMatched { matched, .. })
                && matched == Some(index))
            &&& key != state.start.key ==> (r matches Ok(Step::Equality { left, right, action })
                && left == key && right == state.start.key && (action matches
                EqualityAction::DictCandidate { state: held, index: at } && at == index && held.next
                == state.next + 1 && held.start == state.start))
        },
{
}

/// What is found is given, replaced, removed or compared; what is not found is
/// missed, added behind the others, or unequal.
pub proof fn operations_end_in_the_dictionary(
    heap: &mut Heap,
    state: DictOperation,
    matched: Option<usize>,
    dict: DictView,
    r: Result<Step>,
)
    requires
        old(heap).wf(),
        is_object(old(heap)@, state.start.owner, ObjectView::Dict(dict)),
        matched matches Some(i) ==> i < dict.entries.len(),
        dict.version < u64::MAX,
        old(heap)@.dict_key(state.start.key, 0) is Ok,
        call_ensures(Heap::finish_dict_operation, (heap, state, matched), r),
    ensures
        state.start.kind is Get ==> final(heap)@ == old(heap)@ && match matched {
            Some(i) => r matches Ok(Step::Done(value)) && value == dict.entries[i as int].1,
            None => r is Err && r->Err_0@.kind == "KeyError"@,
        },
        state.start.kind matches DictOperationKind::Store(value) ==> (r matches Ok(Step::Done(owner))
            && owner == state.start.owner) && crate::laws::dicts::has_entries(
            final(heap)@,
            state.start.owner,
            match matched {
                Some(i) => dict.entries.update(i as int, (dict.entries[i as int].0, value)),
                None => dict.entries.push((state.start.key, value)),
            },
        ),
        state.start.kind matches DictOperationKind::StoreAndMerge { value, state: further } ==> (
        r matches Ok(Step::DictMerge(next)) && next == *further)
            && crate::laws::dicts::has_entries(
            final(heap)@,
            state.start.owner,
            match matched {
                Some(i) => dict.entries.update(i as int, (dict.entries[i as int].0, value)),
                None => dict.entries.push((state.start.key, value)),
            },
        ),
        state.start.kind is Delete ==> match matched {
            Some(i) => (r matches Ok(Step::Done(owner)) && owner == state.start.owner)
                && crate::laws::dicts::has_entries(
                final(heap)@,
                state.start.owner,
                dict.entries.take(i as int) + dict.entries.skip(i + 1),
            ),
            None => raises(old(heap)@, final(heap)@, r, "KeyError"),
        },
        state.start.kind matches DictOperationKind::CompareValue { expected, action } ==> final(heap)@ == old(heap)@ && match matched {
            Some(i) => r matches Ok(Step::Equality { left, right, action: then }) && left
                == dict.entries[i as int].1 && right == expected && then == *action,
            None => r matches Ok(Step::CompleteEquality { equal, action: then }) && !equal && then
                == *action,
        },
{
    if let Some(i) = matched {
        assert(dict.entries.remove(i as int) =~= dict.entries.take(i as int) + dict.entries.skip(
            i + 1,
        ));
    }
}

/// A merge stores each entry in turn.
pub proof fn merges_go_entry_by_entry(state: DictMergeState, r: Step)
    requires
        state.next < usize::MAX,
        call_ensures(continue_dict_merge, (state,), r),
    ensures
        state.next < state.entries@.len() ==> (r matches Step::Dict(start) && start.owner
            == state.target && start.key == state.entries@[state.next as int].0 && (
        start.kind matches DictOperationKind::StoreAndMerge { value, state: further } && value
            == state.entries@[state.next as int].1 && further.next == state.next + 1
            && further.entries == state.entries && further.target == state.target)),
        state.next >= state.entries@.len() ==> match state.finish {
            DictMergeFinish::Preserve => r == Step::Done(state.target),
            DictMergeFinish::Construction(start) => r == Step::DictDone(start),
        },
{
}

/// An element of an update sequence is a key and a value, in this order.
pub proof fn update_elements_are_pairs(state: DictPairConstruction, r: Result<Step>)
    requires
        state.outer.index < usize::MAX,
        call_ensures(finish_dict_pair, (state,), r),
    ensures
        state.items@.len() != 2 ==> r is Err && r->Err_0@.kind == "ValueError"@,
        state.items@.len() == 2 ==> (r matches Ok(Step::Dict(start)) && start.owner
            == state.outer.start.result && start.key == state.items@[0] && (start.kind matches
            DictOperationKind::StoreAndContinue { value, state: further } && value
            == state.items@[1] && further.index == state.outer.index + 1)),
{
}

} // verus!
