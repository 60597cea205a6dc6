//! Completing a class namespace into a class.
use vstd::prelude::*;
use crate::class::{class_keys, Class, ClassDictionaryKey, ClassKey, ClassView, TypeId};
use crate::diagnostic::{fault, outcome, Diagnostic, Fault, Result};
use crate::edges::{contains, copy_values, pair_values};
use crate::heap::{no_memory, Heap, HeapView, Tally};
use crate::lookup::Outcome;
use crate::mro::{lists, merge, merged};
use crate::namespaces::{supported_hook, unsupported_hook};
use crate::object::{Object, ObjectView};
use crate::soundness::{
    allocation_keeps_sound, class_holds, lemma_class_holds, lemma_next_type, lemma_with_wf, lineage,
    store_keeps_sound,
};
use crate::text::{lookup, name_pairs};
use crate::value::Value;

verus! {

/// The first name that a class may not define.
pub open spec fn refused_name(attributes: Seq<(Seq<char>, Value)>, from: int) -> Outcome<()>
    decreases attributes.len() - from,
{
    if from < 0 || from >= attributes.len() {
        Ok(())
    } else {
        match supported_hook(attributes[from].0) {
            Err(error) => Err(error),
            Ok(_) => refused_name(attributes, from + 1),
        }
    }
}

impl HeapView {
    /// With an owner that comes to hold both halves of every entry.
    pub open spec fn barriers(self, owner: Value, entries: Seq<(Value, Value)>) -> HeapView
        decreases entries.len(),
    {
        if entries.len() == 0 {
            self
        } else {
            self.barriers(owner, entries.drop_last()).barrier(owner, entries.last().0).barrier(
                owner,
                entries.last().1,
            )
        }
    }

    /// The entries whose keys are strings.
    pub open spec fn text_entries(self, entries: Seq<(Value, Value)>) -> Seq<(Seq<char>, Value)>
        decreases entries.len(),
    {
        if entries.len() == 0 {
            Seq::empty()
        } else {
            let rest = self.text_entries(entries.drop_last());
            match self.at(entries.last().0) {
                Some(ObjectView::Str(name)) => rest.push((name, entries.last().1)),
                _ => rest,
            }
        }
    }

    /// The entries whose keys are no strings.
    pub open spec fn other_entries(self, entries: Seq<(Value, Value)>) -> Seq<(Value, Value)>
        decreases entries.len(),
    {
        if entries.len() == 0 {
            Seq::empty()
        } else {
            let rest = self.other_entries(entries.drop_last());
            match self.at(entries.last().0) {
                Some(ObjectView::Str(_)) => rest,
                _ => rest.push(entries.last()),
            }
        }
    }

    /// The key of a class dictionary that a key of a mapping becomes.
    pub open spec fn class_key(self, key: Value) -> ClassKey {
        match self.at(key) {
            Some(ObjectView::Str(name)) => ClassKey::Text(name),
            _ => ClassKey::Other(key),
        }
    }

    /// The keys of a class dictionary that the keys of a mapping become.
    pub open spec fn entry_keys(self, entries: Seq<(Value, Value)>) -> Seq<ClassKey> {
        Seq::new(entries.len(), |i: int| self.class_key(entries[i].0))
    }

    /// A namespace with the entries of the mapping behind it as its own.
    pub open spec fn filled(self, class: ClassView, entries: Seq<(Value, Value)>) -> ClassView {
        ClassView {
            attributes: self.text_entries(entries),
            extra_attributes: self.other_entries(entries),
            dictionary_order: self.entry_keys(entries),
            namespace_mapping: None,
            ..class
        }
    }

    /// With the mapping behind a namespace taken into it.
    pub open spec fn materialized(
        self,
        namespace: Value,
        class: ClassView,
        entries: Seq<(Value, Value)>,
    ) -> HeapView {
        self.barriers(namespace, entries).with(
            namespace,
            ObjectView::Namespace(self.filled(class, entries)),
        )
    }

    /// The lineages of base classes, from a position on: each base and its
    /// ancestors.
    pub open spec fn base_lineages(self, bases: Seq<Value>, from: int) -> Outcome<Seq<Seq<Value>>>
        decreases bases.len() - from,
    {
        if from < 0 || from >= bases.len() {
            Ok(Seq::empty())
        } else if bases.take(from).contains(bases[from]) {
            Err(fault("TypeError", "duplicate base class"))
        } else {
            match self.class_at(bases[from]) {
                Err(error) => Err(error),
                Ok(class) => match self.base_lineages(bases, from + 1) {
                    Err(error) => Err(error),
                    Ok(rest) => Ok(seq![seq![bases[from]] + class.mro] + rest),
                },
            }
        }
    }

    /// The ancestors of the class that a namespace becomes.
    pub open spec fn planned(self, class: ClassView) -> Outcome<Seq<Value>> {
        match refused_name(class.attributes, 0) {
            Err(error) => Err(error),
            Ok(_) => if class.own("__qualname__"@) matches Some(value) && !(self.at(
                value,
            ) matches Some(ObjectView::Str(_))) {
                Err(fault("TypeError", "__qualname__ must be a string"))
            } else {
                match self.base_lineages(class.bases, 0) {
                    Err(error) => Err(error),
                    Ok(lineages) => match merged(lineages.push(class.bases)) {
                        Some(order) => Ok(order),
                        None => Err(
                            fault(
                                "TypeError",
                                "cannot create a consistent method resolution order",
                            ),
                        ),
                    },
                }
            },
        }
    }

    /// With a class listed as a dependent of its ancestors, from a position
    /// on.
    pub open spec fn with_dependent(
        self,
        class: Value,
        ancestors: Seq<Value>,
        from: int,
    ) -> (HeapView, Outcome<()>)
        decreases ancestors.len() - from,
    {
        if from < 0 || from >= ancestors.len() {
            (self, Ok(()))
        } else {
            match self.class_at(ancestors[from]) {
                Err(error) => (self, Err(error)),
                Ok(ancestor) => self.with(
                    ancestors[from],
                    ObjectView::Class(
                        ClassView { dependents: ancestor.dependents.push(class), ..ancestor },
                    ),
                ).with_dependent(class, ancestors, from + 1),
            }
        }
    }

    /// The class that a namespace becomes.
    pub open spec fn finished(self, class: ClassView, ancestors: Seq<Value>) -> ClassView {
        ClassView {
            id: TypeId((self.next_type + 1) as u32),
            version: 1,
            mro: ancestors,
            ..class
        }
    }

    /// With a class in place of its namespace.
    pub open spec fn classed(self, namespace: Value, class: ClassView, ancestors: Seq<Value>) -> HeapView {
        HeapView { next_type: (self.next_type + 1) as u32, ..self }.with(
            namespace,
            ObjectView::Class(self.finished(class, ancestors)),
        )
    }

    /// A plain namespace completed into a class.
    pub open spec fn completed(self, namespace: Value) -> (HeapView, Outcome<()>) {
        let class = self.objects[namespace]->Namespace_0;
        match self.planned(class) {
            Err(error) => (self, Err(error)),
            Ok(ancestors) => if self.next_type == u32::MAX {
                (self, Err(fault("ResourceError", "type identity space exhausted")))
            } else {
                self.classed(namespace, class, ancestors).with_dependent(namespace, ancestors, 0)
            },
        }
    }
}

/// What completing a plain namespace does: a `__new__` that is a function
/// becomes a static method first.
pub open spec fn completes(
    before: HeapView,
    after: HeapView,
    result: Outcome<()>,
    namespace: Value,
) -> bool {
    let class = before.objects[namespace]->Namespace_0;
    match class.own("__new__"@) {
        Some(function) => if before.at(function) matches Some(ObjectView::Function { .. }) {
            if before.room == 0 {
                after == before && result == Err::<(), Fault>(no_memory())
            } else {
                exists|wrapper: Value|
                    #![trigger before.fresh(wrapper)]
                    before.fresh(wrapper) && (after, result) == before.allocated(
                        wrapper,
                        ObjectView::StaticMethod(function),
                    ).namespace_bound(namespace, "__new__"@, wrapper).completed(namespace)
            }
        } else {
            (after, result) == before.completed(namespace)
        },
        None => (after, result) == before.completed(namespace),
    }
}

/// What completing a namespace does: a mapping behind it is taken in first.
pub open spec fn finishes(
    before: HeapView,
    after: HeapView,
    result: Outcome<()>,
    namespace: Value,
) -> bool {
    match before.found(namespace) {
        Err(error) => after == before && result == Err::<(), Fault>(error),
        Ok(ObjectView::Namespace(class)) => match class.namespace_mapping {
            None => completes(before, after, result, namespace),
            Some(mapping) => match before.found(mapping) {
                Err(error) => after == before && result == Err::<(), Fault>(error),
                Ok(ObjectView::Dict(dict)) => completes(
                    before.materialized(namespace, class, dict.entries),
                    after,
                    result,
                    namespace,
                ),
                Ok(_) => after == before && result == Err::<(), Fault>(
                    fault("TypeError", "type.__new__() argument 3 must be a dict"),
                ),
            },
        },
        Ok(_) => after == before && result == Err::<(), Fault>(
            fault("BytecodeError", "invalid class completion"),
        ),
    }
}

/// What listing a dependent does to the estimates, from an ancestor on.
pub open spec fn dependents_counted(
    heap: HeapView,
    first: Tally,
    last: Tally,
    class: Value,
    ancestors: Seq<Value>,
    from: int,
) -> bool
    decreases ancestors.len() - from,
{
    if from < 0 || from >= ancestors.len() {
        last == first
    } else {
        match heap.class_at(ancestors[from]) {
            Err(_) => last == first,
            Ok(ancestor) => {
                let object = ObjectView::Class(
                    ClassView { dependents: ancestor.dependents.push(class), ..ancestor },
                );
                exists|next: Tally|
                    #![trigger first.gains(next, heap.objects[ancestors[from]], object)]
                    first.gains(next, heap.objects[ancestors[from]], object)
                        && dependents_counted(
                        heap.with(ancestors[from], object),
                        next,
                        last,
                        class,
                        ancestors,
                        from + 1,
                    )
            },
        }
    }
}

/// What completing a plain namespace into a class does to the estimates.
pub open spec fn class_counted(
    heap: HeapView,
    first: Tally,
    last: Tally,
    namespace: Value,
) -> bool {
    let class = heap.objects[namespace]->Namespace_0;
    match heap.planned(class) {
        Err(_) => last == first,
        Ok(ancestors) => if heap.next_type == u32::MAX {
            last == first
        } else {
            let after = heap.classed(namespace, class, ancestors);
            exists|next: Tally|
                #![trigger first.gains(next, heap.objects[namespace], after.objects[namespace])]
                first.gains(next, heap.objects[namespace], after.objects[namespace])
                    && dependents_counted(after, next, last, namespace, ancestors, 0)
        },
    }
}

/// What [`completes`] does to the estimates: a static method is an object
/// more, and its name is bound.
pub open spec fn complete_counted(
    heap: HeapView,
    first: Tally,
    last: Tally,
    namespace: Value,
) -> bool {
    let class = heap.objects[namespace]->Namespace_0;
    match class.own("__new__"@) {
        Some(function) => if heap.at(function) matches Some(ObjectView::Function { .. }) {
            if heap.room == 0 {
                last == first
            } else {
                let made = heap.allocated(heap.upcoming(), ObjectView::StaticMethod(function));
                let bound = made.namespace_bound(namespace, "__new__"@, heap.upcoming());
                exists|added: Tally, next: Tally|
                    #![trigger first.adds(added, ObjectView::StaticMethod(function)), added.gains(next, made.objects[namespace], bound.objects[namespace])]
                    first.adds(added, ObjectView::StaticMethod(function)) && added.gains(
                        next,
                        made.objects[namespace],
                        bound.objects[namespace],
                    ) && class_counted(bound, next, last, namespace)
            }
        } else {
            class_counted(heap, first, last, namespace)
        },
        None => class_counted(heap, first, last, namespace),
    }
}

/// What [`finishes`] does to the estimates: what a mapping fills a namespace
/// with may be more or less than it held.
pub open spec fn finish_counted(
    heap: HeapView,
    first: Tally,
    last: Tally,
    namespace: Value,
) -> bool {
    match heap.found(namespace) {
        Ok(ObjectView::Namespace(class)) => match class.namespace_mapping {
            None => complete_counted(heap, first, last, namespace),
            Some(mapping) => match heap.found(mapping) {
                Ok(ObjectView::Dict(dict)) => {
                    let filled = heap.materialized(namespace, class, dict.entries);
                    exists|next: Tally|
                        #![trigger first.moves(next, heap.objects[namespace], filled.objects[namespace])]
                        first.moves(next, heap.objects[namespace], filled.objects[namespace])
                            && complete_counted(filled, next, last, namespace)
                },
                _ => last == first,
            },
        },
        _ => last == first,
    }
}

/// The barrier changes what is remembered, nothing else.
pub proof fn lemma_barriers(heap: HeapView, owner: Value, entries: Seq<(Value, Value)>)
    ensures
        heap.barriers(owner, entries) == (HeapView {
            remembered: heap.barriers(owner, entries).remembered,
            ..heap
        }),
        heap.remembered.subset_of(heap.barriers(owner, entries).remembered),
        heap.live(owner) && !heap.young.contains(owner) ==> forall|i: int|
            0 <= i < entries.len() && (heap.young.contains((#[trigger] entries[i]).0)
                || heap.young.contains(entries[i].1)) ==> heap.barriers(
                owner,
                entries,
            ).remembered.contains(owner),
    decreases entries.len(),
{
    if entries.len() > 0 {
        lemma_barriers(heap, owner, entries.drop_last());
        assert forall|i: int|
            heap.live(owner) && !heap.young.contains(owner) && 0 <= i < entries.len() && (
            heap.young.contains((#[trigger] entries[i]).0) || heap.young.contains(
                entries[i].1,
            )) implies heap.barriers(owner, entries).remembered.contains(owner) by {
            if i < entries.len() - 1 {
                assert(entries.drop_last()[i] == entries[i]);
            }
        }
    }
}

/// The values of split entries are among those of the entries.
proof fn lemma_split(heap: HeapView, entries: Seq<(Value, Value)>)
    ensures
        forall|i: int|
            0 <= i < heap.text_entries(entries).len() ==> exists|k: int|
                0 <= k < entries.len() && (#[trigger] entries[k]).1 == (
                #[trigger] heap.text_entries(entries)[i]).1,
        forall|i: int|
            0 <= i < heap.other_entries(entries).len() ==> exists|k: int|
                0 <= k < entries.len() && #[trigger] entries[k]
                    == #[trigger] heap.other_entries(entries)[i],
    decreases entries.len(),
{
    if entries.len() > 0 {
        let rest = entries.drop_last();
        lemma_split(heap, rest);
        assert forall|i: int| 0 <= i < heap.text_entries(entries).len() implies exists|k: int|
            0 <= k < entries.len() && (#[trigger] entries[k]).1 == (
            #[trigger] heap.text_entries(entries)[i]).1 by {
            if i < heap.text_entries(rest).len() {
                let k = choose|k: int|
                    0 <= k < rest.len() && (#[trigger] rest[k]).1 == heap.text_entries(rest)[i].1;
                assert(entries[k] == rest[k]);
            } else {
                assert(entries[entries.len() - 1] == entries.last());
            }
        }
        assert forall|i: int| 0 <= i < heap.other_entries(entries).len() implies exists|k: int|
            0 <= k < entries.len() && #[trigger] entries[k] == #[trigger] heap.other_entries(
                entries,
            )[i] by {
            if i < heap.other_entries(rest).len() {
                let k = choose|k: int|
                    0 <= k < rest.len() && #[trigger] rest[k] == heap.other_entries(rest)[i];
                assert(entries[k] == rest[k]);
            } else {
                assert(entries[entries.len() - 1] == entries.last());
            }
        }
    }
}

/// Every half of an entry is listed.
proof fn lemma_pair_values(pairs: Seq<(Value, Value)>, k: int)
    requires
        0 <= k < pairs.len(),
    ensures
        pair_values(pairs).contains(pairs[k].0),
        pair_values(pairs).contains(pairs[k].1),
{
    assert(pair_values(pairs)[2 * k] == pairs[k].0);
    assert(pair_values(pairs)[2 * k + 1] == pairs[k].1);
}

/// Taking in the mapping behind a namespace keeps the heap sound.
proof fn lemma_materialized_sound(
    heap: HeapView,
    namespace: Value,
    class: ClassView,
    mapping: Value,
)
    requires
        heap.wf(),
        heap.sound(),
        heap.at(namespace) == Some(ObjectView::Namespace(class)),
        heap.at(mapping) is Some,
        heap.objects[mapping] is Dict,
    ensures
        heap.materialized(namespace, class, heap.objects[mapping]->Dict_0.entries).sound(),
{
    let entries = heap.objects[mapping]->Dict_0.entries;
    let barred = heap.barriers(namespace, entries);
    let after = heap.filled(class, entries);
    lemma_barriers(heap, namespace, entries);
    lemma_split(heap, entries);
    lemma_class_holds(class);
    lemma_class_holds(after);
    assert forall|e: Value| #[trigger] ObjectView::Namespace(after).edges().contains(
        e,
    ) implies heap.objects[namespace].edges().contains(e) || (heap.known(e) && (
    heap.young.contains(namespace) || !heap.young.contains(e) || barred.remembered.contains(
        namespace,
    ))) by {
        assert(class_holds(after, e));
        if exists|i: int|
            0 <= i < after.attributes.len() && (#[trigger] after.attributes[i]).1 == e {
            let i = choose|i: int|
                0 <= i < after.attributes.len() && (#[trigger] after.attributes[i]).1 == e;
            let k = choose|k: int|
                0 <= k < entries.len() && (#[trigger] entries[k]).1 == heap.text_entries(entries)[i].1;
            lemma_pair_values(entries, k);
            assert(heap.objects[mapping].edges().contains(e));
        } else if pair_values(after.extra_attributes).contains(e) {
            let all = pair_values(after.extra_attributes);
            let j = choose|j: int| 0 <= j < all.len() && all[j] == e;
            let i = j / 2;
            assert(0 <= i < after.extra_attributes.len());
            let k = choose|k: int|
                0 <= k < entries.len() && #[trigger] entries[k] == heap.other_entries(entries)[i];
            lemma_pair_values(entries, k);
            assert(heap.objects[mapping].edges().contains(e));
        } else {
            assert(class_holds(class, e));
        }
    }
    store_keeps_sound(heap, barred, namespace, ObjectView::Namespace(after));
}

/// Whether a lineage is that of a base class.
spec fn begins_with_base(heap: HeapView, base: Value, lineage: Seq<Value>) -> bool {
    heap.class_at(base) matches Ok(class) && lineage == seq![base] + class.mro
}

/// The lineages of base classes are made of the bases and their ancestors.
proof fn lemma_base_lineages(
    heap: HeapView,
    bases: Seq<Value>,
    from: int,
    lineages: Seq<Seq<Value>>,
)
    requires
        0 <= from <= bases.len(),
        heap.base_lineages(bases, from) == Ok::<Seq<Seq<Value>>, Fault>(lineages),
    ensures
        lineages.len() == bases.len() - from,
        forall|i: int|
            0 <= i < lineages.len() ==> #[trigger] begins_with_base(
                heap,
                bases[from + i],
                lineages[i],
            ),
    decreases bases.len() - from,
{
    if from < bases.len() {
        let rest = heap.base_lineages(bases, from + 1)->Ok_0;
        lemma_base_lineages(heap, bases, from + 1, rest);
        assert(lineages =~= seq![lineages[0]] + rest);
        assert forall|i: int| 0 <= i < lineages.len() implies #[trigger] begins_with_base(
            heap,
            bases[from + i],
            lineages[i],
        ) by {
            if i > 0 {
                assert(lineages[i] == rest[i - 1]);
                assert(begins_with_base(heap, bases[from + 1 + (i - 1)], rest[i - 1]));
            }
        }
    }
}

/// Listing a dependent changes no edge.
proof fn lemma_dependents_sound(heap: HeapView, class: Value, ancestors: Seq<Value>, from: int)
    requires
        heap.wf(),
        heap.sound(),
    ensures
        heap.with_dependent(class, ancestors, from).0.sound(),
    decreases ancestors.len() - from,
{
    if 0 <= from < ancestors.len() {
        if let Ok(ancestor) = heap.class_at(ancestors[from]) {
            let changed = ClassView { dependents: ancestor.dependents.push(class), ..ancestor };
            let object = ObjectView::Class(changed);
            let next = heap.with(ancestors[from], object);
            assert(object.edges() == heap.objects[ancestors[from]].edges());
            assert(lineage(object) == lineage(heap.objects[ancestors[from]]));
            store_keeps_sound(heap, heap, ancestors[from], object);
            lemma_with_wf(heap, ancestors[from], object);
            lemma_dependents_sound(next, class, ancestors, from + 1);
        }
    }
}

/// Completing a plain namespace keeps the heap sound, although the ancestors
/// pass no write barrier: those of an old namespace are old.
proof fn lemma_completed_sound(heap: HeapView, namespace: Value)
    requires
        heap.wf(),
        heap.sound(),
        heap.live(namespace),
        heap.objects[namespace] is Namespace,
    ensures
        heap.completed(namespace).0.sound(),
{
    let class = heap.objects[namespace]->Namespace_0;
    if let Ok(ancestors) = heap.planned(class) {
        if heap.next_type < u32::MAX {
            let lineages = heap.base_lineages(class.bases, 0)->Ok_0;
            let sequences = lineages.push(class.bases);
            let after = heap.finished(class, ancestors);
            let object = ObjectView::Class(after);
            let counted = HeapView { next_type: (heap.next_type + 1) as u32, ..heap };
            lemma_base_lineages(heap, class.bases, 0, lineages);
            crate::mro::linearization_has_no_others(sequences);
            lemma_class_holds(class);
            lemma_class_holds(after);
            assert forall|e: Value| #[trigger] ancestors.contains(e) implies heap.known(e) && (
            heap.young.contains(namespace) || !heap.young.contains(e)) by {
                let i = choose|i: int|
                    0 <= i < sequences.len() && (#[trigger] sequences[i]).contains(e);
                if i < lineages.len() {
                    let base = class.bases[i];
                    assert(sequences[i] == lineages[i]);
                    assert(begins_with_base(heap, class.bases[0 + i], lineages[i]));
                    let held = heap.class_at(base)->Ok_0;
                    let k = choose|k: int| 0 <= k < lineages[i].len() && lineages[i][k] == e;
                    assert(lineage(heap.objects[namespace])[i] == base);
                    assert(lineage(heap.objects[namespace]).contains(base));
                    crate::soundness::lemma_lineage_edges(heap.objects[namespace], base);
                    if k == 0 {
                        assert(e == base);
                        assert(heap.objects[namespace].edges().contains(e));
                    } else {
                        assert(held.mro[k - 1] == e);
                        assert(lineage(heap.objects[base])[held.bases.len() + k - 1] == e);
                        assert(lineage(heap.objects[base]).contains(e));
                        crate::soundness::lemma_lineage_edges(heap.objects[base], e);
                        assert(heap.objects[base].edges().contains(e));
                    }
                } else {
                    let k = choose|k: int| 0 <= k < class.bases.len() && class.bases[k] == e;
                    assert(lineage(heap.objects[namespace])[k] == e);
                    assert(lineage(heap.objects[namespace]).contains(e));
                    crate::soundness::lemma_lineage_edges(heap.objects[namespace], e);
                    assert(heap.objects[namespace].edges().contains(e));
                }
            }
            assert forall|e: Value| #[trigger] object.edges().contains(
                e,
            ) implies heap.objects[namespace].edges().contains(e) || (heap.known(e) && (
            heap.young.contains(namespace) || !heap.young.contains(e)
                || counted.remembered.contains(namespace))) by {
                assert(class_holds(after, e));
                if !ancestors.contains(e) {
                    assert(class_holds(class, e));
                }
            }
            assert forall|e: Value| #[trigger] lineage(object).contains(e) implies lineage(
                heap.objects[namespace],
            ).contains(e) || heap.young.contains(namespace) || !heap.young.contains(e) by {
                let all = lineage(object);
                let k = choose|k: int| 0 <= k < all.len() && all[k] == e;
                if k < class.bases.len() {
                    assert(lineage(heap.objects[namespace])[k] == e);
                } else {
                    assert(ancestors[k - class.bases.len()] == e);
                    assert(ancestors.contains(e));
                }
            }
            lemma_next_type(heap, counted.next_type);
            store_keeps_sound(counted, counted, namespace, object);
            let next = heap.classed(namespace, class, ancestors);
            lemma_with_wf(counted, namespace, object);
            lemma_dependents_sound(next, namespace, ancestors, 0);
        }
    }
}

impl Heap {
    /// Splits the entries of a mapping by whether their keys are strings.
    fn split_entries(&self, entries: &Vec<(Value, Value)>) -> (r: (
        Vec<(String, Value)>,
        Vec<(Value, Value)>,
        Vec<ClassDictionaryKey>,
    ))
        requires
            self.wf(),
        ensures
            name_pairs(r.0@) == self@.text_entries(entries@),
            r.1@ == self@.other_entries(entries@),
            class_keys(r.2@) == self@.entry_keys(entries@),
    {
        let mut attributes: Vec<(String, Value)> = Vec::new();
        let mut others: Vec<(Value, Value)> = Vec::new();
        let mut order: Vec<ClassDictionaryKey> = Vec::new();
        let mut i: usize = 0;
        assert(name_pairs(attributes@) =~= self@.text_entries(entries@.take(0)));
        assert(others@ =~= self@.other_entries(entries@.take(0)));
        assert(class_keys(order@) =~= self@.entry_keys(entries@.take(0)));
        while i < entries.len()
            invariant
                self.wf(),
                i <= entries.len(),
                name_pairs(attributes@) == self@.text_entries(entries@.take(i as int)),
                others@ == self@.other_entries(entries@.take(i as int)),
                class_keys(order@) == self@.entry_keys(entries@.take(i as int)),
            decreases entries.len() - i,
        {
            let (key, value) = entries[i];
            let ghost had = attributes@;
            let ghost listed = order@;
            assert(entries@.take(i + 1).drop_last() =~= entries@.take(i as int));
            match self.try_get(key) {
                Some(Object::Str(name)) => {
                    attributes.push((name.clone(), value));
                    order.push(ClassDictionaryKey::Text(name.clone()));
                    assert(name_pairs(attributes@) =~= name_pairs(had).push((name@, value)));
                },
                _ => {
                    others.push((key, value));
                    order.push(ClassDictionaryKey::Other(key));
                },
            }
            assert(class_keys(order@) =~= class_keys(listed).push(self@.class_key(key)));
            i += 1;
            assert(self@.entry_keys(entries@.take(i as int)) =~= self@.entry_keys(
                entries@.take(i - 1),
            ).push(self@.class_key(key)));
        }
        assert(entries@.take(i as int) =~= entries@);
        (attributes, others, order)
    }

    /// Takes the dictionary behind a namespace into it.
    fn materialize(&mut self, namespace: Value, mapping: Value) -> (r: Result<()>)
        requires
            old(self).wf(),
            old(self)@.at(namespace) matches Some(ObjectView::Namespace(_)),
        ensures
            final(self).wf(),
            match old(self)@.found(mapping) {
                Err(error) => final(self)@ == old(self)@ && outcome(r) == Err::<(), Fault>(error),
                Ok(ObjectView::Dict(dict)) => r is Ok && final(self)@ == old(self)@.materialized(
                    namespace,
                    old(self)@.objects[namespace]->Namespace_0,
                    dict.entries,
                ),
                Ok(_) => final(self)@ == old(self)@ && outcome(r) == Err::<(), Fault>(
                    fault("TypeError", "type.__new__() argument 3 must be a dict"),
                ),
            },
            match r {
                Ok(_) => old(self).tally().moves(
                    final(self).tally(),
                    old(self)@.objects[namespace],
                    final(self)@.objects[namespace],
                ),
                Err(_) => final(self).tally() == old(self).tally(),
            },
    {
        let ghost before = self@;
        let entries = match self.get(mapping)? {
            Object::Dict(dict) => crate::edges::copy_pairs(dict.entries()),
            _ => {
                return Err(
                    Diagnostic::new("TypeError", "type.__new__() argument 3 must be a dict"),
                );
            },
        };
        let (attributes, others, order) = self.split_entries(&entries);
        let mut i: usize = 0;
        while i < entries.len()
            invariant
                self.wf(),
                i <= entries.len(),
                self.tally() == old(self).tally(),
                self@ == before.barriers(namespace, entries@.take(i as int)),
            decreases entries.len() - i,
        {
            let (key, value) = entries[i];
            assert(entries@.take(i + 1).drop_last() =~= entries@.take(i as int));
            self.write_barrier_pair(namespace, key, value);
            i += 1;
        }
        assert(entries@.take(i as int) =~= entries@);
        proof {
            lemma_barriers(before, namespace, entries@);
        }
        let size = self.weight(namespace);
        if let Ok(Object::Namespace(class)) = self.get_mut(namespace) {
            class.attributes = attributes;
            class.extra_attributes = others;
            class.dictionary_order = order;
            class.namespace_mapping = None;
        }
        let weight = self.weight(namespace);
        self.grow(weight.saturating_sub(size));
        self.shrink(size.saturating_sub(weight));
        Ok(())
    }

    /// Checks a namespace and linearizes its ancestors.
    fn plan(&self, class: &Class) -> (r: Result<Vec<Value>>)
        requires
            self.wf(),
        ensures
            match r {
                Ok(order) => self@.planned(class@) == Ok::<Seq<Value>, Fault>(order@),
                Err(error) => self@.planned(class@) == Err::<Seq<Value>, Fault>(error@),
            },
    {
        let mut i: usize = 0;
        while i < class.attributes.len()
            invariant
                i <= class.attributes.len(),
                refused_name(class@.attributes, 0) == refused_name(class@.attributes, i as int),
            decreases class.attributes.len() - i,
        {
            unsupported_hook(class.attributes[i].0.as_str())?;
            i += 1;
        }
        if let Some(value) = lookup(&class.attributes, "__qualname__") {
            match self.try_get(value) {
                Some(Object::Str(_)) => {},
                _ => {
                    return Err(Diagnostic::new("TypeError", "__qualname__ must be a string"));
                },
            }
        }
        let mut sequences = self.lineages(&class.bases)?;
        let ghost lineages = lists(sequences@);
        sequences.push(copy_values(&class.bases));
        assert(lists(sequences@) =~= lineages.push(class.bases@));
        match merge(sequences) {
            Some(order) => Ok(order),
            None => Err(
                Diagnostic::new("TypeError", "cannot create a consistent method resolution order"),
            ),
        }
    }

    fn lineages(&self, bases: &Vec<Value>) -> (r: Result<Vec<Vec<Value>>>)
        requires
            self.wf(),
        ensures
            match r {
                Ok(sequences) => self@.base_lineages(bases@, 0) == Ok::<Seq<Seq<Value>>, Fault>(
                    lists(sequences@),
                ),
                Err(error) => self@.base_lineages(bases@, 0) == Err::<Seq<Seq<Value>>, Fault>(
                    error@,
                ),
            },
    {
        let mut sequences: Vec<Vec<Value>> = Vec::new();
        let mut earlier: Vec<Value> = Vec::new();
        let mut i: usize = 0;
        proof {
            if let Ok(all) = self@.base_lineages(bases@, 0) {
                assert(lists(sequences@) + all =~= all);
            }
        }
        while i < bases.len()
            invariant
                self.wf(),
                i <= bases.len(),
                earlier@ == bases@.take(i as int),
                self@.base_lineages(bases@, 0) == match self@.base_lineages(bases@, i as int) {
                    Ok(rest) => Ok::<Seq<Seq<Value>>, Fault>(lists(sequences@) + rest),
                    Err(error) => Err(error),
                },
            decreases bases.len() - i,
        {
            let base = bases[i];
            if contains(&earlier, base) {
                return Err(Diagnostic::new("TypeError", "duplicate base class"));
            }
            let line = self.lineage(base)?;
            let ghost had = lists(sequences@);
            sequences.push(line);
            earlier.push(base);
            proof {
                assert(lists(sequences@) =~= had.push(line@));
                if let Ok(rest) = self@.base_lineages(bases@, i + 1) {
                    assert(had + (seq![line@] + rest) =~= lists(sequences@) + rest);
                }
                assert(bases@.take(i + 1) =~= bases@.take(i as int).push(base));
            }
            i += 1;
        }
        assert(lists(sequences@) + Seq::<Seq<Value>>::empty() =~= lists(sequences@));
        Ok(sequences)
    }

    fn add_dependent(&mut self, class: Value, ancestors: &Vec<Value>) -> (r: Result<()>)
        requires
            old(self).wf(),
        ensures
            final(self).wf(),
            (final(self)@, outcome(r)) == old(self)@.with_dependent(class, ancestors@, 0),
            dependents_counted(
                old(self)@,
                old(self).tally(),
                final(self).tally(),
                class,
                ancestors@,
                0,
            ),
    {
        let ghost before = self@;
        let ghost first = self.tally();
        let mut i: usize = 0;
        while i < ancestors.len()
            invariant
                self.wf(),
                i <= ancestors.len(),
                before == old(self)@,
                before.with_dependent(class, ancestors@, 0) == self@.with_dependent(
                    class,
                    ancestors@,
                    i as int,
                ),
                first == old(self).tally(),
                forall|last: Tally| #[trigger]
                    dependents_counted(self@, self.tally(), last, class, ancestors@, i as int)
                        ==> dependents_counted(before, first, last, class, ancestors@, 0),
            decreases ancestors.len() - i,
        {
            if let Err(error) = self.class(ancestors[i]) {
                assert(dependents_counted(
                    self@,
                    self.tally(),
                    self.tally(),
                    class,
                    ancestors@,
                    i as int,
                ));
                return Err(error);
            }
            let ghost held = self@;
            let ghost start = self.tally();
            let size = self.weight(ancestors[i]);
            if let Ok(Object::Class(ancestor)) = self.get_mut(ancestors[i]) {
                ancestor.dependents.push(class);
            }
            let weight = self.weight(ancestors[i]);
            self.grow(weight.saturating_sub(size));
            proof {
                assert(start.gains(
                    self.tally(),
                    held.objects[ancestors@[i as int]],
                    self@.objects[ancestors@[i as int]],
                ));
                assert forall|last: Tally| #[trigger]
                    dependents_counted(
                        self@,
                        self.tally(),
                        last,
                        class,
                        ancestors@,
                        i + 1,
                    ) implies dependents_counted(before, first, last, class, ancestors@, 0) by {
                    assert(dependents_counted(held, start, last, class, ancestors@, i as int));
                }
            }
            i += 1;
        }
        assert(dependents_counted(self@, self.tally(), self.tally(), class, ancestors@, i as int));
        Ok(())
    }

    fn complete(&mut self, namespace: Value) -> (r: Result<()>)
        requires
            old(self).wf(),
            old(self)@.at(namespace) matches Some(ObjectView::Namespace(_)),
        ensures
            final(self).wf(),
            (final(self)@, outcome(r)) == old(self)@.completed(namespace),
            class_counted(old(self)@, old(self).tally(), final(self).tally(), namespace),
    {
        let ghost before = self@;
        let ghost first = self.tally();
        let ghost held = before.objects[namespace]->Namespace_0;
        let ancestors = match self.get(namespace)? {
            Object::Namespace(class) => self.plan(class)?,
            _ => {
                return Err(Diagnostic::new("BytecodeError", "invalid class completion"));
            },
        };
        let id = match self.take_type_id() {
            Some(id) => id,
            None => {
                return Err(Diagnostic::new("ResourceError", "type identity space exhausted"));
            },
        };
        let size = self.weight(namespace);
        let object = self.exchange(namespace, Object::Cell(Value::unbound()));
        if let Object::Namespace(mut class) = object {
            class.id = TypeId(id);
            class.version = 1;
            class.mro = copy_values(&ancestors);
            let _cell = self.exchange(namespace, Object::Class(class));
        }
        assert(self@ =~= before.classed(namespace, held, ancestors@));
        let weight = self.weight(namespace);
        self.grow(weight.saturating_sub(size));
        assert(first.gains(self.tally(), before.objects[namespace], self@.objects[namespace]));
        self.add_dependent(namespace, &ancestors)
    }

    /// Completes a namespace into a class: its ancestors in their C3 order, a
    /// type identity of its own, and a place among the dependents of each
    /// ancestor.
    pub fn finish_class(&mut self, namespace: Value) -> (r: Result<()>)
        requires
            old(self).wf(),
        ensures
            final(self).wf(),
            finishes(old(self)@, final(self)@, outcome(r), namespace),
            old(self)@.sound() ==> final(self)@.sound(),
            finish_counted(old(self)@, old(self).tally(), final(self).tally(), namespace),
    {
        let ghost before = self@;
        proof {
            self.lemma_view();
        }
        let mapping = match self.get(namespace)? {
            Object::Namespace(class) => class.namespace_mapping,
            _ => {
                return Err(Diagnostic::new("BytecodeError", "invalid class completion"));
            },
        };
        if let Some(mapping) = mapping {
            self.materialize(namespace, mapping)?;
            proof {
                if before.sound() {
                    lemma_materialized_sound(
                        before,
                        namespace,
                        before.objects[namespace]->Namespace_0,
                        mapping,
                    );
                }
            }
        }
        let ghost plain = self@;
        let ghost filled = self.tally();
        proof {
            self.lemma_view();
        }
        if let Some(function) = self.namespace_get(namespace, "__new__")? {
            if self.is_function(function) {
                let wrapper = self.allocate(Object::StaticMethod(function))?;
                let ghost allocated = self@;
                let ghost added = self.tally();
                proof {
                    self.lemma_view();
                    if plain.sound() {
                        lemma_new_is_known(plain, namespace, function);
                        allocation_keeps_sound(plain, wrapper, ObjectView::StaticMethod(function));
                    }
                }
                self.namespace_set(namespace, "__new__", wrapper)?;
                assert(plain.fresh(wrapper));
                assert(filled.adds(added, ObjectView::StaticMethod(function)));
                assert(added.gains(
                    self.tally(),
                    allocated.objects[namespace],
                    self@.objects[namespace],
                ));
            }
        }
        let ghost ready = self@;
        proof {
            self.lemma_view();
            if ready.sound() {
                lemma_completed_sound(ready, namespace);
            }
        }
        self.complete(namespace)
    }
}

/// What a sound namespace holds is known.
proof fn lemma_new_is_known(heap: HeapView, namespace: Value, function: Value)
    requires
        heap.sound(),
        heap.live(namespace),
        heap.objects[namespace] is Namespace,
        heap.objects[namespace]->Namespace_0.own("__new__"@) == Some(function),
    ensures
        heap.known(function),
{
    let class = heap.objects[namespace]->Namespace_0;
    lemma_class_holds(class);
    crate::text::lemma_name_position(class.attributes, "__new__"@);
    assert(class_holds(class, function));
    assert(heap.objects[namespace].edges().contains(function));
}

/// Listing a dependent changes classes, and in them only who depends on them.
pub proof fn lemma_with_dependent(heap: HeapView, class: Value, ancestors: Seq<Value>, from: int)
    ensures
        ({
            let after = heap.with_dependent(class, ancestors, from).0;
            &&& after == (HeapView { objects: after.objects, ..heap })
            &&& forall|v: Value| #[trigger] after.live(v) == heap.live(v)
            &&& forall|v: Value|
                heap.live(v) ==> #[trigger] same_but_dependents(heap.objects[v], after.objects[v])
        }),
    decreases ancestors.len() - from,
{
    if 0 <= from < ancestors.len() {
        if let Ok(ancestor) = heap.class_at(ancestors[from]) {
            let next = heap.with(
                ancestors[from],
                ObjectView::Class(
                    ClassView { dependents: ancestor.dependents.push(class), ..ancestor },
                ),
            );
            lemma_with_dependent(next, class, ancestors, from + 1);
            let after = heap.with_dependent(class, ancestors, from).0;
            assert forall|v: Value| #[trigger] after.live(v) == heap.live(v) by {
                assert(next.live(v) == heap.live(v));
            }
            assert forall|v: Value| heap.live(v) implies #[trigger] same_but_dependents(
                heap.objects[v],
                after.objects[v],
            ) by {
                assert(next.live(v));
                assert(same_but_dependents(next.objects[v], after.objects[v]));
            }
        }
    }
}

/// Whether two objects are the same but for the dependents of a class.
pub open spec fn same_but_dependents(before: ObjectView, after: ObjectView) -> bool {
    match before {
        ObjectView::Class(class) => after matches ObjectView::Class(held) && held == (ClassView {
            dependents: held.dependents,
            ..class
        }),
        _ => after == before,
    }
}

/// Completing a plain namespace makes a class of it with the next type
/// identity, the first version, and the C3 order of its ancestors: every
/// identity is given out once.
pub proof fn completion_makes_a_class(heap: HeapView, namespace: Value)
    requires
        heap.live(namespace),
        heap.objects[namespace] is Namespace,
        heap.completed(namespace).1 is Ok,
    ensures
        ({
            let class = heap.objects[namespace]->Namespace_0;
            let after = heap.completed(namespace).0;
            &&& after.next_type == heap.next_type + 1
            &&& after.at(namespace) matches Some(ObjectView::Class(held))
            &&& held.id.0 == after.next_type
            &&& held.version == 1
            &&& heap.planned(class) == Ok::<Seq<Value>, Fault>(held.mro)
            &&& held.attributes == class.attributes
            &&& held.bases == class.bases
            &&& held.metaclass == class.metaclass
            &&& held.name == class.name
        }),
{
    let class = heap.objects[namespace]->Namespace_0;
    let ancestors = heap.planned(class)->Ok_0;
    let classed = heap.classed(namespace, class, ancestors);
    lemma_with_dependent(classed, namespace, ancestors, 0);
    let after = heap.completed(namespace).0;
    assert(classed.live(namespace));
    assert(after.live(namespace) == classed.live(namespace));
    assert(same_but_dependents(classed.objects[namespace], after.objects[namespace]));
}

/// A completed namespace is a class.
pub proof fn lemma_finished_class(before: HeapView, after: HeapView, namespace: Value)
    requires
        finishes(before, after, Ok(()), namespace),
    ensures
        after.at(namespace) matches Some(ObjectView::Class(_)),
{
    let class = before.objects[namespace]->Namespace_0;
    let plain = match class.namespace_mapping {
        None => before,
        Some(mapping) => before.materialized(
            namespace,
            class,
            before.objects[mapping]->Dict_0.entries,
        ),
    };
    if let Some(mapping) = class.namespace_mapping {
        lemma_barriers(before, namespace, before.objects[mapping]->Dict_0.entries);
    }
    assert(plain.live(namespace) && plain.objects[namespace] is Namespace);
    assert(completes(plain, after, Ok(()), namespace));
    let held = plain.objects[namespace]->Namespace_0;
    if let Some(function) = held.own("__new__"@) {
        if plain.at(function) matches Some(ObjectView::Function { .. }) {
            let wrapper = choose|wrapper: Value|
                #![trigger plain.fresh(wrapper)]
                plain.fresh(wrapper) && (after, Ok::<(), Fault>(())) == plain.allocated(
                    wrapper,
                    ObjectView::StaticMethod(function),
                ).namespace_bound(namespace, "__new__"@, wrapper).completed(namespace);
            let ready = plain.allocated(
                wrapper,
                ObjectView::StaticMethod(function),
            ).namespace_bound(namespace, "__new__"@, wrapper);
            assert(ready.live(namespace) && ready.objects[namespace] is Namespace);
            completion_makes_a_class(ready, namespace);
        } else {
            completion_makes_a_class(plain, namespace);
        }
    } else {
        completion_makes_a_class(plain, namespace);
    }
}

/// Completing a namespace forgets no handle.
pub proof fn lemma_finished_knows(before: HeapView, after: HeapView, namespace: Value)
    requires
        finishes(before, after, Ok(()), namespace),
    ensures
        forall|v: Value| #[trigger] before.known(v) ==> after.known(v),
{
    let class = before.objects[namespace]->Namespace_0;
    let plain = match class.namespace_mapping {
        None => before,
        Some(mapping) => before.materialized(
            namespace,
            class,
            before.objects[mapping]->Dict_0.entries,
        ),
    };
    if let Some(mapping) = class.namespace_mapping {
        lemma_barriers(before, namespace, before.objects[mapping]->Dict_0.entries);
    }
    assert(plain.issued == before.issued);
    assert(completes(plain, after, Ok(()), namespace));
    let held = plain.objects[namespace]->Namespace_0;
    if let Some(function) = held.own("__new__"@) {
        if plain.at(function) matches Some(ObjectView::Function { .. }) {
            let wrapper = choose|wrapper: Value|
                #![trigger plain.fresh(wrapper)]
                plain.fresh(wrapper) && (after, Ok::<(), Fault>(())) == plain.allocated(
                    wrapper,
                    ObjectView::StaticMethod(function),
                ).namespace_bound(namespace, "__new__"@, wrapper).completed(namespace);
            lemma_completed_issued(
                plain.allocated(wrapper, ObjectView::StaticMethod(function)).namespace_bound(
                    namespace,
                    "__new__"@,
                    wrapper,
                ),
                namespace,
            );
        } else {
            lemma_completed_issued(plain, namespace);
        }
    } else {
        lemma_completed_issued(plain, namespace);
    }
}

proof fn lemma_completed_issued(heap: HeapView, namespace: Value)
    ensures
        heap.completed(namespace).0.issued == heap.issued,
{
    let class = heap.objects[namespace]->Namespace_0;
    if let Ok(ancestors) = heap.planned(class) {
        if heap.next_type < u32::MAX {
            lemma_with_dependent(heap.classed(namespace, class, ancestors), namespace, ancestors, 0);
        }
    }
}

} // verus!
