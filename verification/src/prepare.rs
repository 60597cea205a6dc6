//! Dictionaries that stand behind class namespaces.
use vstd::prelude::*;
use crate::calls::refuses;
use crate::class::ClassView;
use crate::dict::{bucket, lemma_found_first, Dict, DictView};
use crate::diagnostic::{fault, outcome, Diagnostic, Fault, Result};
use crate::heap::{no_memory, Heap, HeapView};
use crate::key::KeyView;
use crate::mapping::{lemma_dict_bound, lemma_dict_set_all_frame, lemma_dict_set_frame};
use crate::lookup::Outcome;
use crate::namespaces::{all_known, allocates, lemma_mapped_class, new_namespace};
use crate::object::{Object, ObjectView};
use crate::soundness::{
    allocation_keeps_sound, barred_store_keeps_sound, class_holds, lemma_class_holds,
};
use crate::shapes::bound;
use crate::text::{lemma_name_position, lemma_name_position_is, name_pairs};
use crate::value::{lemma_not_heap, Value};

verus! {

/// What the last entry of a name holds.
pub open spec fn last_named(entries: Seq<(Seq<char>, Value)>, name: Seq<char>) -> Option<Value>
    decreases entries.len(),
{
    if entries.len() == 0 {
        None
    } else if entries.last().0 == name {
        Some(entries.last().1)
    } else {
        last_named(entries.drop_last(), name)
    }
}

/// Names bound one after the other: each stands where it was bound first,
/// with what it was bound to last.
pub open spec fn bound_all(entries: Seq<(Seq<char>, Value)>) -> Seq<(Seq<char>, Value)>
    decreases entries.len(),
{
    if entries.len() == 0 {
        Seq::empty()
    } else {
        bound(bound_all(entries.drop_last()), entries.last().0, entries.last().1)
    }
}

impl HeapView {
    /// Whether a dictionary holds exactly the names listed, in that order,
    /// under keys that are strings.
    pub open spec fn lists(self, mapping: Value, names: Seq<(Seq<char>, Value)>) -> bool {
        let dict = self.objects[mapping]->Dict_0;
        &&& dict.entries.len() == names.len()
        &&& dict.materials.len() == names.len()
        &&& dict.hashes.len() == names.len()
        &&& forall|i: int|
            #![trigger names[i]]
            0 <= i < names.len() ==> dict.stands(KeyView::Text(names[i].0), i)
                && dict.entries[i].1 == names[i].1 && dict.entries[i].0 != mapping && self.at(
                dict.entries[i].0,
            ) == Some(ObjectView::Str(names[i].0))
    }

    /// Whether a value is a dictionary itself.
    pub open spec fn is_dict(self, value: Value) -> bool {
        self.at(value) matches Some(ObjectView::Dict(_))
    }

    /// What a dictionary holds under a text.
    pub open spec fn named_in(self, mapping: Value, name: Seq<char>) -> Option<Value> {
        self.objects[mapping]->Dict_0.value_of(KeyView::Text(name))
    }

    /// Whether what was live is as it was, but for `changed`.
    pub open spec fn kept(self, before: HeapView, changed: Value) -> bool {
        forall|v: Value|
            before.live(v) && v != changed ==> #[trigger] self.at(v) == before.at(v)
    }
}

/// What setting a text key of a dictionary does.
pub open spec fn name_put(
    before: HeapView,
    after: HeapView,
    result: Outcome<()>,
    mapping: Value,
    name: Seq<char>,
    value: Value,
) -> bool {
    exists|between: HeapView, key: core::result::Result<Value, Diagnostic>|
        #![trigger allocates(before, between, key, ObjectView::Str(name))]
        allocates(before, between, key, ObjectView::Str(name)) && match key {
            Err(error) => after == between && result == Err::<(), Fault>(error@),
            Ok(key) => (after, result) == between.dict_set(mapping, key, value),
        }
}

/// What setting a text key to a new string does.
pub open spec fn text_put(
    before: HeapView,
    after: HeapView,
    result: Outcome<()>,
    mapping: Value,
    name: Seq<char>,
    text: Seq<char>,
) -> bool {
    exists|between: HeapView, value: core::result::Result<Value, Diagnostic>|
        #![trigger allocates(before, between, value, ObjectView::Str(text))]
        allocates(before, between, value, ObjectView::Str(text)) && match value {
            Err(error) => after == between && result == Err::<(), Fault>(error@),
            Ok(value) => name_put(between, after, result, mapping, name, value),
        }
}

/// What setting a text key does where the dictionary lacks it.
pub open spec fn default_put(
    before: HeapView,
    after: HeapView,
    result: Outcome<()>,
    mapping: Value,
    name: Seq<char>,
    text: Option<Seq<char>>,
) -> bool {
    if before.named_in(mapping, name) is Some {
        after == before && result == Ok::<(), Fault>(())
    } else {
        match text {
            Some(text) => text_put(before, after, result, mapping, name, text),
            None => name_put(before, after, result, mapping, name, Value::none()),
        }
    }
}

/// What the last default and the namespace over the dictionary do.
pub open spec fn doc_put(
    before: HeapView,
    after: HeapView,
    result: core::result::Result<Value, Diagnostic>,
    mapping: Value,
    namespace: ObjectView,
) -> bool {
    exists|between: HeapView, done: Outcome<()>|
        #![trigger default_put(before, between, done, mapping, "__doc__"@, None)]
        default_put(before, between, done, mapping, "__doc__"@, None) && match done {
            Err(error) => after == between && refuses(result, error),
            Ok(_) => allocates(between, after, result, namespace),
        }
}

/// What the second default and what follows do.
pub open spec fn qualname_put(
    before: HeapView,
    after: HeapView,
    result: core::result::Result<Value, Diagnostic>,
    mapping: Value,
    name: Seq<char>,
    namespace: ObjectView,
) -> bool {
    exists|between: HeapView, done: Outcome<()>|
        #![trigger default_put(before, between, done, mapping, "__qualname__"@, Some(name))]
        default_put(before, between, done, mapping, "__qualname__"@, Some(name)) && match done {
            Err(error) => after == between && refuses(result, error),
            Ok(_) => doc_put(between, after, result, mapping, namespace),
        }
}

/// What the first default and what follows do.
pub open spec fn module_put(
    before: HeapView,
    after: HeapView,
    result: core::result::Result<Value, Diagnostic>,
    mapping: Value,
    name: Seq<char>,
    namespace: ObjectView,
) -> bool {
    exists|between: HeapView, done: Outcome<()>|
        #![trigger default_put(before, between, done, mapping, "__module__"@, Some("__main__"@))]
        default_put(before, between, done, mapping, "__module__"@, Some("__main__"@))
            && match done {
            Err(error) => after == between && refuses(result, error),
            Ok(_) => qualname_put(between, after, result, mapping, name, namespace),
        }
}

/// What three-argument class creation does with its dictionary: a copy gets
/// the defaults, and a namespace is made over it.
pub open spec fn type_mapped(
    before: HeapView,
    after: HeapView,
    result: core::result::Result<Value, Diagnostic>,
    name: Seq<char>,
    bases: Seq<Value>,
    metaclass: Value,
    entries: Seq<(Value, Value)>,
) -> bool {
    exists|made: HeapView, mapping: core::result::Result<Value, Diagnostic>|
        #![trigger allocates(before, made, mapping, ObjectView::Dict(DictView::empty()))]
        allocates(before, made, mapping, ObjectView::Dict(DictView::empty())) && match mapping {
            Err(error) => after == made && refuses(result, error@),
            Ok(mapping) => {
                let change = made.dict_set_all(mapping, entries);
                match change.1 {
                    Err(error) => after == change.0 && refuses(result, error),
                    Ok(_) => module_put(
                        change.0,
                        after,
                        result,
                        mapping,
                        name,
                        new_namespace(name, bases, metaclass, Some(mapping), Seq::empty()),
                    ),
                }
            },
        }
}

/// Setting a text key binds the name in the list of names.
proof fn lemma_name_listed(
    before: HeapView,
    between: HeapView,
    mapping: Value,
    key: Value,
    name: Seq<char>,
    value: Value,
    names: Seq<(Seq<char>, Value)>,
)
    requires
        before.lists(mapping, names),
        before.is_dict(mapping),
        before.objects[mapping]->Dict_0.wf(),
        forall|v: Value| before.live(v) ==> #[trigger] between.at(v) == before.at(v),
        key != mapping,
        between.at(key) == Some(ObjectView::Str(name)),
        between.native(mapping) == mapping,
        between.dict_key(key, 0) == Ok::<KeyView, Fault>(KeyView::Text(name)),
        between.dict_set(mapping, key, value).1 is Ok,
    ensures
        between.dict_set(mapping, key, value).0.lists(mapping, bound(names, name, value)),
{
    reveal(HeapView::dict_set);
    let after = between.dict_set(mapping, key, value).0;
    let dict = before.objects[mapping]->Dict_0;
    assert(before.live(mapping));
    assert(between.at(mapping) == before.at(mapping));
    lemma_dict_set_frame(between, mapping, key, value);
    lemma_found_first(dict, KeyView::Text(name));
    lemma_name_position(names, name);
    let changed = after.objects[mapping]->Dict_0;
    assert forall|i: int| 0 <= i < names.len() implies after.at(dict.entries[i].0) == Some(
        ObjectView::Str((#[trigger] names[i]).0),
    ) by {
        let k = dict.entries[i].0;
        assert(before.at(k) == Some(ObjectView::Str(names[i].0)));
        assert(before.live(k));
        assert(between.at(k) == before.at(k));
        assert(k != mapping);
    }
    assert(after.at(key) == Some(ObjectView::Str(name)));
    match dict.find(KeyView::Text(name)) {
        Some(i) => {
            assert(dict.stands(KeyView::Text(name), i));
            assert(names[i].0 == name);
            assert forall|j: int| 0 <= j < i implies (#[trigger] names[j]).0 != name by {
                assert(dict.stands(KeyView::Text(names[j].0), j));
            }
            lemma_name_position_is(names, name, i);
            assert(changed == dict.replaced(i, value));
        },
        None => {
            assert forall|j: int| 0 <= j < names.len() implies (#[trigger] names[j]).0 != name by {
                assert(dict.stands(KeyView::Text(names[j].0), j));
            }
            assert(changed == dict.added(
                key,
                value,
                KeyView::Text(name),
                bucket(KeyView::Text(name).hash()),
            ));
        },
    }
    let list = bound(names, name, value);
    assert forall|i: int| 0 <= i < list.len() implies changed.stands(
        KeyView::Text((#[trigger] list[i]).0),
        i,
    ) && changed.entries[i].1 == list[i].1 && changed.entries[i].0 != mapping && after.at(
        changed.entries[i].0,
    ) == Some(ObjectView::Str(list[i].0)) by {
        if i < names.len() {
            assert(dict.stands(KeyView::Text(names[i].0), i));
        }
    }
}

impl Heap {
    /// Sets a text key of a dictionary.
    fn put_name(&mut self, mapping: Value, name: &str, value: Value) -> (r: Result<()>)
        requires
            old(self).wf(),
            old(self)@.is_dict(mapping),
        ensures
            final(self).wf(),
            name_put(old(self)@, final(self)@, outcome(r), mapping, name@, value),
            final(self)@.kept(old(self)@, mapping),
            final(self)@.is_dict(mapping),
            forall|v: Value| #[trigger]
                old(self)@.issued.contains(v) ==> final(self)@.issued.contains(v),
            final(self)@.room == if old(self)@.room == 0 {
                0
            } else {
                (old(self)@.room - 1) as nat
            },
            match r {
                Ok(_) => old(self)@.room > 0 && final(self)@.objects[mapping]->Dict_0.version <= old(
                    self,
                )@.objects[mapping]->Dict_0.version + 1 && (forall|n: Seq<char>| #[trigger]
                    final(self)@.named_in(mapping, n) == if n == name@ {
                        Some(value)
                    } else {
                        old(self)@.named_in(mapping, n)
                    }) && (forall|names: Seq<(Seq<char>, Value)>| #[trigger]
                    old(self)@.lists(mapping, names) ==> final(self)@.lists(
                        mapping,
                        bound(names, name@, value),
                    )),
                Err(error) => if old(self)@.room == 0 {
                    error@ == no_memory() && final(self)@ == old(self)@
                } else {
                    old(self)@.objects[mapping]->Dict_0.version == u64::MAX && error@ == fault(
                        "RuntimeError",
                        "dict version exhausted",
                    )
                },
            },
            old(self)@.sound() && old(self)@.known(value) ==> final(self)@.sound(),
    {
        let ghost before = self@;
        proof {
            self.lemma_view();
        }
        let made = self.allocate(Object::Str(name.to_owned()));
        let ghost between = self@;
        assert(allocates(before, between, made, ObjectView::Str(name@)));
        let key = made?;
        proof {
            self.lemma_view();
            assert(between.at(mapping) == before.at(mapping));
            assert(between.native(mapping) == mapping);
            lemma_not_heap();
            assert(between.dict_key(key, 0) == Ok::<KeyView, Fault>(KeyView::Text(name@)));
            reveal(HeapView::dict_set);
            lemma_dict_set_frame(between, mapping, key, value);
            let dict = before.objects[mapping]->Dict_0;
            assert(dict.wf());
            let after = between.dict_set(mapping, key, value).0.objects[mapping]->Dict_0;
            if between.dict_set(mapping, key, value).1 is Ok {
                lemma_dict_bound(dict, after, key, value, KeyView::Text(name@));
                assert forall|names: Seq<(Seq<char>, Value)>| #[trigger]
                    before.lists(mapping, names) implies between.dict_set(
                    mapping,
                    key,
                    value,
                ).0.lists(mapping, bound(names, name@, value)) by {
                    assert(key != mapping);
                    lemma_name_listed(before, between, mapping, key, name@, value, names);
                }
            }
            assert forall|v: Value| before.live(v) && v != mapping implies #[trigger] between.dict_set(
                mapping,
                key,
                value,
            ).0.at(v) == before.at(v) by {
                assert(v != key);
                assert(between.at(v) == before.at(v));
            }
            if before.sound() && before.known(value) {
                allocation_keeps_sound(before, key, ObjectView::Str(name@));
                assert(between.known(key));
                assert(between.known(value));
            }
        }
        self.dict_set(mapping, key, value)
    }

    /// The mapping that metaclass hooks are given. A plain namespace gets one
    /// when a hook first needs it.
    pub fn namespace_mapping(&mut self, namespace: Value) -> (r: Result<Value>)
        requires
            old(self).wf(),
        ensures
            final(self).wf(),
            match old(self)@.namespace_at(namespace) {
                Err(error) => outcome(r) == Err::<Value, Fault>(error) && final(self)@ == old(
                    self,
                )@,
                Ok(class) => match class.namespace_mapping {
                    Some(mapping) => outcome(r) == Ok::<Value, Fault>(mapping) && final(self)@
                        == old(self)@,
                    None => match r {
                        Ok(mapping) => old(self)@.room >= 1 + class.attributes.len() && old(
                            self,
                        )@.fresh(mapping) && final(self)@.is_dict(mapping) && (forall|
                            n: Seq<char>,
                        | #[trigger]
                            final(self)@.named_in(mapping, n) == last_named(class.attributes, n))
                            && final(self)@.lists(mapping, bound_all(class.attributes))
                            && final(self)@.at(namespace) == Some(
                            ObjectView::Namespace(
                                (ClassView { namespace_mapping: Some(mapping), ..class }),
                            ),
                        ) && final(self)@.kept(old(self)@, namespace),
                        Err(error) => final(self)@.kept(old(self)@, Value::unbound()) && if old(
                            self,
                        )@.room < 1 + class.attributes.len() {
                            error@ == no_memory() || class.attributes.len() >= u64::MAX
                        } else {
                            class.attributes.len() >= u64::MAX && error@ == fault(
                                "RuntimeError",
                                "dict version exhausted",
                            )
                        },
                    },
                },
            },
            old(self)@.sound() ==> final(self)@.sound(),
    {
        let ghost before = self@;
        proof {
            self.lemma_view();
        }
        let mut attributes: Vec<(String, Value)> = Vec::new();
        let ghost pairs: Seq<(Seq<char>, Value)> = Seq::empty();
        {
            let class = self.namespace_class(namespace)?;
            if let Some(mapping) = class.namespace_mapping {
                return Ok(mapping);
            }
            attributes = copy_named(&class.attributes);
        }
        proof {
            pairs = name_pairs(attributes@);
        }
        let mapping = self.allocate(Object::Dict(Dict::new()))?;
        let mut i: usize = 0;
        proof {
            assert(before.namespace_at(namespace)->Ok_0.attributes == pairs);
            assert(self@.objects[mapping] == ObjectView::Dict(DictView::empty()));
            assert forall|n: Seq<char>| #[trigger] self@.named_in(mapping, n) == last_named(
                pairs.take(0),
                n,
            ) by {
                assert(crate::dict::filed(
                    Seq::<u64>::empty(),
                    crate::dict::bucket(KeyView::Text(n).hash()),
                ) =~= Seq::empty());
            }
            assert forall|v: Value| before.live(v) implies #[trigger] self@.at(v) == before.at(v) by {
                assert(v != mapping);
            }
            if before.sound() {
                allocation_keeps_sound(before, mapping, ObjectView::Dict(DictView::empty()));
                lemma_attributes_known(before, namespace);
            }
        }
        while i < attributes.len()
            invariant
                self.wf(),
                before == old(self)@,
                before.wf(),
                i <= attributes.len(),
                pairs == name_pairs(attributes@),
                before.fresh(mapping),
                before.namespace_at(namespace) matches Ok(class) && class.attributes == pairs
                    && class.namespace_mapping is None,
                self@.is_dict(mapping),
                self@.objects[mapping]->Dict_0.version <= i,
                before.room >= 1 + i,
                self@.room == before.room - 1 - i,
                forall|n: Seq<char>| #[trigger]
                    self@.named_in(mapping, n) == last_named(pairs.take(i as int), n),
                self@.lists(mapping, bound_all(pairs.take(i as int))),
                before.namespace_at(namespace) is Ok ==> before.at(
                    namespace,
                ) is Some && !(before.at(namespace) matches Some(ObjectView::Str(_))),
                forall|v: Value| before.live(v) ==> #[trigger] self@.at(v) == before.at(v),
                forall|v: Value| #[trigger]
                    before.issued.contains(v) ==> self@.issued.contains(v),
                before.sound() ==> attributes_known(before, pairs) && self@.sound(),
            decreases attributes.len() - i,
        {
            let ghost held = self@;
            proof {
                if before.sound() {
                    assert(before.known(pairs[i as int].1));
                    assert(self@.known(pairs[i as int].1));
                }
            }
            let put = self.put_name(mapping, attributes[i].0.as_str(), attributes[i].1);
            proof {
                assert forall|v: Value| before.live(v) implies #[trigger] self@.at(v) == before.at(
                    v,
                ) by {
                    assert(held.at(v) == before.at(v));
                    assert(held.live(v));
                    assert(v != mapping);
                }
            }
            put?;
            proof {
                assert(pairs.take(i + 1).drop_last() =~= pairs.take(i as int));
            }
            i += 1;
        }
        assert(pairs.take(i as int) =~= pairs);
        let ghost full = self@;
        proof {
            assert(self@.at(namespace) == before.at(namespace));
            self.lemma_view();
        }
        self.write_barrier(namespace, mapping);
        if let Ok(Object::Namespace(class)) = self.get_mut(namespace) {
            class.namespace_mapping = Some(mapping);
        }
        proof {
            if before.sound() {
                let class = full.objects[namespace]->Namespace_0;
                lemma_mapped_class(class, mapping);
                assert(full.known(mapping));
                barred_store_keeps_sound(
                    full,
                    namespace,
                    mapping,
                    ObjectView::Namespace(
                        (ClassView { namespace_mapping: Some(mapping), ..class }),
                    ),
                );
            }
            assert(namespace != mapping);
            assert forall|v: Value| before.live(v) && v != namespace implies #[trigger] self@.at(v)
                == before.at(v) by {
                assert(full.at(v) == before.at(v));
            }
            assert(self@.at(mapping) == full.at(mapping));
            assert(self@.lists(mapping, bound_all(pairs))) by {
                let (names, dict) = (bound_all(pairs), full.objects[mapping]->Dict_0);
                assert forall|k: int| 0 <= k < names.len() implies self@.at(dict.entries[k].0)
                    == Some(ObjectView::Str((#[trigger] names[k]).0)) by {
                    assert(full.at(dict.entries[k].0) == Some(ObjectView::Str(names[k].0)));
                }
            }
            assert forall|n: Seq<char>| #[trigger] self@.named_in(mapping, n) == last_named(
                pairs,
                n,
            ) by {
                assert(full.named_in(mapping, n) == last_named(pairs, n));
            }
        }
        Ok(mapping)
    }

    /// A namespace over a copy of a dictionary, with the attributes every
    /// class has where the dictionary lacks them. The dictionary given stays
    /// as it is.
    pub fn namespace_from_type_mapping(
        &mut self,
        name: &str,
        bases: Vec<Value>,
        metaclass: Value,
        source: Value,
    ) -> (r: Result<Value>)
        requires
            old(self).wf(),
        ensures
            final(self).wf(),
            final(self)@.kept(old(self)@, Value::unbound()),
            match old(self)@.found(source) {
                Err(error) => outcome(r) == Err::<Value, Fault>(error) && final(self)@ == old(
                    self,
                )@,
                Ok(ObjectView::Dict(dict)) => type_mapped(
                    old(self)@,
                    final(self)@,
                    r,
                    name@,
                    bases@,
                    metaclass,
                    dict.entries,
                ) && (r matches Ok(namespace) ==> type_namespace(
                    old(self)@,
                    final(self)@,
                    namespace,
                    name@,
                    bases@,
                    metaclass,
                    source,
                )),
                Ok(_) => outcome(r) == Err::<Value, Fault>(
                    fault("TypeError", "type namespace must be a dict"),
                ) && final(self)@ == old(self)@,
            },
            old(self)@.sound() && all_known(old(self)@, bases@) && old(self)@.known(metaclass)
                ==> final(self)@.sound(),
    {
        let ghost before = self@;
        proof {
            self.lemma_view();
        }
        match self.get(source)? {
            Object::Dict(_) => {},
            _ => {
                return Err(Diagnostic::new("TypeError", "type namespace must be a dict"));
            },
        }
        let copy = self.allocate(Object::Dict(Dict::new()));
        let ghost made = self@;
        assert(allocates(before, made, copy, ObjectView::Dict(DictView::empty())));
        let mapping = copy?;
        let ghost entries = before.objects[source]->Dict_0.entries;
        proof {
            assert(!before.live(mapping));
            assert(made.at(source) == before.at(source));
            assert(made.native(source) == source && made.native(mapping) == mapping);
            lemma_dict_set_all_frame(made, mapping, entries);
            if before.sound() {
                allocation_keeps_sound(before, mapping, ObjectView::Dict(DictView::empty()));
            }
            assert forall|v: Value| before.live(v) implies #[trigger] made.dict_set_all(
                mapping,
                entries,
            ).0.at(v) == before.at(v) by {
                assert(v != mapping);
                assert(made.at(v) == before.at(v));
            }
        }
        self.dict_merge(mapping, source)?;
        let ghost merged = self@;
        let done = self.default_name(mapping, "__module__", Some("__main__"));
        let ghost first = self@;
        assert(default_put(
            merged,
            first,
            outcome(done),
            mapping,
            "__module__"@,
            Some("__main__"@),
        ));
        done?;
        let done = self.default_name(mapping, "__qualname__", Some(name));
        let ghost second = self@;
        assert(default_put(first, second, outcome(done), mapping, "__qualname__"@, Some(name@)));
        done?;
        let done = self.default_name(mapping, "__doc__", None);
        let ghost ready = self@;
        assert(default_put(second, ready, outcome(done), mapping, "__doc__"@, None));
        done?;
        proof {
            self.lemma_view();
            assert forall|v: Value| #[trigger] before.issued.contains(
                v,
            ) implies ready.issued.contains(v) by {
                assert(merged.issued.contains(v));
                assert(first.issued.contains(v));
                assert(second.issued.contains(v));
            }
            assert(made.issued.contains(mapping));
            assert(merged.issued.contains(mapping));
            assert(first.issued.contains(mapping));
            assert(second.issued.contains(mapping));
            assert forall|v: Value| before.live(v) implies #[trigger] ready.at(v) == before.at(v) by {
                assert(v != mapping);
                assert(merged.at(v) == before.at(v));
                assert(first.at(v) == merged.at(v));
                assert(second.at(v) == first.at(v));
            }
            if all_known(before, bases@) {
                assert forall|v: Value| #[trigger] bases@.contains(v) implies ready.known(v) by {
                    assert(v.is_heap() ==> before.issued.contains(v));
                }
            }
        }
        let result = self.namespace_over(name, bases, metaclass, mapping);
        proof {
            if let Ok(namespace) = result {
                assert forall|v: Value| before.live(v) implies #[trigger] self@.at(v) == before.at(
                    v,
                ) by {
                    assert(ready.at(v) == before.at(v));
                    assert(ready.live(v));
                    assert(v != namespace);
                }
                assert(mapping != namespace);
                assert(self@.at(mapping) == ready.at(mapping));
                assert(merged == made.dict_set_all(mapping, entries).0);
                reveal_strlit("__module__");
                reveal_strlit("__qualname__");
                reveal_strlit("__doc__");
                assert("__module__"@.len() != "__qualname__"@.len());
                assert("__module__"@.len() != "__doc__"@.len());
                assert("__qualname__"@.len() != "__doc__"@.len());
                assert forall|n: Seq<char>|
                    n != "__module__"@ && n != "__qualname__"@ && n
                        != "__doc__"@ implies #[trigger] self@.named_in(mapping, n)
                    == merged.named_in(mapping, n) by {
                    assert(ready.named_in(mapping, n) == second.named_in(mapping, n));
                    assert(second.named_in(mapping, n) == first.named_in(mapping, n));
                    assert(first.named_in(mapping, n) == merged.named_in(mapping, n));
                }
                lemma_default_kept(merged, first, second, mapping, "__module__"@, Some("__main__"@));
                lemma_default_kept(merged, second, ready, mapping, "__module__"@, Some("__main__"@));
                assert(default_of(second, merged, mapping, "__qualname__"@, Some(name@)));
                lemma_default_kept(merged, second, ready, mapping, "__qualname__"@, Some(name@));
                assert(default_of(ready, merged, mapping, "__doc__"@, None));
                assert(copied_dict(before, made, merged, mapping, entries));
            }
        }
        result
    }

    /// Sets a text key of a dictionary that lacks it: to a new string, or to
    /// none.
    fn default_name(
        &mut self,
        mapping: Value,
        name: &str,
        text: Option<&str>,
    ) -> (r: Result<()>)
        requires
            old(self).wf(),
            old(self)@.is_dict(mapping),
        ensures
            final(self).wf(),
            default_put(
                old(self)@,
                final(self)@,
                outcome(r),
                mapping,
                name@,
                match text {
                    Some(text) => Some(text@),
                    None => None,
                },
            ),
            final(self)@.is_dict(mapping),
            final(self)@.kept(old(self)@, mapping),
            r is Ok ==> forall|n: Seq<char>|
                n != name@ || old(self)@.named_in(mapping, n) is Some
                    ==> #[trigger] final(self)@.named_in(mapping, n) == old(self)@.named_in(
                    mapping,
                    n,
                ),
            r is Ok && old(self)@.named_in(mapping, name@) is None ==> (final(self)@.named_in(
                mapping,
                name@,
            ) matches Some(value) && match text {
                Some(text) => final(self)@.at(value) == Some(ObjectView::Str(text@)),
                None => value == Value::none(),
            }),
            forall|v: Value| #[trigger]
                old(self)@.issued.contains(v) ==> final(self)@.issued.contains(v),
            old(self)@.sound() ==> final(self)@.sound(),
    {
        let ghost before = self@;
        proof {
            self.lemma_view();
        }
        assert(before.native(mapping) == mapping);
        if self.dict_get_str(mapping, name)?.is_some() {
            return Ok(());
        }
        let value = match text {
            Some(text) => {
                let made = self.allocate(Object::Str(text.to_owned()));
                assert(allocates(before, self@, made, ObjectView::Str(text@)));
                made?
            },
            None => Value::none(),
        };
        let ghost between = self@;
        proof {
            self.lemma_view();
            assert(between.at(mapping) == before.at(mapping));
            assert forall|v: Value| before.live(v) implies #[trigger] between.at(v) == before.at(
                v,
            ) by {}
            lemma_not_heap();
            if before.sound() && text is Some {
                allocation_keeps_sound(before, value, ObjectView::Str(text.unwrap()@));
            }
            assert(between.known(value));
            assert forall|n: Seq<char>| #[trigger] between.named_in(mapping, n) == before.named_in(
                mapping,
                n,
            ) by {}
        }
        let result = self.put_name(mapping, name, value);
        proof {
            assert forall|v: Value| #[trigger] before.issued.contains(
                v,
            ) implies self@.issued.contains(v) by {
                assert(between.issued.contains(v));
            }
            assert forall|v: Value| before.live(v) && v != mapping implies #[trigger] self@.at(v)
                == before.at(v) by {
                assert(between.at(v) == before.at(v));
                assert(between.live(v));
            }
            if text is Some {
                assert(between.live(value));
                assert(between.at(value) == Some(ObjectView::Str(text.unwrap()@)));
                assert(value != mapping);
                assert(self@.at(value) == between.at(value));
            }
            assert forall|n: Seq<char>|
                result is Ok && (n != name@ || before.named_in(mapping, n) is Some) implies #[trigger] self@.named_in(
                mapping,
                n,
            ) == before.named_in(mapping, n) by {
                assert(between.named_in(mapping, n) == before.named_in(mapping, n));
            }
        }
        result
    }
}

/// Whether the values of named entries are no handles, or ones that were given
/// out.
pub open spec fn attributes_known(heap: HeapView, entries: Seq<(Seq<char>, Value)>) -> bool {
    forall|i: int| 0 <= i < entries.len() ==> heap.known(#[trigger] entries[i].1)
}

/// A sound heap knows the attributes of its namespaces.
proof fn lemma_attributes_known(heap: HeapView, namespace: Value)
    requires
        heap.sound(),
        heap.at(namespace) matches Some(ObjectView::Namespace(_)),
    ensures
        attributes_known(heap, heap.objects[namespace]->Namespace_0.attributes),
{
    let class = heap.objects[namespace]->Namespace_0;
    lemma_class_holds(class);
    assert forall|i: int| 0 <= i < class.attributes.len() implies heap.known(
        #[trigger] class.attributes[i].1,
    ) by {
        assert(class_holds(class, class.attributes[i].1));
        assert(heap.objects[namespace].edges().contains(class.attributes[i].1));
    }
}

/// A default stays while its name and what was live stay.
proof fn lemma_default_kept(
    before: HeapView,
    held: HeapView,
    after: HeapView,
    mapping: Value,
    name: Seq<char>,
    text: Option<Seq<char>>,
)
    requires
        default_of(held, before, mapping, name, text),
        after.named_in(mapping, name) == held.named_in(mapping, name),
        after.kept(held, mapping),
        held.is_dict(mapping),
    ensures
        default_of(after, before, mapping, name, text),
{
}

/// Copies a named list.
fn copy_named(entries: &Vec<(String, Value)>) -> (r: Vec<(String, Value)>)
    ensures
        name_pairs(r@) == name_pairs(entries@),
        r@.len() == entries@.len(),
{
    let mut copy: Vec<(String, Value)> = Vec::new();
    let mut i: usize = 0;
    while i < entries.len()
        invariant
            i <= entries.len(),
            copy@.len() == i,
            forall|k: int|
                0 <= k < i ==> (#[trigger] copy@[k]).0@ == entries@[k].0@ && copy@[k].1
                    == entries@[k].1,
        decreases entries.len() - i,
    {
        copy.push((entries[i].0.clone(), entries[i].1));
        i += 1;
    }
    assert(name_pairs(copy@) =~= name_pairs(entries@));
    copy
}

/// Whether `merged` has a new dictionary that was given the entries.
pub open spec fn copied_dict(
    before: HeapView,
    made: HeapView,
    merged: HeapView,
    mapping: Value,
    entries: Seq<(Value, Value)>,
) -> bool {
    before.fresh(mapping) && made == before.allocated(mapping, ObjectView::Dict(DictView::empty()))
        && merged == made.dict_set_all(mapping, entries).0
}

/// The namespace that three-argument class creation makes: over a copy of the
/// source, which holds the names of the source, and the three defaults where
/// the source has none.
pub open spec fn type_namespace(
    before: HeapView,
    after: HeapView,
    namespace: Value,
    name: Seq<char>,
    bases: Seq<Value>,
    metaclass: Value,
    source: Value,
) -> bool {
    exists|made: HeapView, merged: HeapView, mapping: Value|
        #![trigger copied_dict(
            before,
            made,
            merged,
            mapping,
            before.objects[source]->Dict_0.entries,
        )]
        {
            &&& copied_dict(
                before,
                made,
                merged,
                mapping,
                before.objects[source]->Dict_0.entries,
            )
            &&& after.at(namespace) == Some(
                new_namespace(name, bases, metaclass, Some(mapping), Seq::empty()),
            )
            &&& after.is_dict(mapping)
            &&& forall|n: Seq<char>|
                n != "__module__"@ && n != "__qualname__"@ && n != "__doc__"@
                    ==> #[trigger] after.named_in(mapping, n) == merged.named_in(mapping, n)
            &&& default_of(after, merged, mapping, "__module__"@, Some("__main__"@))
            &&& default_of(after, merged, mapping, "__qualname__"@, Some(name))
            &&& default_of(after, merged, mapping, "__doc__"@, None)
        }
}

/// What a name holds that had a default: what it held before, or the default.
pub open spec fn default_of(
    after: HeapView,
    before: HeapView,
    mapping: Value,
    name: Seq<char>,
    text: Option<Seq<char>>,
) -> bool {
    match before.named_in(mapping, name) {
        Some(value) => after.named_in(mapping, name) == Some(value),
        None => after.named_in(mapping, name) matches Some(value) && match text {
            Some(text) => after.at(value) == Some(ObjectView::Str(text)),
            None => value == Value::none(),
        },
    }
}

} // verus!
