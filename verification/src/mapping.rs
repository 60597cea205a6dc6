//! Dictionary operations on the heap, and item assignment.
use vstd::prelude::*;
use crate::dict::{bucket, Dict, DictView};
use crate::diagnostic::{fault, outcome, Diagnostic, Fault, Result};
use crate::edges::{copy_pairs, pair_values};
use crate::float;
use crate::hashing::{range_count, range_length, range_start, range_step};
use crate::heap::{no_memory, Heap, HeapView, Tally};
use crate::key::{key_views, Key, KeyView};
use crate::object::{Object, ObjectView};
use crate::soundness::{
    allocation_keeps_sound, barrier_keeps_sound, narrowing_keeps_sound, store_keeps_sound,
};
use crate::value::Value;

verus! {

impl HeapView {
    /// What a dictionary compares and hashes of a value as a key.
    pub open spec fn dict_key(self, value: Value, depth: int) -> core::result::Result<
        KeyView,
        Fault,
    >
        decreases 101 - depth, 0int,
    {
        if depth > 100 {
            Err(fault("RecursionError", "dictionary key nesting limit"))
        } else {
            let v = self.native(value);
            if v == Value::none() {
                Ok(KeyView::Nothing)
            } else if v == Value::not_implemented() {
                Ok(KeyView::NotImplemented)
            } else if v.as_number() is Some {
                Ok(KeyView::Number(v.as_number().unwrap()))
            } else {
                match self.found(v) {
                    Err(error) => Err(error),
                    Ok(object) => match object {
                        ObjectView::Int(n) => Ok(KeyView::Number(n)),
                        ObjectView::Float(bits) => Ok(
                            if float::is_nan(bits) {
                                KeyView::NaN(value.0)
                            } else if float::is_integral(bits) {
                                KeyView::Number(float::whole(bits))
                            } else {
                                KeyView::Float(bits)
                            },
                        ),
                        ObjectView::Str(text) => Ok(KeyView::Text(text)),
                        ObjectView::Tuple(items) => match self.dict_keys(items, depth + 1) {
                            Ok(keys) => Ok(KeyView::Tuple(keys)),
                            Err(error) => Err(error),
                        },
                        ObjectView::Slice { start, stop, step } => match self.dict_keys(
                            seq![start, stop, step],
                            depth + 1,
                        ) {
                            Ok(keys) => Ok(KeyView::Slice(keys)),
                            Err(error) => Err(error),
                        },
                        ObjectView::Range { start, stop, step } => Ok(
                            KeyView::Range {
                                length: range_count(start as int, stop as int, step as int),
                                start: range_start(start, stop, step),
                                step: range_step(start, stop, step),
                            },
                        ),
                        ObjectView::Function { .. } => Ok(KeyView::Identity(v.0)),
                        ObjectView::Builtin(_) => Ok(KeyView::Identity(v.0)),
                        ObjectView::Native(_) => Ok(KeyView::Identity(v.0)),
                        ObjectView::Class(_) => Ok(KeyView::Identity(v.0)),
                        ObjectView::Instance { .. } => Ok(KeyView::Identity(v.0)),
                        ObjectView::Exception { .. } => Ok(KeyView::Identity(v.0)),
                        ObjectView::StaticMethod(_) => Ok(KeyView::Identity(v.0)),
                        ObjectView::ClassMethod(_) => Ok(KeyView::Identity(v.0)),
                        ObjectView::Property { .. } => Ok(KeyView::Identity(v.0)),
                        ObjectView::PropertySetter(_) => Ok(KeyView::Identity(v.0)),
                        ObjectView::BoundMethod { function, receiver } => match self.dict_key(
                            function,
                            depth + 1,
                        ) {
                            Err(error) => Err(error),
                            Ok(first) => match self.dict_key(receiver, depth + 1) {
                                Err(error) => Err(error),
                                Ok(second) => Ok(
                                    KeyView::Method(Box::new(first), Box::new(second)),
                                ),
                            },
                        },
                        _ => Err(fault("TypeError", "unhashable dictionary key")),
                    },
                }
            }
        }
    }

    /// The keys of a list of values; the first failure among them decides.
    pub open spec fn dict_keys(self, values: Seq<Value>, depth: int) -> core::result::Result<
        Seq<KeyView>,
        Fault,
    >
        decreases 101 - depth, values.len() as int,
    {
        if values.len() == 0 || depth > 101 {
            Ok(Seq::empty())
        } else {
            match self.dict_keys(values.drop_last(), depth) {
                Err(error) => Err(error),
                Ok(keys) => match self.dict_key(values.last(), depth) {
                    Err(error) => Err(error),
                    Ok(key) => Ok(keys.push(key)),
                },
            }
        }
    }

    /// The dictionary behind a value.
    pub open spec fn dict(self, owner: Value) -> core::result::Result<DictView, Fault> {
        match self.found(self.native(owner)) {
            Ok(ObjectView::Dict(dict)) => Ok(dict),
            Ok(_) => Err(fault("TypeError", "expected dict")),
            Err(error) => Err(error),
        }
    }

    /// What a dictionary holds under a key.
    pub open spec fn dict_get(self, owner: Value, key: Value) -> core::result::Result<
        Option<Value>,
        Fault,
    > {
        match self.dict_key(key, 0) {
            Err(error) => Err(error),
            Ok(material) => match self.dict(owner) {
                Err(error) => Err(error),
                Ok(dict) => Ok(dict.value_of(material)),
            },
        }
    }

    /// A dictionary entry set: the heap afterwards, and the result.
    #[verifier::opaque]
    pub open spec fn dict_set(self, owner: Value, key: Value, value: Value) -> (
        HeapView,
        core::result::Result<(), Fault>,
    ) {
        let target = self.native(owner);
        let barred = self.barrier(target, key).barrier(target, value);
        match self.dict_key(key, 0) {
            Err(error) => (self, Err(error)),
            Ok(material) => match self.dict(owner) {
                Err(error) => (barred, Err(error)),
                Ok(dict) => match dict.find(material) {
                    Some(i) => (
                        barred.with(target, ObjectView::Dict(dict.replaced(i, value))),
                        Ok(()),
                    ),
                    None => if dict.version == u64::MAX {
                        (barred, Err(fault("RuntimeError", "dict version exhausted")))
                    } else {
                        (
                            barred.with(
                                target,
                                ObjectView::Dict(
                                    dict.added(key, value, material, bucket(material.hash())),
                                ),
                            ),
                            Ok(()),
                        )
                    },
                },
            },
        }
    }

    /// Dictionary entries set one after the other, up to the first failure.
    pub open spec fn dict_set_all(self, owner: Value, entries: Seq<(Value, Value)>) -> (
        HeapView,
        core::result::Result<(), Fault>,
    )
        decreases entries.len(),
    {
        if entries.len() == 0 {
            (self, Ok(()))
        } else {
            let (heap, result) = self.dict_set_all(owner, entries.drop_last());
            match result {
                Err(error) => (heap, Err(error)),
                Ok(_) => heap.dict_set(owner, entries.last().0, entries.last().1),
            }
        }
    }

    /// A dictionary changed structurally, which counts unless the count is
    /// exhausted.
    pub open spec fn dict_changed(self, owner: Value, before: DictView, after: DictView) -> (
        HeapView,
        core::result::Result<(), Fault>,
    ) {
        (
            self.with(self.native(owner), ObjectView::Dict(after)),
            if before.version == u64::MAX {
                Err(fault("RuntimeError", "dict version exhausted"))
            } else {
                Ok(())
            },
        )
    }

    /// Whether two values are one key.
    pub open spec fn keys_equal(self, a: Value, b: Value) -> core::result::Result<bool, Fault> {
        match self.dict_key(a, 0) {
            Err(error) => Err(error),
            Ok(x) => match self.dict_key(b, 0) {
                Err(error) => Err(error),
                Ok(y) => Ok(x == y),
            },
        }
    }

    /// Sets an entry by its hash, and by its position if it is there.
    pub open spec fn dict_set_hashed(
        self,
        owner: Value,
        key: Value,
        value: Value,
        hash: i64,
        matched: Option<usize>,
    ) -> (HeapView, core::result::Result<(), Fault>) {
        let target = self.native(owner);
        let barred = self.barrier(target, key).barrier(target, value);
        match self.dict_key(key, 0) {
            Err(error) => (self, Err(error)),
            Ok(material) => match self.dict(owner) {
                Err(error) => (barred, Err(error)),
                Ok(dict) => match matched {
                    Some(i) => if i < dict.entries.len() {
                        (
                            barred.with(
                                target,
                                ObjectView::Dict(dict.replaced(i as int, value)),
                            ),
                            Ok::<(), Fault>(()),
                        )
                    } else {
                        (
                            barred,
                            Err(fault("RuntimeError", "stale dictionary candidate")),
                        )
                    },
                    None => if dict.version == u64::MAX {
                        (barred, Err(fault("RuntimeError", "dict version exhausted")))
                    } else {
                        (
                            barred.with(
                                target,
                                ObjectView::Dict(
                                    dict.added(key, value, material, bucket(hash as int)),
                                ),
                            ),
                            Ok(()),
                        )
                    },
                },
            },
        }
    }

    /// A dictionary entry deleted: the heap afterwards, and the result.
    pub open spec fn dict_delete(self, owner: Value, key: Value) -> (
        HeapView,
        core::result::Result<(), Fault>,
    ) {
        match self.dict_key(key, 0) {
            Err(error) => (self, Err(error)),
            Ok(material) => match self.dict(owner) {
                Err(error) => (self, Err(error)),
                Ok(dict) => match dict.find(material) {
                    None => (self, Err(self.missing_key(key))),
                    Some(i) => self.dict_changed(owner, dict, dict.removed(i)),
                },
            },
        }
    }

    /// The position an index stands for in a list of `len` items.
    pub open spec fn list_index(self, key: Value, len: int, message: &str) -> core::result::Result<
        int,
        Fault,
    > {
        match self.integer(key) {
            Err(error) => Err(error),
            Ok(n) => {
                let i = if n < 0 {
                    n + len
                } else {
                    n
                };
                if 0 <= i < len {
                    Ok(i)
                } else {
                    Err(fault("IndexError", message))
                }
            },
        }
    }

    /// An item set: the heap afterwards, and the result.
    pub open spec fn set_item(self, owner: Value, key: Value, value: Value) -> (
        HeapView,
        core::result::Result<(), Fault>,
    ) {
        let target = self.native(owner);
        match self.found(target) {
            Err(error) => (self, Err(error)),
            Ok(ObjectView::Dict(_)) => self.dict_set(target, key, value),
            Ok(ObjectView::MappingProxy { .. }) => (
                self,
                Err(fault("TypeError", "mappingproxy does not support item assignment")),
            ),
            Ok(ObjectView::List(values)) => match self.list_index(
                key,
                values.len() as int,
                "list index out of range",
            ) {
                Err(error) => (self, Err(error)),
                Ok(i) => (
                    self.barrier(target, value).with(
                        target,
                        ObjectView::List(values.update(i, value)),
                    ),
                    Ok(()),
                ),
            },
            Ok(_) => (
                self,
                match self.integer(key) {
                    Err(error) => Err(error),
                    Ok(n) => if i128::MIN <= n <= i128::MAX {
                        Err(fault("TypeError", "object does not support item assignment"))
                    } else {
                        Err(fault("IndexError", "list index out of range"))
                    },
                },
            ),
        }
    }

    /// An item deleted: the heap afterwards, and the result.
    pub open spec fn delete_item(self, owner: Value, key: Value) -> (
        HeapView,
        core::result::Result<(), Fault>,
    ) {
        let target = self.native(owner);
        match self.found(target) {
            Err(error) => (self, Err(error)),
            Ok(ObjectView::Dict(_)) => self.dict_delete(target, key),
            Ok(ObjectView::MappingProxy { .. }) => (
                self,
                Err(fault("TypeError", "mappingproxy does not support item deletion")),
            ),
            Ok(ObjectView::List(values)) => match self.list_index(
                key,
                values.len() as int,
                "list assignment index out of range",
            ) {
                Err(error) => (self, Err(error)),
                Ok(i) => (self.with(target, ObjectView::List(values.remove(i))), Ok(())),
            },
            Ok(_) => (
                self,
                match self.integer(key) {
                    Err(error) => Err(error),
                    Ok(n) => if i128::MIN <= n <= i128::MAX {
                        Err(fault("TypeError", "object does not support item deletion"))
                    } else {
                        Err(fault("IndexError", "list assignment index out of range"))
                    },
                },
            ),
        }
    }
}

proof fn lemma_keys_fault(heap: HeapView, values: Seq<Value>, depth: int, i: int)
    requires
        0 <= i <= values.len(),
        depth <= 101,
        heap.dict_keys(values.take(i), depth) is Err,
    ensures
        heap.dict_keys(values, depth) == heap.dict_keys(values.take(i), depth),
    decreases values.len() - i,
{
    if i < values.len() {
        assert(values.take(i + 1).drop_last() =~= values.take(i));
        lemma_keys_fault(heap, values, depth, i + 1);
    } else {
        assert(values.take(i) =~= values);
    }
}

/// What setting a new text key does to the estimates: the key is an object
/// more, and the entry is what the dictionary grows by.
pub open spec fn text_set_counted(
    before: HeapView,
    after: HeapView,
    first: Tally,
    last: Tally,
    owner: Value,
    name: Seq<char>,
    done: bool,
) -> bool {
    let made = before.allocated(before.upcoming(), ObjectView::Str(name));
    let target = made.native(owner);
    exists|begun: Tally|
        #![trigger first.adds(begun, ObjectView::Str(name))]
        first.adds(begun, ObjectView::Str(name)) && if done {
            begun.gains(last, made.objects[target], after.objects[target])
        } else {
            last == begun
        }
}

/// What setting entries in turn does to the estimates, from an entry on.
pub open spec fn entries_counted(
    heap: HeapView,
    first: Tally,
    last: Tally,
    owner: Value,
    entries: Seq<(Value, Value)>,
    from: int,
) -> bool
    decreases entries.len() - from,
{
    if from < 0 || from >= entries.len() {
        last == first
    } else {
        let change = heap.dict_set(owner, entries[from].0, entries[from].1);
        let target = heap.native(owner);
        match change.1 {
            Err(_) => last == first,
            Ok(_) => exists|next: Tally|
                #![trigger first.gains(next, heap.objects[target], change.0.objects[target])]
                first.gains(next, heap.objects[target], change.0.objects[target])
                    && entries_counted(change.0, next, last, owner, entries, from + 1),
        }
    }
}

/// What deleting a key does to the estimates.
pub open spec fn delete_counted(
    before: HeapView,
    after: HeapView,
    first: Tally,
    last: Tally,
    owner: Value,
    key: Value,
) -> bool {
    let target = before.native(owner);
    match (before.dict_key(key, 0), before.dict(owner)) {
        (Ok(material), Ok(dict)) => if dict.find(material) is Some {
            first.loses(last, before.objects[target], after.objects[target])
        } else {
            last == first
        },
        _ => last == first,
    }
}

impl Heap {
    fn dict_key(&self, value: Value, depth: usize) -> (r: Result<Key>)
        requires
            self.wf(),
            depth <= 101,
        ensures
            match r {
                Ok(key) => self@.dict_key(value, depth as int) == Ok::<KeyView, Fault>(
                    key.material(),
                ),
                Err(error) => self@.dict_key(value, depth as int) == Err::<KeyView, Fault>(
                    error@,
                ),
            },
        decreases 101 - depth, 0int,
    {
        if depth > 100 {
            return Err(Diagnostic::new("RecursionError", "dictionary key nesting limit"));
        }
        let identity = value;
        let value = self.native_value(value);
        if value == Value::none() {
            return Ok(Key::Nothing);
        }
        if value == Value::not_implemented() {
            return Ok(Key::NotImplemented);
        }
        if let Some(n) = value.integer() {
            return Ok(Key::SmallInt(n));
        }
        let object = match self.get(value) {
            Ok(object) => object,
            Err(error) => {
                return Err(error);
            },
        };
        match object {
            Object::Int(n) => Ok(
                match n.to_i64() {
                    Some(n) => Key::SmallInt(n),
                    None => Key::BigInt(n.copy()),
                },
            ),
            Object::Float(bits) => if float::nan(*bits) {
                Ok(Key::NaN(identity.raw()))
            } else if float::integral(*bits) {
                let n = float::truncated(*bits);
                Ok(
                    match n.to_i64() {
                        Some(n) => Key::SmallInt(n),
                        None => Key::BigInt(n),
                    },
                )
            } else {
                Ok(Key::Float(*bits))
            },
            Object::Str(text) => Ok(Key::Text(text.clone())),
            Object::Tuple(values) => match self.dict_keys(values, depth + 1) {
                Ok(keys) => Ok(Key::Tuple(keys)),
                Err(error) => Err(error),
            },
            Object::Slice { start, stop, step } => {
                let mut parts: Vec<Value> = Vec::new();
                parts.push(*start);
                parts.push(*stop);
                parts.push(*step);
                assert(parts@ =~= seq![*start, *stop, *step]);
                match self.dict_keys(&parts, depth + 1) {
                    Ok(keys) => Ok(Key::Slice(keys)),
                    Err(error) => Err(error),
                }
            },
            Object::Range { start, stop, step } => {
                let length = range_length(*start, *stop, *step);
                Ok(
                    Key::Range {
                        length,
                        start: if length != 0 {
                            Some(*start)
                        } else {
                            None
                        },
                        step: if length > 1 {
                            Some(*step)
                        } else {
                            None
                        },
                    },
                )
            },
            Object::Function { .. }
            | Object::Builtin(_)
            | Object::Native(_)
            | Object::Class(_)
            | Object::Instance { .. }
            | Object::Exception { .. }
            | Object::StaticMethod(_)
            | Object::ClassMethod(_)
            | Object::Property { .. }
            | Object::PropertySetter(_) => Ok(Key::Identity(value.raw())),
            Object::BoundMethod { function, receiver } => {
                let first = match self.dict_key(*function, depth + 1) {
                    Ok(key) => key,
                    Err(error) => {
                        return Err(error);
                    },
                };
                let second = match self.dict_key(*receiver, depth + 1) {
                    Ok(key) => key,
                    Err(error) => {
                        return Err(error);
                    },
                };
                Ok(Key::Method(Box::new(first), Box::new(second)))
            },
            _ => Err(Diagnostic::new("TypeError", "unhashable dictionary key")),
        }
    }

    fn dict_keys(&self, values: &Vec<Value>, depth: usize) -> (r: Result<Vec<Key>>)
        requires
            self.wf(),
            depth <= 101,
        ensures
            match r {
                Ok(keys) => self@.dict_keys(values@, depth as int) == Ok::<Seq<KeyView>, Fault>(
                    key_views(keys@),
                ),
                Err(error) => self@.dict_keys(values@, depth as int) == Err::<Seq<KeyView>, Fault>(
                    error@,
                ),
            },
        decreases 101 - depth, 1int,
    {
        let mut keys: Vec<Key> = Vec::new();
        let mut i: usize = 0;
        assert(values@.take(0) =~= Seq::<Value>::empty());
        while i < values.len()
            invariant
                self.wf(),
                depth <= 101,
                i <= values.len(),
                self@.dict_keys(values@.take(i as int), depth as int) == Ok::<Seq<KeyView>, Fault>(
                    key_views(keys@),
                ),
            decreases values.len() - i,
        {
            assert(values@.take(i + 1).drop_last() =~= values@.take(i as int));
            match self.dict_key(values[i], depth) {
                Ok(key) => {
                    let ghost before = keys@;
                    keys.push(key);
                    assert(keys@.drop_last() =~= before);
                },
                Err(error) => {
                    proof {
                        lemma_keys_fault(self@, values@, depth as int, i + 1);
                    }
                    return Err(error);
                },
            }
            i += 1;
        }
        assert(values@.take(i as int) =~= values@);
        Ok(keys)
    }

    /// The dictionary behind a value.
    pub fn dict(&self, owner: Value) -> (r: Result<&Dict>)
        requires
            self.wf(),
        ensures
            match r {
                Ok(dict) => self@.dict(owner) == Ok::<DictView, Fault>(dict@) && dict.wf(),
                Err(error) => self@.dict(owner) == Err::<DictView, Fault>(error@),
            },
    {
        match self.get(self.native_value(owner)) {
            Err(error) => Err(error),
            Ok(Object::Dict(dict)) => Ok(dict),
            Ok(_) => Err(Diagnostic::new("TypeError", "expected dict")),
        }
    }

    pub fn dict_get_str(&self, owner: Value, name: &str) -> (r: Result<Option<Value>>)
        requires
            self.wf(),
        ensures
            outcome(r) == match self@.dict(owner) {
                Ok(dict) => Ok(dict.value_of(KeyView::Text(name@))),
                Err(error) => Err(error),
            },
    {
        let dict = match self.dict(owner) {
            Ok(dict) => dict,
            Err(error) => {
                return Err(error);
            },
        };
        let material = Key::Text(name.to_owned());
        Ok(
            match dict.find(&material) {
                Some(i) => Some(dict.entries()[i].1),
                None => None,
            },
        )
    }

    pub fn dict_entries(&self, owner: Value) -> (r: Result<Vec<(Value, Value)>>)
        requires
            self.wf(),
        ensures
            match r {
                Ok(entries) => self@.dict(owner) matches Ok(dict) && entries@ == dict.entries,
                Err(error) => self@.dict(owner) == Err::<DictView, Fault>(error@),
            },
    {
        match self.dict(owner) {
            Ok(dict) => Ok(copy_pairs(dict.entries())),
            Err(error) => Err(error),
        }
    }

    pub fn dict_get(&self, owner: Value, key: Value) -> (r: Result<Option<Value>>)
        requires
            self.wf(),
        ensures
            outcome(r) == self@.dict_get(owner, key),
    {
        let material = match self.dict_key(key, 0) {
            Ok(material) => material,
            Err(error) => {
                return Err(error);
            },
        };
        let dict = match self.dict(owner) {
            Ok(dict) => dict,
            Err(error) => {
                return Err(error);
            },
        };
        Ok(
            match dict.find(&material) {
                Some(i) => Some(dict.entries()[i].1),
                None => None,
            },
        )
    }

    /// Whether two values are one key to a dictionary.
    pub fn dict_keys_equal(&self, a: Value, b: Value) -> (r: Result<bool>)
        requires
            self.wf(),
        ensures
            outcome(r) == self@.keys_equal(a, b),
    {
        let x = match self.dict_key(a, 0) {
            Ok(x) => x,
            Err(error) => {
                return Err(error);
            },
        };
        let y = match self.dict_key(b, 0) {
            Ok(y) => y,
            Err(error) => {
                return Err(error);
            },
        };
        Ok(x.equals(&y))
    }

    /// Single dictionary mutation boundary for the generational write barrier.
    pub fn dict_set(&mut self, owner: Value, key: Value, value: Value) -> (r: Result<()>)
        requires
            old(self).wf(),
        ensures
            final(self).wf(),
            (final(self)@, outcome(r)) == old(self)@.dict_set(owner, key, value),
            old(self)@.sound() && old(self)@.known(key) && old(self)@.known(value)
                ==> final(self)@.sound(),
            match r {
                Ok(_) => old(self).tally().gains(
                    final(self).tally(),
                    old(self)@.objects[old(self)@.native(owner)],
                    final(self)@.objects[old(self)@.native(owner)],
                ),
                Err(_) => final(self).tally() == old(self).tally(),
            },
    {
        proof {
            reveal(HeapView::dict_set);
        }
        let target = self.native_value(owner);
        let material = match self.dict_key(key, 0) {
            Ok(material) => material,
            Err(error) => {
                return Err(error);
            },
        };
        let ghost before = self@;
        proof {
            self.lemma_view();
        }
        self.write_barrier_pair(target, key, value);
        let ghost barred = self@;
        proof {
            if before.sound() {
                barrier_keeps_sound(before, target, key);
                barrier_keeps_sound(before.barrier(target, key), target, value);
            }
        }
        let found = match self.get(target) {
            Err(error) => {
                return Err(error);
            },
            Ok(Object::Dict(dict)) => {
                let found = dict.find(&material);
                if found.is_none() && dict.version() == u64::MAX {
                    return Err(Diagnostic::new("RuntimeError", "dict version exhausted"));
                }
                found
            },
            Ok(_) => {
                return Err(Diagnostic::new("TypeError", "expected dict"));
            },
        };
        let hash = material.hash();
        let size = self.weight(target);
        if let Ok(Object::Dict(dict)) = self.get_mut(target) {
            match found {
                Some(i) => dict.replace(i, value),
                None => dict.push(key, value, material, hash),
            }
            proof {
                dict.lemma_view_wf();
            }
        }
        proof {
            let dict = before.objects[target]->Dict_0;
            let after = self@.objects[target]->Dict_0;
            if before.sound() && before.known(key) && before.known(value) {
                lemma_dict_edges(dict, after, key, value);
                store_keeps_sound(before, barred, target, ObjectView::Dict(after));
            }
        }
        let weight = self.weight(target);
        self.grow(weight.saturating_sub(size));
        Ok(())
    }

    pub fn dict_set_str(&mut self, owner: Value, name: &str, value: Value) -> (r: Result<()>)
        requires
            old(self).wf(),
        ensures
            final(self).wf(),
            if old(self)@.room == 0 {
                outcome(r) == Err::<(), Fault>(no_memory()) && final(self)@ == old(self)@
                    && final(self).tally() == old(self).tally()
            } else {
                exists|key: Value|
                    #![trigger old(self)@.fresh(key)]
                    old(self)@.fresh(key) && (final(self)@, outcome(r)) == old(self)@.allocated(
                        key,
                        ObjectView::Str(name@),
                    ).dict_set(owner, key, value)
            },
            old(self)@.sound() && old(self)@.known(value) ==> final(self)@.sound(),
            old(self)@.room > 0 ==> text_set_counted(
                old(self)@,
                final(self)@,
                old(self).tally(),
                final(self).tally(),
                owner,
                name@,
                r is Ok,
            ),
    {
        proof {
            self.lemma_view();
        }
        let key = match self.allocate(Object::Str(name.to_owned())) {
            Ok(key) => key,
            Err(error) => {
                return Err(error);
            },
        };
        assert(old(self)@.fresh(key));
        proof {
            if old(self)@.sound() {
                allocation_keeps_sound(old(self)@, key, ObjectView::Str(name@));
            }
        }
        self.dict_set(owner, key, value)
    }

    pub fn dict_delete(&mut self, owner: Value, key: Value) -> (r: Result<()>)
        requires
            old(self).wf(),
        ensures
            final(self).wf(),
            (final(self)@, outcome(r)) == old(self)@.dict_delete(owner, key),
            old(self)@.sound() ==> final(self)@.sound(),
            delete_counted(
                old(self)@,
                final(self)@,
                old(self).tally(),
                final(self).tally(),
                owner,
                key,
            ),
    {
        let target = self.native_value(owner);
        let material = match self.dict_key(key, 0) {
            Ok(material) => material,
            Err(error) => {
                return Err(error);
            },
        };
        let found = match self.dict(owner) {
            Err(error) => {
                return Err(error);
            },
            Ok(dict) => dict.find(&material),
        };
        match found {
            None => Err(self.missing_key(key)),
            Some(i) => self.remove_entry(target, i),
        }
    }

    /// Removes the entry at a position of a dictionary.
    fn remove_entry(&mut self, target: Value, i: usize) -> (r: Result<()>)
        requires
            old(self).wf(),
            old(self)@.at(target) matches Some(ObjectView::Dict(dict)) && i < dict.entries.len(),
        ensures
            final(self).wf(),
            final(self)@ == old(self)@.with(
                target,
                ObjectView::Dict(old(self)@.objects[target]->Dict_0.removed(i as int)),
            ),
            outcome(r) == if old(self)@.objects[target]->Dict_0.version == u64::MAX {
                Err(fault("RuntimeError", "dict version exhausted"))
            } else {
                Ok(())
            },
            old(self)@.sound() ==> final(self)@.sound(),
            old(self).tally().loses(
                final(self).tally(),
                old(self)@.objects[target],
                final(self)@.objects[target],
            ),
    {
        let ghost before = self@;
        proof {
            self.lemma_view();
        }
        let mut counted = true;
        let size = self.weight(target);
        if let Ok(Object::Dict(dict)) = self.get_mut(target) {
            counted = dict.remove(i);
            proof {
                dict.lemma_view_wf();
            }
        }
        proof {
            let dict = before.objects[target]->Dict_0;
            if before.sound() {
                lemma_removed_edges(dict, i as int);
                narrowing_keeps_sound(before, target, ObjectView::Dict(dict.removed(i as int)));
            }
        }
        let weight = self.weight(target);
        self.shrink(size.saturating_sub(weight));
        if counted {
            Ok(())
        } else {
            Err(Diagnostic::new("RuntimeError", "dict version exhausted"))
        }
    }

    /// Sets every entry of another dictionary.
    pub fn dict_merge(&mut self, owner: Value, other: Value) -> (r: Result<()>)
        requires
            old(self).wf(),
        ensures
            final(self).wf(),
            match old(self)@.found(old(self)@.native(other)) {
                Err(error) => outcome(r) == Err::<(), Fault>(error) && final(self)@ == old(
                    self,
                )@,
                Ok(ObjectView::Dict(dict)) => if old(self)@.native(owner) == old(self)@.native(
                    other,
                ) {
                    r is Ok && final(self)@ == old(self)@
                } else {
                    (final(self)@, outcome(r)) == old(self)@.dict_set_all(
                        old(self)@.native(owner),
                        dict.entries,
                    )
                },
                Ok(_) => outcome(r) == Err::<(), Fault>(
                    fault("TypeError", "dictionary unpacking requires a mapping"),
                ) && final(self)@ == old(self)@,
            },
            old(self)@.sound() ==> final(self)@.sound(),
            match old(self)@.at(old(self)@.native(other)) {
                Some(ObjectView::Dict(dict)) => if old(self)@.native(owner) == old(self)@.native(
                    other,
                ) {
                    final(self).tally() == old(self).tally()
                } else {
                    entries_counted(
                        old(self)@,
                        old(self).tally(),
                        final(self).tally(),
                        old(self)@.native(owner),
                        dict.entries,
                        0,
                    )
                },
                _ => final(self).tally() == old(self).tally(),
            },
    {
        let target = self.native_value(owner);
        let source = self.native_value(other);
        let entries = match self.get(source) {
            Err(error) => {
                return Err(error);
            },
            Ok(Object::Dict(dict)) => {
                if target == source {
                    return Ok(());
                }
                copy_pairs(dict.entries())
            },
            Ok(_) => {
                return Err(
                    Diagnostic::new("TypeError", "dictionary unpacking requires a mapping"),
                );
            },
        };
        proof {
            if self@.sound() {
                lemma_entries_known(self@, source);
            }
        }
        self.dict_set_all(target, &entries)
    }

    /// Sets entries in turn, up to the first that fails.
    pub fn dict_set_all(&mut self, owner: Value, entries: &Vec<(Value, Value)>) -> (r: Result<()>)
        requires
            old(self).wf(),
        ensures
            final(self).wf(),
            (final(self)@, outcome(r)) == old(self)@.dict_set_all(owner, entries@),
            old(self)@.sound() && entries_known(old(self)@, entries@) ==> final(self)@.sound(),
            entries_counted(
                old(self)@,
                old(self).tally(),
                final(self).tally(),
                owner,
                entries@,
                0,
            ),
    {
        let ghost before = self@;
        let ghost first = self.tally();
        let mut i: usize = 0;
        assert(entries@.take(0) =~= Seq::empty());
        while i < entries.len()
            invariant
                self.wf(),
                i <= entries.len(),
                before == old(self)@,
                before.dict_set_all(owner, entries@.take(i as int)) == (
                    self@,
                    Ok::<(), Fault>(()),
                ),
                self@.issued == before.issued,
                first == old(self).tally(),
                forall|last: Tally| #[trigger]
                    entries_counted(self@, self.tally(), last, owner, entries@, i as int)
                        ==> entries_counted(before, first, last, owner, entries@, 0),
                before.sound() && entries_known(before, entries@) ==> self@.sound(),
            decreases entries.len() - i,
        {
            proof {
                assert(entries@.take(i + 1).drop_last() =~= entries@.take(i as int));
                lemma_dict_set_frame(self@, owner, entries@[i as int].0, entries@[i as int].1);
                if entries_known(before, entries@) {
                    assert(before.known(entries@[i as int].0));
                    assert(self@.known(entries@[i as int].0));
                    assert(self@.known(entries@[i as int].1));
                }
            }
            let ghost held = self@;
            let ghost start = self.tally();
            let ghost target = held.native(owner);
            match self.dict_set(owner, entries[i].0, entries[i].1) {
                Ok(_) => {
                    assert(start.gains(
                        self.tally(),
                        held.objects[target],
                        self@.objects[target],
                    ));
                    assert forall|last: Tally| #[trigger]
                        entries_counted(
                            self@,
                            self.tally(),
                            last,
                            owner,
                            entries@,
                            i + 1,
                        ) implies entries_counted(before, first, last, owner, entries@, 0) by {
                        assert(entries_counted(held, start, last, owner, entries@, i as int));
                    }
                },
                Err(error) => {
                    proof {
                        lemma_set_all_fault(before, owner, entries@, i + 1);
                        assert(entries_counted(held, start, start, owner, entries@, i as int));
                    }
                    return Err(error);
                },
            }
            i += 1;
        }
        assert(entries@.take(i as int) =~= entries@);
        assert(entries_counted(self@, self.tally(), self.tally(), owner, entries@, i as int));
        Ok(())
    }

    /// Empties a dictionary.
    pub fn dict_clear(&mut self, owner: Value) -> (r: Result<()>)
        requires
            old(self).wf(),
        ensures
            final(self).wf(),
            match old(self)@.dict(owner) {
                Err(error) => outcome(r) == Err::<(), Fault>(error) && final(self)@ == old(
                    self,
                )@,
                Ok(dict) => (final(self)@, outcome(r)) == old(self)@.dict_changed(
                    owner,
                    dict,
                    DictView { version: dict.next_version(), ..DictView::empty() },
                ),
            },
            old(self)@.sound() ==> final(self)@.sound(),
            match old(self)@.dict(owner) {
                Ok(_) => old(self).tally().loses(
                    final(self).tally(),
                    old(self)@.objects[old(self)@.native(owner)],
                    final(self)@.objects[old(self)@.native(owner)],
                ),
                Err(_) => final(self).tally() == old(self).tally(),
            },
    {
        let target = self.native_value(owner);
        match self.dict(owner) {
            Err(error) => {
                return Err(error);
            },
            Ok(_) => {},
        }
        let ghost before = self@;
        proof {
            self.lemma_view();
        }
        let mut counted = true;
        let size = self.weight(target);
        if let Ok(Object::Dict(dict)) = self.get_mut(target) {
            counted = dict.clear();
            proof {
                dict.lemma_view_wf();
            }
        }
        proof {
            if before.sound() {
                narrowing_keeps_sound(before, target, self@.objects[target]);
            }
        }
        let weight = self.weight(target);
        self.shrink(size.saturating_sub(weight));
        if counted {
            Ok(())
        } else {
            Err(Diagnostic::new("RuntimeError", "dict version exhausted"))
        }
    }

    /// The position an index stands for in a list of `len` items.
    fn list_index(&self, key: Value, len: usize, message: &'static str) -> (r: Result<usize>)
        requires
            self.wf(),
        ensures
            match r {
                Ok(i) => self@.list_index(key, len as int, message) == Ok::<int, Fault>(i as int)
                    && i < len,
                Err(error) => self@.list_index(key, len as int, message) == Err::<int, Fault>(
                    error@,
                ),
            },
    {
        let n = match self.integer(key) {
            Ok(n) => n,
            Err(error) => {
                return Err(error);
            },
        };
        let i = match n.to_i128() {
            Some(i) => i,
            None => {
                return Err(Diagnostic::new("IndexError", message));
            },
        };
        let i = if i < 0 {
            i + len as i128
        } else {
            i
        };
        if i < 0 || i >= len as i128 {
            return Err(Diagnostic::new("IndexError", message));
        }
        Ok(i as usize)
    }

    pub fn set_item(&mut self, owner: Value, key: Value, value: Value) -> (r: Result<()>)
        requires
            old(self).wf(),
        ensures
            final(self).wf(),
            (final(self)@, outcome(r)) == old(self)@.set_item(owner, key, value),
            old(self)@.sound() && old(self)@.known(key) && old(self)@.known(value)
                ==> final(self)@.sound(),
            if r is Ok && old(self)@.objects[old(self)@.native(owner)] is Dict {
                old(self).tally().gains(
                    final(self).tally(),
                    old(self)@.objects[old(self)@.native(owner)],
                    final(self)@.objects[old(self)@.native(owner)],
                )
            } else {
                final(self).tally() == old(self).tally()
            },
    {
        let target = self.native_value(owner);
        let ghost before = self@;
        proof {
            self.lemma_view();
        }
        let index = match self.get(target) {
            Err(error) => {
                return Err(error);
            },
            Ok(Object::Dict(_)) => None,
            Ok(Object::MappingProxy { .. }) => {
                return Err(
                    Diagnostic::new("TypeError", "mappingproxy does not support item assignment"),
                );
            },
            Ok(Object::List(values)) => match self.list_index(
                key,
                values.len(),
                "list index out of range",
            ) {
                Err(error) => {
                    return Err(error);
                },
                Ok(i) => Some(i),
            },
            Ok(_) => {
                return Err(
                    match self.integer(key) {
                        Err(error) => error,
                        Ok(n) => match n.to_i128() {
                            Some(_) => Diagnostic::new(
                                "TypeError",
                                "object does not support item assignment",
                            ),
                            None => Diagnostic::new("IndexError", "list index out of range"),
                        },
                    },
                );
            },
        };
        match index {
            None => self.dict_set(target, key, value),
            Some(i) => {
                self.write_barrier(target, value);
                if let Ok(Object::List(values)) = self.get_mut(target) {
                    values.set(i, value);
                }
                proof {
                    let values = before.objects[target]->List_0;
                    if before.sound() && before.known(value) {
                        lemma_updated(values, i as int, value);
                        crate::soundness::barred_store_keeps_sound(
                            before,
                            target,
                            value,
                            ObjectView::List(values.update(i as int, value)),
                        );
                    }
                }
                Ok(())
            },
        }
    }

    pub fn delete_item(&mut self, owner: Value, key: Value) -> (r: Result<()>)
        requires
            old(self).wf(),
        ensures
            final(self).wf(),
            (final(self)@, outcome(r)) == old(self)@.delete_item(owner, key),
            old(self)@.sound() ==> final(self)@.sound(),
            if old(self)@.at(old(self)@.native(owner)) matches Some(ObjectView::Dict(_)) {
                delete_counted(
                    old(self)@,
                    final(self)@,
                    old(self).tally(),
                    final(self).tally(),
                    old(self)@.native(owner),
                    key,
                )
            } else {
                final(self).tally() == old(self).tally()
            },
    {
        let target = self.native_value(owner);
        let ghost before = self@;
        proof {
            self.lemma_view();
        }
        let index = match self.get(target) {
            Err(error) => {
                return Err(error);
            },
            Ok(Object::Dict(_)) => None,
            Ok(Object::MappingProxy { .. }) => {
                return Err(
                    Diagnostic::new("TypeError", "mappingproxy does not support item deletion"),
                );
            },
            Ok(Object::List(values)) => match self.list_index(
                key,
                values.len(),
                "list assignment index out of range",
            ) {
                Err(error) => {
                    return Err(error);
                },
                Ok(i) => Some(i),
            },
            Ok(_) => {
                return Err(
                    match self.integer(key) {
                        Err(error) => error,
                        Ok(n) => match n.to_i128() {
                            Some(_) => Diagnostic::new(
                                "TypeError",
                                "object does not support item deletion",
                            ),
                            None => Diagnostic::new(
                                "IndexError",
                                "list assignment index out of range",
                            ),
                        },
                    },
                );
            },
        };
        match index {
            None => self.dict_delete(target, key),
            Some(i) => {
                if let Ok(Object::List(values)) = self.get_mut(target) {
                    values.remove(i);
                }
                proof {
                    let values = before.objects[target]->List_0;
                    if before.sound() {
                        lemma_removed(values, i as int);
                        narrowing_keeps_sound(
                            before,
                            target,
                            ObjectView::List(values.remove(i as int)),
                        );
                    }
                }
                Ok(())
            },
        }
    }

    /// The positions at which a dictionary files a hash.
    pub fn dict_candidates(&self, owner: Value, hash: i64) -> (r: Result<Vec<usize>>)
        requires
            self.wf(),
        ensures
            match r {
                Ok(positions) => self@.dict(owner) matches Ok(dict) && positions@
                    == dict.candidates(bucket(hash as int)),
                Err(error) => self@.dict(owner) == Err::<DictView, Fault>(error@),
            },
    {
        match self.dict(owner) {
            Ok(dict) => Ok(dict.candidates(hash)),
            Err(error) => Err(error),
        }
    }

    pub fn dict_version(&self, owner: Value) -> (r: Result<u64>)
        requires
            self.wf(),
        ensures
            outcome(r) == match self@.dict(owner) {
                Ok(dict) => Ok(dict.version),
                Err(error) => Err(error),
            },
    {
        match self.dict(owner) {
            Ok(dict) => Ok(dict.version()),
            Err(error) => Err(error),
        }
    }

    pub fn dict_len(&self, owner: Value) -> (r: Result<usize>)
        requires
            self.wf(),
        ensures
            match r {
                Ok(len) => self@.dict(owner) matches Ok(dict) && len == dict.entries.len(),
                Err(error) => self@.dict(owner) == Err::<DictView, Fault>(error@),
            },
    {
        match self.dict(owner) {
            Ok(dict) => Ok(dict.len()),
            Err(error) => Err(error),
        }
    }

    pub fn dict_entry_at(&self, owner: Value, index: usize) -> (r: Result<(Value, Value)>)
        requires
            self.wf(),
        ensures
            outcome(r) == match self@.dict(owner) {
                Ok(dict) => if index < dict.entries.len() {
                    Ok(dict.entries[index as int])
                } else {
                    Err(fault("RuntimeError", "stale dictionary candidate"))
                },
                Err(error) => Err(error),
            },
    {
        match self.dict(owner) {
            Ok(dict) => if index < dict.len() {
                let entry = &dict.entries()[index];
                Ok((entry.0, entry.1))
            } else {
                Err(Diagnostic::new("RuntimeError", "stale dictionary candidate"))
            },
            Err(error) => Err(error),
        }
    }

    /// Sets an entry whose hash, and whose position if it is there, the caller
    /// found by the language's own protocols.
    pub fn dict_set_hashed(
        &mut self,
        owner: Value,
        key: Value,
        value: Value,
        hash: i64,
        matched: Option<usize>,
    ) -> (r: Result<()>)
        requires
            old(self).wf(),
        ensures
            final(self).wf(),
            (final(self)@, outcome(r)) == old(self)@.dict_set_hashed(
                owner,
                key,
                value,
                hash,
                matched,
            ),
            old(self)@.sound() && old(self)@.known(key) && old(self)@.known(value)
                ==> final(self)@.sound(),
            match r {
                Ok(_) => old(self).tally().gains(
                    final(self).tally(),
                    old(self)@.objects[old(self)@.native(owner)],
                    final(self)@.objects[old(self)@.native(owner)],
                ),
                Err(_) => final(self).tally() == old(self).tally(),
            },
    {
        let target = self.native_value(owner);
        let material = match self.dict_key(key, 0) {
            Ok(material) => material,
            Err(error) => {
                return Err(error);
            },
        };
        let ghost before = self@;
        proof {
            self.lemma_view();
        }
        self.write_barrier_pair(target, key, value);
        let ghost barred = self@;
        proof {
            if before.sound() {
                barrier_keeps_sound(before, target, key);
                barrier_keeps_sound(before.barrier(target, key), target, value);
            }
        }
        match self.get(target) {
            Err(error) => {
                return Err(error);
            },
            Ok(Object::Dict(dict)) => match matched {
                Some(i) => {
                    if i >= dict.len() {
                        return Err(Diagnostic::new("RuntimeError", "stale dictionary candidate"));
                    }
                },
                None => {
                    if dict.version() == u64::MAX {
                        return Err(Diagnostic::new("RuntimeError", "dict version exhausted"));
                    }
                },
            },
            Ok(_) => {
                return Err(Diagnostic::new("TypeError", "expected dict"));
            },
        }
        let size = self.weight(target);
        if let Ok(Object::Dict(dict)) = self.get_mut(target) {
            match matched {
                Some(i) => dict.replace(i, value),
                None => dict.push(key, value, material, hash),
            }
            proof {
                dict.lemma_view_wf();
            }
        }
        proof {
            let dict = before.objects[target]->Dict_0;
            let after = self@.objects[target]->Dict_0;
            if before.sound() && before.known(key) && before.known(value) {
                lemma_dict_edges(dict, after, key, value);
                store_keeps_sound(before, barred, target, ObjectView::Dict(after));
            }
        }
        let weight = self.weight(target);
        self.grow(weight.saturating_sub(size));
        Ok(())
    }

    /// Deletes the entry at a position that the caller found.
    pub fn dict_delete_at(&mut self, owner: Value, index: usize) -> (r: Result<()>)
        requires
            old(self).wf(),
        ensures
            final(self).wf(),
            match old(self)@.dict(owner) {
                Err(error) => outcome(r) == Err::<(), Fault>(error) && final(self)@ == old(
                    self,
                )@,
                Ok(dict) => if index < dict.entries.len() {
                    (final(self)@, outcome(r)) == old(self)@.dict_changed(
                        owner,
                        dict,
                        dict.removed(index as int),
                    )
                } else {
                    outcome(r) == Err::<(), Fault>(
                        fault("RuntimeError", "stale dictionary candidate"),
                    ) && final(self)@ == old(self)@
                },
            },
            old(self)@.sound() ==> final(self)@.sound(),
            if old(self)@.dict(owner) matches Ok(dict) && index < dict.entries.len() {
                old(self).tally().loses(
                    final(self).tally(),
                    old(self)@.objects[old(self)@.native(owner)],
                    final(self)@.objects[old(self)@.native(owner)],
                )
            } else {
                final(self).tally() == old(self).tally()
            },
    {
        let target = self.native_value(owner);
        match self.dict(owner) {
            Err(error) => {
                return Err(error);
            },
            Ok(dict) => {
                if index >= dict.len() {
                    return Err(Diagnostic::new("RuntimeError", "stale dictionary candidate"));
                }
            },
        }
        self.remove_entry(target, index)
    }
}

proof fn lemma_set_all_fault(heap: HeapView, owner: Value, entries: Seq<(Value, Value)>, i: int)
    requires
        0 <= i <= entries.len(),
        heap.dict_set_all(owner, entries.take(i)).1 is Err,
    ensures
        heap.dict_set_all(owner, entries) == heap.dict_set_all(owner, entries.take(i)),
    decreases entries.len() - i,
{
    if i < entries.len() {
        assert(entries.take(i + 1).drop_last() =~= entries.take(i));
        lemma_set_all_fault(heap, owner, entries, i + 1);
    } else {
        assert(entries.take(i) =~= entries);
    }
}

/// What a list with one value replaced holds.
proof fn lemma_updated(values: Seq<Value>, i: int, value: Value)
    requires
        0 <= i < values.len(),
    ensures
        forall|e: Value| #[trigger]
            values.update(i, value).contains(e) ==> values.contains(e) || e == value,
{
    assert forall|e: Value| #[trigger] values.update(i, value).contains(e) implies values.contains(
        e,
    ) || e == value by {
        let k = choose|k: int|
            0 <= k < values.len() && values.update(i, value)[k] == e;
        if k != i {
            assert(values[k] == e);
        }
    }
}

/// What a list with one value removed holds.
proof fn lemma_removed(values: Seq<Value>, i: int)
    requires
        0 <= i < values.len(),
    ensures
        forall|e: Value| #[trigger] values.remove(i).contains(e) ==> values.contains(e),
{
    assert forall|e: Value| #[trigger] values.remove(i).contains(e) implies values.contains(e) by {
        let k = choose|k: int| 0 <= k < values.remove(i).len() && values.remove(i)[k] == e;
        let at = if k < i {
            k
        } else {
            k + 1
        };
        assert(values[at] == e);
    }
}

/// Replacing or adding an entry adds at most its key and value as edges.
proof fn lemma_dict_edges(before: DictView, after: DictView, key: Value, value: Value)
    requires
        after.entries == before.entries.push((key, value)) || exists|i: int|
            0 <= i < before.entries.len() && #[trigger] before.entries.update(
                i,
                (before.entries[i].0, value),
            ) == after.entries,
    ensures
        forall|e: Value| #[trigger]
            ObjectView::Dict(after).edges().contains(e) ==> ObjectView::Dict(
                before,
            ).edges().contains(e) || e == key || e == value,
{
    let (a, b) = (pair_values(after.entries), pair_values(before.entries));
    assert forall|e: Value| #[trigger] a.contains(e) implies b.contains(e) || e == key || e
        == value by {
        let k = choose|k: int| 0 <= k < a.len() && a[k] == e;
        let j = k / 2;
        assert(0 <= j < after.entries.len());
        if j < before.entries.len() && (k % 2 == 0 && after.entries[j].0 == before.entries[j].0
            || k % 2 != 0 && after.entries[j].1 == before.entries[j].1) {
            assert(b[k] == e);
        }
    }
}

/// Whether the keys and values of entries are no handles, or ones that were
/// given out.
pub open spec fn entries_known(heap: HeapView, entries: Seq<(Value, Value)>) -> bool {
    forall|i: int|
        0 <= i < entries.len() ==> heap.known(#[trigger] entries[i].0) && heap.known(entries[i].1)
}

/// A sound heap knows what its dictionaries hold.
pub proof fn lemma_entries_known(heap: HeapView, owner: Value)
    requires
        heap.sound(),
        heap.at(owner) matches Some(ObjectView::Dict(_)),
    ensures
        entries_known(heap, heap.objects[owner]->Dict_0.entries),
{
    let entries = heap.objects[owner]->Dict_0.entries;
    let edges = heap.objects[owner].edges();
    assert forall|i: int| 0 <= i < entries.len() implies heap.known(#[trigger] entries[i].0)
        && heap.known(entries[i].1) by {
        assert((2 * i) / 2 == i && (2 * i) % 2 == 0 && (2 * i + 1) / 2 == i && (2 * i + 1) % 2
            == 1);
        assert(edges[2 * i] == entries[i].0);
        assert(edges[2 * i + 1] == entries[i].1);
        assert(edges.contains(entries[i].0));
        assert(edges.contains(entries[i].1));
    }
}

/// Removing an entry adds no edge.
proof fn lemma_removed_edges(dict: DictView, i: int)
    requires
        0 <= i < dict.entries.len(),
    ensures
        forall|e: Value| #[trigger]
            ObjectView::Dict(dict.removed(i)).edges().contains(e) ==> ObjectView::Dict(
                dict,
            ).edges().contains(e),
{
    let (a, b) = (pair_values(dict.removed(i).entries), pair_values(dict.entries));
    assert forall|e: Value| #[trigger] a.contains(e) implies b.contains(e) by {
        let k = choose|k: int| 0 <= k < a.len() && a[k] == e;
        let j = k / 2;
        if j < i {
            assert(b[k] == e);
        } else {
            assert((k + 2) / 2 == j + 1 && (k + 2) % 2 == k % 2);
            assert(b[k + 2] == e);
        }
    }
}

/// Whether two heaps differ in nothing that keys are made of: one dictionary
/// may have other contents.
pub open spec fn same_but_dict(a: HeapView, b: HeapView, target: Value) -> bool {
    &&& a.at(target) matches Some(ObjectView::Dict(_))
    &&& b.at(target) matches Some(ObjectView::Dict(_))
    &&& forall|v: Value| v != target ==> #[trigger] a.at(v) == b.at(v)
}

/// Keys do not change with the contents of a dictionary, which is no key.
pub proof fn keys_are_stable(a: HeapView, b: HeapView, target: Value, value: Value, depth: int)
    requires
        same_but_dict(a, b, target),
    ensures
        a.dict_key(value, depth) == b.dict_key(value, depth),
        a.native(value) == b.native(value),
    decreases 101 - depth, 0int,
{
    assert(a.native(value) == b.native(value)) by {
        if value != target {
            assert(a.at(value) == b.at(value));
        }
    }
    let v = a.native(value);
    if depth <= 100 && v != target {
        assert(a.at(v) == b.at(v));
        match a.at(v) {
            Some(ObjectView::Tuple(items)) => lemma_key_lists(a, b, target, items, depth + 1),
            Some(ObjectView::Slice { start, stop, step }) => lemma_key_lists(
                a,
                b,
                target,
                seq![start, stop, step],
                depth + 1,
            ),
            Some(ObjectView::BoundMethod { function, receiver }) => {
                keys_are_stable(a, b, target, function, depth + 1);
                keys_are_stable(a, b, target, receiver, depth + 1);
            },
            _ => {},
        }
    }
}

proof fn lemma_key_lists(a: HeapView, b: HeapView, target: Value, values: Seq<Value>, depth: int)
    requires
        same_but_dict(a, b, target),
        depth <= 101,
    ensures
        a.dict_keys(values, depth) == b.dict_keys(values, depth),
    decreases 101 - depth, values.len() as int,
{
    if values.len() > 0 {
        lemma_key_lists(a, b, target, values.drop_last(), depth);
        keys_are_stable(a, b, target, values.last(), depth);
    }
}

/// A dictionary gives back what was set under a key, and under every other key
/// what it gave before.
pub proof fn dict_set_then_get(heap: HeapView, owner: Value, key: Value, value: Value, other: Value)
    requires
        heap.wf(),
        heap.dict_set(owner, key, value).1 is Ok,
    ensures
        heap.dict_set(owner, key, value).0.dict_get(owner, key) == Ok::<Option<Value>, Fault>(
            Some(value),
        ),
        heap.dict_key(other, 0) is Ok && heap.dict_key(other, 0) != heap.dict_key(key, 0)
            ==> heap.dict_set(owner, key, value).0.dict_get(owner, other) == heap.dict_get(
            owner,
            other,
        ),
{
    reveal(HeapView::dict_set);
    let after = heap.dict_set(owner, key, value).0;
    let target = heap.native(owner);
    let dict = heap.objects[target]->Dict_0;
    assert(dict.wf()) by {
        assert(heap.objects[target].wf(&heap.shapes));
    }
    assert(same_but_dict(heap, after, target));
    keys_are_stable(heap, after, target, key, 0);
    keys_are_stable(heap, after, target, other, 0);
    keys_are_stable(heap, after, target, owner, 0);
    let material = heap.dict_key(key, 0)->Ok_0;
    let held = after.objects[target]->Dict_0;
    match dict.find(material) {
        Some(i) => {
            crate::dict::lemma_first_match(
                dict.materials,
                dict.candidates(bucket(material.hash())),
                material,
            );
            crate::dict::lemma_filed(dict.hashes, bucket(material.hash()));
            assert(held.find(material) == Some(i));
            if let Ok(m) = heap.dict_key(other, 0) {
                crate::dict::lemma_first_match(
                    dict.materials,
                    dict.candidates(bucket(m.hash())),
                    m,
                );
                crate::dict::lemma_filed(dict.hashes, bucket(m.hash()));
            }
        },
        None => {
            lemma_find_added(dict, key, value, material, bucket(material.hash()), material);
            if let Ok(m) = heap.dict_key(other, 0) {
                lemma_find_added(dict, key, value, material, bucket(material.hash()), m);
            }
        },
    }
}

/// A deleted key is gone, and every other key reads as before, in a dictionary
/// that files no key twice; it goes on to file none twice.
pub proof fn dict_delete_then_get(heap: HeapView, owner: Value, key: Value, other: Value)
    requires
        heap.wf(),
        heap.dict(owner) matches Ok(dict) && dict.distinct(),
        heap.dict_delete(owner, key).1 is Ok,
    ensures
        heap.dict_delete(owner, key).0.dict_get(owner, key) == Ok::<Option<Value>, Fault>(None),
        heap.dict_key(other, 0) is Ok && heap.dict_key(other, 0) != heap.dict_key(key, 0)
            ==> heap.dict_delete(owner, key).0.dict_get(owner, other) == heap.dict_get(
            owner,
            other,
        ),
        heap.dict_delete(owner, key).0.dict(owner) matches Ok(dict) && dict.distinct(),
{
    let after = heap.dict_delete(owner, key).0;
    let target = heap.native(owner);
    let dict = heap.objects[target]->Dict_0;
    assert(dict.wf()) by {
        assert(heap.objects[target].wf(&heap.shapes));
    }
    assert(same_but_dict(heap, after, target));
    keys_are_stable(heap, after, target, key, 0);
    keys_are_stable(heap, after, target, other, 0);
    keys_are_stable(heap, after, target, owner, 0);
    let material = heap.dict_key(key, 0)->Ok_0;
    let i = dict.find(material)->Some_0;
    crate::dict::lemma_found_first(dict, material);
    crate::dict::lemma_found_without(dict, i, material);
    if let Ok(wanted) = heap.dict_key(other, 0) {
        crate::dict::lemma_found_without(dict, i, wanted);
    }
}

/// Setting a key files no key twice, in a dictionary that filed none twice.
pub proof fn dict_set_keeps_distinct(heap: HeapView, owner: Value, key: Value, value: Value)
    requires
        heap.wf(),
        heap.dict(owner) matches Ok(dict) && dict.distinct(),
    ensures
        heap.dict_set(owner, key, value).0.dict(owner) matches Ok(dict) && dict.distinct(),
{
    reveal(HeapView::dict_set);
    let target = heap.native(owner);
    let dict = heap.objects[target]->Dict_0;
    assert(dict.wf()) by {
        assert(heap.objects[target].wf(&heap.shapes));
    }
    let after = heap.dict_set(owner, key, value).0;
    assert(same_but_dict(heap, after, target));
    keys_are_stable(heap, after, target, owner, 0);
    if let Ok(material) = heap.dict_key(key, 0) {
        crate::dict::lemma_found_first(dict, material);
        if dict.find(material) is None {
            assert forall|i: int| 0 <= i < dict.entries.len() implies !(
            #[trigger] dict.materials[i] == material && dict.hashes[i] == bucket(
                material.hash(),
            )) by {
                assert(!dict.stands(material, i));
            }
        }
    }
}

/// Where a dictionary with an entry more finds keys.
proof fn lemma_find_added(
    dict: DictView,
    key: Value,
    value: Value,
    material: KeyView,
    hash: u64,
    wanted: KeyView,
)
    requires
        dict.wf(),
        hash == bucket(material.hash()),
    ensures
        dict.find(wanted) is Some ==> dict.added(key, value, material, hash).find(wanted)
            == dict.find(wanted) && 0 <= dict.find(wanted).unwrap() < dict.entries.len(),
        dict.find(wanted) is None && wanted == material ==> dict.added(
            key,
            value,
            material,
            hash,
        ).find(wanted) == Some(dict.entries.len() as int),
        dict.find(wanted) is None && wanted != material ==> dict.added(
            key,
            value,
            material,
            hash,
        ).find(wanted) is None,
{
    let after = dict.added(key, value, material, hash);
    let word = bucket(wanted.hash());
    assert(after.hashes.drop_last() =~= dict.hashes);
    crate::dict::lemma_filed(dict.hashes, word);
    let positions = dict.candidates(word);
    lemma_match_extended(dict.materials, after.materials, positions, wanted);
    crate::dict::lemma_first_match(dict.materials, positions, wanted);
    if word == hash {
        lemma_match_appended(after.materials, positions, dict.entries.len() as usize, wanted);
        if dict.entries.len() == usize::MAX {
            // A dictionary of that many entries has no position left.
            assert(after.candidates(word) == positions.push(dict.entries.len() as usize));
        }
    }
}

proof fn lemma_match_extended(
    materials: Seq<KeyView>,
    more: Seq<KeyView>,
    positions: Seq<usize>,
    wanted: KeyView,
)
    requires
        materials.len() <= more.len(),
        forall|i: int| 0 <= i < materials.len() ==> #[trigger] more[i] == materials[i],
        forall|k: int| 0 <= k < positions.len() ==> 0 <= #[trigger] positions[k] < materials.len(),
    ensures
        crate::dict::first_match(more, positions, wanted) == crate::dict::first_match(
            materials,
            positions,
            wanted,
        ),
    decreases positions.len(),
{
    if positions.len() > 0 {
        assert(0 <= positions[0] < materials.len());
        assert(more[positions[0] as int] == materials[positions[0] as int]);
        let rest = positions.drop_first();
        assert forall|k: int| 0 <= k < rest.len() implies 0 <= #[trigger] rest[k]
            < materials.len() by {
            assert(rest[k] == positions[k + 1]);
        }
        lemma_match_extended(materials, more, rest, wanted);
    }
}

proof fn lemma_match_appended(
    materials: Seq<KeyView>,
    positions: Seq<usize>,
    last: usize,
    wanted: KeyView,
)
    ensures
        crate::dict::first_match(materials, positions.push(last), wanted)
            == match crate::dict::first_match(materials, positions, wanted) {
            Some(i) => Some(i),
            None => if materials[last as int] == wanted {
                Some(last as int)
            } else {
                None
            },
        },
    decreases positions.len(),
{
    let all = positions.push(last);
    if positions.len() > 0 {
        assert(all[0] == positions[0]);
        assert(all.drop_first() =~= positions.drop_first().push(last));
        lemma_match_appended(materials, positions.drop_first(), last, wanted);
    } else {
        assert(all.drop_first() =~= Seq::<usize>::empty());
        assert(crate::dict::first_match(materials, all.drop_first(), wanted) is None);
    }
}

/// What a dictionary gives once an entry is set.
pub proof fn lemma_dict_bound(
    before: DictView,
    after: DictView,
    key: Value,
    value: Value,
    material: KeyView,
)
    requires
        before.wf(),
        match before.find(material) {
            Some(i) => after == before.replaced(i, value),
            None => after == before.added(key, value, material, bucket(material.hash())),
        },
    ensures
        forall|m: KeyView| #[trigger]
            after.value_of(m) == if m == material {
                Some(value)
            } else {
                before.value_of(m)
            },
{
    assert forall|m: KeyView| #[trigger] after.value_of(m) == if m == material {
        Some(value)
    } else {
        before.value_of(m)
    } by {
        match before.find(material) {
            Some(i) => {
                crate::dict::lemma_first_match(
                    before.materials,
                    before.candidates(bucket(material.hash())),
                    material,
                );
                crate::dict::lemma_filed(before.hashes, bucket(material.hash()));
                crate::dict::lemma_first_match(
                    before.materials,
                    before.candidates(bucket(m.hash())),
                    m,
                );
                crate::dict::lemma_filed(before.hashes, bucket(m.hash()));
            },
            None => {
                lemma_find_added(before, key, value, material, bucket(material.hash()), m);
            },
        }
    }
}

/// Setting an entry changes one dictionary and what is remembered, nothing
/// else.
pub proof fn lemma_dict_set_frame(heap: HeapView, owner: Value, key: Value, value: Value)
    ensures
        ({
            let after = heap.dict_set(owner, key, value).0;
            let target = heap.native(owner);
            &&& forall|v: Value| v != target ==> #[trigger] after.at(v) == heap.at(v)
            &&& forall|v: Value| #[trigger] after.live(v) == heap.live(v)
            &&& after == (HeapView {
                objects: after.objects,
                remembered: after.remembered,
                ..heap
            })
            &&& !(heap.at(target) matches Some(ObjectView::Dict(_))) ==> after.objects
                == heap.objects
            &&& heap.at(target) matches Some(ObjectView::Dict(_)) ==> after.at(
                target,
            ) matches Some(ObjectView::Dict(_))
        }),
{
    reveal(HeapView::dict_set);
}

/// See [`lemma_dict_set_frame`].
pub proof fn lemma_dict_set_all_frame(heap: HeapView, owner: Value, entries: Seq<(Value, Value)>)
    requires
        heap.at(owner) matches Some(ObjectView::Dict(_)),
    ensures
        ({
            let after = heap.dict_set_all(owner, entries).0;
            &&& forall|v: Value| v != owner ==> #[trigger] after.at(v) == heap.at(v)
            &&& forall|v: Value| #[trigger] after.live(v) == heap.live(v)
            &&& after == (HeapView {
                objects: after.objects,
                remembered: after.remembered,
                ..heap
            })
            &&& after.at(owner) matches Some(ObjectView::Dict(_))
        }),
    decreases entries.len(),
{
    if entries.len() > 0 {
        lemma_dict_set_all_frame(heap, owner, entries.drop_last());
        let between = heap.dict_set_all(owner, entries.drop_last()).0;
        lemma_dict_set_frame(between, owner, entries.last().0, entries.last().1);
    }
}

} // verus!
