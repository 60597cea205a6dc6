//! Iterators, and adding to a list in place.
use vstd::prelude::*;
use vstd::string::StringExecFns;
use crate::arithmetic::{binary_done, failed, type_error, unsupported, Computed};
use crate::class::{ClassDictionaryKey, ClassKey};
use crate::diagnostic::{fault, Diagnostic, Fault, Result};
use crate::edges::copy_values;
use crate::heap::{counts_one, no_memory, Heap, HeapView};
use crate::namespaces::allocates;
use crate::object::{Object, ObjectView};
use crate::op::Op;
use crate::sequence::{single, yields, Product, Yield};
use crate::soundness::making::iterators_keep_sound;
use crate::soundness::{allocation_keeps_sound, narrowing_keeps_sound};
use crate::storage::integer_made;
use crate::value::Value;

verus! {

/// A result that ended nothing, as a value.
pub open spec fn item_result(result: core::result::Result<Option<Value>, Diagnostic>) -> Option<
    core::result::Result<Value, Diagnostic>,
> {
    match result {
        Ok(Some(value)) => Some(Ok(value)),
        Ok(None) => None,
        Err(error) => Some(Err(error)),
    }
}

/// What is said of a collection that changed under its iterator.
pub open spec fn changed_size() -> Fault {
    fault("RuntimeError", "dictionary changed size during iteration")
}

/// Whether an iterator ended.
pub open spec fn ended(
    before: HeapView,
    after: HeapView,
    result: core::result::Result<Option<Value>, Diagnostic>,
) -> bool {
    result is Ok && result->Ok_0 is None && after == before
}

/// Whether an iterator gave a value that is there.
pub open spec fn gave(
    advanced: HeapView,
    after: HeapView,
    result: core::result::Result<Option<Value>, Diagnostic>,
    value: Value,
) -> bool {
    (result matches Ok(Some(found)) && found == value) && after == advanced
}

/// What advancing a dictionary iterator does.
pub open spec fn dict_advanced(
    before: HeapView,
    after: HeapView,
    result: core::result::Result<Option<Value>, Diagnostic>,
    iterator: Value,
    source: Value,
    index: usize,
    version: u64,
) -> bool {
    match before.found(source) {
        Err(error) => failed(before, after, result, error),
        Ok(ObjectView::Dict(dict)) => if dict.version != version {
            failed(before, after, result, changed_size())
        } else if index < dict.entries.len() {
            gave(
                before.with(
                    iterator,
                    ObjectView::DictIterator { source, index: (index + 1) as usize, version },
                ),
                after,
                result,
                dict.entries[index as int].0,
            )
        } else {
            ended(before, after, result)
        },
        Ok(_) => failed(before, after, result, unsupported()),
    }
}

/// What advancing the iterator of a class dictionary does.
pub open spec fn proxy_advanced(
    before: HeapView,
    after: HeapView,
    result: core::result::Result<Option<Value>, Diagnostic>,
    iterator: Value,
    class: Value,
    index: usize,
    size: usize,
) -> bool {
    match before.class_at(class) {
        Err(error) => failed(before, after, result, error),
        Ok(held) => if held.dictionary_order.len() != size {
            failed(before, after, result, changed_size())
        } else {
            match held.entry(index as int) {
                None => ended(before, after, result),
                Some((key, _)) => {
                    let advanced = before.with(
                        iterator,
                        ObjectView::MappingProxyIterator {
                            class,
                            index: (index + 1) as usize,
                            size,
                        },
                    );
                    match key {
                        ClassKey::Text(name) => item_result(result) matches Some(made)
                            && allocates(advanced, after, made, ObjectView::Str(name)),
                        ClassKey::Other(value) => gave(advanced, after, result, value),
                    }
                },
            }
        },
    }
}

/// What advancing a range iterator does.
pub open spec fn range_advanced(
    before: HeapView,
    after: HeapView,
    result: core::result::Result<Option<Value>, Diagnostic>,
    iterator: Value,
    next: i128,
    stop: i128,
    step: i128,
) -> bool {
    if (step > 0 && next >= stop) || (step < 0 && next <= stop) {
        ended(before, after, result)
    } else {
        item_result(result) matches Some(made) && integer_made(
            before.with(
                iterator,
                ObjectView::RangeIterator { next: (next + step) as i128, stop, step },
            ),
            after,
            next as int,
            made,
        )
    }
}

/// What advancing a sequence iterator does. A character is made before the
/// iterator moves on.
pub open spec fn sequence_advanced(
    before: HeapView,
    after: HeapView,
    result: core::result::Result<Option<Value>, Diagnostic>,
    iterator: Value,
    source: Value,
    index: usize,
) -> bool {
    let moved = ObjectView::Iterator { source, index: (index + 1) as usize };
    match before.found(source) {
        Err(error) => failed(before, after, result, error),
        Ok(ObjectView::Tuple(items)) => if index < items.len() {
            gave(before.with(iterator, moved), after, result, items[index as int])
        } else {
            ended(before, after, result)
        },
        Ok(ObjectView::List(items)) => if index < items.len() {
            gave(before.with(iterator, moved), after, result, items[index as int])
        } else {
            ended(before, after, result)
        },
        Ok(ObjectView::Str(text)) => if index < text.len() {
            if before.room == 0 {
                failed(before, after, result, no_memory())
            } else {
                result matches Ok(Some(value)) && before.fresh(value) && after == before.allocated(
                    value,
                    ObjectView::Str(seq![text[index as int]]),
                ).with(iterator, moved)
            }
        } else {
            ended(before, after, result)
        },
        Ok(_) => failed(before, after, result, unsupported()),
    }
}

/// What advancing an iterator does.
pub open spec fn advanced(
    before: HeapView,
    after: HeapView,
    result: core::result::Result<Option<Value>, Diagnostic>,
    iterator: Value,
) -> bool {
    match before.found(iterator) {
        Err(error) => failed(before, after, result, error),
        Ok(ObjectView::DictIterator { source, index, version }) => dict_advanced(
            before,
            after,
            result,
            iterator,
            source,
            index,
            version,
        ),
        Ok(ObjectView::MappingProxyIterator { class, index, size }) => proxy_advanced(
            before,
            after,
            result,
            iterator,
            class,
            index,
            size,
        ),
        Ok(ObjectView::RangeIterator { next, stop, step }) => range_advanced(
            before,
            after,
            result,
            iterator,
            next,
            stop,
            step,
        ),
        Ok(ObjectView::Iterator { source, index }) => sequence_advanced(
            before,
            after,
            result,
            iterator,
            source,
            index,
        ),
        Ok(_) => failed(before, after, result, fault("TypeError", "object is not an iterator")),
    }
}

/// Whether an object is an iterator.
pub open spec fn iterates(object: ObjectView) -> bool {
    object is Iterator || object is RangeIterator || object is DictIterator
        || object is MappingProxyIterator
}

/// Advancing an iterator changes no other object.
proof fn lemma_advanced_frame(
    before: HeapView,
    after: HeapView,
    result: core::result::Result<Option<Value>, Diagnostic>,
    iterator: Value,
)
    requires
        before.wf(),
        advanced(before, after, result, iterator),
    ensures
        forall|v: Value|
            before.live(v) && v != iterator ==> #[trigger] after.at(v) == before.at(v),
        before.live(iterator) ==> after.live(iterator) && (iterates(before.objects[iterator])
            ==> iterates(after.objects[iterator])) && (!iterates(before.objects[iterator])
            ==> after.objects[iterator] == before.objects[iterator]),
{
    assert forall|v: Value| before.live(v) && v != iterator implies #[trigger] after.at(v)
        == before.at(v) by {
        assert(before.issued.contains(v));
    }
    if before.live(iterator) {
        assert(before.issued.contains(iterator));
    }
}

impl HeapView {
    /// The iterator over a value.
    pub open spec fn iterator(self, value: Value) -> Yield {
        let v = self.native(value);
        match self.found(v) {
            Err(error) => Yield::Fault(error),
            Ok(object) => match object {
                ObjectView::Range { start, stop, step } => Yield::New(
                    ObjectView::RangeIterator {
                        next: start as i128,
                        stop: stop as i128,
                        step: step as i128,
                    },
                ),
                ObjectView::Tuple(_) => Yield::New(ObjectView::Iterator { source: v, index: 0 }),
                ObjectView::List(_) => Yield::New(ObjectView::Iterator { source: v, index: 0 }),
                ObjectView::Str(_) => Yield::New(ObjectView::Iterator { source: v, index: 0 }),
                ObjectView::Dict(dict) => Yield::New(
                    ObjectView::DictIterator { source: v, index: 0, version: dict.version },
                ),
                ObjectView::MappingProxy { class } => match self.class_at(class) {
                    Err(error) => Yield::Fault(error),
                    Ok(held) => Yield::New(
                        ObjectView::MappingProxyIterator {
                            class,
                            index: 0,
                            size: held.dictionary_order.len() as usize,
                        },
                    ),
                },
                other => if iterates(other) {
                    Yield::Value(v)
                } else {
                    Yield::Fault(fault("TypeError", "object is not iterable"))
                },
            },
        }
    }
}

impl Heap {
    fn iterator_of(&self, value: Value) -> (r: Product)
        requires
            self.wf(),
        ensures
            r@ == self@.iterator(value),
            r.wf(&self@.shapes),
    {
        let v = self.native_value(value);
        let object = match self.get(v) {
            Ok(object) => object,
            Err(error) => {
                return Product::Fault(error);
            },
        };
        match object {
            Object::Range { start, stop, step } => Product::New(
                Object::RangeIterator {
                    next: *start as i128,
                    stop: *stop as i128,
                    step: *step as i128,
                },
            ),
            Object::Tuple(_) | Object::List(_) | Object::Str(_) => Product::New(
                Object::Iterator { source: v, index: 0 },
            ),
            Object::Dict(dict) => Product::New(
                Object::DictIterator { source: v, index: 0, version: dict.version() },
            ),
            Object::MappingProxy { class } => match self.class(*class) {
                Err(error) => Product::Fault(error),
                Ok(held) => Product::New(
                    Object::MappingProxyIterator {
                        class: *class,
                        index: 0,
                        size: held.dictionary_len(),
                    },
                ),
            },
            Object::Iterator { .. }
            | Object::RangeIterator { .. }
            | Object::DictIterator { .. }
            | Object::MappingProxyIterator { .. } => Product::Value(v),
            _ => Product::Fault(Diagnostic::new("TypeError", "object is not iterable")),
        }
    }

    /// An iterator over a value.
    pub fn iterator(&mut self, value: Value) -> (r: Result<Value>)
        requires
            old(self).wf(),
        ensures
            final(self).wf(),
            counts_one(*old(self), *final(self)),
            yields(old(self)@, final(self)@, r, old(self)@.iterator(value)),
            old(self)@.sound() ==> final(self)@.sound(),
    {
        proof {
            self.lemma_view();
        }
        let product = self.iterator_of(value);
        let result = self.produce(product);
        proof {
            if old(self)@.sound() {
                iterators_keep_sound(old(self)@, self@, result, value);
            }
        }
        result
    }

    pub fn is_iterator(&self, value: Value) -> (r: bool)
        requires
            self.wf(),
        ensures
            r == (self@.live(value) && iterates(self@.objects[value])),
    {
        match self.try_get(value) {
            Some(Object::Iterator { .. })
            | Some(Object::RangeIterator { .. })
            | Some(Object::DictIterator { .. })
            | Some(Object::MappingProxyIterator { .. }) => true,
            _ => false,
        }
    }

    fn next_key(&mut self, iterator: Value) -> (r: Result<Option<Value>>)
        requires
            old(self).wf(),
            old(self)@.at(iterator) matches Some(ObjectView::DictIterator { .. }),
        ensures
            final(self).wf(),
            counts_one(*old(self), *final(self)),
            advanced(old(self)@, final(self)@, r, iterator),
    {
        let (source, at, version) = match self.get(iterator)? {
            Object::DictIterator { source, index, version } => (*source, *index, *version),
            _ => {
                return Err(type_error());
            },
        };
        let key = match self.get(source)? {
            Object::Dict(dict) => {
                if dict.version() != version {
                    return Err(
                        Diagnostic::new(
                            "RuntimeError",
                            "dictionary changed size during iteration",
                        ),
                    );
                }
                if at >= dict.entries().len() {
                    return Ok(None);
                }
                dict.entries()[at].0
            },
            _ => {
                return Err(type_error());
            },
        };
        if let Ok(Object::DictIterator { index, .. }) = self.get_mut(iterator) {
            *index = at + 1;
        }
        Ok(Some(key))
    }

    fn next_name(&mut self, iterator: Value) -> (r: Result<Option<Value>>)
        requires
            old(self).wf(),
            old(self)@.at(iterator) matches Some(ObjectView::MappingProxyIterator { .. }),
        ensures
            final(self).wf(),
            counts_one(*old(self), *final(self)),
            advanced(old(self)@, final(self)@, r, iterator),
    {
        let (class, at, expected) = match self.get(iterator)? {
            Object::MappingProxyIterator { class, index, size } => (*class, *index, *size),
            _ => {
                return Err(type_error());
            },
        };
        let held = self.class(class)?;
        if held.dictionary_len() != expected {
            return Err(
                Diagnostic::new("RuntimeError", "dictionary changed size during iteration"),
            );
        }
        let key = match held.dictionary_entry(at) {
            Some((key, _)) => key,
            None => {
                return Ok(None);
            },
        };
        if let Ok(Object::MappingProxyIterator { index, .. }) = self.get_mut(iterator) {
            *index = at + 1;
        }
        match key {
            ClassDictionaryKey::Text(name) => match self.allocate(Object::Str(name)) {
                Ok(value) => Ok(Some(value)),
                Err(error) => Err(error),
            },
            ClassDictionaryKey::Other(value) => Ok(Some(value)),
        }
    }

    fn next_integer(&mut self, iterator: Value) -> (r: Result<Option<Value>>)
        requires
            old(self).wf(),
            old(self)@.at(iterator) matches Some(ObjectView::RangeIterator { .. }),
        ensures
            final(self).wf(),
            counts_one(*old(self), *final(self)),
            advanced(old(self)@, final(self)@, r, iterator),
    {
        let (at, end, by) = match self.get(iterator)? {
            Object::RangeIterator { next, stop, step } => (*next, *stop, *step),
            _ => {
                return Err(type_error());
            },
        };
        if (by > 0 && at >= end) || (by < 0 && at <= end) {
            return Ok(None);
        }
        if let Ok(Object::RangeIterator { next, .. }) = self.get_mut(iterator) {
            *next = at + by;
        }
        match self.i64_value(at as i64) {
            Ok(value) => Ok(Some(value)),
            Err(error) => Err(error),
        }
    }

    fn next_item(&mut self, iterator: Value) -> (r: Result<Option<Value>>)
        requires
            old(self).wf(),
            old(self)@.at(iterator) matches Some(ObjectView::Iterator { .. }),
        ensures
            final(self).wf(),
            counts_one(*old(self), *final(self)),
            advanced(old(self)@, final(self)@, r, iterator),
    {
        proof {
            self.lemma_view();
        }
        let (source, at) = match self.get(iterator)? {
            Object::Iterator { source, index } => (*source, *index),
            _ => {
                return Err(type_error());
            },
        };
        let mut made: Option<char> = None;
        let mut value = Value::none();
        match self.get(source)? {
            Object::Tuple(items) => {
                if at >= items.len() {
                    return Ok(None);
                }
                value = items[at];
            },
            Object::List(items) => {
                if at >= items.len() {
                    return Ok(None);
                }
                value = items[at];
            },
            Object::Str(text) => {
                if at >= text.as_str().unicode_len() {
                    return Ok(None);
                }
                made = Some(text.as_str().get_char(at));
            },
            _ => {
                return Err(type_error());
            },
        }
        if let Some(c) = made {
            value = self.allocate(Object::Str(single(c)))?;
        }
        if let Ok(Object::Iterator { index, .. }) = self.get_mut(iterator) {
            *index = at + 1;
        }
        Ok(Some(value))
    }

    /// The next value of an iterator, if it has one.
    pub fn next(&mut self, iterator: Value) -> (r: Result<Option<Value>>)
        requires
            old(self).wf(),
        ensures
            final(self).wf(),
            counts_one(*old(self), *final(self)),
            advanced(old(self)@, final(self)@, r, iterator),
            old(self)@.sound() ==> final(self)@.sound() && (r matches Ok(Some(value)) ==> final(
                self)@.known(value)),
    {
        let ghost before = self@;
        proof {
            self.lemma_view();
        }
        let result = match self.get(iterator)? {
            Object::DictIterator { .. } => self.next_key(iterator),
            Object::MappingProxyIterator { .. } => self.next_name(iterator),
            Object::RangeIterator { .. } => self.next_integer(iterator),
            Object::Iterator { .. } => self.next_item(iterator),
            _ => Err(Diagnostic::new("TypeError", "object is not an iterator")),
        };
        proof {
            if before.sound() {
                lemma_advanced_sound(before, self@, result, iterator);
            }
        }
        result
    }

    /// Doubles a list.
    fn extend_with_itself(&mut self, owner: Value) -> (r: Result<()>)
        requires
            old(self).wf(),
            old(self)@.at(old(self)@.native(owner)) matches Some(ObjectView::List(_)),
        ensures
            final(self).wf(),
            r is Ok,
            ({
                let list = old(self)@.native(owner);
                let items = old(self)@.objects[list]->List_0;
                &&& final(self)@ == (HeapView {
                    objects: old(self)@.objects.insert(list, ObjectView::List(items + items)),
                    remembered: final(self)@.remembered,
                    ..old(self)@
                })
                &&& old(self)@.remembered.subset_of(final(self)@.remembered)
            }),
            old(self)@.sound() ==> final(self)@.sound(),
    {
        let ghost before = self@;
        let list = self.native_value(owner);
        let items = match self.get(list)? {
            Object::List(items) => copy_values(items),
            _ => {
                return Err(type_error());
            },
        };
        let mut i: usize = 0;
        assert(items@ + items@.take(0) =~= items@);
        assert(before.objects.insert(list, ObjectView::List(items@)) =~= before.objects);
        while i < items.len()
            invariant
                self.wf(),
                i <= items.len(),
                before == old(self)@,
                before.live(list),
                before.objects[list] == ObjectView::List(items@),
                list == before.native(owner),
                self@ == (HeapView {
                    objects: before.objects.insert(
                        list,
                        ObjectView::List(items@ + items@.take(i as int)),
                    ),
                    remembered: self@.remembered,
                    ..before
                }),
                before.remembered.subset_of(self@.remembered),
                before.sound() ==> self@.sound(),
            decreases items.len() - i,
        {
            let value = items[i];
            let ghost held = self@;
            proof {
                assert(held.native(list) == list);
                if before.sound() {
                    assert(before.objects[list].edges()[i as int] == value);
                    assert(before.objects[list].edges().contains(value));
                    assert(before.known(value));
                    assert(held.known(value));
                }
            }
            let appended = self.append_list(list, value);
            assert(appended is Ok);
            i += 1;
            proof {
                assert((items@ + items@.take(i - 1)).push(value) =~= items@ + items@.take(
                    i as int,
                ));
                assert(held.objects.insert(
                    list,
                    ObjectView::List(items@ + items@.take(i as int)),
                ) =~= before.objects.insert(
                    list,
                    ObjectView::List(items@ + items@.take(i as int)),
                ));
            }
        }
        assert(items@.take(i as int) =~= items@);
        Ok(())
    }

    /// Appends what an iterator gives to a list.
    fn extend(&mut self, owner: Value, list: Value, iterator: Value, Ghost(origin): Ghost<HeapView>) -> (r:
        Result<Computed>)
        requires
            old(self).wf(),
            list == old(self)@.native(owner),
            old(self)@.at(list) matches Some(ObjectView::List(_)),
            origin.live(list) && !iterates(origin.objects[list]),
            origin.live(owner) && !iterates(origin.objects[owner]),
            owner != list ==> old(self)@.at(owner) == origin.at(owner),
            origin.native(owner) == list,
            forall|v: Value|
                origin.live(v) && v != list && !iterates(origin.objects[v]) ==> #[trigger] old(
                    self,
                )@.at(v) == origin.at(v),
            forall|v: Value|
                origin.live(v) && iterates(origin.objects[v]) ==> #[trigger] old(self)@.live(v)
                    && iterates(old(self)@.objects[v]),
        ensures
            final(self).wf(),
            final(self)@.at(list) matches Some(ObjectView::List(items)) && (old(
                self,
            )@.objects[list]->List_0).is_prefix_of(items),
            forall|v: Value|
                origin.live(v) && v != list && !iterates(origin.objects[v]) ==> #[trigger] final(
                    self)@.at(v) == origin.at(v),
            old(self)@.sound() ==> final(self)@.sound(),
            extended(old(self)@, final(self)@, r, iterator, owner),
            plain_iterator(old(self)@, iterator, list) ==> r is Ok && final(self)@.objects[list]
                == ObjectView::List(
                old(self)@.objects[list]->List_0 + items_of(
                    old(self)@.objects[old(self)@.objects[iterator]->Iterator_source],
                ),
            ),
    {
        let ghost start = self@;
        let ghost held = start.objects[list]->List_0;
        let ghost plain = plain_iterator(start, iterator, list);
        let ghost source = start.objects[iterator]->Iterator_source;
        let ghost items = items_of(start.objects[source]);
        let mut count: usize = 0;
        let ghost mut states: Seq<HeapView> = seq![start];
        let ghost mut given: Seq<Value> = Seq::empty();
        proof {
            self.lemma_view();
            assert(walked_over(start, states, given, iterator, owner));
            assert(held + items.take(0) =~= held);
            if plain {
                assert(iterator != list);
                assert(iterator != source);
            }
        }
        while count < usize::MAX
            invariant
                self.wf(),
                start == old(self)@,
                held == start.objects[list]->List_0,
                origin.live(list) && !iterates(origin.objects[list]),
                origin.live(owner) && !iterates(origin.objects[owner]),
                origin.native(owner) == list,
                self@.at(list) matches Some(ObjectView::List(values)) && held.is_prefix_of(values),
                forall|v: Value|
                    origin.live(v) && v != list && !iterates(origin.objects[v])
                        ==> #[trigger] self@.at(v) == origin.at(v),
                forall|v: Value|
                    origin.live(v) && iterates(origin.objects[v]) ==> #[trigger] self@.live(v)
                        && iterates(self@.objects[v]),
                start.sound() ==> self@.sound(),
                walked_over(start, states, given, iterator, owner),
                given.len() == count,
                states.last() == self@,
                plain == plain_iterator(start, iterator, list),
                source == start.objects[iterator]->Iterator_source,
                items == items_of(start.objects[source]),
                plain ==> iterator != list && iterator != source && source != list,
                plain ==> is_sequence(self@, source) && items_of(self@.objects[source]) == items,
                plain ==> count <= items.len() && items.len() < usize::MAX,
                plain ==> self@.at(iterator) == Some(
                    ObjectView::Iterator { source, index: count },
                ),
                plain ==> self@.objects[list] == ObjectView::List(held + items.take(count as int)),
            decreases usize::MAX - count,
        {
            let ghost turn = self@;
            proof {
                self.lemma_view();
            }
            let next = self.next(iterator);
            proof {
                lemma_advanced_frame(turn, self@, next, iterator);
                assert(turn.at(list) is Some);
                assert(!iterates(turn.objects[list]));
            }
            let ghost between = self@;
            proof {
                assert(between.at(list) == turn.at(list));
                assert forall|v: Value|
                    origin.live(v) && v != list && !iterates(origin.objects[v]) implies #[trigger] between.at(
                    v,
                ) == origin.at(v) by {
                    assert(turn.at(v) == origin.at(v));
                    assert(turn.live(v));
                    assert(!iterates(turn.objects[v]));
                }
                assert forall|v: Value|
                    origin.live(v) && iterates(origin.objects[v]) implies #[trigger] between.live(v)
                    && iterates(between.objects[v]) by {
                    assert(turn.live(v));
                    assert(turn.at(v) is Some);
                    if v != iterator {
                        assert(between.at(v) == turn.at(v));
                    }
                }
                if plain {
                    assert(between.at(source) == turn.at(source));
                }
            }
            let value = match next {
                Ok(Some(value)) => value,
                Ok(None) => {
                    assert(plain ==> items.take(count as int) =~= items);
                    return Ok(Computed::Value(owner));
                },
                Err(error) => {
                    return Err(error);
                },
            };
            proof {
                assert(between.native(owner) == list) by {
                    if owner != list {
                        assert(between.at(owner) == origin.at(owner));
                    }
                }
            }
            let appended = self.append_list(owner, value);
            proof {
                assert(appended is Ok);
                assert(item_appended(turn, self@, iterator, owner, value));
                lemma_walk_on(start, states, given, iterator, owner, self@, value);
                states = states.push(self@);
                given = given.push(value);
                let values = between.objects[list]->List_0;
                assert(held.is_prefix_of(values.push(value)));
                assert forall|v: Value|
                    origin.live(v) && v != list && !iterates(origin.objects[v]) implies #[trigger] self@.at(
                    v,
                ) == origin.at(v) by {
                    assert(between.at(v) == origin.at(v));
                }
                assert forall|v: Value|
                    origin.live(v) && iterates(origin.objects[v]) implies #[trigger] self@.live(v)
                    && iterates(self@.objects[v]) by {
                    assert(between.live(v));
                }
                if plain {
                    assert((held + items.take(count as int)).push(value) =~= held + items.take(
                        count + 1,
                    ));
                    assert(self@.at(source) == between.at(source));
                    assert(self@.at(iterator) == between.at(iterator));
                }
            }
            count += 1;
        }
        Err(Diagnostic::new("MemoryError", "list capacity exhausted"))
    }
}

/// What taking one item of an iterator into a list does.
pub open spec fn item_appended(
    before: HeapView,
    after: HeapView,
    iterator: Value,
    owner: Value,
    item: Value,
) -> bool {
    exists|between: HeapView| #[trigger]
        advanced(before, between, Ok(Some(item)), iterator) && between.append_list(owner, item) == (
            after,
            Ok::<(), Fault>(()),
        )
}

/// Whether a walk took items into a list one by one, from state to state.
pub open spec fn walked_over(
    start: HeapView,
    states: Seq<HeapView>,
    items: Seq<Value>,
    iterator: Value,
    owner: Value,
) -> bool {
    &&& states.len() == items.len() + 1
    &&& states[0] == start
    &&& forall|i: int|
        #![trigger items[i]]
        0 <= i < items.len() ==> item_appended(states[i], states[i + 1], iterator, owner, items[i])
}

/// How a walk that took items into a list ends: where the iterator does, or
/// with its failure. A list has no place for more than `usize::MAX` items.
pub open spec fn walk_ended(
    before: HeapView,
    after: HeapView,
    result: core::result::Result<Computed, Diagnostic>,
    iterator: Value,
    owner: Value,
    count: nat,
) -> bool {
    if count >= usize::MAX {
        after == before && (result matches Err(error) && error@ == list_full())
    } else {
        match result {
            Ok(computed) => computed == Computed::Value(owner) && advanced(
                before,
                after,
                Ok(None),
                iterator,
            ),
            Err(error) => advanced(before, after, Err(error), iterator),
        }
    }
}

/// What appending everything that an iterator gives does.
pub open spec fn extended(
    before: HeapView,
    after: HeapView,
    result: core::result::Result<Computed, Diagnostic>,
    iterator: Value,
    owner: Value,
) -> bool {
    exists|states: Seq<HeapView>, items: Seq<Value>| #[trigger]
        walked_over(before, states, items, iterator, owner) && walk_ended(
            states.last(),
            after,
            result,
            iterator,
            owner,
            items.len(),
        )
}

/// What is said of a list without a place for another item.
pub open spec fn list_full() -> Fault {
    fault("MemoryError", "list capacity exhausted")
}

/// A walk goes on with one item more.
proof fn lemma_walk_on(
    start: HeapView,
    states: Seq<HeapView>,
    items: Seq<Value>,
    iterator: Value,
    owner: Value,
    next: HeapView,
    item: Value,
)
    requires
        walked_over(start, states, items, iterator, owner),
        item_appended(states.last(), next, iterator, owner, item),
    ensures
        walked_over(start, states.push(next), items.push(item), iterator, owner),
{
    let (further, all) = (states.push(next), items.push(item));
    assert forall|i: int|
        #![trigger all[i]]
        0 <= i < all.len() implies item_appended(
        further[i],
        further[i + 1],
        iterator,
        owner,
        all[i],
    ) by {
        if i < items.len() {
            assert(all[i] == items[i]);
        }
    }
}

/// The items of a list or tuple.
pub open spec fn items_of(object: ObjectView) -> Seq<Value> {
    match object {
        ObjectView::List(items) => items,
        ObjectView::Tuple(items) => items,
        _ => Seq::empty(),
    }
}

/// Whether an iterator stands at the start of a list or tuple other than
/// `list`.
pub open spec fn plain_iterator(heap: HeapView, iterator: Value, list: Value) -> bool {
    heap.at(iterator) matches Some(ObjectView::Iterator { source, index: 0 }) && source != list
        && is_sequence(heap, source) && items_of(heap.objects[source]).len() < usize::MAX
}

/// Whether a value is a list or a tuple.
pub open spec fn is_sequence(heap: HeapView, value: Value) -> bool {
    heap.at(value) matches Some(ObjectView::List(_)) || heap.at(value) matches Some(
        ObjectView::Tuple(_),
    )
}

/// A key that leads to a pair is one of the halves.
proof fn lemma_first_pair(pairs: Seq<(Value, Value)>, key: Value)
    requires
        crate::edges::first_pair(pairs, key) is Some,
    ensures
        crate::edges::pair_values(pairs).contains(key),
    decreases pairs.len(),
{
    let all = crate::edges::pair_values(pairs);
    if pairs[0].0 == key {
        assert(all[0] == key);
    } else {
        let rest = pairs.drop_first();
        lemma_first_pair(rest, key);
        let tail = crate::edges::pair_values(rest);
        let i = choose|i: int| 0 <= i < tail.len() && tail[i] == key;
        assert(all[i + 2] == key) by {
            assert((i + 2) / 2 == i / 2 + 1);
            assert((i + 2) % 2 == i % 2);
            assert(rest[i / 2] == pairs[i / 2 + 1]);
        }
    }
}

/// Advancing an iterator keeps the heap sound, and gives known values.
proof fn lemma_advanced_sound(
    before: HeapView,
    after: HeapView,
    result: core::result::Result<Option<Value>, Diagnostic>,
    iterator: Value,
)
    requires
        before.wf(),
        before.sound(),
        advanced(before, after, result, iterator),
    ensures
        after.sound(),
        result matches Ok(Some(value)) ==> after.known(value),
{
    if before.live(iterator) {
        match before.objects[iterator] {
            ObjectView::DictIterator { source, index, version } => {
                let moved = ObjectView::DictIterator {
                    source,
                    index: (index + 1) as usize,
                    version,
                };
                assert(moved.edges() == before.objects[iterator].edges());
                narrowing_keeps_sound(before, iterator, moved);
                if let Some(ObjectView::Dict(dict)) = before.at(source) {
                    if index < dict.entries.len() {
                        let key = dict.entries[index as int].0;
                        assert(before.objects[source].edges()[2 * index] == key);
                        assert(before.objects[source].edges().contains(key));
                        assert(before.known(key));
                    }
                }
            },
            ObjectView::MappingProxyIterator { class, index, size } => {
                let moved = ObjectView::MappingProxyIterator {
                    class,
                    index: (index + 1) as usize,
                    size,
                };
                assert(moved.edges() == before.objects[iterator].edges());
                narrowing_keeps_sound(before, iterator, moved);
                crate::soundness::lemma_with_wf(before, iterator, moved);
                let advanced = before.with(iterator, moved);
                if let Ok(held) = before.class_at(class) {
                    match held.entry(index as int) {
                        Some((ClassKey::Text(name), _)) => {
                            if let Ok(Some(value)) = result {
                                if held.dictionary_order.len() == size {
                                    allocation_keeps_sound(advanced, value, ObjectView::Str(name));
                                }
                            }
                        },
                        Some((ClassKey::Other(key), _)) => {
                            lemma_first_pair(held.extra_attributes, key);
                            crate::soundness::lemma_class_holds(held);
                            assert(crate::soundness::class_holds(held, key));
                            assert(before.objects[class].edges().contains(key));
                            assert(before.known(key));
                        },
                        None => {},
                    }
                }
            },
            ObjectView::RangeIterator { next, stop, step } => {
                let moved = ObjectView::RangeIterator { next: (next + step) as i128, stop, step };
                assert(moved.edges() == before.objects[iterator].edges());
                narrowing_keeps_sound(before, iterator, moved);
                assert(before.objects[iterator].wf(&before.shapes));
                if !((step > 0 && next >= stop) || (step < 0 && next <= stop)) {
                    crate::soundness::lemma_with_wf(before, iterator, moved);
                    let advanced = before.with(iterator, moved);
                    if let Ok(Some(value)) = result {
                        if !(Value::MIN_INT <= next <= Value::MAX_INT) {
                            allocation_keeps_sound(advanced, value, ObjectView::Int(next as int));
                        } else {
                            crate::value::lemma_not_heap();
                            assert(value.as_number() is Some);
                        }
                    }
                }
            },
            ObjectView::Iterator { source, index } => {
                let moved = ObjectView::Iterator { source, index: (index + 1) as usize };
                assert(moved.edges() == before.objects[iterator].edges());
                narrowing_keeps_sound(before, iterator, moved);
                match before.at(source) {
                    Some(ObjectView::Str(text)) => {
                        if index < text.len() {
                            if let Ok(Some(value)) = result {
                                let object = ObjectView::Str(seq![text[index as int]]);
                                allocation_keeps_sound(before, value, object);
                                let grown = before.allocated(value, object);
                                lemma_allocated_wf(before, value, object);
                                assert(iterator != value);
                                narrowing_keeps_sound(grown, iterator, moved);
                            }
                        }
                    },
                    Some(object) => {
                        if index < items_of(object).len() {
                            let item = items_of(object)[index as int];
                            assert(before.objects[source].edges()[index as int] == item);
                            assert(before.objects[source].edges().contains(item));
                            assert(before.known(item));
                        }
                    },
                    None => {},
                }
            },
            _ => {},
        }
    }
}

/// A consistent new object keeps the heap consistent.
pub proof fn lemma_allocated_wf(heap: HeapView, value: Value, object: ObjectView)
    requires
        heap.wf(),
        heap.fresh(value),
        object.wf(&heap.shapes),
    ensures
        heap.allocated(value, object).wf(),
{
    let after = heap.allocated(value, object);
    assert forall|v: Value| #[trigger] after.live(v) == (heap.live(v) || v == value) by {}
    assert forall|v: Value| #[trigger] after.live(v) implies after.order.contains(v) by {
        if v == value {
            assert(after.order[heap.order.len() as int] == v);
        } else {
            assert(heap.live(v));
            let i = choose|i: int| 0 <= i < heap.order.len() && heap.order[i] == v;
            assert(after.order[i] == v);
        }
    }
    assert forall|i: int| 0 <= i < after.order.len() implies after.live(
        #[trigger] after.order[i],
    ) by {
        if i < heap.order.len() {
            assert(heap.live(heap.order[i]));
        }
    }
    assert(after.order.no_duplicates()) by {
        assert forall|i: int, j: int|
            0 <= i < after.order.len() && 0 <= j < after.order.len() && i != j implies after.order[i]
            != after.order[j] by {
            if i < heap.order.len() {
                assert(heap.live(heap.order[i]));
            }
            if j < heap.order.len() {
                assert(heap.live(heap.order[j]));
            }
        }
    }
    assert forall|v: Value| #[trigger] after.young.contains(v) implies after.live(v) by {
        if v != value {
            assert(heap.young.contains(v));
            assert(heap.live(v));
        }
    }
    assert forall|v: Value| #[trigger] after.remembered.contains(v) implies after.live(v)
        && !after.young.contains(v) by {
        assert(heap.live(v));
        assert(heap.issued.contains(v));
    }
}

/// What adding to a list in place does. A list that is added to itself doubles.
/// Of anything else the items that its iterator gives are appended one by one,
/// up to where the iterator ends or fails. So the list keeps its items, and of
/// another list or tuple it gains exactly the items.
pub open spec fn inplace_added(
    before: HeapView,
    after: HeapView,
    result: core::result::Result<Computed, Diagnostic>,
    a: Value,
    b: Value,
) -> bool {
    let list = before.native(a);
    let items = before.objects[list]->List_0;
    let other = before.native(b);
    &&& result matches Ok(computed) ==> computed == Computed::Value(a)
    &&& after.at(list) matches Some(ObjectView::List(values)) && items.is_prefix_of(values)
    &&& a == b ==> result is Ok && after == (HeapView {
        objects: before.objects.insert(list, ObjectView::List(items + items)),
        remembered: after.remembered,
        ..before
    })
    &&& a != b && other != list && is_sequence(before, other) && items_of(
        before.objects[other],
    ).len() < usize::MAX ==> if before.room == 0 {
        failed(before, after, result, no_memory())
    } else {
        result is Ok && after.objects[list] == ObjectView::List(
            items + items_of(before.objects[other]),
        )
    }
    &&& a != b ==> iterable_appended(before, after, result, a, b)
    &&& forall|v: Value|
        before.live(v) && v != list && !iterates(before.objects[v]) ==> #[trigger] after.at(v)
            == before.at(v)
}

/// What appending the items of an iterable does.
pub open spec fn iterable_appended(
    before: HeapView,
    after: HeapView,
    result: core::result::Result<Computed, Diagnostic>,
    owner: Value,
    iterable: Value,
) -> bool {
    exists|made: HeapView, iterator: core::result::Result<Value, Diagnostic>| #[trigger]
        yields(before, made, iterator, before.iterator(iterable)) && match iterator {
            Ok(iterator) => extended(made, after, result, iterator, owner),
            Err(error) => after == made && (result matches Err(found) && found@ == error@),
        }
}

impl Heap {
    /// Adds in place: to a list it appends, otherwise it is addition.
    pub fn inplace_add(&mut self, a: Value, b: Value) -> (r: Result<Computed>)
        requires
            old(self).wf(),
        ensures
            final(self).wf(),
            if old(self)@.at(old(self)@.native(a)) matches Some(ObjectView::List(_)) {
                inplace_added(old(self)@, final(self)@, r, a, b)
            } else {
                binary_done(old(self)@, final(self)@, r, Op::Add, a, b)
            },
            old(self)@.sound() ==> final(self)@.sound(),
    {
        let ghost before = self@;
        proof {
            self.lemma_view();
        }
        let list = self.native_value(a);
        match self.try_get(list) {
            Some(Object::List(_)) => {},
            _ => {
                return self.binary(Op::Add, a, b);
            },
        }
        if a == b {
            self.extend_with_itself(a)?;
            proof {
                let items = before.objects[list]->List_0;
                assert(items.is_prefix_of(items + items));
            }
            return Ok(Computed::Value(a));
        }
        let opened = self.iterator(b);
        assert(yields(before, self@, opened, before.iterator(b)));
        let iterator = match opened {
            Ok(iterator) => iterator,
            Err(error) => {
                return Err(error);
            },
        };
        let ghost ready = self@;
        proof {
            self.lemma_view();
            assert forall|v: Value| before.live(v) implies #[trigger] ready.at(v) == before.at(v) by {
                assert(before.issued.contains(v));
            }
            assert(ready.at(list) == before.at(list));
            assert(before.live(a)) by {
                if a != list {
                    assert(before.at(a) is Some);
                }
            }
            assert(ready.at(a) == before.at(a));
            assert(ready.native(a) == list);
            let other = before.native(b);
            if other != list && is_sequence(before, other) {
                assert(ready.at(other) == before.at(other));
                assert(ready.at(iterator) == Some(
                    ObjectView::Iterator { source: other, index: 0 },
                ));
            }
        }
        self.extend(a, list, iterator, Ghost(before))
    }
}

} // verus!
