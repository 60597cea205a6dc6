//! Attribute assignment and deletion, and the invalidation of what caches
//! hold of the classes concerned.
use vstd::prelude::*;
use crate::attributes::{is_layout_name, layout_name};
use crate::class::{class_keys, Class, ClassDictionaryKey, ClassKey, ClassView};
use crate::diagnostic::{fault, outcome, Diagnostic, Fault, Result};
use crate::heap::{counted, Heap, HeapView};
use crate::lookup::{missing, missing_attribute, Outcome};
use crate::namespaces::{lemma_bound_class, supported_hook, unsupported_hook};
use crate::object::{Object, ObjectView};
use crate::shapes::{written, ShapeId};
use crate::soundness::{
    barred_store_keeps_sound, barrier_covers, class_holds, lemma_attribute_edges,
    lemma_class_holds, lemma_sound_parts, lemma_with_wf, lineage, narrowing_keeps_sound,
    store_keeps_sound,
};
use crate::text::{name_pairs, name_position, position, same};
use crate::value::Value;

verus! {

/// The keys of a class dictionary other than a name.
pub open spec fn keys_without(order: Seq<ClassKey>, name: Seq<char>) -> Seq<ClassKey>
    decreases order.len(),
{
    if order.len() == 0 {
        Seq::empty()
    } else if order.last() == ClassKey::Text(name) {
        keys_without(order.drop_last(), name)
    } else {
        keys_without(order.drop_last(), name).push(order.last())
    }
}

fn drop_key(order: &Vec<ClassDictionaryKey>, name: &str) -> (r: Vec<ClassDictionaryKey>)
    ensures
        class_keys(r@) == keys_without(class_keys(order@), name@),
{
    let ghost keys = class_keys(order@);
    let mut kept: Vec<ClassDictionaryKey> = Vec::new();
    let mut i: usize = 0;
    assert(class_keys(kept@) =~= keys_without(keys.take(0), name@));
    while i < order.len()
        invariant
            i <= order.len(),
            keys == class_keys(order@),
            class_keys(kept@) == keys_without(keys.take(i as int), name@),
        decreases order.len() - i,
    {
        assert(keys.take(i + 1).drop_last() =~= keys.take(i as int));
        assert(keys[i as int] == order[i as int]@);
        let dropped = match &order[i] {
            ClassDictionaryKey::Text(text) => same(text.as_str(), name),
            ClassDictionaryKey::Other(_) => false,
        };
        if !dropped {
            let ghost had = kept@;
            kept.push(order[i].copy());
            assert(class_keys(kept@) =~= class_keys(had).push(keys[i as int]));
        }
        i += 1;
    }
    assert(keys.take(i as int) =~= keys);
    kept
}

impl ClassView {
    /// Without an attribute and its name among the keys.
    pub open spec fn unbound(self, index: int, name: Seq<char>) -> ClassView {
        ClassView {
            attributes: self.attributes.remove(index),
            dictionary_order: keys_without(self.dictionary_order, name),
            ..self
        }
    }

    /// One version later.
    pub open spec fn renewed(self) -> ClassView {
        ClassView { version: counted(self.version), ..self }
    }
}

impl HeapView {
    /// Whether a value is a live class that has no later version.
    pub open spec fn exhausted(self, value: Value) -> bool {
        self.at(value) matches Some(ObjectView::Class(class)) && class.version == u64::MAX
    }

    /// The classes whose version changes with a class, or the refusal where
    /// one has no later version.
    pub open spec fn invalidation(self, owner: Value) -> Outcome<Seq<Value>> {
        match self.class_at(owner) {
            Err(error) => Err(error),
            Ok(class) => {
                let targets = seq![owner] + class.dependents;
                if exists|i: int| 0 <= i < targets.len() && self.exhausted(#[trigger] targets[i]) {
                    Err(fault("ResourceError", "class version exhausted"))
                } else {
                    Ok(targets)
                }
            },
        }
    }

    /// With a later version of each target that is a live class.
    pub open spec fn invalidated(self, targets: Seq<Value>) -> HeapView
        decreases targets.len(),
    {
        if targets.len() == 0 {
            self
        } else {
            let before = self.invalidated(targets.drop_last());
            match before.at(targets.last()) {
                Some(ObjectView::Class(class)) => before.with(
                    targets.last(),
                    ObjectView::Class(class.renewed()),
                ),
                _ => before,
            }
        }
    }

    /// An attribute set on a class: the heap afterwards, and the result.
    pub open spec fn set_class_attr(self, owner: Value, name: Seq<char>, value: Value) -> (
        HeapView,
        Outcome<()>,
    ) {
        match supported_hook(name) {
            Err(error) => (self, Err(error)),
            Ok(_) => if name == "__name__"@ || name == "__qualname__"@ {
                (
                    self,
                    Err(fault("UnsupportedFeature", "class naming mutation is not implemented")),
                )
            } else {
                match self.objects[owner] {
                    ObjectView::Class(class) => if class.root {
                        (self, Err(fault("TypeError", "cannot modify immutable object type")))
                    } else {
                        match self.invalidation(owner) {
                            Err(error) => (self.barrier(owner, value), Err(error)),
                            Ok(targets) => (
                                self.barrier(owner, value).with(
                                    owner,
                                    ObjectView::Class(class.bound(name, value)),
                                ).invalidated(targets),
                                Ok(()),
                            ),
                        }
                    },
                    _ => (self, Err(missing(name))),
                }
            },
        }
    }

    /// An attribute deleted from a class: the heap afterwards, and the result.
    pub open spec fn delete_class_attr(self, owner: Value, name: Seq<char>) -> (
        HeapView,
        Outcome<()>,
    ) {
        match self.objects[owner] {
            ObjectView::Class(class) => if class.root || name == "__name__"@ || name
                == "__qualname__"@ || name == "__bases__"@ || name == "__mro__"@ {
                (self, Err(fault("TypeError", "cannot delete immutable class attribute")))
            } else {
                match name_position(class.attributes, name) {
                    None => (self, Err(missing(name))),
                    Some(i) => match self.invalidation(owner) {
                        Err(error) => (self, Err(error)),
                        Ok(targets) => (
                            self.with(owner, ObjectView::Class(class.unbound(i, name))).invalidated(
                                targets,
                            ),
                            Ok(()),
                        ),
                    },
                }
            },
            _ => (self, Err(missing(name))),
        }
    }

    /// Whether an instance refuses a name.
    pub open spec fn refuses_attr(self, class: Value, name: Seq<char>) -> Option<Fault> {
        match self.class_at(class) {
            Err(error) => Some(error),
            Ok(held) => if held.root {
                Some(missing(name))
            } else if layout_name(name) {
                Some(fault("UnsupportedFeature", "instance layout replacement is not implemented"))
            } else {
                None
            },
        }
    }

    /// Whether an instance refuses to give up a name.
    pub open spec fn keeps_attr(self, class: Value, name: Seq<char>) -> Option<Fault> {
        match self.class_at(class) {
            Err(error) => Some(error),
            Ok(held) => if held.root || layout_name(name) {
                Some(missing(name))
            } else {
                None
            },
        }
    }

    /// Whether this is the heap after an attribute of an instance changed, the
    /// others staying: an owner with other attributes, and maybe new layouts.
    /// Where an attribute is given up, the others become a list of their own.
    pub open spec fn attribute_changed(
        self,
        before: HeapView,
        owner: Value,
        name: Seq<char>,
        value: Option<Value>,
    ) -> bool {
        &&& self.objects[owner].attributes_of() is Some
        &&& self == before.with_attributes(
            owner,
            self.objects[owner].attributes_of().unwrap(),
            self.shapes,
        )
        &&& before.shapes.kept_in(&self.shapes)
        &&& match value {
            Some(value) => written(
                before.objects[owner].attributes_of().unwrap(),
                &before.shapes,
                self.objects[owner].attributes_of().unwrap(),
                &self.shapes,
                name,
                value,
            ),
            None => self.objects[owner].attributes_of().unwrap() is Dictionary && self.shapes
                == before.shapes,
        }
        &&& forall|other: Seq<char>| #[trigger]
            self.attribute(owner, other) == if other == name {
                value
            } else {
                before.attribute(owner, other)
            }
        &&& forall|o: Value, other: Seq<char>|
            o != owner && before.live(o) ==> #[trigger] self.attribute(o, other)
                == before.attribute(o, other)
    }
}

/// Only versions change where classes are invalidated.
pub proof fn lemma_invalidated(heap: HeapView, targets: Seq<Value>)
    requires
        heap.wf(),
    ensures
        heap.invalidated(targets).wf(),
        heap.invalidated(targets) == (HeapView {
            objects: heap.invalidated(targets).objects,
            ..heap
        }),
        forall|v: Value| #[trigger] heap.invalidated(targets).live(v) == heap.live(v),
        forall|v: Value|
            heap.live(v) && !(heap.objects[v] is Class) ==> #[trigger] heap.invalidated(
                targets,
            ).objects[v] == heap.objects[v],
        forall|v: Value|
            heap.live(v) && heap.objects[v] is Class ==> ({
                let after = #[trigger] heap.invalidated(targets).objects[v];
                &&& after is Class
                &&& after->Class_0 == (ClassView {
                    version: after->Class_0.version,
                    ..heap.objects[v]->Class_0
                })
                &&& after->Class_0.version >= heap.objects[v]->Class_0.version
                &&& targets.contains(v) && heap.objects[v]->Class_0.version < u64::MAX
                    ==> after->Class_0.version > heap.objects[v]->Class_0.version
                &&& !targets.contains(v) ==> after == heap.objects[v]
            }),
        heap.sound() ==> heap.invalidated(targets).sound(),
    decreases targets.len(),
{
    if targets.len() > 0 {
        let rest = targets.drop_last();
        let last = targets.last();
        lemma_invalidated(heap, rest);
        let before = heap.invalidated(rest);
        assert forall|v: Value| #[trigger] targets.contains(v) implies rest.contains(v) || v
            == last by {
            let i = choose|i: int| 0 <= i < targets.len() && targets[i] == v;
            if i < rest.len() {
                assert(rest[i] == v);
            }
        }
        assert forall|v: Value| #[trigger] rest.contains(v) implies targets.contains(v) by {
            let i = choose|i: int| 0 <= i < rest.len() && rest[i] == v;
            assert(targets[i] == v);
        }
        assert(targets.contains(last)) by {
            assert(targets[targets.len() - 1] == last);
        }
        if let Some(ObjectView::Class(class)) = before.at(last) {
            assert(heap.live(last));
            assert(heap.objects[last] is Class);
            let object = ObjectView::Class(class.renewed());
            lemma_with_wf(before, last, object);
            if heap.sound() {
                assert(object.edges() == before.objects[last].edges());
                assert(lineage(object) == lineage(before.objects[last]));
                store_keeps_sound(before, before, last, object);
            }
            let after = heap.invalidated(targets);
            assert forall|v: Value| heap.live(v) && heap.objects[v] is Class implies ({
                let now = #[trigger] after.objects[v];
                &&& now is Class
                &&& now->Class_0 == (ClassView {
                    version: now->Class_0.version,
                    ..heap.objects[v]->Class_0
                })
                &&& now->Class_0.version >= heap.objects[v]->Class_0.version
                &&& targets.contains(v) && heap.objects[v]->Class_0.version < u64::MAX
                    ==> now->Class_0.version > heap.objects[v]->Class_0.version
                &&& !targets.contains(v) ==> now == heap.objects[v]
            }) by {
                let held = before.objects[v];
                assert(held is Class);
            }
            assert forall|v: Value| #[trigger] after.live(v) == heap.live(v) by {
                assert(before.live(v) == heap.live(v));
            }
            assert forall|v: Value| heap.live(v) && !(heap.objects[v] is Class) implies
                #[trigger] after.objects[v] == heap.objects[v] by {
                assert(before.objects[v] == heap.objects[v]);
            }
        }
    }
}

/// What setting an attribute does.
pub open spec fn attr_set(
    before: HeapView,
    after: HeapView,
    result: core::result::Result<(), Diagnostic>,
    owner: Value,
    name: Seq<char>,
    value: Value,
) -> bool {
    match before.found(owner) {
        Err(error) => outcome(result) == Err::<(), Fault>(error) && after == before,
        Ok(object) => match object.class_of() {
            Some(class) => match before.refuses_attr(class, name) {
                Some(error) => outcome(result) == Err::<(), Fault>(error) && after == before,
                None => result is Ok && after.attribute_changed(
                    before.barrier(owner, value),
                    owner,
                    name,
                    Some(value),
                ),
            },
            None => (after, outcome(result)) == before.set_class_attr(
                owner,
                name,
                value,
            ),
        },
    }
}

/// Later versions are no new handles.
proof fn lemma_invalidated_issued(heap: HeapView, targets: Seq<Value>)
    ensures
        heap.invalidated(targets).issued == heap.issued,
    decreases targets.len(),
{
    if targets.len() > 0 {
        lemma_invalidated_issued(heap, targets.drop_last());
    }
}

/// Setting an attribute gives out no handle.
pub proof fn lemma_attr_set_issued(
    before: HeapView,
    after: HeapView,
    result: core::result::Result<(), Diagnostic>,
    owner: Value,
    name: Seq<char>,
    value: Value,
)
    requires
        attr_set(before, after, result, owner, name, value),
    ensures
        after.issued == before.issued,
{
    if let Ok(ObjectView::Class(class)) = before.found(owner) {
        if let Ok(targets) = before.invalidation(owner) {
            lemma_invalidated_issued(
                before.barrier(owner, value).with(
                    owner,
                    ObjectView::Class(class.bound(name, value)),
                ),
                targets,
            );
        }
    }
}

/// What deleting an attribute does.
pub open spec fn attr_deleted(
    before: HeapView,
    after: HeapView,
    result: core::result::Result<(), Diagnostic>,
    owner: Value,
    name: Seq<char>,
) -> bool {
    match before.found(owner) {
        Err(error) => outcome(result) == Err::<(), Fault>(error) && after == before,
        Ok(object) => match object.class_of() {
            Some(class) => match before.keeps_attr(class, name) {
                Some(error) => outcome(result) == Err::<(), Fault>(error) && after == before,
                None => if before.attribute(owner, name) is None {
                    outcome(result) == Err::<(), Fault>(missing(name)) && after == before
                } else {
                    result is Ok && after.attribute_changed(
                        before,
                        owner,
                        name,
                        None,
                    )
                },
            },
            None => (after, outcome(result)) == before.delete_class_attr(
                owner,
                name,
            ),
        },
    }
}

impl Heap {
    /// The classes whose version changes with a class.
    pub fn class_invalidation_targets(&self, owner: Value) -> (r: Result<Vec<Value>>)
        requires
            self.wf(),
        ensures
            match r {
                Ok(targets) => self@.invalidation(owner) == Ok::<Seq<Value>, Fault>(targets@),
                Err(error) => self@.invalidation(owner) == Err::<Seq<Value>, Fault>(error@),
            },
    {
        let class = self.class(owner)?;
        let mut targets: Vec<Value> = Vec::new();
        targets.push(owner);
        crate::shapes::visit_all(&class.dependents, &mut targets);
        assert(targets@ =~= seq![owner] + class@.dependents);
        let mut i: usize = 0;
        while i < targets.len()
            invariant
                self.wf(),
                i <= targets.len(),
                self@.class_at(owner) matches Ok(held) && targets@ == seq![owner]
                    + held.dependents,
                forall|k: int| 0 <= k < i ==> !self@.exhausted(#[trigger] targets@[k]),
            decreases targets.len() - i,
        {
            if let Some(Object::Class(target)) = self.try_get(targets[i]) {
                if target.version == u64::MAX {
                    assert(self@.exhausted(targets@[i as int]));
                    return Err(Diagnostic::new("ResourceError", "class version exhausted"));
                }
            }
            i += 1;
        }
        Ok(targets)
    }

    /// Gives each target that is a live class a later version.
    pub fn apply_class_invalidation(&mut self, targets: &Vec<Value>)
        requires
            old(self).wf(),
        ensures
            final(self).wf(),
            final(self)@ == old(self)@.invalidated(targets@),
            final(self).tally() == old(self).tally(),
    {
        let ghost before = self@;
        let mut i: usize = 0;
        while i < targets.len()
            invariant
                self.wf(),
                i <= targets.len(),
                self.tally() == old(self).tally(),
                self@ == before.invalidated(targets@.take(i as int)),
            decreases targets.len() - i,
        {
            assert(targets@.take(i + 1).drop_last() =~= targets@.take(i as int));
            if let Ok(Object::Class(class)) = self.get_mut(targets[i]) {
                if class.version < u64::MAX {
                    class.version = class.version + 1;
                }
            }
            i += 1;
        }
        assert(targets@.take(i as int) =~= targets@);
    }

    fn set_class_attr(&mut self, owner: Value, name: &str, value: Value) -> (r: Result<()>)
        requires
            old(self).wf(),
            old(self)@.live(owner),
        ensures
            final(self).wf(),
            (final(self)@, outcome(r)) == old(self)@.set_class_attr(owner, name@, value),
            old(self)@.sound() && old(self)@.known(value) ==> final(self)@.sound(),
            match r {
                Ok(_) => old(self).tally().gains(
                    final(self).tally(),
                    old(self)@.objects[owner],
                    final(self)@.objects[owner],
                ),
                Err(_) => final(self).tally() == old(self).tally(),
            },
    {
        let ghost before = self@;
        proof {
            self.lemma_view();
        }
        unsupported_hook(name)?;
        if same(name, "__name__") || same(name, "__qualname__") {
            return Err(
                Diagnostic::new("UnsupportedFeature", "class naming mutation is not implemented"),
            );
        }
        match self.try_get(owner) {
            Some(Object::Class(class)) => if class.root {
                return Err(Diagnostic::new("TypeError", "cannot modify immutable object type"));
            },
            _ => {
                return Err(missing_attribute(name));
            },
        }
        let targets = match self.class_invalidation_targets(owner) {
            Ok(targets) => targets,
            Err(error) => {
                self.write_barrier(owner, value);
                proof {
                    if before.sound() {
                        crate::soundness::barrier_keeps_sound(before, owner, value);
                    }
                }
                return Err(error);
            },
        };
        self.write_barrier(owner, value);
        let size = self.weight(owner);
        if let Ok(Object::Class(class)) = self.get_mut(owner) {
            class.bind(name, value);
        }
        proof {
            let class = before.objects[owner]->Class_0;
            let object = ObjectView::Class(class.bound(name@, value));
            self.lemma_view();
            if before.sound() && before.known(value) {
                lemma_bound_class(class, name@, value);
                barred_store_keeps_sound(before, owner, value, object);
            }
            lemma_invalidated(self@, targets@);
        }
        self.apply_class_invalidation(&targets);
        let weight = self.weight(owner);
        self.grow(weight.saturating_sub(size));
        Ok(())
    }

    /// Sets an attribute of an instance, exception or class. A change of a
    /// class gives it and its descendants a later version.
    pub fn set_attr(&mut self, owner: Value, name: &str, value: Value) -> (r: Result<()>)
        requires
            old(self).wf(),
        ensures
            final(self).wf(),
            attr_set(old(self)@, final(self)@, r, owner, name@, value),
            old(self)@.sound() && old(self)@.known(value) ==> final(self)@.sound(),
            match r {
                Ok(_) => old(self).tally().gains(
                    final(self).tally(),
                    old(self)@.objects[owner],
                    final(self)@.objects[owner],
                ),
                Err(_) => final(self).tally() == old(self).tally(),
            },
    {
        let ghost before = self@;
        proof {
            self.lemma_view();
        }
        let class = match self.get(owner)?.instance_class() {
            None => {
                return self.set_class_attr(owner, name, value);
            },
            Some(class) => class,
        };
        if self.class(class)?.root {
            return Err(missing_attribute(name));
        }
        if is_layout_name(name) {
            return Err(
                Diagnostic::new(
                    "UnsupportedFeature",
                    "instance layout replacement is not implemented",
                ),
            );
        }
        self.write_barrier(owner, value);
        let ghost barred = self@;
        self.store_attribute(owner, name, value);
        proof {
            lemma_attributes_stored_sound(before, barred, self@, owner, value);
        }
        Ok(())
    }

    fn delete_class_attr(&mut self, owner: Value, name: &str) -> (r: Result<()>)
        requires
            old(self).wf(),
            old(self)@.live(owner),
        ensures
            final(self).wf(),
            (final(self)@, outcome(r)) == old(self)@.delete_class_attr(owner, name@),
            old(self)@.sound() ==> final(self)@.sound(),
            match r {
                Ok(_) => old(self).tally().loses(
                    final(self).tally(),
                    old(self)@.objects[owner],
                    final(self)@.objects[owner],
                ),
                Err(_) => final(self).tally() == old(self).tally(),
            },
    {
        let ghost before = self@;
        proof {
            self.lemma_view();
        }
        let index = match self.try_get(owner) {
            Some(Object::Class(class)) => {
                if class.root || same(name, "__name__") || same(name, "__qualname__") || same(
                    name,
                    "__bases__",
                ) || same(name, "__mro__") {
                    return Err(
                        Diagnostic::new("TypeError", "cannot delete immutable class attribute"),
                    );
                }
                match position(&class.attributes, name) {
                    Some(index) => index,
                    None => {
                        return Err(missing_attribute(name));
                    },
                }
            },
            _ => {
                return Err(missing_attribute(name));
            },
        };
        let targets = self.class_invalidation_targets(owner)?;
        let size = self.weight(owner);
        if let Ok(Object::Class(class)) = self.get_mut(owner) {
            let ghost held = *class;
            class.attributes.remove(index);
            assert(name_pairs(class.attributes@) =~= name_pairs(held.attributes@).remove(
                index as int,
            ));
            let order = drop_key(&class.dictionary_order, name);
            class.dictionary_order = order;
        }
        proof {
            let class = before.objects[owner]->Class_0;
            let after = class.unbound(index as int, name@);
            self.lemma_view();
            if before.sound() {
                lemma_unbound_class(class, index as int, name@);
                store_keeps_sound(before, before, owner, ObjectView::Class(after));
            }
            lemma_invalidated(self@, targets@);
        }
        self.apply_class_invalidation(&targets);
        let weight = self.weight(owner);
        self.shrink(size.saturating_sub(weight));
        Ok(())
    }

    /// Deletes an attribute of an instance, exception or class. A change of a
    /// class gives it and its descendants a later version.
    pub fn del_attr(&mut self, owner: Value, name: &str) -> (r: Result<()>)
        requires
            old(self).wf(),
        ensures
            final(self).wf(),
            attr_deleted(old(self)@, final(self)@, r, owner, name@),
            old(self)@.sound() ==> final(self)@.sound(),
            match r {
                Ok(_) => old(self).tally().loses(
                    final(self).tally(),
                    old(self)@.objects[owner],
                    final(self)@.objects[owner],
                ),
                Err(_) => final(self).tally() == old(self).tally(),
            },
    {
        let ghost before = self@;
        proof {
            self.lemma_view();
        }
        let class = match self.get(owner)?.instance_class() {
            None => {
                return self.delete_class_attr(owner, name);
            },
            Some(class) => class,
        };
        if self.class(class)?.root || is_layout_name(name) {
            return Err(missing_attribute(name));
        }
        match self.remove_attribute(owner, name) {
            None => Err(missing_attribute(name)),
            Some(_) => {
                proof {
                    assert(before.shapes.kept_in(&self@.shapes));
                    lemma_attributes_removed_sound(before, self@, owner);
                }
                Ok(())
            },
        }
    }
}

/// Unbinding an attribute adds no edge.
proof fn lemma_unbound_class(class: ClassView, index: int, name: Seq<char>)
    requires
        0 <= index < class.attributes.len(),
    ensures
        forall|e: Value| #[trigger]
            class.unbound(index, name).edges().contains(e) ==> class.edges().contains(e),
{
    let after = class.unbound(index, name);
    lemma_class_holds(class);
    lemma_class_holds(after);
    assert forall|e: Value| #[trigger] after.edges().contains(e) implies class.edges().contains(
        e,
    ) by {
        assert(class_holds(after, e));
        if exists|i: int| 0 <= i < after.attributes.len() && (#[trigger] after.attributes[i]).1 == e {
            let i = choose|i: int|
                0 <= i < after.attributes.len() && (#[trigger] after.attributes[i]).1 == e;
            let k = if i < index {
                i
            } else {
                i + 1
            };
            assert(class.attributes[k].1 == e);
        }
        assert(class_holds(class, e));
    }
}

/// Storing an attribute behind the write barrier keeps the heap sound.
proof fn lemma_attributes_stored_sound(
    before: HeapView,
    barred: HeapView,
    after: HeapView,
    owner: Value,
    value: Value,
)
    requires
        before.wf(),
        before.live(owner),
        before.objects[owner].attributes_of() is Some,
        barred == before.barrier(owner, value),
        after.objects[owner].attributes_of() is Some,
        after == barred.with_attributes(
            owner,
            after.objects[owner].attributes_of().unwrap(),
            after.shapes,
        ),
        forall|e: Value|
            after.objects[owner].attributes_of().unwrap().edges().contains(e) ==> e == value
                || barred.objects[owner].attributes_of().unwrap().edges().contains(e),
    ensures
        before.sound() && before.known(value) ==> after.sound(),
{
    if before.sound() && before.known(value) {
        let attributes = after.objects[owner].attributes_of().unwrap();
        let object = before.objects[owner].with_attributes(attributes);
        lemma_attribute_edges(before.objects[owner], attributes);
        barrier_covers(before, owner, value);
        store_keeps_sound(before, barred, owner, object);
        lemma_sound_parts(barred.with(owner, object), after);
    }
}

/// Giving up an attribute keeps the heap sound.
proof fn lemma_attributes_removed_sound(before: HeapView, after: HeapView, owner: Value)
    requires
        before.wf(),
        before.live(owner),
        before.objects[owner].attributes_of() is Some,
        after.objects[owner].attributes_of() is Some,
        after == before.with_attributes(
            owner,
            after.objects[owner].attributes_of().unwrap(),
            before.shapes,
        ),
        forall|e: Value|
            after.objects[owner].attributes_of().unwrap().edges().contains(e)
                ==> before.objects[owner].attributes_of().unwrap().edges().contains(e),
    ensures
        before.sound() ==> after.sound(),
{
    if before.sound() {
        let attributes = after.objects[owner].attributes_of().unwrap();
        let object = before.objects[owner].with_attributes(attributes);
        lemma_attribute_edges(before.objects[owner], attributes);
        narrowing_keeps_sound(before, owner, object);
        lemma_sound_parts(before.with(owner, object), after);
    }
}

/// A class gives back the attribute that was set on it, whatever its
/// ancestors define.
pub proof fn class_attr_set_then_read(heap: HeapView, owner: Value, name: Seq<char>, value: Value)
    requires
        heap.wf(),
        heap.live(owner),
        heap.set_class_attr(owner, name, value).1 is Ok,
    ensures
        heap.set_class_attr(owner, name, value).0.class_lookup(owner, name) == Ok::<
            Option<Value>,
            Fault,
        >(Some(value)),
{
    let class = heap.objects[owner]->Class_0;
    let bound = class.bound(name, value);
    let between = heap.barrier(owner, value).with(owner, ObjectView::Class(bound));
    lemma_barrier_wf(heap, owner, value);
    lemma_with_wf(heap.barrier(owner, value), owner, ObjectView::Class(bound));
    let targets = heap.invalidation(owner)->Ok_0;
    lemma_invalidated(between, targets);
    let after = between.invalidated(targets);
    let held = after.class_at(owner)->Ok_0;
    assert(after.live(owner) == between.live(owner));
    assert(after.objects[owner] is Class);
    assert(held.attributes == bound.attributes);
    crate::text::lemma_name_position(class.attributes, name);
    match name_position(class.attributes, name) {
        Some(i) => {
            crate::text::lemma_name_position_is(bound.attributes, name, i);
        },
        None => {
            crate::text::lemma_name_position_is(
                bound.attributes,
                name,
                class.attributes.len() as int,
            );
        },
    }
    let line = seq![owner] + held.mro;
    assert(line[0] == owner);
    assert(held.own(name) == Some(value));
}

/// The write barrier keeps the heap consistent.
pub proof fn lemma_barrier_wf(heap: HeapView, owner: Value, value: Value)
    requires
        heap.wf(),
    ensures
        heap.barrier(owner, value).wf(),
{
    let after = heap.barrier(owner, value);
    assert forall|v: Value| #[trigger] after.live(v) == heap.live(v) by {}
    assert forall|i: int| 0 <= i < after.order.len() implies after.live(
        #[trigger] after.order[i],
    ) by {
        assert(heap.live(heap.order[i]));
    }
    assert forall|v: Value| #[trigger] after.live(v) implies after.order.contains(v) by {
        assert(heap.live(v));
    }
    assert forall|v: Value| #[trigger] after.young.contains(v) implies after.live(v) by {
        assert(heap.live(v));
    }
    assert forall|v: Value| #[trigger] after.remembered.contains(v) implies after.live(v)
        && !after.young.contains(v) by {
        if v != owner {
            assert(heap.remembered.contains(v));
        }
        assert(heap.live(v));
    }
}

/// Setting an attribute on a class leaves no slot cache of the class or of a
/// descendant valid, and every other class keeps its version.
pub proof fn class_change_outdates_slots(
    heap: HeapView,
    owner: Value,
    name: Seq<char>,
    value: Value,
    class: Value,
    instance: Value,
    shape: ShapeId,
    slot: int,
)
    requires
        heap.wf(),
        heap.live(owner),
        heap.set_class_attr(owner, name, value).1 is Ok,
        heap.at(class) matches Some(ObjectView::Class(_)),
    ensures
        class == owner || heap.objects[owner]->Class_0.dependents.contains(class)
            ==> heap.set_class_attr(owner, name, value).0.cached_instance_slot(
            instance,
            class,
            shape,
            slot,
            heap.objects[class]->Class_0.version,
        ) is None,
        class != owner && !heap.objects[owner]->Class_0.dependents.contains(class)
            ==> heap.set_class_attr(owner, name, value).0.objects[class] == heap.objects[class],
{
    let held = heap.objects[owner]->Class_0;
    let bound = held.bound(name, value);
    let between = heap.barrier(owner, value).with(owner, ObjectView::Class(bound));
    lemma_barrier_wf(heap, owner, value);
    lemma_with_wf(heap.barrier(owner, value), owner, ObjectView::Class(bound));
    let targets = heap.invalidation(owner)->Ok_0;
    lemma_invalidated(between, targets);
    let after = between.invalidated(targets);
    assert(between.live(class));
    assert(after.objects[class] is Class);
    assert(targets =~= seq![owner] + held.dependents);
    if class == owner || held.dependents.contains(class) {
        if class == owner {
            assert(targets[0] == class);
        } else {
            let i = choose|i: int| 0 <= i < held.dependents.len() && held.dependents[i] == class;
            assert(targets[i + 1] == class);
        }
        assert(targets.contains(class));
        let i = choose|i: int| 0 <= i < targets.len() && targets[i] == class;
        assert(!heap.exhausted(targets[i]));
    } else {
        assert(!targets.contains(class)) by {
            if targets.contains(class) {
                let i = choose|i: int| 0 <= i < targets.len() && targets[i] == class;
                if i > 0 {
                    assert(held.dependents[i - 1] == class);
                }
            }
        }
    }
}

/// An instance gives back the attribute that was set on it.
pub proof fn instance_attr_set_then_read(
    before: HeapView,
    after: HeapView,
    owner: Value,
    name: Seq<char>,
    value: Value,
)
    requires
        before.live(owner),
        before.objects[owner].attributes_of() is Some,
        !layout_name(name),
        after.attribute_changed(before, owner, name, Some(value)),
    ensures
        after.attr(owner, name) == crate::attributes::Answer::Value(value),
{
    assert(after.attribute(owner, name) == Some(value));
}

} // verus!
