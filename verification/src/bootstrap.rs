//! The classes the language begins with, and what follows the completion of a
//! class.
use vstd::prelude::*;
use crate::calls::refuses;
use crate::class::ClassView;
use crate::completion::{finishes, lemma_finished_class};
use crate::diagnostic::{outcome, Diagnostic, Fault, Result};
use crate::heap::{no_memory, Heap, HeapView};
use crate::lookup::{DescriptorCall, Outcome};
use crate::namespaces::{
    all_known, initial_attributes, namespace_made, namespace_parts, new_namespace,
};
use crate::object::{Object, ObjectView};
use crate::soundness::{
    allocation_keeps_sound, barred_store_keeps_sound, class_holds, lemma_class_holds, lineage,
};
use crate::value::Value;

verus! {

impl HeapView {
    /// The `__set_name__` calls that a new class owes its attributes, from a
    /// position on, each with the name it passes.
    pub open spec fn set_name_calls(self, attributes: Seq<(Seq<char>, Value)>, from: int) -> Outcome<
        Seq<(DescriptorCall, Seq<char>)>,
    >
        decreases attributes.len() - from,
    {
        if from < 0 || from >= attributes.len() {
            Ok(Seq::empty())
        } else {
            let (name, descriptor) = attributes[from];
            match self.class_of(descriptor) {
                None => self.set_name_calls(attributes, from + 1),
                Some(class) => match self.class_lookup(class, "__set_name__"@) {
                    Err(error) => Err(error),
                    Ok(None) => self.set_name_calls(attributes, from + 1),
                    Ok(Some(hook)) => match self.set_name_calls(attributes, from + 1) {
                        Err(error) => Err(error),
                        Ok(rest) => Ok(
                            seq![(self.descriptor_callable(hook, descriptor, class), name)] + rest,
                        ),
                    },
                },
            }
        }
    }

    /// With another metaclass of a class.
    pub open spec fn with_metaclass(self, class: Value, metaclass: Value) -> HeapView {
        self.barrier(class, metaclass).with(
            class,
            ObjectView::Class(ClassView { metaclass, ..self.objects[class]->Class_0 }),
        )
    }
}

/// The names that calls pass, as the library holds them.
pub open spec fn named_calls(calls: Seq<(DescriptorCall, String)>) -> Seq<
    (DescriptorCall, Seq<char>),
> {
    Seq::new(calls.len(), |i: int| (calls[i].0, calls[i].1@))
}

/// Whether calls carry new strings for their names.
pub open spec fn calls_with_names(
    after: HeapView,
    calls: Seq<(DescriptorCall, Value)>,
    owed: Seq<(DescriptorCall, Seq<char>)>,
) -> bool {
    &&& calls.len() == owed.len()
    &&& forall|i: int|
        0 <= i < calls.len() ==> (#[trigger] calls[i]).0 == owed[i].0 && after.at(calls[i].1)
            == Some(ObjectView::Str(owed[i].1))
}

impl Heap {
    fn owed_names(&self, owner: Value) -> (r: Result<Vec<(DescriptorCall, String)>>)
        requires
            self.wf(),
        ensures
            match self@.class_at(owner) {
                Err(error) => r matches Err(found) && found@ == error,
                Ok(class) => match self@.set_name_calls(class.attributes, 0) {
                    Err(error) => r matches Err(found) && found@ == error,
                    Ok(owed) => r matches Ok(calls) && named_calls(calls@) == owed,
                },
            },
    {
        let class = self.class(owner)?;
        let ghost attributes = class@.attributes;
        let mut calls: Vec<(DescriptorCall, String)> = Vec::new();
        let mut i: usize = 0;
        proof {
            if let Ok(all) = self@.set_name_calls(attributes, 0) {
                assert(named_calls(calls@) + all =~= all);
            }
        }
        while i < class.attributes.len()
            invariant
                self.wf(),
                i <= class.attributes.len(),
                self@.class_at(owner) == Ok::<ClassView, Fault>(class@),
                attributes == class@.attributes,
                self@.set_name_calls(attributes, 0) == match self@.set_name_calls(
                    attributes,
                    i as int,
                ) {
                    Ok(rest) => Ok::<Seq<(DescriptorCall, Seq<char>)>, Fault>(
                        named_calls(calls@) + rest,
                    ),
                    Err(error) => Err(error),
                },
            decreases class.attributes.len() - i,
        {
            let descriptor = class.attributes[i].1;
            assert(attributes[i as int] == (class.attributes[i as int].0@, descriptor));
            if let Some(descriptor_class) = self.class_of(descriptor) {
                if let Some(hook) = self.class_lookup(descriptor_class, "__set_name__")? {
                    let call = self.descriptor_callable(hook, descriptor, descriptor_class);
                    let ghost had = named_calls(calls@);
                    calls.push((call, class.attributes[i].0.clone()));
                    proof {
                        let next = (call, class.attributes[i as int].0@);
                        assert(named_calls(calls@) =~= had.push(next));
                        if let Ok(rest) = self@.set_name_calls(attributes, i + 1) {
                            assert(had + (seq![next] + rest) =~= named_calls(calls@) + rest);
                        }
                    }
                }
            }
            i += 1;
        }
        assert(named_calls(calls@) + Seq::<(DescriptorCall, Seq<char>)>::empty() =~= named_calls(
            calls@,
        ));
        Ok(calls)
    }

    /// The `__set_name__` calls that a new class owes its attributes, each
    /// with a new string of the name. No string is made unless every lookup
    /// succeeds.
    pub fn descriptor_set_names(&mut self, owner: Value) -> (r: Result<
        Vec<(DescriptorCall, Value)>,
    >)
        requires
            old(self).wf(),
        ensures
            final(self).wf(),
            forall|v: Value| old(self)@.live(v) ==> #[trigger] final(self)@.at(v) == old(self)@.at(v),
            match old(self)@.class_at(owner) {
                Err(error) => (r matches Err(found) && found@ == error) && final(self)@ == old(
                    self,
                )@,
                Ok(class) => match old(self)@.set_name_calls(class.attributes, 0) {
                    Err(error) => (r matches Err(found) && found@ == error) && final(self)@ == old(
                        self,
                    )@,
                    Ok(owed) => if old(self)@.room < owed.len() {
                        r matches Err(found) && found@ == no_memory()
                    } else {
                        r matches Ok(calls) && calls_with_names(final(self)@, calls@, owed)
                    },
                },
            },
            old(self)@.sound() ==> final(self)@.sound(),
    {
        let ghost before = self@;
        proof {
            self.lemma_view();
        }
        let owed = self.owed_names(owner)?;
        let mut calls: Vec<(DescriptorCall, Value)> = Vec::new();
        let mut i: usize = 0;
        while i < owed.len()
            invariant
                self.wf(),
                before == old(self)@,
                i <= owed.len(),
                before.class_at(owner) matches Ok(class) && before.set_name_calls(
                    class.attributes,
                    0,
                ) == Ok::<Seq<(DescriptorCall, Seq<char>)>, Fault>(named_calls(owed@)),
                before.room >= i,
                self@.room == before.room - i,
                forall|v: Value| before.live(v) ==> #[trigger] self@.at(v) == before.at(v),
                calls_with_names(self@, calls@, named_calls(owed@).take(i as int)),
                before.sound() ==> self@.sound(),
            decreases owed.len() - i,
        {
            let ghost held = self@;
            proof {
                self.lemma_view();
            }
            let name = self.allocate(Object::Str(owed[i].1.clone()))?;
            calls.push((owed[i].0, name));
            i += 1;
            proof {
                if before.sound() {
                    allocation_keeps_sound(held, name, self@.objects[name]);
                }
                assert forall|v: Value| held.live(v) implies #[trigger] self@.at(v) == held.at(v) by {
                    assert(v != name);
                }
                assert forall|v: Value| before.live(v) implies #[trigger] self@.at(v) == before.at(
                    v,
                ) by {
                    assert(held.at(v) == before.at(v));
                }
                let all = named_calls(owed@);
                assert forall|k: int| 0 <= k < calls@.len() implies (#[trigger] calls@[k]).0
                    == all.take(i as int)[k].0 && self@.at(calls@[k].1) == Some(
                    ObjectView::Str(all.take(i as int)[k].1),
                ) by {
                    if k < i - 1 {
                        let earlier = calls@.drop_last()[k];
                        assert(earlier.0 == all.take(i - 1)[k].0);
                        assert(held.at(earlier.1) == Some(ObjectView::Str(all.take(i - 1)[k].1)));
                    }
                }
            }
        }
        assert(named_calls(owed@).take(i as int) =~= named_calls(owed@));
        Ok(calls)
    }

    /// Sets the metaclass of a class.
    pub(crate) fn set_class_metaclass(&mut self, class: Value, metaclass: Value) -> (r: Result<()>)
        requires
            old(self).wf(),
        ensures
            final(self).wf(),
            final(self).tally() == old(self).tally(),
            match old(self)@.class_at(metaclass) {
                Err(error) => outcome(r) == Err::<(), Fault>(error) && final(self)@ == old(self)@,
                Ok(_) => match old(self)@.class_at(class) {
                    Err(error) => outcome(r) == Err::<(), Fault>(error) && final(self)@ == old(
                        self,
                    )@.barrier(class, metaclass),
                    Ok(_) => r is Ok && final(self)@ == old(self)@.with_metaclass(
                        class,
                        metaclass,
                    ),
                },
            },
            old(self)@.sound() ==> final(self)@.sound(),
    {
        let ghost before = self@;
        proof {
            self.lemma_view();
        }
        self.class(metaclass)?;
        self.write_barrier(class, metaclass);
        proof {
            if before.sound() {
                crate::soundness::barrier_keeps_sound(before, class, metaclass);
            }
        }
        self.class(class)?;
        if let Ok(Object::Class(held)) = self.get_mut(class) {
            held.metaclass = metaclass;
        }
        proof {
            let held = before.objects[class]->Class_0;
            let after = ClassView { metaclass, ..held };
            if before.sound() {
                lemma_class_holds(held);
                lemma_class_holds(after);
                assert forall|e: Value| #[trigger] ObjectView::Class(after).edges().contains(
                    e,
                ) implies before.objects[class].edges().contains(e) || e == metaclass by {
                    assert(class_holds(after, e));
                    if e != metaclass {
                        assert(class_holds(held, e));
                    }
                }
                assert(before.known(metaclass));
                barred_store_keeps_sound(before, class, metaclass, ObjectView::Class(after));
            }
        }
        Ok(())
    }
}

/// A class that got its module: the heap afterwards, and the result.
pub open spec fn with_module(finished: HeapView, class: Value, module: Value) -> (
    HeapView,
    Outcome<()>,
) {
    finished.allocated(module, ObjectView::Str("builtins"@)).set_class_attr(
        class,
        "__module__"@,
        module,
    )
}

/// What giving a completed class its module does.
pub open spec fn module_set(
    finished: HeapView,
    after: HeapView,
    result: Outcome<()>,
    class: Value,
) -> bool {
    if finished.room == 0 {
        after == finished && result == Err::<(), Fault>(no_memory())
    } else {
        exists|module: Value|
            #![trigger finished.fresh(module)]
            finished.fresh(module) && (after, result) == with_module(finished, class, module)
    }
}

/// What completing a filled namespace and giving it its module does.
pub open spec fn builtin_completed(
    filled: HeapView,
    after: HeapView,
    result: Outcome<()>,
    class: Value,
) -> bool {
    exists|finished: HeapView, done: Outcome<()>|
        #![trigger finishes(filled, finished, done, class)]
        finishes(filled, finished, done, class) && match done {
            Err(error) => after == finished && result == Err::<(), Fault>(error),
            Ok(_) => module_set(finished, after, result, class),
        }
}

/// What completing a builtin class gives.
pub open spec fn class_given(
    filled: HeapView,
    after: HeapView,
    result: core::result::Result<Value, Diagnostic>,
    class: Value,
) -> bool {
    exists|done: Outcome<()>|
        #![trigger builtin_completed(filled, after, done, class)]
        builtin_completed(filled, after, done, class) && match done {
            Ok(_) => result matches Ok(made) && made == class,
            Err(error) => refuses(result, error),
        }
}

/// What making a builtin class does: a plain namespace, completed, with its
/// module set.
pub open spec fn builtin_class_made(
    before: HeapView,
    after: HeapView,
    result: core::result::Result<Value, Diagnostic>,
    name: Seq<char>,
    bases: Seq<Value>,
    metaclass: Value,
) -> bool {
    exists|made: HeapView, namespace: core::result::Result<Value, Diagnostic>|
        #![trigger namespace_made(before, made, namespace, name, bases, metaclass)]
        namespace_made(before, made, namespace, name, bases, metaclass) && match namespace {
            Err(error) => after == made && refuses(result, error@),
            Ok(class) => class_given(made, after, result, class),
        }
}

/// What completing the root class gives.
pub open spec fn root_given(
    filled: HeapView,
    after: HeapView,
    result: core::result::Result<Value, Diagnostic>,
    class: Value,
) -> bool {
    exists|between: HeapView, done: Outcome<()>|
        #![trigger builtin_completed(filled, between, done, class)]
        builtin_completed(filled, between, done, class) && match done {
            Ok(_) => (result matches Ok(made) && made == class) && after == rooted(between, class),
            Err(error) => after == between && refuses(result, error),
        }
}

/// What making the root class does.
pub open spec fn object_class_made(
    before: HeapView,
    after: HeapView,
    result: core::result::Result<Value, Diagnostic>,
    object_new: Value,
    getattribute: Value,
    setattr: Value,
    delattr: Value,
) -> bool {
    exists|made: HeapView, namespace: core::result::Result<Value, Diagnostic>|
        #![trigger namespace_made(before, made, namespace, "object"@, Seq::empty(), Value::unbound())]
        namespace_made(before, made, namespace, "object"@, Seq::empty(), Value::unbound())
            && match namespace {
            Err(error) => after == made && refuses(result, error@),
            Ok(class) => root_given(
                object_namespace(made, class, object_new, getattribute, setattr, delattr),
                after,
                result,
                class,
            ),
        }
}

/// What a completed class of classes still gets: its constructor, and itself
/// as metaclass, its own and that of the root class.
pub open spec fn type_finished(
    between: HeapView,
    after: HeapView,
    result: core::result::Result<Value, Diagnostic>,
    class: Value,
    object_class: Value,
    type_new: Value,
) -> bool {
    let change = between.set_class_attr(class, "__new__"@, type_new);
    match change.1 {
        Err(error) => after == change.0 && refuses(result, error),
        Ok(_) => match change.0.class_at(object_class) {
            Err(error) => after == change.0.barrier(object_class, class) && refuses(result, error),
            Ok(_) => (result matches Ok(made) && made == class) && after
                == change.0.with_metaclass(object_class, class).with_metaclass(class, class),
        },
    }
}

/// What completing the class of classes gives.
pub open spec fn type_given(
    filled: HeapView,
    after: HeapView,
    result: core::result::Result<Value, Diagnostic>,
    class: Value,
    object_class: Value,
    type_new: Value,
) -> bool {
    exists|between: HeapView, done: Outcome<()>|
        #![trigger builtin_completed(filled, between, done, class)]
        builtin_completed(filled, between, done, class) && match done {
            Ok(_) => type_finished(between, after, result, class, object_class, type_new),
            Err(error) => after == between && refuses(result, error),
        }
}

/// What making the class of classes does.
pub open spec fn type_class_made(
    before: HeapView,
    after: HeapView,
    result: core::result::Result<Value, Diagnostic>,
    object_class: Value,
    type_new: Value,
    getattribute: Value,
    setattr: Value,
    delattr: Value,
) -> bool {
    exists|made: HeapView, namespace: core::result::Result<Value, Diagnostic>|
        #![trigger namespace_made(before, made, namespace, "type"@, seq![object_class], Value::unbound())]
        namespace_made(
            before,
            made,
            namespace,
            "type"@,
            seq![object_class],
            Value::unbound(),
        ) && match namespace {
            Err(error) => after == made && refuses(result, error@),
            Ok(class) => type_given(
                type_methods(made, class, getattribute, setattr, delattr),
                after,
                result,
                class,
                object_class,
                type_new,
            ),
        }
}

/// A namespace with the methods of the root class.
pub open spec fn object_namespace(
    made: HeapView,
    class: Value,
    object_new: Value,
    getattribute: Value,
    setattr: Value,
    delattr: Value,
) -> HeapView {
    made.namespace_bound(class, "__new__"@, object_new).namespace_bound(
        class,
        "__getattribute__"@,
        getattribute,
    ).namespace_bound(class, "__setattr__"@, setattr).namespace_bound(
        class,
        "__delattr__"@,
        delattr,
    )
}

/// A namespace with the methods of the class of classes.
pub open spec fn type_methods(
    made: HeapView,
    class: Value,
    getattribute: Value,
    setattr: Value,
    delattr: Value,
) -> HeapView {
    made.namespace_bound(class, "__getattribute__"@, getattribute).namespace_bound(
        class,
        "__setattr__"@,
        setattr,
    ).namespace_bound(class, "__delattr__"@, delattr)
}

/// With a class marked as the root.
pub open spec fn rooted(heap: HeapView, class: Value) -> HeapView {
    heap.with(
        class,
        ObjectView::Class((ClassView { root: true, ..heap.objects[class]->Class_0 })),
    )
}

impl Heap {
    /// Completes a filled namespace and sets its module.
    fn complete_builtin(&mut self, class: Value) -> (r: Result<()>)
        requires
            old(self).wf(),
            old(self)@.at(class) matches Some(ObjectView::Namespace(_)),
        ensures
            final(self).wf(),
            builtin_completed(old(self)@, final(self)@, outcome(r), class),
            r is Ok ==> (final(self)@.at(class) matches Some(ObjectView::Class(_))),
            r is Ok ==> forall|v: Value| #[trigger] old(self)@.known(v) ==> final(self)@.known(v),
            old(self)@.sound() ==> final(self)@.sound(),
    {
        let ghost filled = self@;
        let done = self.finish_class(class);
        let ghost finished = self@;
        assert(finishes(filled, finished, outcome(done), class));
        done?;
        proof {
            lemma_finished_class(filled, finished, class);
            self.lemma_view();
        }
        let module = self.allocate(Object::Str("builtins".to_owned()))?;
        let ghost named = self@;
        proof {
            self.lemma_view();
            if finished.sound() {
                allocation_keeps_sound(finished, module, ObjectView::Str("builtins"@));
            }
            assert(finished.fresh(module));
            assert(named == finished.allocated(module, ObjectView::Str("builtins"@)));
            assert(self@.at(class) == finished.at(class));
        }
        self.set_attr(class, "__module__", module)?;
        proof {
            lemma_set_class(named, class, "__module__"@, module);
            crate::completion::lemma_finished_knows(filled, finished, class);
        }
        Ok(())
    }

    fn fill_builtin(&mut self, class: Value) -> (r: Result<Value>)
        requires
            old(self).wf(),
            old(self)@.at(class) matches Some(ObjectView::Namespace(_)),
        ensures
            final(self).wf(),
            class_given(old(self)@, final(self)@, r, class),
            old(self)@.sound() ==> final(self)@.sound(),
    {
        let ghost filled = self@;
        let done = self.complete_builtin(class);
        assert(builtin_completed(filled, self@, outcome(done), class));
        match done {
            Ok(_) => Ok(class),
            Err(error) => Err(error),
        }
    }

    /// Makes a builtin class.
    pub fn builtin_class(&mut self, name: &str, bases: Vec<Value>, metaclass: Value) -> (r: Result<
        Value,
    >)
        requires
            old(self).wf(),
        ensures
            final(self).wf(),
            builtin_class_made(old(self)@, final(self)@, r, name@, bases@, metaclass),
            old(self)@.sound() && all_known(old(self)@, bases@) && old(self)@.known(metaclass)
                ==> final(self)@.sound(),
    {
        let ghost before = self@;
        let ghost given = bases@;
        let namespace = self.namespace_with_metaclass(name, bases, metaclass);
        assert(namespace_made(before, self@, namespace, name@, given, metaclass));
        match namespace {
            Err(error) => Err(error),
            Ok(class) => {
                proof {
                    lemma_made_knows(before, self@, class, name@, given, metaclass);
                }
                self.fill_builtin(class)
            },
        }
    }

    fn root(&mut self, class: Value) -> (r: Result<Value>)
        requires
            old(self).wf(),
            old(self)@.at(class) matches Some(ObjectView::Namespace(_)),
        ensures
            final(self).wf(),
            root_given(old(self)@, final(self)@, r, class),
            old(self)@.sound() ==> final(self)@.sound(),
    {
        let ghost filled = self@;
        let done = self.complete_builtin(class);
        let ghost between = self@;
        assert(builtin_completed(filled, between, outcome(done), class));
        done?;
        proof {
            self.lemma_view();
        }
        if let Ok(Object::Class(held)) = self.get_mut(class) {
            held.root = true;
        }
        proof {
            if between.sound() {
                let held = between.objects[class]->Class_0;
                let object = ObjectView::Class((ClassView { root: true, ..held }));
                assert(object.edges() == between.objects[class].edges());
                assert(lineage(object) == lineage(between.objects[class]));
                crate::soundness::narrowing_keeps_sound(between, class, object);
            }
        }
        Ok(class)
    }

    /// Makes the root class: immutable, and without ancestors.
    pub fn root_object_class(
        &mut self,
        object_new: Value,
        object_getattribute: Value,
        object_setattr: Value,
        object_delattr: Value,
    ) -> (r: Result<Value>)
        requires
            old(self).wf(),
        ensures
            final(self).wf(),
            object_class_made(
                old(self)@,
                final(self)@,
                r,
                object_new,
                object_getattribute,
                object_setattr,
                object_delattr,
            ),
            old(self)@.sound() && old(self)@.known(object_new) && old(self)@.known(
                object_getattribute,
            ) && old(self)@.known(object_setattr) && old(self)@.known(object_delattr) ==> final(
                self)@.sound(),
    {
        let ghost before = self@;
        let bases: Vec<Value> = Vec::new();
        assert(bases@ =~= Seq::<Value>::empty());
        let namespace = self.namespace("object", bases);
        let ghost made = self@;
        assert(namespace_made(
            before,
            made,
            namespace,
            "object"@,
            Seq::empty(),
            Value::unbound(),
        ));
        let value = namespace?;
        proof {
            lemma_made_knows(before, made, value, "object"@, Seq::empty(), Value::unbound());
        }
        self.namespace_set(value, "__new__", object_new)?;
        self.namespace_set(value, "__getattribute__", object_getattribute)?;
        self.namespace_set(value, "__setattr__", object_setattr)?;
        self.namespace_set(value, "__delattr__", object_delattr)?;
        self.root(value)
    }

    fn finish_type(&mut self, class: Value, object_class: Value, type_new: Value) -> (r: Result<
        Value,
    >)
        requires
            old(self).wf(),
            old(self)@.at(class) matches Some(ObjectView::Class(_)),
        ensures
            final(self).wf(),
            type_finished(old(self)@, final(self)@, r, class, object_class, type_new),
            old(self)@.sound() && old(self)@.known(type_new) ==> final(self)@.sound(),
    {
        let ghost between = self@;
        proof {
            self.lemma_view();
        }
        self.set_attr(class, "__new__", type_new)?;
        proof {
            lemma_set_class(between, class, "__new__"@, type_new);
            self.lemma_view();
        }
        self.set_class_metaclass(object_class, class)?;
        proof {
            self.lemma_view();
        }
        self.set_class_metaclass(class, class)?;
        Ok(class)
    }

    fn fill_type(&mut self, class: Value, object_class: Value, type_new: Value) -> (r: Result<
        Value,
    >)
        requires
            old(self).wf(),
            old(self)@.at(class) matches Some(ObjectView::Namespace(_)),
        ensures
            final(self).wf(),
            type_given(old(self)@, final(self)@, r, class, object_class, type_new),
            old(self)@.sound() && old(self)@.known(type_new) ==> final(self)@.sound(),
    {
        let ghost filled = self@;
        let done = self.complete_builtin(class);
        assert(builtin_completed(filled, self@, outcome(done), class));
        done?;
        self.finish_type(class, object_class, type_new)
    }

    /// Makes the class of classes, its own metaclass and that of the root
    /// class.
    pub fn root_type_class(
        &mut self,
        object_class: Value,
        type_new: Value,
        type_getattribute: Value,
        type_setattr: Value,
        type_delattr: Value,
    ) -> (r: Result<Value>)
        requires
            old(self).wf(),
        ensures
            final(self).wf(),
            type_class_made(
                old(self)@,
                final(self)@,
                r,
                object_class,
                type_new,
                type_getattribute,
                type_setattr,
                type_delattr,
            ),
            old(self)@.sound() && old(self)@.known(object_class) && old(self)@.known(type_new)
                && old(self)@.known(type_getattribute) && old(self)@.known(type_setattr) && old(
                self,
            )@.known(type_delattr) ==> final(self)@.sound(),
    {
        let ghost before = self@;
        let mut bases: Vec<Value> = Vec::new();
        bases.push(object_class);
        assert(bases@ =~= seq![object_class]);
        let namespace = self.namespace("type", bases);
        let ghost made = self@;
        assert(namespace_made(
            before,
            made,
            namespace,
            "type"@,
            seq![object_class],
            Value::unbound(),
        ));
        let value = namespace?;
        proof {
            lemma_made_knows(before, made, value, "type"@, seq![object_class], Value::unbound());
            assert(before.known(object_class) ==> all_known(before, seq![object_class]));
        }
        self.namespace_set(value, "__getattribute__", type_getattribute)?;
        self.namespace_set(value, "__setattr__", type_setattr)?;
        self.namespace_set(value, "__delattr__", type_delattr)?;
        proof {
            if before.known(type_new) {
                assert(made.known(type_new));
            }
        }
        self.fill_type(value, object_class, type_new)
    }
}

/// A class stays a class when an attribute is set on it.
proof fn lemma_set_class(heap: HeapView, class: Value, name: Seq<char>, value: Value)
    requires
        heap.at(class) matches Some(ObjectView::Class(_)),
        heap.set_class_attr(class, name, value).1 is Ok,
    ensures
        heap.set_class_attr(class, name, value).0.at(class) matches Some(ObjectView::Class(_)),
        heap.set_class_attr(class, name, value).0.issued == heap.issued,
{
    let held = heap.objects[class]->Class_0;
    let bound = heap.barrier(class, value).with(
        class,
        ObjectView::Class(held.bound(name, value)),
    );
    lemma_still_class(bound, heap.invalidation(class)->Ok_0, class);
}

proof fn lemma_still_class(heap: HeapView, targets: Seq<Value>, class: Value)
    requires
        heap.at(class) matches Some(ObjectView::Class(_)),
    ensures
        heap.invalidated(targets).at(class) matches Some(ObjectView::Class(_)),
        heap.invalidated(targets).issued == heap.issued,
    decreases targets.len(),
{
    if targets.len() > 0 {
        lemma_still_class(heap, targets.drop_last(), class);
    }
}

/// A new namespace is a namespace, and forgets no handle.
proof fn lemma_made_knows(
    before: HeapView,
    made: HeapView,
    namespace: Value,
    name: Seq<char>,
    bases: Seq<Value>,
    metaclass: Value,
)
    requires
        namespace_made(before, made, Ok(namespace), name, bases, metaclass),
    ensures
        made.at(namespace) matches Some(ObjectView::Namespace(class)) && class.namespace_mapping is None,
        forall|v: Value| #[trigger] before.known(v) ==> made.known(v),
{
    let (between, module, qualified) = choose|between: HeapView, module: Value, qualified: Value|
        #![trigger namespace_parts(before, between, module, qualified, name)]
        namespace_parts(before, between, module, qualified, name) && between.fresh(namespace)
            && made == between.allocated(
            namespace,
            new_namespace(name, bases, metaclass, None, initial_attributes(module, qualified)),
        );
    assert(made.objects[namespace] == new_namespace(
        name,
        bases,
        metaclass,
        None,
        initial_attributes(module, qualified),
    ));
}

} // verus!
