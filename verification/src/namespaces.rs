//! Class namespaces: building them, and completing them into classes.
use vstd::prelude::*;
use vstd::string::StringExecFns;
use crate::class::{class_keys, Class, ClassDictionaryKey, ClassKey, ClassView, TypeId};
use crate::dict::Dict;
use crate::diagnostic::{fault, fault_text, outcome, Diagnostic, Fault, Result};
use crate::edges::contains;
use crate::heap::{no_memory, Heap, HeapView, Tally};
use crate::key::KeyView;
use crate::lookup::Outcome;
use crate::mapping::{delete_counted, text_set_counted};
use crate::object::{Object, ObjectView};
use crate::soundness::{
    allocation_keeps_sound, barred_store_keeps_sound, barrier_keeps_sound, class_holds,
    lemma_class_holds, narrowing_keeps_sound,
};
use crate::text::{join3, lookup, name_pairs, name_position, position, same};
use crate::value::Value;

verus! {

/// Whether a name is written like a protocol: between pairs of underscores.
pub open spec fn dunder(name: Seq<char>) -> bool {
    name.len() >= 2 && name[0] == '_' && name[1] == '_' && name[name.len() - 1] == '_'
        && name[name.len() - 2] == '_'
}

/// The protocols and class attributes that are implemented.
pub open spec fn implemented(name: Seq<char>) -> bool {
    name == "__init__"@ || name == "__new__"@ || name == "__call__"@ || name == "__len__"@
        || name == "__bool__"@ || name == "__get__"@ || name == "__getattr__"@
        || name == "__getattribute__"@ || name == "__setattr__"@ || name == "__delattr__"@
        || name == "__iter__"@ || name == "__next__"@ || name == "__enter__"@
        || name == "__exit__"@ || name == "__set__"@ || name == "__set_name__"@
        || name == "__prepare__"@ || name == "__getitem__"@ || name == "__setitem__"@
        || name == "__delitem__"@ || name == "__delete__"@ || name == "__add__"@
        || name == "__radd__"@ || name == "__iadd__"@ || name == "__sub__"@ || name == "__rsub__"@
        || name == "__isub__"@ || name == "__mul__"@ || name == "__rmul__"@ || name == "__imul__"@
        || name == "__truediv__"@ || name == "__rtruediv__"@ || name == "__itruediv__"@
        || name == "__floordiv__"@ || name == "__rfloordiv__"@ || name == "__ifloordiv__"@
        || name == "__mod__"@ || name == "__rmod__"@ || name == "__imod__"@ || name == "__pow__"@
        || name == "__rpow__"@ || name == "__ipow__"@ || name == "__or__"@ || name == "__ror__"@
        || name == "__ior__"@ || name == "__xor__"@ || name == "__rxor__"@ || name == "__ixor__"@
        || name == "__and__"@ || name == "__rand__"@ || name == "__iand__"@
        || name == "__lshift__"@ || name == "__rlshift__"@ || name == "__ilshift__"@
        || name == "__rshift__"@ || name == "__rrshift__"@ || name == "__irshift__"@
        || name == "__eq__"@ || name == "__ne__"@ || name == "__lt__"@ || name == "__le__"@
        || name == "__gt__"@ || name == "__ge__"@ || name == "__neg__"@ || name == "__pos__"@
        || name == "__abs__"@ || name == "__invert__"@ || name == "__int__"@
        || name == "__float__"@ || name == "__index__"@ || name == "__module__"@
        || name == "__qualname__"@ || name == "__doc__"@ || name == "__name__"@
}

/// Whether a class may define a name.
pub open spec fn supported_hook(name: Seq<char>) -> Outcome<()> {
    if dunder(name) && !implemented(name) {
        Err(
            fault_text(
                "UnsupportedFeature",
                "class protocol '"@ + name + "' is not implemented yet"@,
            ),
        )
    } else {
        Ok(())
    }
}

fn is_dunder(name: &str) -> (r: bool)
    ensures
        r == dunder(name@),
{
    let len = name.unicode_len();
    len >= 2 && name.get_char(0) == '_' && name.get_char(1) == '_' && name.get_char(len - 1) == '_'
        && name.get_char(len - 2) == '_'
}

fn is_implemented(name: &str) -> (r: bool)
    ensures
        r == implemented(name@),
{
    same(name, "__init__") || same(name, "__new__") || same(name, "__call__")
        || same(name, "__len__") || same(name, "__bool__") || same(name, "__get__")
        || same(name, "__getattr__") || same(name, "__getattribute__")
        || same(name, "__setattr__") || same(name, "__delattr__") || same(name, "__iter__")
        || same(name, "__next__") || same(name, "__enter__") || same(name, "__exit__")
        || same(name, "__set__") || same(name, "__set_name__") || same(name, "__prepare__")
        || same(name, "__getitem__") || same(name, "__setitem__") || same(name, "__delitem__")
        || same(name, "__delete__") || same(name, "__add__") || same(name, "__radd__")
        || same(name, "__iadd__") || same(name, "__sub__") || same(name, "__rsub__")
        || same(name, "__isub__") || same(name, "__mul__") || same(name, "__rmul__")
        || same(name, "__imul__") || same(name, "__truediv__") || same(name, "__rtruediv__")
        || same(name, "__itruediv__") || same(name, "__floordiv__") || same(name, "__rfloordiv__")
        || same(name, "__ifloordiv__") || same(name, "__mod__") || same(name, "__rmod__")
        || same(name, "__imod__") || same(name, "__pow__") || same(name, "__rpow__")
        || same(name, "__ipow__") || same(name, "__or__") || same(name, "__ror__")
        || same(name, "__ior__") || same(name, "__xor__") || same(name, "__rxor__")
        || same(name, "__ixor__") || same(name, "__and__") || same(name, "__rand__")
        || same(name, "__iand__") || same(name, "__lshift__") || same(name, "__rlshift__")
        || same(name, "__ilshift__") || same(name, "__rshift__") || same(name, "__rrshift__")
        || same(name, "__irshift__") || same(name, "__eq__") || same(name, "__ne__")
        || same(name, "__lt__") || same(name, "__le__") || same(name, "__gt__")
        || same(name, "__ge__") || same(name, "__neg__") || same(name, "__pos__")
        || same(name, "__abs__") || same(name, "__invert__") || same(name, "__int__")
        || same(name, "__float__") || same(name, "__index__") || same(name, "__module__")
        || same(name, "__qualname__") || same(name, "__doc__") || same(name, "__name__")
}

pub fn unsupported_hook(name: &str) -> (r: Result<()>)
    ensures
        outcome(r) == supported_hook(name@),
{
    if is_dunder(name) && !is_implemented(name) {
        return Err(
            Diagnostic::with_text(
                "UnsupportedFeature",
                join3("class protocol '", name, "' is not implemented yet"),
            ),
        );
    }
    Ok(())
}

/// The part of a qualified name behind its last dot.
pub open spec fn last_segment(name: Seq<char>) -> Seq<char>
    decreases name.len(),
{
    if name.len() == 0 || name.last() == '.' {
        Seq::empty()
    } else {
        last_segment(name.drop_last()).push(name.last())
    }
}

fn segment(name: &str) -> (r: String)
    ensures
        r@ == last_segment(name@),
{
    let len = name.unicode_len();
    let mut text = "".to_owned();
    proof {
        reveal_strlit("");
    }
    let mut i: usize = 0;
    assert(name@.take(0) =~= Seq::<char>::empty());
    assert(text@ =~= Seq::<char>::empty());
    while i < len
        invariant
            i <= len,
            len == name@.len(),
            text@ == last_segment(name@.take(i as int)),
        decreases len - i,
    {
        let c = name.get_char(i);
        assert(name@.take(i + 1).drop_last() =~= name@.take(i as int));
        if c == '.' {
            text = "".to_owned();
            proof {
                reveal_strlit("");
            }
            assert(text@ =~= Seq::<char>::empty());
        } else {
            text.push(c);
        }
        i += 1;
    }
    assert(name@.take(i as int) =~= name@);
    text
}

/// What allocating one object does.
pub open spec fn allocates(
    before: HeapView,
    after: HeapView,
    result: core::result::Result<Value, Diagnostic>,
    object: ObjectView,
) -> bool {
    match result {
        Ok(value) => before.room > 0 && before.fresh(value) && after == before.allocated(
            value,
            object,
        ),
        Err(error) => before.room == 0 && error@ == no_memory() && after == before,
    }
}

/// A namespace with nothing in it yet but what it is given.
pub open spec fn new_namespace(
    qualname: Seq<char>,
    bases: Seq<Value>,
    metaclass: Value,
    mapping: Option<Value>,
    attributes: Seq<(Seq<char>, Value)>,
) -> ObjectView {
    ObjectView::Namespace(
        ClassView {
            root: false,
            id: TypeId(0),
            version: 0,
            name: last_segment(qualname),
            metaclass,
            namespace_mapping: mapping,
            attributes,
            extra_attributes: Seq::empty(),
            dictionary_order: Seq::new(
                attributes.len(),
                |i: int| ClassKey::Text(attributes[i].0),
            ),
            bases,
            mro: Seq::empty(),
            dependents: Seq::empty(),
        },
    )
}

/// The attributes every plain namespace begins with.
pub open spec fn initial_attributes(module: Value, qualified: Value) -> Seq<(Seq<char>, Value)> {
    seq![
        ("__module__"@, module),
        ("__qualname__"@, qualified),
        ("__doc__"@, Value::none()),
    ]
}

impl HeapView {
    /// The namespace behind a value.
    pub open spec fn namespace_at(self, value: Value) -> Outcome<ClassView> {
        match self.found(value) {
            Ok(ObjectView::Namespace(class)) => Ok(class),
            Ok(_) => Err(fault("BytecodeError", "missing class namespace")),
            Err(error) => Err(error),
        }
    }

    /// A dictionary that stands behind a namespace.
    pub open spec fn mapping_dict(self, mapping: Value) -> Outcome<()> {
        match self.found(mapping) {
            Ok(ObjectView::Dict(_)) => Ok(()),
            Ok(_) => Err(
                fault("BytecodeError", "custom class mapping requires VM protocol dispatch"),
            ),
            Err(error) => Err(error),
        }
    }

    /// What a namespace holds under a name.
    pub open spec fn namespace_get(self, namespace: Value, name: Seq<char>) -> Outcome<
        Option<Value>,
    > {
        match self.namespace_at(namespace) {
            Err(error) => Err(error),
            Ok(class) => match class.namespace_mapping {
                Some(mapping) => match self.mapping_dict(mapping) {
                    Err(error) => Err(error),
                    Ok(_) => match self.dict(mapping) {
                        Err(error) => Err(error),
                        Ok(dict) => Ok(dict.value_of(KeyView::Text(name))),
                    },
                },
                None => Ok(class.own(name)),
            },
        }
    }
}

impl ClassView {
    /// With an attribute bound: replaced in place, or added with its place in
    /// the dictionary order.
    pub open spec fn bound(self, name: Seq<char>, value: Value) -> ClassView {
        match name_position(self.attributes, name) {
            Some(i) => ClassView {
                attributes: self.attributes.update(i, (self.attributes[i].0, value)),
                ..self
            },
            None => ClassView {
                attributes: self.attributes.push((name, value)),
                dictionary_order: self.dictionary_order.push(ClassKey::Text(name)),
                ..self
            },
        }
    }
}

impl Class {
    /// Binds an attribute.
    pub fn bind(&mut self, name: &str, value: Value)
        ensures
            final(self)@ == old(self)@.bound(name@, value),
    {
        let ghost before = *self;
        match position(&self.attributes, name) {
            Some(i) => {
                proof {
                    crate::text::lemma_name_position(name_pairs(self.attributes@), name@);
                }
                self.attributes[i].1 = value;
                assert(name_pairs(self.attributes@) =~= name_pairs(before.attributes@).update(
                    i as int,
                    (name_pairs(before.attributes@)[i as int].0, value),
                ));
            },
            None => {
                self.attributes.push((name.to_owned(), value));
                self.dictionary_order.push(ClassDictionaryKey::Text(name.to_owned()));
                assert(name_pairs(self.attributes@) =~= name_pairs(before.attributes@).push(
                    (name@, value),
                ));
                assert(class_keys(self.dictionary_order@) =~= class_keys(
                    before.dictionary_order@,
                ).push(ClassKey::Text(name@)));
            },
        }
    }
}

impl Heap {
    /// A plain namespace without a metaclass.
    pub fn namespace(&mut self, qualname: &str, bases: Vec<Value>) -> (r: Result<Value>)
        requires
            old(self).wf(),
        ensures
            final(self).wf(),
            namespace_made(
                old(self)@,
                final(self)@,
                r,
                qualname@,
                bases@,
                Value::unbound(),
            ),
            old(self)@.sound() && all_known(old(self)@, bases@) ==> final(self)@.sound(),
    {
        proof {
            crate::value::lemma_not_heap();
        }
        self.namespace_with_metaclass(qualname, bases, Value::unbound())
    }

    /// A plain namespace: a module and qualified name, no documentation.
    pub fn namespace_with_metaclass(
        &mut self,
        qualname: &str,
        bases: Vec<Value>,
        metaclass: Value,
    ) -> (r: Result<Value>)
        requires
            old(self).wf(),
        ensures
            final(self).wf(),
            namespace_made(old(self)@, final(self)@, r, qualname@, bases@, metaclass),
            old(self)@.sound() && all_known(old(self)@, bases@) && old(self)@.known(metaclass)
                ==> final(self)@.sound(),
    {
        let ghost before = self@;
        proof {
            self.lemma_view();
        }
        let module = self.allocate(Object::Str("__main__".to_owned()))?;
        let ghost first = self@;
        proof {
            self.lemma_view();
            if before.sound() {
                allocation_keeps_sound(before, module, ObjectView::Str("__main__"@));
            }
        }
        let qualified = self.allocate(Object::Str(qualname.to_owned()))?;
        proof {
            self.lemma_view();
            if before.sound() {
                allocation_keeps_sound(first, qualified, ObjectView::Str(qualname@));
            }
        }
        let mut attributes: Vec<(String, Value)> = Vec::new();
        attributes.push(("__module__".to_owned(), module));
        attributes.push(("__qualname__".to_owned(), qualified));
        attributes.push(("__doc__".to_owned(), Value::none()));
        let mut order: Vec<ClassDictionaryKey> = Vec::new();
        order.push(ClassDictionaryKey::Text("__module__".to_owned()));
        order.push(ClassDictionaryKey::Text("__qualname__".to_owned()));
        order.push(ClassDictionaryKey::Text("__doc__".to_owned()));
        let class = Class {
            root: false,
            id: TypeId(0),
            version: 0,
            name: segment(qualname),
            metaclass,
            namespace_mapping: None,
            attributes,
            extra_attributes: Vec::new(),
            dictionary_order: order,
            bases,
            mro: Vec::new(),
            dependents: Vec::new(),
        };
        proof {
            let initial = initial_attributes(module, qualified);
            assert(name_pairs(class.attributes@) =~= initial);
            assert(class_keys(class.dictionary_order@) =~= Seq::new(
                initial.len(),
                |i: int| ClassKey::Text(initial[i].0),
            ));
            assert(ObjectView::Namespace(class@) =~= new_namespace(
                qualname@,
                bases@,
                metaclass,
                None,
                initial,
            ));
            assert(namespace_parts(before, self@, module, qualified, qualname@));
        }
        let ghost second = self@;
        let ghost held = class@;
        let result = self.allocate(Object::Namespace(class));
        proof {
            if before.sound() && all_known(before, bases@) && before.known(metaclass) {
                crate::value::lemma_not_heap();
                if let Ok(namespace) = result {
                    lemma_class_holds(held);
                    assert forall|e: Value| #[trigger] ObjectView::Namespace(held).edges().contains(
                        e,
                    ) implies second.known(e) || e == namespace by {
                        assert(class_holds(held, e));
                        if bases@.contains(e) {
                            assert(before.known(e));
                            assert(first.known(e));
                        } else if e == metaclass {
                            assert(before.known(e));
                            assert(first.known(e));
                        }
                    }
                    allocation_keeps_sound(second, namespace, ObjectView::Namespace(held));
                }
            }
        }
        result
    }

    /// A namespace over a mapping.
    pub(crate) fn namespace_over(
        &mut self,
        qualname: &str,
        bases: Vec<Value>,
        metaclass: Value,
        mapping: Value,
    ) -> (r: Result<Value>)
        requires
            old(self).wf(),
        ensures
            final(self).wf(),
            allocates(
                old(self)@,
                final(self)@,
                r,
                new_namespace(qualname@, bases@, metaclass, Some(mapping), Seq::empty()),
            ),
            old(self)@.sound() && all_known(old(self)@, bases@) && old(self)@.known(metaclass)
                && old(self)@.known(mapping) ==> final(self)@.sound(),
    {
        let ghost before = self@;
        let class = Class {
            root: false,
            id: TypeId(0),
            version: 0,
            name: segment(qualname),
            metaclass,
            namespace_mapping: Some(mapping),
            attributes: Vec::new(),
            extra_attributes: Vec::new(),
            dictionary_order: Vec::new(),
            bases,
            mro: Vec::new(),
            dependents: Vec::new(),
        };
        proof {
            assert(name_pairs(class.attributes@) =~= Seq::empty());
            assert(ObjectView::Namespace(class@) =~= new_namespace(
                qualname@,
                bases@,
                metaclass,
                Some(mapping),
                Seq::empty(),
            ));
            self.lemma_view();
        }
        let ghost held = class@;
        let result = self.allocate(Object::Namespace(class));
        proof {
            if let Ok(namespace) = result {
                if before.sound() && all_known(before, bases@) && before.known(metaclass)
                    && before.known(mapping) {
                    lemma_class_holds(held);
                    assert forall|e: Value| #[trigger]
                        ObjectView::Namespace(held).edges().contains(e) implies before.known(e) by {
                        assert(class_holds(held, e));
                        assert(held.bases.contains(e) ==> bases@.contains(e));
                    }
                    allocation_keeps_sound(before, namespace, ObjectView::Namespace(held));
                }
            }
        }
        result
    }

    /// A namespace over the mapping that a metaclass prepared.
    pub fn namespace_from_mapping(
        &mut self,
        qualname: &str,
        bases: Vec<Value>,
        metaclass: Value,
        mapping: Value,
    ) -> (r: Result<Value>)
        requires
            old(self).wf(),
        ensures
            final(self).wf(),
            match old(self)@.is_mapping(mapping) {
                Err(error) => outcome(r) == Err::<Value, Fault>(error) && final(self)@ == old(
                    self,
                )@,
                Ok(false) => outcome(r) == Err::<Value, Fault>(
                    fault("TypeError", "metaclass __prepare__ must return a mapping"),
                ) && final(self)@ == old(self)@,
                Ok(true) => allocates(
                    old(self)@,
                    final(self)@,
                    r,
                    new_namespace(qualname@, bases@, metaclass, Some(mapping), Seq::empty()),
                ),
            },
            old(self)@.sound() && all_known(old(self)@, bases@) && old(self)@.known(metaclass)
                ==> final(self)@.sound(),
    {
        proof {
            self.lemma_view();
        }
        let protocol = match self.get(mapping)? {
            Object::Dict(_) => true,
            _ => self.special_method_call(mapping, "__getitem__")?.is_some()
                && self.special_method_call(mapping, "__setitem__")?.is_some(),
        };
        if !protocol {
            return Err(
                Diagnostic::new("TypeError", "metaclass __prepare__ must return a mapping"),
            );
        }
        self.namespace_over(qualname, bases, metaclass, mapping)
    }

    pub fn namespace_get(&self, namespace: Value, name: &str) -> (r: Result<Option<Value>>)
        requires
            self.wf(),
        ensures
            outcome(r) == self@.namespace_get(namespace, name@),
    {
        let class = self.namespace_class(namespace)?;
        match class.namespace_mapping {
            Some(mapping) => {
                self.mapping_dict(mapping)?;
                self.dict_get_str(mapping, name)
            },
            None => Ok(lookup(&class.attributes, name)),
        }
    }

    /// The namespace behind a value.
    pub(crate) fn namespace_class(&self, namespace: Value) -> (r: Result<&Class>)
        requires
            self.wf(),
        ensures
            match r {
                Ok(class) => self@.namespace_at(namespace) == Ok::<ClassView, Fault>(class@),
                Err(error) => self@.namespace_at(namespace) == Err::<ClassView, Fault>(error@),
            },
    {
        match self.get(namespace)? {
            Object::Namespace(class) => Ok(class),
            _ => Err(Diagnostic::new("BytecodeError", "missing class namespace")),
        }
    }

    fn mapping_dict(&self, mapping: Value) -> (r: Result<()>)
        requires
            self.wf(),
        ensures
            outcome(r) == self@.mapping_dict(mapping),
    {
        match self.get(mapping)? {
            Object::Dict(_) => Ok(()),
            _ => Err(
                Diagnostic::new(
                    "BytecodeError",
                    "custom class mapping requires VM protocol dispatch",
                ),
            ),
        }
    }

    pub fn namespace_backing_mapping(&self, namespace: Value) -> (r: Result<Option<Value>>)
        requires
            self.wf(),
        ensures
            outcome(r) == match self@.namespace_at(namespace) {
                Ok(class) => Ok(class.namespace_mapping),
                Err(error) => Err(error),
            },
    {
        Ok(self.namespace_class(namespace)?.namespace_mapping)
    }
}

impl HeapView {
    /// Whether a value answers as a mapping: a dictionary, or an instance with
    /// item access both ways.
    pub open spec fn is_mapping(self, mapping: Value) -> Outcome<bool> {
        match self.found(mapping) {
            Err(error) => Err(error),
            Ok(ObjectView::Dict(_)) => Ok(true),
            Ok(_) => match self.special_method_call(mapping, "__getitem__"@) {
                Err(error) => Err(error),
                Ok(None) => Ok(false),
                Ok(Some(_)) => match self.special_method_call(mapping, "__setitem__"@) {
                    Err(error) => Err(error),
                    Ok(setter) => Ok(setter is Some),
                },
            },
        }
    }
}

/// Whether values are no handles, or ones that were given out.
pub open spec fn all_known(heap: HeapView, values: Seq<Value>) -> bool {
    forall|v: Value| #[trigger] values.contains(v) ==> heap.known(v)
}

/// Whether `after` has gained the two texts a plain namespace begins with.
pub open spec fn namespace_parts(
    before: HeapView,
    after: HeapView,
    module: Value,
    qualified: Value,
    qualname: Seq<char>,
) -> bool {
    let first = before.allocated(module, ObjectView::Str("__main__"@));
    before.fresh(module) && first.fresh(qualified) && after == first.allocated(
        qualified,
        ObjectView::Str(qualname),
    )
}

/// What making a plain namespace does: three allocations, or a failure where
/// there is no room for them.
pub open spec fn namespace_made(
    before: HeapView,
    after: HeapView,
    result: core::result::Result<Value, Diagnostic>,
    qualname: Seq<char>,
    bases: Seq<Value>,
    metaclass: Value,
) -> bool {
    match result {
        Err(error) => before.room < 3 && error@ == no_memory() && forall|v: Value|
            before.live(v) ==> #[trigger] after.at(v) == before.at(v),
        Ok(namespace) => before.room >= 3 && exists|between: HeapView, module: Value, qualified: Value|
            #![trigger namespace_parts(before, between, module, qualified, qualname)]
            namespace_parts(before, between, module, qualified, qualname) && between.fresh(
                namespace,
            ) && after == between.allocated(
                namespace,
                new_namespace(
                    qualname,
                    bases,
                    metaclass,
                    None,
                    initial_attributes(module, qualified),
                ),
            ),
    }
}

/// Binding an attribute adds at most its value as an edge.
pub proof fn lemma_bound_class(class: ClassView, name: Seq<char>, value: Value)
    ensures
        forall|e: Value| #[trigger]
            class.bound(name, value).edges().contains(e) ==> class.edges().contains(e) || e == value,
        class.bound(name, value).bases == class.bases,
        class.bound(name, value).mro == class.mro,
{
    let after = class.bound(name, value);
    lemma_class_holds(class);
    lemma_class_holds(after);
    crate::text::lemma_name_position(class.attributes, name);
    assert forall|e: Value| #[trigger] after.edges().contains(e) implies class.edges().contains(e)
        || e == value by {
        assert(class_holds(after, e));
        if exists|i: int| 0 <= i < after.attributes.len() && (#[trigger] after.attributes[i]).1 == e {
            let i = choose|i: int|
                0 <= i < after.attributes.len() && (#[trigger] after.attributes[i]).1 == e;
            if e != value {
                assert(class.attributes[i].1 == e);
                assert(class_holds(class, e));
            }
        } else {
            assert(class_holds(class, e));
        }
    }
}

/// Unbinding an attribute adds no edge.
proof fn lemma_without_class(class: ClassView, index: int, name: Seq<char>)
    requires
        0 <= index < class.attributes.len(),
    ensures
        forall|e: Value| #[trigger]
            class.without(index, name).edges().contains(e) ==> class.edges().contains(e),
        class.without(index, name).bases == class.bases,
        class.without(index, name).mro == class.mro,
{
    let after = class.without(index, name);
    lemma_class_holds(class);
    lemma_class_holds(after);
    assert forall|e: Value| #[trigger] after.edges().contains(e) implies class.edges().contains(
        e,
    ) by {
        assert(class_holds(after, e));
        if exists|i: int| 0 <= i < after.attributes.len() && (#[trigger] after.attributes[i]).1 == e {
            let i = choose|i: int|
                0 <= i < after.attributes.len() && (#[trigger] after.attributes[i]).1 == e;
            let at = if i < index {
                i
            } else {
                i + 1
            };
            assert(class.attributes[at].1 == e);
        }
        assert(class_holds(class, e));
    }
}

/// A mapping behind a class adds at most itself as an edge.
pub proof fn lemma_mapped_class(class: ClassView, mapping: Value)
    ensures
        forall|e: Value| #[trigger]
            (ClassView { namespace_mapping: Some(mapping), ..class }).edges().contains(e)
                ==> class.edges().contains(e) || e == mapping,
{
    let after = ClassView { namespace_mapping: Some(mapping), ..class };
    lemma_class_holds(class);
    lemma_class_holds(after);
    assert forall|e: Value| #[trigger] after.edges().contains(e) implies class.edges().contains(e)
        || e == mapping by {
        assert(class_holds(after, e));
        if e != mapping {
            assert(class_holds(class, e));
        }
    }
}

impl HeapView {
    /// A value bound in a plain namespace.
    pub open spec fn namespace_bound(
        self,
        namespace: Value,
        name: Seq<char>,
        value: Value,
    ) -> HeapView {
        self.barrier(namespace, value).with(
            namespace,
            ObjectView::Namespace(self.objects[namespace]->Namespace_0.bound(name, value)),
        )
    }
}

impl ClassView {
    /// Without an attribute, and without its first place in the order.
    pub open spec fn without(self, index: int, name: Seq<char>) -> ClassView {
        ClassView {
            attributes: self.attributes.remove(index),
            dictionary_order: match key_position(self.dictionary_order, name, 0) {
                Some(place) => self.dictionary_order.remove(place),
                None => self.dictionary_order,
            },
            ..self
        }
    }
}

/// Where a name first stands in a dictionary order, from a position on.
pub open spec fn key_position(order: Seq<ClassKey>, name: Seq<char>, from: int) -> Option<int>
    decreases order.len() - from,
{
    if from < 0 || from >= order.len() {
        None
    } else if order[from] == ClassKey::Text(name) {
        Some(from)
    } else {
        key_position(order, name, from + 1)
    }
}

fn find_key(order: &Vec<ClassDictionaryKey>, name: &str) -> (r: Option<usize>)
    ensures
        match r {
            Some(i) => key_position(class_keys(order@), name@, 0) == Some(i as int) && i
                < order.len(),
            None => key_position(class_keys(order@), name@, 0) is None,
        },
{
    let ghost keys = class_keys(order@);
    let mut i: usize = 0;
    while i < order.len()
        invariant
            i <= order.len(),
            keys == class_keys(order@),
            key_position(keys, name@, 0) == key_position(keys, name@, i as int),
        decreases order.len() - i,
    {
        assert(keys[i as int] == order[i as int]@);
        let here = match &order[i] {
            ClassDictionaryKey::Text(text) => same(text.as_str(), name),
            ClassDictionaryKey::Other(_) => false,
        };
        if here {
            return Some(i);
        }
        i += 1;
    }
    None
}

/// What binding a name in a namespace does to the estimates.
pub open spec fn binding_counted(
    before: HeapView,
    after: HeapView,
    first: Tally,
    last: Tally,
    namespace: Value,
    name: Seq<char>,
    done: bool,
) -> bool {
    match before.namespace_at(namespace) {
        Err(_) => last == first,
        Ok(class) => match class.namespace_mapping {
            Some(mapping) => if before.mapping_dict(mapping) is Err || before.room == 0 {
                last == first
            } else {
                text_set_counted(before, after, first, last, mapping, name, done)
            },
            None => first.gains(last, before.objects[namespace], after.objects[namespace]),
        },
    }
}

/// What unbinding a name in a namespace does to the estimates: a key for the
/// dictionary behind it is an object more.
pub open spec fn unbinding_counted(
    before: HeapView,
    after: HeapView,
    first: Tally,
    last: Tally,
    namespace: Value,
    name: Seq<char>,
) -> bool {
    match before.namespace_at(namespace) {
        Err(_) => last == first,
        Ok(class) => match class.namespace_mapping {
            Some(mapping) => if before.room == 0 {
                last == first
            } else {
                exists|begun: Tally|
                    #![trigger first.adds(begun, ObjectView::Str(name))]
                    first.adds(begun, ObjectView::Str(name)) && delete_counted(
                        before.allocated(before.upcoming(), ObjectView::Str(name)),
                        after,
                        begun,
                        last,
                        mapping,
                        before.upcoming(),
                    )
            },
            None => if name_position(class.attributes, name) is Some {
                first.loses(last, before.objects[namespace], after.objects[namespace])
            } else {
                last == first
            },
        },
    }
}

impl Heap {
    /// Binds a name in a namespace, or in the dictionary behind it.
    pub fn namespace_set(&mut self, namespace: Value, name: &str, value: Value) -> (r: Result<()>)
        requires
            old(self).wf(),
        ensures
            final(self).wf(),
            match old(self)@.namespace_at(namespace) {
                Err(error) => outcome(r) == Err::<(), Fault>(error) && final(self)@ == old(
                    self,
                )@,
                Ok(class) => match class.namespace_mapping {
                    Some(mapping) => match old(self)@.mapping_dict(mapping) {
                        Err(error) => outcome(r) == Err::<(), Fault>(error) && final(self)@
                            == old(self)@,
                        Ok(_) => if old(self)@.room == 0 {
                            outcome(r) == Err::<(), Fault>(no_memory()) && final(self)@ == old(
                                self,
                            )@
                        } else {
                            exists|key: Value|
                                #![trigger old(self)@.fresh(key)]
                                old(self)@.fresh(key) && (final(self)@, outcome(r)) == old(
                                    self,
                                )@.allocated(key, ObjectView::Str(name@)).dict_set(
                                    mapping,
                                    key,
                                    value,
                                )
                        },
                    },
                    None => r is Ok && final(self)@ == old(self)@.namespace_bound(
                        namespace,
                        name@,
                        value,
                    ),
                },
            },
            old(self)@.sound() && old(self)@.known(value) ==> final(self)@.sound(),
            binding_counted(
                old(self)@,
                final(self)@,
                old(self).tally(),
                final(self).tally(),
                namespace,
                name@,
                r is Ok,
            ),
    {
        let mapping = self.namespace_class(namespace)?.namespace_mapping;
        if let Some(mapping) = mapping {
            self.mapping_dict(mapping)?;
            return self.dict_set_str(mapping, name, value);
        }
        let ghost before = self@;
        proof {
            self.lemma_view();
        }
        self.write_barrier(namespace, value);
        let size = self.weight(namespace);
        if let Ok(Object::Namespace(class)) = self.get_mut(namespace) {
            class.bind(name, value);
        }
        proof {
            let class = before.objects[namespace]->Namespace_0;
            if before.sound() && before.known(value) {
                lemma_bound_class(class, name@, value);
                barred_store_keeps_sound(
                    before,
                    namespace,
                    value,
                    ObjectView::Namespace(class.bound(name@, value)),
                );
            }
        }
        let weight = self.weight(namespace);
        self.grow(weight.saturating_sub(size));
        Ok(())
    }

    /// Unbinds a name in a namespace, or in the dictionary behind it.
    pub fn namespace_delete(&mut self, namespace: Value, name: &str) -> (r: Result<()>)
        requires
            old(self).wf(),
        ensures
            final(self).wf(),
            match old(self)@.namespace_at(namespace) {
                Err(error) => outcome(r) == Err::<(), Fault>(error) && final(self)@ == old(
                    self,
                )@,
                Ok(class) => match class.namespace_mapping {
                    Some(mapping) => if old(self)@.room == 0 {
                        outcome(r) == Err::<(), Fault>(no_memory()) && final(self)@ == old(self)@
                    } else {
                        exists|key: Value|
                            #![trigger old(self)@.fresh(key)]
                            old(self)@.fresh(key) && (final(self)@, outcome(r)) == old(
                                self,
                            )@.allocated(key, ObjectView::Str(name@)).dict_delete(mapping, key)
                    },
                    None => match name_position(class.attributes, name@) {
                        None => outcome(r) == Err::<(), Fault>(undefined(name@)) && final(self)@
                            == old(self)@,
                        Some(i) => r is Ok && final(self)@ == old(self)@.with(
                            namespace,
                            ObjectView::Namespace(class.without(i, name@)),
                        ),
                    },
                },
            },
            old(self)@.sound() ==> final(self)@.sound(),
            unbinding_counted(
                old(self)@,
                final(self)@,
                old(self).tally(),
                final(self).tally(),
                namespace,
                name@,
            ),
    {
        let ghost start = self@;
        proof {
            self.lemma_view();
        }
        let mapping = self.namespace_class(namespace)?.namespace_mapping;
        if let Some(mapping) = mapping {
            let key = self.allocate(Object::Str(name.to_owned()))?;
            assert(old(self)@.fresh(key));
            proof {
                if start.sound() {
                    allocation_keeps_sound(start, key, ObjectView::Str(name@));
                }
            }
            return self.dict_delete(mapping, key);
        }
        let index = match position(&self.namespace_class(namespace)?.attributes, name) {
            None => {
                return Err(
                    Diagnostic::with_text(
                        "NameError",
                        join3("name '", name, "' is not defined"),
                    ),
                );
            },
            Some(index) => index,
        };
        let size = self.weight(namespace);
        if let Ok(Object::Namespace(class)) = self.get_mut(namespace) {
            let ghost before = *class;
            class.attributes.remove(index);
            assert(name_pairs(class.attributes@) =~= name_pairs(before.attributes@).remove(
                index as int,
            ));
            if let Some(place) = find_key(&class.dictionary_order, name) {
                class.dictionary_order.remove(place);
                assert(class_keys(class.dictionary_order@) =~= class_keys(
                    before.dictionary_order@,
                ).remove(place as int));
            }
        }
        proof {
            let class = start.objects[namespace]->Namespace_0;
            if start.sound() {
                lemma_without_class(class, index as int, name@);
                narrowing_keeps_sound(
                    start,
                    namespace,
                    ObjectView::Namespace(class.without(index as int, name@)),
                );
            }
        }
        let weight = self.weight(namespace);
        self.shrink(size.saturating_sub(weight));
        Ok(())
    }

    /// Puts a dictionary behind a namespace.
    pub fn namespace_use_mapping(&mut self, namespace: Value, mapping: Value) -> (r: Result<()>)
        requires
            old(self).wf(),
        ensures
            final(self).wf(),
            final(self).tally() == old(self).tally(),
            match old(self)@.found(mapping) {
                Err(error) => outcome(r) == Err::<(), Fault>(error) && final(self)@ == old(
                    self,
                )@,
                Ok(ObjectView::Dict(_)) => match old(self)@.namespace_at(namespace) {
                    Err(error) => outcome(r) == Err::<(), Fault>(error) && final(self)@ == old(
                        self,
                    )@.barrier(namespace, mapping),
                    Ok(class) => r is Ok && final(self)@ == old(self)@.barrier(
                        namespace,
                        mapping,
                    ).with(
                        namespace,
                        ObjectView::Namespace(
                            ClassView { namespace_mapping: Some(mapping), ..class },
                        ),
                    ),
                },
                Ok(_) => outcome(r) == Err::<(), Fault>(
                    fault("TypeError", "type.__new__() argument 3 must be a dict"),
                ) && final(self)@ == old(self)@,
            },
            old(self)@.sound() ==> final(self)@.sound(),
    {
        let ghost before = self@;
        proof {
            self.lemma_view();
        }
        match self.get(mapping)? {
            Object::Dict(_) => {},
            _ => {
                return Err(
                    Diagnostic::new("TypeError", "type.__new__() argument 3 must be a dict"),
                );
            },
        }
        self.write_barrier(namespace, mapping);
        proof {
            if before.sound() {
                barrier_keeps_sound(before, namespace, mapping);
                assert(before.known(mapping));
            }
        }
        self.namespace_class(namespace)?;
        if let Ok(Object::Namespace(class)) = self.get_mut(namespace) {
            class.namespace_mapping = Some(mapping);
        }
        proof {
            let class = before.objects[namespace]->Namespace_0;
            if before.sound() {
                let held = ClassView { namespace_mapping: Some(mapping), ..class };
                lemma_mapped_class(class, mapping);
                barred_store_keeps_sound(before, namespace, mapping, ObjectView::Namespace(held));
            }
        }
        Ok(())
    }
}

/// The fault of a name that a namespace lacks.
pub open spec fn undefined(name: Seq<char>) -> Fault {
    fault_text("NameError", "name '"@ + name + "' is not defined"@)
}

} // verus!
