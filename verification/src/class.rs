//! Class objects and the namespaces they are made from.
use vstd::prelude::*;
use crate::edges::{find_pair, first_pair, optional, pair_values, visit_optional, visit_pairs};
use crate::measure;
use crate::shapes::{visit_all, visit_named, AttributesView};
use crate::text::{lookup, name_pairs, named};
use crate::value::Value;

verus! {

#[derive(Clone, Copy, Debug, PartialEq, Eq, Structural)]
pub struct TypeId(pub u32);

/// A key of a class dictionary.
#[derive(Debug)]
pub enum ClassDictionaryKey {
    Text(String),
    Other(Value),
}

/// See [`ClassDictionaryKey`].
#[verifier::ext_equal]
pub enum ClassKey {
    Text(Seq<char>),
    Other(Value),
}

impl View for ClassDictionaryKey {
    type V = ClassKey;

    open spec fn view(&self) -> ClassKey {
        match self {
            ClassDictionaryKey::Text(name) => ClassKey::Text(name@),
            ClassDictionaryKey::Other(key) => ClassKey::Other(*key),
        }
    }
}

impl ClassDictionaryKey {
    pub fn copy(&self) -> (r: ClassDictionaryKey)
        ensures
            r@ == self@,
    {
        match self {
            ClassDictionaryKey::Text(name) => ClassDictionaryKey::Text(name.clone()),
            ClassDictionaryKey::Other(key) => ClassDictionaryKey::Other(*key),
        }
    }
}

/// The keys of a class dictionary, in order.
pub open spec fn class_keys(order: Seq<ClassDictionaryKey>) -> Seq<ClassKey> {
    Seq::new(order.len(), |i: int| order[i]@)
}

#[derive(Debug)]
pub struct Class {
    pub root: bool,
    pub id: TypeId,
    pub version: u64,
    pub name: String,
    /// Logical class handle for this class object's metaclass.
    pub metaclass: Value,
    /// Dict returned by a custom metaclass `__prepare__` while the class body
    /// runs. Completed classes materialize it into `attributes`.
    pub namespace_mapping: Option<Value>,
    pub attributes: Vec<(String, Value)>,
    /// Non-string keys are not part of attribute lookup, but are exposed
    /// through a programmatically created class's mapping proxy.
    pub extra_attributes: Vec<(Value, Value)>,
    /// Insertion order for the complete class dictionary without duplicating
    /// string attribute values or putting a hash table on the attribute path.
    pub dictionary_order: Vec<ClassDictionaryKey>,
    pub bases: Vec<Value>,
    /// C3 ancestors, excluding self. These are traced logical handles.
    pub mro: Vec<Value>,
    /// Weak descendant handles used only for dependency invalidation.
    pub dependents: Vec<Value>,
}

/// See [`Class`].
#[verifier::ext_equal]
pub struct ClassView {
    pub root: bool,
    pub id: TypeId,
    pub version: u64,
    pub name: Seq<char>,
    pub metaclass: Value,
    pub namespace_mapping: Option<Value>,
    pub attributes: Seq<(Seq<char>, Value)>,
    pub extra_attributes: Seq<(Value, Value)>,
    pub dictionary_order: Seq<ClassKey>,
    pub bases: Seq<Value>,
    pub mro: Seq<Value>,
    pub dependents: Seq<Value>,
}

impl View for Class {
    type V = ClassView;

    open spec fn view(&self) -> ClassView {
        ClassView {
            root: self.root,
            id: self.id,
            version: self.version,
            name: self.name@,
            metaclass: self.metaclass,
            namespace_mapping: self.namespace_mapping,
            attributes: name_pairs(self.attributes@),
            extra_attributes: self.extra_attributes@,
            dictionary_order: class_keys(self.dictionary_order@),
            bases: self.bases@,
            mro: self.mro@,
            dependents: self.dependents@,
        }
    }
}

impl ClassView {
    /// The traced edges. Dependents are weak and not among them.
    pub open spec fn edges(self) -> Seq<Value> {
        seq![self.metaclass] + optional(self.namespace_mapping) + AttributesView::Dictionary(
            self.attributes,
        ).edges() + pair_values(self.extra_attributes) + self.bases + self.mro
    }

    /// The attribute this class itself holds under `name`.
    pub open spec fn own(self, name: Seq<char>) -> Option<Value> {
        named(self.attributes, name)
    }

    /// The dictionary entry at a position of the insertion order.
    pub open spec fn entry(self, index: int) -> Option<(ClassKey, Value)> {
        if 0 <= index < self.dictionary_order.len() {
            let key = self.dictionary_order[index];
            let value = match key {
                ClassKey::Text(name) => self.own(name),
                ClassKey::Other(key) => first_pair(self.extra_attributes, key),
            };
            match value {
                Some(value) => Some((key, value)),
                None => None,
            }
        } else {
            None
        }
    }
}

/// The storage of the text keys of a class dictionary.
pub open spec fn key_bytes(order: Seq<ClassKey>) -> int
    decreases order.len(),
{
    if order.len() == 0 {
        0
    } else {
        key_bytes(order.drop_last()) + match order.last() {
            ClassKey::Text(name) => vstd::utf8::encode_utf8(name).len() as int,
            ClassKey::Other(_) => 0,
        }
    }
}

fn key_storage(order: &Vec<ClassDictionaryKey>) -> (r: usize)
    ensures
        r >= measure::saturate(key_bytes(class_keys(order@))),
{
    let ghost keys = class_keys(order@);
    let mut total: usize = 0;
    let mut i: usize = 0;
    while i < order.len()
        invariant
            i <= order.len(),
            keys == class_keys(order@),
            total >= measure::saturate(key_bytes(keys.take(i as int))),
        decreases order.len() - i,
    {
        assert(keys.take(i + 1).drop_last() =~= keys.take(i as int));
        let size = match &order[i] {
            ClassDictionaryKey::Text(name) => measure::text_room(name),
            ClassDictionaryKey::Other(_) => 0,
        };
        total = total.saturating_add(size);
        i += 1;
    }
    assert(keys.take(keys.len() as int) =~= keys);
    total
}

/// What the allocator gave to the parts of a class, in items, and in bytes for
/// names.
#[derive(Clone, Copy, Debug)]
pub struct ClassRoom {
    pub name: usize,
    pub attributes: usize,
    pub attribute_names: usize,
    pub extra: usize,
    pub order: usize,
    pub order_names: usize,
    pub bases: usize,
    pub mro: usize,
    pub dependents: usize,
}

impl ClassRoom {
    /// Whether there is room for a class.
    pub open spec fn holds(self, class: ClassView) -> bool {
        &&& self.name >= vstd::utf8::encode_utf8(class.name).len()
        &&& self.attributes >= class.attributes.len()
        &&& self.attribute_names >= measure::saturate(measure::name_bytes(class.attributes))
        &&& self.extra >= class.extra_attributes.len()
        &&& self.order >= class.dictionary_order.len()
        &&& self.order_names >= measure::saturate(key_bytes(class.dictionary_order))
        &&& self.bases >= class.bases.len()
        &&& self.mro >= class.mro.len()
        &&& self.dependents >= class.dependents.len()
    }

    /// The bytes of the parts together.
    pub open spec fn total(self) -> int {
        vstd::layout::size_of::<Class>() + self.name + self.attributes * vstd::layout::size_of::<
            (String, Value),
        >() + self.extra * vstd::layout::size_of::<(Value, Value)>() + self.order
            * vstd::layout::size_of::<ClassDictionaryKey>() + self.attribute_names
            + self.order_names + (self.bases + self.mro) * 8 + self.dependents * 8
    }

    /// The bytes of the parts together.
    pub fn bytes(&self) -> (r: usize)
        ensures
            r == measure::saturate(self.total()),
    {
        let own = core::mem::size_of::<Class>().saturating_add(self.name);
        let attributes = measure::area(self.attributes, core::mem::size_of::<(String, Value)>());
        let extra = measure::area(self.extra, core::mem::size_of::<(Value, Value)>());
        let order = measure::area(self.order, core::mem::size_of::<ClassDictionaryKey>());
        let names = self.attribute_names.saturating_add(self.order_names);
        let lineage = measure::area(self.bases, 8).saturating_add(
            measure::area(self.mro, 8),
        ).saturating_add(measure::area(self.dependents, 8));
        own.saturating_add(attributes).saturating_add(extra).saturating_add(order).saturating_add(
            names,
        ).saturating_add(lineage)
    }
}

impl ClassView {
    /// What the class occupies at the least.
    pub open spec fn least_bytes(self) -> int {
        vstd::layout::size_of::<Class>() + vstd::utf8::encode_utf8(self.name).len()
            + self.attributes.len() * vstd::layout::size_of::<(String, Value)>()
            + measure::name_bytes(self.attributes) + self.extra_attributes.len()
            * vstd::layout::size_of::<(Value, Value)>() + self.dictionary_order.len()
            * vstd::layout::size_of::<ClassDictionaryKey>() + key_bytes(self.dictionary_order)
            + 8 * (self.bases.len() + self.mro.len() + self.dependents.len())
    }
}

impl Class {
    /// Appends every traced edge to `visited`.
    pub fn trace(&self, visited: &mut Vec<Value>)
        ensures
            final(visited)@ == old(visited)@ + self@.edges(),
    {
        visited.push(self.metaclass);
        visit_optional(self.namespace_mapping, visited);
        visit_named(&self.attributes, visited);
        visit_pairs(&self.extra_attributes, visited);
        visit_all(&self.bases, visited);
        visit_all(&self.mro, visited);
        assert(visited@ =~= old(visited)@ + self@.edges());
    }

    /// What the allocator gave to the parts.
    pub fn room(&self) -> (r: ClassRoom)
        ensures
            r.holds(self@),
    {
        ClassRoom {
            name: measure::text_room(&self.name),
            attributes: measure::room(&self.attributes),
            attribute_names: measure::name_storage(&self.attributes),
            extra: measure::room(&self.extra_attributes),
            order: measure::room(&self.dictionary_order),
            order_names: key_storage(&self.dictionary_order),
            bases: measure::room(&self.bases),
            mro: measure::room(&self.mro),
            dependents: measure::room(&self.dependents),
        }
    }

    /// An estimate of the storage held: that of the parts as allocated. How
    /// much more than the items' own size was allocated is not stated.
    pub fn estimated_bytes(&self) -> (r: usize)
        ensures
            exists|room: ClassRoom| #[trigger] room.holds(self@) && r == measure::saturate(room.total()),
            r >= measure::saturate(self@.least_bytes()),
    {
        let room = self.room();
        proof {
            self.lemma_least(room);
        }
        room.bytes()
    }

    proof fn lemma_least(&self, room: ClassRoom)
        requires
            room.holds(self@),
        ensures
            measure::saturate(self@.least_bytes()) <= measure::saturate(room.total()),
    {
        let (a, e, o) = (
            vstd::layout::size_of::<(String, Value)>() as int,
            vstd::layout::size_of::<(Value, Value)>() as int,
            vstd::layout::size_of::<ClassDictionaryKey>() as int,
        );
        assert(self.attributes@.len() * a <= room.attributes * a && self.extra_attributes@.len() * e
            <= room.extra * e && self.dictionary_order@.len() * o <= room.order * o)
            by (nonlinear_arith)
            requires
                self.attributes@.len() <= room.attributes,
                self.extra_attributes@.len() <= room.extra,
                self.dictionary_order@.len() <= room.order,
                a >= 0,
                e >= 0,
                o >= 0,
        ;
    }

    pub fn dictionary_len(&self) -> (r: usize)
        ensures
            r == self@.dictionary_order.len(),
    {
        self.dictionary_order.len()
    }

    pub fn dictionary_entry(&self, index: usize) -> (r: Option<(ClassDictionaryKey, Value)>)
        ensures
            r is Some <==> self@.entry(index as int) is Some,
            r matches Some((key, value)) ==> self@.entry(index as int) == Some((key@, value)),
    {
        if index >= self.dictionary_order.len() {
            return None;
        }
        let key = self.dictionary_order[index].copy();
        assert(key@ == self@.dictionary_order[index as int]);
        let value = match &key {
            ClassDictionaryKey::Text(name) => lookup(&self.attributes, name.as_str()),
            ClassDictionaryKey::Other(key) => find_pair(&self.extra_attributes, *key),
        };
        match value {
            Some(value) => Some((key, value)),
            None => None,
        }
    }
}

} // verus!
