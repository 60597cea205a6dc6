//! Bounded shared shape transitions; instance fast storage contains only Values.
//! Metadata has no managed edges. Dictionary fallback bounds retained shape names.
use vstd::prelude::*;
use crate::measure::{area, name_bytes, name_storage, room, saturate};
use crate::text::{
    lemma_name_absent, lemma_name_position, lemma_name_position_is, lookup, name_pairs,
    name_position, named, position, same,
};
use crate::value::Value;

verus! {

/// Bounds on shared metadata, not language limits: objects beyond these go
/// dynamic.
pub const MAX_DEPTH: usize = 64;

pub const MAX_SHAPES: usize = 4096;

pub const MAX_NAME_BYTES: usize = 1024;

#[derive(Clone, Copy, Debug, PartialEq, Eq, Structural)]
pub struct ShapeId(pub u32);

#[derive(Debug)]
struct Shape {
    parent: ShapeId,
    name: String,
    depth: usize,
}

/// A tree of layouts: shape zero is the empty layout, every other shape adds
/// one name to its parent.
#[derive(Debug)]
pub struct Shapes {
    nodes: Vec<Shape>,
    children: Vec<Vec<u32>>,
}

/// The last position of `name` in a layout.
pub open spec fn last_slot(layout: Seq<Seq<char>>, name: Seq<char>) -> Option<int>
    decreases layout.len(),
{
    if layout.len() == 0 {
        None
    } else if layout.last() == name {
        Some(layout.len() - 1)
    } else {
        last_slot(layout.drop_last(), name)
    }
}

/// [`last_slot`] is the greatest index that carries the name.
pub proof fn lemma_last_slot(layout: Seq<Seq<char>>, name: Seq<char>)
    ensures
        last_slot(layout, name) matches Some(i) ==> 0 <= i < layout.len() && layout[i] == name
            && forall|j: int| i < j < layout.len() ==> #[trigger] layout[j] != name,
        last_slot(layout, name) is None ==> forall|j: int|
            0 <= j < layout.len() ==> #[trigger] layout[j] != name,
    decreases layout.len(),
{
    if layout.len() > 0 && layout.last() != name {
        lemma_last_slot(layout.drop_last(), name);
        let rest = layout.drop_last();
        assert forall|j: int| 0 <= j < layout.len() - 1 implies #[trigger] layout[j] == rest[j] by {}
    }
}

impl Shapes {
    pub closed spec fn wf(&self) -> bool {
        &&& self.nodes.len() <= MAX_SHAPES
        &&& self.children.len() == self.nodes.len() + 1
        &&& forall|i: int|
            0 <= i < self.nodes.len() ==> (#[trigger] self.nodes[i]).parent.0 <= i
                && self.nodes[i].depth == self.layout(ShapeId((i + 1) as u32)).len()
                && self.nodes[i].depth <= MAX_DEPTH
        &&& forall|p: int, k: int|
            0 <= p < self.children.len() && 0 <= k < self.children[p].len() ==> {
                let c = #[trigger] self.children[p][k];
                1 <= c <= self.nodes.len() && self.nodes[c - 1].parent.0 == p
            }
        &&& forall|i: int|
            0 <= i < self.nodes.len() ==> self.children[(#[trigger] self.nodes[i]).parent.0 as int]@.contains(
                (i + 1) as u32,
            )
        &&& forall|i: int, j: int|
            0 <= i < j < self.nodes.len() ==> !((#[trigger] self.nodes[i]).parent == (
            #[trigger] self.nodes[j]).parent && self.nodes[i].name@ == self.nodes[j].name@)
    }

    /// The number of shapes.
    pub closed spec fn count(&self) -> nat {
        (self.nodes.len() + 1) as nat
    }

    /// Whether `id` names a shape.
    pub open spec fn has(&self, id: ShapeId) -> bool {
        id.0 < self.count()
    }

    /// The names of a shape, outermost first.
    pub closed spec fn layout(&self, id: ShapeId) -> Seq<Seq<char>>
        decreases id.0,
    {
        if id.0 == 0 || id.0 > self.nodes.len() || self.nodes[id.0 - 1].parent.0 >= id.0 {
            Seq::empty()
        } else {
            self.layout(self.nodes[id.0 - 1].parent).push(self.nodes[id.0 - 1].name@)
        }
    }

    /// The shape reached from `id` by adding `name`, if there is one.
    pub closed spec fn child(&self, id: ShapeId, name: Seq<char>) -> Option<ShapeId> {
        if exists|c: ShapeId| self.is_child(id, name, c) {
            Some(choose|c: ShapeId| self.is_child(id, name, c))
        } else {
            None
        }
    }

    /// Whether `c` is the shape that adds `name` to `id`.
    pub closed spec fn is_child(&self, id: ShapeId, name: Seq<char>, c: ShapeId) -> bool {
        1 <= c.0 <= self.nodes.len() && self.nodes[c.0 - 1].parent == id && self.nodes[c.0
            - 1].name@ == name
    }

    /// Whether every shape and every transition of `self` is the same in
    /// `later`, and no transition was added beyond the bounds.
    pub open spec fn kept_in(&self, later: &Shapes) -> bool {
        &&& self.count() <= later.count()
        &&& forall|id: ShapeId| self.has(id) ==> #[trigger] later.layout(id) == self.layout(id)
        &&& forall|id: ShapeId, name: Seq<char>|
            #![trigger self.child(id, name)]
            #![trigger later.child(id, name)]
            self.child(id, name) is Some ==> later.child(id, name) == self.child(id, name)
        &&& forall|id: ShapeId, name: Seq<char>|
            self.has(id) && (#[trigger] later.child(id, name)) is Some ==> self.extends(id, name)
    }

    proof fn lemma_count(&self)
        requires
            self.wf(),
        ensures
            1 <= self.count() <= MAX_SHAPES + 1,
    {
    }

    proof fn lemma_child_unique(&self, id: ShapeId, name: Seq<char>, c: ShapeId)
        requires
            self.wf(),
            self.is_child(id, name, c),
        ensures
            self.child(id, name) == Some(c),
    {
        let d = choose|c: ShapeId| self.is_child(id, name, c);
        assert(self.is_child(id, name, d));
        if c.0 < d.0 {
            assert(!(self.nodes[c.0 - 1].parent == self.nodes[d.0 - 1].parent
                && self.nodes[c.0 - 1].name@ == self.nodes[d.0 - 1].name@));
        } else if d.0 < c.0 {
            assert(!(self.nodes[d.0 - 1].parent == self.nodes[c.0 - 1].parent
                && self.nodes[d.0 - 1].name@ == self.nodes[c.0 - 1].name@));
        }
        assert(c == d);
    }

    proof fn lemma_layout_kept(&self, later: &Shapes, id: ShapeId)
        requires
            self.nodes.len() <= later.nodes.len(),
            forall|i: int|
                0 <= i < self.nodes.len() ==> #[trigger] later.nodes[i] == self.nodes[i],
            id.0 <= self.nodes.len(),
        ensures
            later.layout(id) == self.layout(id),
        decreases id.0,
    {
        if id.0 != 0 && self.nodes[id.0 - 1].parent.0 < id.0 {
            assert(later.nodes[id.0 - 1] == self.nodes[id.0 - 1]);
            self.lemma_layout_kept(later, self.nodes[id.0 - 1].parent);
        } else if id.0 != 0 {
            assert(later.nodes[id.0 - 1] == self.nodes[id.0 - 1]);
        }
    }

    pub fn new() -> (shapes: Shapes)
        ensures
            shapes.wf(),
            shapes.count() == 1,
            shapes.layout(ShapeId(0)) == Seq::<Seq<char>>::empty(),
            forall|id: ShapeId, name: Seq<char>| (#[trigger] shapes.child(id, name)) is None,
    {
        let mut children: Vec<Vec<u32>> = Vec::new();
        children.push(Vec::new());
        Shapes { nodes: Vec::new(), children }
    }

    pub fn len(&self) -> (r: usize)
        requires
            self.wf(),
        ensures
            r == self.count(),
            1 <= r <= MAX_SHAPES + 1,
    {
        self.nodes.len() + 1
    }

    pub fn slot(&self, id: ShapeId, name: &str) -> (r: Option<usize>)
        requires
            self.wf(),
            self.has(id),
        ensures
            r is Some <==> last_slot(self.layout(id), name@) is Some,
            r matches Some(i) ==> last_slot(self.layout(id), name@) == Some(i as int) && i
                < self.layout(id).len(),
    {
        let mut current = id;
        while current.0 != 0
            invariant
                self.wf(),
                self.has(id),
                self.has(current),
                self.layout(current).len() <= self.layout(id).len(),
                last_slot(self.layout(id), name@) == last_slot(self.layout(current), name@),
            decreases current.0,
        {
            let shape = &self.nodes[current.0 as usize - 1];
            assert(self.nodes[current.0 - 1].parent.0 <= current.0 - 1);
            assert(self.layout(current).drop_last() == self.layout(shape.parent));
            if same(shape.name.as_str(), name) {
                return Some(shape.depth - 1);
            }
            current = shape.parent;
        }
        None
    }

    pub fn transition(&mut self, id: ShapeId, name: &str) -> (r: Option<ShapeId>)
        requires
            old(self).wf(),
            old(self).has(id),
        ensures
            final(self).wf(),
            old(self).kept_in(final(self)),
            old(self).child(id, name@) is Some ==> r == old(self).child(id, name@)
                && *final(self) == *old(self),
            old(self).child(id, name@) is None ==> (r is Some <==> old(self).layout(id).len()
                < MAX_DEPTH && old(self).count() <= MAX_SHAPES && vstd::utf8::encode_utf8(name@).len()
                <= MAX_NAME_BYTES),
            old(self).child(id, name@) is None && r is None ==> *final(self) == *old(self),
            old(self).child(id, name@) is None && r is Some ==> final(self).count()
                == old(self).count() + 1 && r == Some(ShapeId(old(self).count() as u32)),
            r matches Some(next) ==> final(self).has(next) && final(self).layout(next) == old(
                self,
            ).layout(id).push(name@) && final(self).child(id, name@) == Some(next),
            forall|other: ShapeId, n: Seq<char>|
                other != id || n != name@ ==> #[trigger] final(self).child(other, n) == old(
                    self,
                ).child(other, n),
    {
        let ghost before = *self;
        let siblings = &self.children[id.0 as usize];
        let mut k: usize = 0;
        while k < siblings.len()
            invariant
                self.wf(),
                self.has(id),
                *self == before,
                *siblings == self.children[id.0 as int],
                k <= siblings.len(),
                forall|j: int|
                    0 <= j < k ==> self.nodes[(#[trigger] siblings[j]) - 1].name@ != name@,
            decreases siblings.len() - k,
        {
            let next = siblings[k];
            assert(1 <= self.children[id.0 as int][k as int] <= self.nodes.len());
            if same(self.nodes[next as usize - 1].name.as_str(), name) {
                proof {
                    self.lemma_child_unique(id, name@, ShapeId(next));
                    assert(self.layout(ShapeId(next)) == self.layout(id).push(name@));
                }
                return Some(ShapeId(next));
            }
            k += 1;
        }
        proof {
            assert(self.child(id, name@) is None) by {
                if exists|c: ShapeId| self.is_child(id, name@, c) {
                    let c = choose|c: ShapeId| self.is_child(id, name@, c);
                    assert(self.children[self.nodes[c.0 - 1].parent.0 as int]@.contains(c.0));
                    let j = choose|j: int| 0 <= j < siblings.len() && siblings[j] == c.0;
                    assert(self.nodes[siblings[j] - 1].name@ != name@);
                }
            }
        }
        let depth: usize = if id.0 == 0 {
            0
        } else {
            self.nodes[id.0 as usize - 1].depth
        };
        assert(depth == self.layout(id).len());
        if depth >= MAX_DEPTH || self.nodes.len() >= MAX_SHAPES || byte_length(name)
            > MAX_NAME_BYTES {
            return None;
        }
        let next: u32 = self.nodes.len() as u32 + 1;
        self.nodes.push(Shape { parent: id, name: name.to_owned(), depth: depth + 1 });
        self.children.push(Vec::new());
        self.children[id.0 as usize].push(next);
        proof {
            assert forall|s: ShapeId| before.has(s) implies #[trigger] self.layout(s)
                == before.layout(s) by {
                before.lemma_layout_kept(self, s);
            }
            assert(self.layout(id) == before.layout(id));
            assert(self.nodes[next - 1].parent == id);
            assert(self.layout(ShapeId(next)) == before.layout(id).push(name@));
            assert forall|i: int| 0 <= i < self.nodes.len() implies (
            #[trigger] self.nodes[i]).parent.0 <= i && self.nodes[i].depth == self.layout(
                ShapeId((i + 1) as u32),
            ).len() && self.nodes[i].depth <= MAX_DEPTH by {
                if i < before.nodes.len() {
                    assert(self.nodes[i] == before.nodes[i]);
                    assert(before.has(ShapeId((i + 1) as u32)));
                }
            }
            assert forall|p: int, k: int|
                0 <= p < self.children.len() && 0 <= k < self.children[p].len() implies {
                let c = #[trigger] self.children[p][k];
                1 <= c <= self.nodes.len() && self.nodes[c - 1].parent.0 == p
            } by {
                if p < before.children.len() {
                    if p == id.0 && k == before.children[p].len() {
                    } else {
                        assert(self.children[p][k] == before.children[p][k]);
                        assert(self.nodes[before.children[p][k] - 1]
                            == before.nodes[before.children[p][k] - 1]);
                    }
                }
            }
            assert forall|i: int| 0 <= i < self.nodes.len() implies self.children[(
            #[trigger] self.nodes[i]).parent.0 as int]@.contains((i + 1) as u32) by {
                if i < before.nodes.len() {
                    assert(self.nodes[i] == before.nodes[i]);
                    let p = before.nodes[i].parent.0 as int;
                    assert(before.children[p]@.contains((i + 1) as u32));
                    let k = choose|k: int|
                        0 <= k < before.children[p].len() && before.children[p][k] == (i
                            + 1) as u32;
                    assert(self.children[p][k] == before.children[p][k]);
                } else {
                    let p = id.0 as int;
                    let k = before.children[p].len() as int;
                    assert(self.children[p][k] == next);
                }
            }
            assert forall|i: int, j: int| 0 <= i < j < self.nodes.len() implies !((
            #[trigger] self.nodes[i]).parent == (#[trigger] self.nodes[j]).parent
                && self.nodes[i].name@ == self.nodes[j].name@) by {
                if j == before.nodes.len() {
                    assert(!before.is_child(id, name@, ShapeId((i + 1) as u32)));
                    assert(self.nodes[i] == before.nodes[i]);
                } else {
                    assert(self.nodes[i] == before.nodes[i]);
                    assert(self.nodes[j] == before.nodes[j]);
                }
            }
            assert(self.wf());
            assert(self.is_child(id, name@, ShapeId(next)));
            self.lemma_child_unique(id, name@, ShapeId(next));
            assert forall|other: ShapeId, n: Seq<char>|
                other != id || n != name@ implies #[trigger] self.child(other, n) == before.child(
                other,
                n,
            ) by {
                if before.child(other, n) is Some {
                    let c = before.child(other, n).unwrap();
                    assert(before.is_child(other, n, c));
                    assert(self.nodes[c.0 - 1] == before.nodes[c.0 - 1]);
                    assert(self.is_child(other, n, c));
                    self.lemma_child_unique(other, n, c);
                } else if self.child(other, n) is Some {
                    let c = self.child(other, n).unwrap();
                    assert(self.is_child(other, n, c));
                    if c.0 != next {
                        assert(self.nodes[c.0 - 1] == before.nodes[c.0 - 1]);
                        assert(before.is_child(other, n, c));
                    }
                }
            }
        }
        Some(ShapeId(next))
    }

    /// The attributes of a shape as a named list; where a layout names
    /// something twice, the outer value stands.
    pub fn materialize(&self, id: ShapeId, values: &Vec<Value>) -> (r: Vec<(String, Value)>)
        requires
            self.wf(),
            self.has(id),
            values.len() >= self.layout(id).len(),
        ensures
            self.layout(id).no_duplicates() ==> r@.len() == self.layout(id).len(),
            distinct_names(name_pairs(r@)),
            forall|name: Seq<char>| #[trigger]
                named(name_pairs(r@), name) == first_value(self.layout(id), values@, name),
    {
        let mut map: Vec<(String, Value)> = Vec::new();
        let mut current = id;
        let ghost all = self.layout(id);
        while current.0 != 0
            invariant
                self.wf(),
                self.has(current),
                self.has(id),
                all == self.layout(id),
                values.len() >= all.len(),
                all.no_duplicates() ==> map@.len() == all.len() - self.layout(current).len(),
                self.layout(current).len() <= all.len(),
                self.layout(current) == all.take(self.layout(current).len() as int),
                distinct_names(name_pairs(map@)),
                forall|name: Seq<char>| #[trigger]
                    named(name_pairs(map@), name) == first_value_from(
                        all,
                        values@,
                        name,
                        self.layout(current).len() as int,
                    ),
            decreases current.0,
        {
            let shape = &self.nodes[current.0 as usize - 1];
            assert(self.nodes[current.0 - 1].parent.0 <= current.0 - 1);
            let ghost depth = self.layout(current).len() as int;
            assert(self.layout(current).drop_last() == self.layout(shape.parent));
            assert(self.layout(shape.parent) =~= all.take(depth - 1));
            assert(all[depth - 1] == self.layout(current).last());
            let ghost before = map@;
            insert_named(&mut map, shape.name.as_str(), values[shape.depth - 1]);
            proof {
                if all.no_duplicates() {
                    lemma_no_value(all, values@, all[depth - 1], depth);
                    assert(named(name_pairs(before), all[depth - 1]) is None);
                    lemma_name_position(name_pairs(before), all[depth - 1]);
                    assert(name_pairs(map@).len() == name_pairs(before).len() + 1);
                }
                assert forall|name: Seq<char>| #[trigger] named(name_pairs(map@), name)
                    == first_value_from(all, values@, name, depth - 1) by {
                    assert(named(name_pairs(before), name) == first_value_from(
                        all,
                        values@,
                        name,
                        depth,
                    ));
                }
            }
            current = shape.parent;
        }
        assert forall|name: Seq<char>| #[trigger] named(name_pairs(map@), name) == first_value(
            all,
            values@,
            name,
        ) by {}
        map
    }
}

/// The length of a name in bytes.
fn byte_length(name: &str) -> (r: usize)
    ensures
        r == vstd::utf8::encode_utf8(name@).len(),
{
    name.as_bytes().len()
}

/// Whether no name occurs twice.
pub open spec fn distinct_names<T>(entries: Seq<(Seq<char>, T)>) -> bool {
    forall|i: int, j: int|
        0 <= i < j < entries.len() ==> (#[trigger] entries[i]).0 != (#[trigger] entries[j]).0
}

/// The value at the outermost occurrence of `name` at index `from` or deeper.
pub open spec fn first_value_from(
    layout: Seq<Seq<char>>,
    values: Seq<Value>,
    name: Seq<char>,
    from: int,
) -> Option<Value>
    decreases layout.len() - from,
{
    if from < 0 || from >= layout.len() {
        None
    } else if layout[from] == name {
        Some(values[from])
    } else {
        first_value_from(layout, values, name, from + 1)
    }
}

proof fn lemma_no_value(
    layout: Seq<Seq<char>>,
    values: Seq<Value>,
    name: Seq<char>,
    from: int,
)
    requires
        0 <= from,
        forall|j: int| from <= j < layout.len() ==> #[trigger] layout[j] != name,
    ensures
        first_value_from(layout, values, name, from) is None,
    decreases layout.len() - from,
{
    if from < layout.len() {
        lemma_no_value(layout, values, name, from + 1);
    }
}

/// The value at the outermost occurrence of `name`.
pub open spec fn first_value(
    layout: Seq<Seq<char>>,
    values: Seq<Value>,
    name: Seq<char>,
) -> Option<Value> {
    first_value_from(layout, values, name, 0)
}

/// A named list with `name` bound to `value`: rebound in place, or added last.
pub open spec fn bound<T>(entries: Seq<(Seq<char>, T)>, name: Seq<char>, value: T) -> Seq<
    (Seq<char>, T),
> {
    match name_position(entries, name) {
        Some(i) => entries.update(i, (name, value)),
        None => entries.push((name, value)),
    }
}

/// Binding a name changes what that name yields and nothing else.
pub proof fn lemma_bound<T>(entries: Seq<(Seq<char>, T)>, name: Seq<char>, value: T)
    ensures
        forall|other: Seq<char>| #[trigger]
            named(bound(entries, name, value), other) == if other == name {
                Some(value)
            } else {
                named(entries, other)
            },
        distinct_names(entries) ==> distinct_names(bound(entries, name, value)),
{
    let after = bound(entries, name, value);
    lemma_name_position(entries, name);
    assert forall|other: Seq<char>| #[trigger] named(after, other) == if other == name {
        Some(value)
    } else {
        named(entries, other)
    } by {
        lemma_name_position(entries, other);
        match name_position(entries, name) {
            Some(i) => {
                if other == name {
                    lemma_name_position_is(after, name, i);
                } else if let Some(k) = name_position(entries, other) {
                    assert(after[k] == entries[k]);
                    lemma_name_position_is(after, other, k);
                } else {
                    assert forall|j: int| 0 <= j < after.len() implies (
                    #[trigger] after[j]).0 != other by {
                        assert(entries[j].0 != other);
                    }
                    lemma_name_absent(after, other);
                }
            },
            None => {
                let last = entries.len() as int;
                if other == name {
                    assert(after[last] == (name, value));
                    assert forall|j: int| 0 <= j < last implies (#[trigger] after[j]).0
                        != name by {
                        assert(entries[j].0 != name);
                    }
                    lemma_name_position_is(after, name, last);
                } else if let Some(k) = name_position(entries, other) {
                    assert(after[k] == entries[k]);
                    assert forall|j: int| 0 <= j < k implies (#[trigger] after[j]).0
                        != other by {
                        assert(entries[j].0 != other);
                    }
                    lemma_name_position_is(after, other, k);
                } else {
                    assert forall|j: int| 0 <= j < after.len() implies (
                    #[trigger] after[j]).0 != other by {
                        if j < last {
                            assert(entries[j].0 != other);
                        }
                    }
                    lemma_name_absent(after, other);
                }
            },
        }
    }
}

/// Binds `name` in a named list.
pub fn insert_named<T>(entries: &mut Vec<(String, T)>, name: &str, value: T)
    ensures
        name_pairs(final(entries)@) == bound(name_pairs(old(entries)@), name@, value),
        forall|other: Seq<char>| #[trigger]
            named(name_pairs(final(entries)@), other) == if other == name@ {
                Some(value)
            } else {
                named(name_pairs(old(entries)@), other)
            },
        distinct_names(name_pairs(old(entries)@)) ==> distinct_names(name_pairs(final(entries)@)),
{
    proof {
        lemma_bound(name_pairs(entries@), name@, value);
        lemma_name_position(name_pairs(entries@), name@);
    }
    match position(entries, name) {
        Some(i) => {
            entries[i].1 = value;
            assert(name_pairs(entries@) =~= bound(name_pairs(old(entries)@), name@, value));
        },
        None => {
            entries.push((name.to_owned(), value));
            assert(name_pairs(entries@) =~= bound(name_pairs(old(entries)@), name@, value));
        },
    }
}

/// Instance attributes: values laid out by a shape, or a list of their own.
#[derive(Debug)]
pub enum Attributes {
    Slots { shape: ShapeId, values: Vec<Value> },
    Dictionary(Vec<(String, Value)>),
}

/// What the allocator gave to attributes: in items, and in bytes for names.
#[derive(Clone, Copy, Debug)]
pub enum AttributeRoom {
    Slots(usize),
    Dictionary { entries: usize, names: usize },
}

impl AttributeRoom {
    /// Whether there is room for attributes.
    pub open spec fn holds(self, attributes: AttributesView) -> bool {
        match (self, attributes) {
            (AttributeRoom::Slots(room), AttributesView::Slots { values, .. }) => room
                >= values.len(),
            (
                AttributeRoom::Dictionary { entries, names },
                AttributesView::Dictionary(values),
            ) => entries >= values.len() && names >= saturate(name_bytes(values)),
            _ => false,
        }
    }

    /// The bytes of the items and names together.
    pub open spec fn total(self) -> int {
        match self {
            AttributeRoom::Slots(room) => room * 8,
            AttributeRoom::Dictionary { entries, names } => entries * vstd::layout::size_of::<
                (String, Value),
            >() + names,
        }
    }

    /// The bytes of the items and names together.
    pub fn bytes(&self) -> (r: usize)
        ensures
            r == saturate(self.total()),
    {
        match self {
            AttributeRoom::Slots(room) => area(*room, 8),
            AttributeRoom::Dictionary { entries, names } => area(
                *entries,
                core::mem::size_of::<(String, Value)>(),
            ).saturating_add(*names),
        }
    }
}

/// See [`Attributes`].
#[verifier::ext_equal]
pub enum AttributesView {
    Slots { shape: ShapeId, values: Seq<Value> },
    Dictionary(Seq<(Seq<char>, Value)>),
}

impl View for Attributes {
    type V = AttributesView;

    open spec fn view(&self) -> AttributesView {
        match self {
            Attributes::Slots { shape, values } => AttributesView::Slots {
                shape: *shape,
                values: values@,
            },
            Attributes::Dictionary(values) => AttributesView::Dictionary(name_pairs(values@)),
        }
    }
}

impl AttributesView {
    /// Whether the values fit the layout and no name stands twice.
    pub open spec fn wf(self, shapes: &Shapes) -> bool {
        match self {
            AttributesView::Slots { shape, values } => shapes.has(shape) && values.len()
                == shapes.layout(shape).len() && shapes.layout(shape).no_duplicates(),
            AttributesView::Dictionary(values) => distinct_names(values),
        }
    }

    /// The value of an attribute.
    pub open spec fn value_of(self, shapes: &Shapes, name: Seq<char>) -> Option<Value> {
        match self {
            AttributesView::Slots { shape, values } => match last_slot(
                shapes.layout(shape),
                name,
            ) {
                Some(i) => Some(values[i]),
                None => None,
            },
            AttributesView::Dictionary(values) => named(values, name),
        }
    }

    /// Where a cache finds an attribute: its layout and slot.
    pub open spec fn cache_of(self, shapes: &Shapes, name: Seq<char>) -> Option<(ShapeId, int)> {
        match self {
            AttributesView::Slots { shape, .. } => match last_slot(shapes.layout(shape), name) {
                Some(i) => Some((shape, i)),
                None => None,
            },
            AttributesView::Dictionary(_) => None,
        }
    }

    /// The values held, in storage order.
    pub open spec fn edges(self) -> Seq<Value> {
        match self {
            AttributesView::Slots { values, .. } => values,
            AttributesView::Dictionary(values) => Seq::new(values.len(), |i: int| values[i].1),
        }
    }

    /// No attribute at all.
    pub open spec fn empty() -> AttributesView {
        AttributesView::Slots { shape: ShapeId(0), values: Seq::empty() }
    }
}

impl Shapes {
    /// Whether a shape can be had that adds `name` to `id`.
    pub open spec fn extends(&self, id: ShapeId, name: Seq<char>) -> bool {
        self.child(id, name) is Some || (self.layout(id).len() < MAX_DEPTH && self.count()
            <= MAX_SHAPES && vstd::utf8::encode_utf8(name).len() <= MAX_NAME_BYTES)
    }
}

/// Attributes that fit their shapes still do, and say the same, when shapes
/// were only added.
pub proof fn lemma_attributes_kept(attributes: AttributesView, before: &Shapes, after: &Shapes)
    requires
        attributes.wf(before),
        before.kept_in(after),
    ensures
        attributes.wf(after),
        forall|name: Seq<char>| #[trigger]
            attributes.value_of(after, name) == attributes.value_of(before, name),
{
    if let AttributesView::Slots { shape, .. } = attributes {
        assert(after.layout(shape) == before.layout(shape));
    }
}

/// In a layout that names nothing twice, the outermost occurrence of a name is
/// the innermost.
proof fn lemma_only_slot(layout: Seq<Seq<char>>, values: Seq<Value>, name: Seq<char>, from: int)
    requires
        layout.no_duplicates(),
        values.len() == layout.len(),
        0 <= from <= layout.len(),
        forall|j: int| 0 <= j < from ==> layout[j] != name,
    ensures
        first_value_from(layout, values, name, from) == match last_slot(layout, name) {
            Some(i) => Some(values[i]),
            None => None,
        },
    decreases layout.len() - from,
{
    lemma_last_slot(layout, name);
    if from < layout.len() {
        if layout[from] != name {
            lemma_only_slot(layout, values, name, from + 1);
        } else if let Some(i) = last_slot(layout, name) {
            assert(i == from);
        }
    }
}

/// What writing an attribute does. A first write in slots goes along a
/// transition, which is made where there is none and the bounds allow it;
/// beyond them the attributes become a list of their own.
pub open spec fn written(
    before: AttributesView,
    shapes: &Shapes,
    after: AttributesView,
    later: &Shapes,
    name: Seq<char>,
    value: Value,
) -> bool {
    &&& forall|other: Seq<char>| #[trigger]
        after.value_of(later, other) == if other == name {
            Some(value)
        } else {
            before.value_of(shapes, other)
        }
    &&& match before {
        AttributesView::Slots { shape, values } => match last_slot(shapes.layout(shape), name) {
            Some(i) => after == (AttributesView::Slots { shape, values: values.update(i, value) })
                && *later == *shapes,
            None => if shapes.extends(shape, name) {
                &&& later.child(shape, name) is Some
                &&& after == (AttributesView::Slots {
                    shape: later.child(shape, name).unwrap(),
                    values: values.push(value),
                })
                &&& if shapes.child(shape, name) is Some {
                    *later == *shapes
                } else {
                    later.count() == shapes.count() + 1
                }
            } else {
                after is Dictionary && *later == *shapes
            },
        },
        AttributesView::Dictionary(values) => after == AttributesView::Dictionary(
            bound(values, name, value),
        ) && *later == *shapes,
    }
}

/// Shapes that were kept twice over are kept.
pub proof fn keeping_is_transitive(first: &Shapes, second: &Shapes, third: &Shapes)
    requires
        first.kept_in(second),
        second.kept_in(third),
    ensures
        first.kept_in(third),
{
    assert forall|id: ShapeId| first.has(id) implies #[trigger] third.layout(id) == first.layout(
        id,
    ) by {
        assert(second.has(id));
        assert(second.layout(id) == first.layout(id));
    }
    assert forall|id: ShapeId, name: Seq<char>|
        #![trigger first.child(id, name)]
        #![trigger third.child(id, name)]
        first.child(id, name) is Some implies third.child(id, name) == first.child(id, name) by {
        assert(second.child(id, name) == first.child(id, name));
    }
    assert forall|id: ShapeId, name: Seq<char>|
        first.has(id) && (#[trigger] third.child(id, name)) is Some implies first.extends(
        id,
        name,
    ) by {
        assert(second.has(id));
        assert(second.extends(id, name));
        assert(second.layout(id) == first.layout(id));
        if second.child(id, name) is None {
            assert(first.child(id, name) is None);
        }
    }
}

/// A transition stays: whatever is added later, it leads to the same shape,
/// and that shape has the same layout.
pub proof fn transitions_are_kept(
    shapes: &Shapes,
    later: &Shapes,
    id: ShapeId,
    name: Seq<char>,
    next: ShapeId,
)
    requires
        shapes.kept_in(later),
        shapes.child(id, name) == Some(next),
        shapes.has(next),
    ensures
        later.child(id, name) == Some(next),
        later.layout(next) == shapes.layout(next),
{
}

/// There is always the empty shape, never more shapes than the bound, and
/// never fewer than before.
pub proof fn shape_counts_are_bounded(shapes: &Shapes, later: &Shapes)
    requires
        shapes.wf(),
        later.wf(),
        shapes.kept_in(later),
    ensures
        1 <= shapes.count() <= later.count() <= MAX_SHAPES + 1,
{
    shapes.lemma_count();
    later.lemma_count();
}

/// The same write on attributes of one shape leads to one shape, whichever
/// comes first and whatever is added in between.
proof fn lemma_same_write(
    a: (AttributesView, Shapes),
    a_next: (AttributesView, Shapes),
    b: (AttributesView, Shapes),
    b_next: (AttributesView, Shapes),
    name: Seq<char>,
    values: (Value, Value),
)
    requires
        a.0 is Slots,
        b.0 is Slots,
        a.0->shape == b.0->shape,
        a.1.has(a.0->shape),
        b.1.has(b.0->shape),
        written(a.0, &a.1, a_next.0, &a_next.1, name, values.0),
        written(b.0, &b.1, b_next.0, &b_next.1, name, values.1),
        a.1.kept_in(&a_next.1),
        b.1.kept_in(&b_next.1),
        a_next.1.kept_in(&b.1) || b_next.1.kept_in(&a.1),
        a_next.0 is Slots,
    ensures
        b_next.0 is Slots,
        b_next.0->shape == a_next.0->shape,
{
    let shape = a.0->shape;
    if a_next.1.kept_in(&b.1) {
        keeping_is_transitive(&a.1, &a_next.1, &b.1);
        assert(b.1.layout(shape) == a.1.layout(shape));
        if last_slot(a.1.layout(shape), name) is None {
            assert(b.1.child(shape, name) == a_next.1.child(shape, name));
            assert(b_next.1.child(shape, name) == b.1.child(shape, name));
        }
    } else {
        keeping_is_transitive(&b.1, &b_next.1, &a.1);
        keeping_is_transitive(&b.1, &a.1, &a_next.1);
        keeping_is_transitive(&b_next.1, &a.1, &a_next.1);
        assert(b.1.layout(shape) == a.1.layout(shape));
        if last_slot(a.1.layout(shape), name) is None {
            assert(a_next.1.child(shape, name) is Some);
            assert(b.1.extends(shape, name));
            assert(a_next.1.child(shape, name) == b_next.1.child(shape, name));
        }
    }
}

/// Whether attributes came about by writes in turn, from none.
pub open spec fn written_in_turn(
    states: Seq<(AttributesView, Shapes)>,
    later: Seq<Shapes>,
    names: Seq<Seq<char>>,
    values: Seq<Value>,
) -> bool {
    &&& states.len() == names.len() + 1
    &&& later.len() == names.len()
    &&& values.len() == names.len()
    &&& states[0].0 == AttributesView::empty()
    &&& states[0].1.layout(ShapeId(0)) == Seq::<Seq<char>>::empty()
    &&& forall|i: int|
        #![trigger names[i]]
        0 <= i < names.len() ==> states[i].0.wf(&states[i].1) && states[i].1.kept_in(&later[i])
            && later[i].kept_in(&states[i + 1].1) && written(
            states[i].0,
            &states[i].1,
            states[i + 1].0,
            &later[i],
            names[i],
            values[i],
        ) && states[i + 1].0.wf(&later[i])
}

/// Whether of two writes in the same place, one was over before the other
/// began.
pub open spec fn taking_turns(
    a: Seq<(AttributesView, Shapes)>,
    a_later: Seq<Shapes>,
    b: Seq<(AttributesView, Shapes)>,
    b_later: Seq<Shapes>,
    count: nat,
) -> bool {
    forall|i: int|
        #![trigger a[i]]
        0 <= i < count ==> a_later[i].kept_in(&b[i].1) || b_later[i].kept_in(&a[i].1)
}

/// The same names, written in the same order on two owners without attributes,
/// give the same layout while slots are used at all: a cache that was filled
/// for one owner serves the other. It finds exactly the names that were
/// written.
pub proof fn same_writes_share_caches(
    a: Seq<(AttributesView, Shapes)>,
    a_later: Seq<Shapes>,
    a_values: Seq<Value>,
    b: Seq<(AttributesView, Shapes)>,
    b_later: Seq<Shapes>,
    b_values: Seq<Value>,
    names: Seq<Seq<char>>,
    shapes: &Shapes,
    name: Seq<char>,
)
    requires
        written_in_turn(a, a_later, names, a_values),
        written_in_turn(b, b_later, names, b_values),
        taking_turns(a, a_later, b, b_later, names.len()),
        a.last().0 is Slots,
        a.last().1.kept_in(shapes),
        a.last().0.wf(&a.last().1),
    ensures
        b.last().0 is Slots,
        b.last().0.cache_of(shapes, name) == a.last().0.cache_of(shapes, name),
        a.last().0.cache_of(shapes, name) is Some <==> names.contains(name),
{
    lemma_written_alike(a, a_later, a_values, b, b_later, b_values, names, names.len() as int);
    lemma_written_names(a, a_later, a_values, names, names.len() as int, name);
    let shape = a.last().0->shape;
    assert(shapes.layout(shape) == a.last().1.layout(shape));
    assert(names.take(names.len() as int) =~= names);
}

proof fn lemma_written_alike(
    a: Seq<(AttributesView, Shapes)>,
    a_later: Seq<Shapes>,
    a_values: Seq<Value>,
    b: Seq<(AttributesView, Shapes)>,
    b_later: Seq<Shapes>,
    b_values: Seq<Value>,
    names: Seq<Seq<char>>,
    count: int,
)
    requires
        written_in_turn(a, a_later, names, a_values),
        written_in_turn(b, b_later, names, b_values),
        taking_turns(a, a_later, b, b_later, names.len()),
        0 <= count <= names.len(),
        a[count].0 is Slots,
    ensures
        b[count].0 is Slots,
        b[count].0->shape == a[count].0->shape,
    decreases count,
{
    if count > 0 {
        let i = count - 1;
        let name = names[i];
        assert(a[i].0 is Slots);
        lemma_written_alike(a, a_later, a_values, b, b_later, b_values, names, i);
        lemma_same_write(
            a[i],
            (a[count].0, a_later[i]),
            b[i],
            (b[count].0, b_later[i]),
            name,
            (a_values[i], b_values[i]),
        );
    }
}

proof fn lemma_written_names(
    states: Seq<(AttributesView, Shapes)>,
    later: Seq<Shapes>,
    values: Seq<Value>,
    names: Seq<Seq<char>>,
    count: int,
    name: Seq<char>,
)
    requires
        written_in_turn(states, later, names, values),
        0 <= count <= names.len(),
        states[count].0 is Slots,
    ensures
        last_slot(states[count].1.layout(states[count].0->shape), name) is Some
            <==> names.take(count).contains(name),
    decreases count,
{
    if count > 0 {
        let i = count - 1;
        let last = names[i];
        assert(states[i].0 is Slots);
        lemma_written_names(states, later, values, names, i, name);
        let shape = states[count].0->shape;
        assert(states[count].1.layout(shape) == later[i].layout(shape));
        assert(states[count].0.value_of(&later[i], name) == if name == last {
            Some(values[i])
        } else {
            states[i].0.value_of(&states[i].1, name)
        });
        let (rest, all) = (names.take(i), names.take(count));
        assert(all =~= rest.push(last));
        assert(all[i] == last);
        if rest.contains(name) {
            let k = choose|k: int| 0 <= k < rest.len() && rest[k] == name;
            assert(all[k] == name);
        }
        if all.contains(name) && name != last {
            let k = choose|k: int| 0 <= k < all.len() && all[k] == name;
            assert(rest[k] == name);
        }
    }
}

impl Attributes {
    pub fn new() -> (r: Attributes)
        ensures
            r@ == AttributesView::empty(),
            forall|shapes: &Shapes| #[trigger] r@.wf(shapes),
    {
        Attributes::Slots { shape: ShapeId(0), values: Vec::new() }
    }

    /// Where a cache finds the attribute: its layout and slot.
    pub fn slot_cache(&self, shapes: &Shapes, name: &str) -> (r: Option<(ShapeId, usize)>)
        requires
            shapes.wf(),
            self@.wf(shapes),
        ensures
            match r {
                Some((shape, slot)) => self@.cache_of(shapes, name@) == Some((shape, slot as int)),
                None => self@.cache_of(shapes, name@) is None,
            },
            r matches Some((shape, slot)) ==> self@ is Slots && self@->shape == shape && last_slot(
                shapes.layout(shape),
                name@,
            ) == Some(slot as int) && self@.value_of(shapes, name@) == Some(
                self@->values[slot as int],
            ) && slot < self@->values.len(),
            r is None ==> self@ is Dictionary || self@.value_of(shapes, name@) is None,
    {
        match self {
            Attributes::Slots { shape, .. } => match shapes.slot(*shape, name) {
                Some(slot) => Some((*shape, slot)),
                None => None,
            },
            Attributes::Dictionary(_) => None,
        }
    }

    pub fn cached_slot(&self, shape: ShapeId, slot: usize) -> (r: Option<Value>)
        ensures
            r == match self@ {
                AttributesView::Slots { shape: actual, values } => if actual == shape && slot
                    < values.len() {
                    Some(values[slot as int])
                } else {
                    None
                },
                AttributesView::Dictionary(_) => None,
            },
    {
        match self {
            Attributes::Slots { shape: actual, values } => if *actual == shape && slot
                < values.len() {
                Some(values[slot])
            } else {
                None
            },
            Attributes::Dictionary(_) => None,
        }
    }

    /// Appends every value held to `visited`.
    pub fn trace(&self, visited: &mut Vec<Value>)
        ensures
            final(visited)@ == old(visited)@ + self@.edges(),
    {
        match self {
            Attributes::Slots { values, .. } => {
                visit_all(values, visited);
            },
            Attributes::Dictionary(values) => {
                visit_named(values, visited);
            },
        }
    }

    /// An estimate of the storage held: that of the items and their names as
    /// allocated. How much more than their own size was allocated is not
    /// stated.
    pub fn estimated_bytes(&self) -> (r: usize)
        ensures
            exists|room: AttributeRoom| #[trigger]
                room.holds(self@) && r == saturate(room.total()),
    {
        let given = self.room();
        given.bytes()
    }

    /// What the allocator gave.
    pub fn room(&self) -> (r: AttributeRoom)
        ensures
            r.holds(self@),
    {
        match self {
            Attributes::Slots { values, .. } => AttributeRoom::Slots(room(values)),
            Attributes::Dictionary(values) => AttributeRoom::Dictionary {
                entries: room(values),
                names: name_storage(values),
            },
        }
    }

    pub fn get(&self, shapes: &Shapes, name: &str) -> (r: Option<Value>)
        requires
            shapes.wf(),
            self@.wf(shapes),
        ensures
            r == self@.value_of(shapes, name@),
    {
        match self {
            Attributes::Slots { shape, values } => match shapes.slot(*shape, name) {
                Some(i) => Some(values[i]),
                None => None,
            },
            Attributes::Dictionary(values) => lookup(values, name),
        }
    }

    pub fn set(&mut self, shapes: &mut Shapes, name: &str, value: Value)
        requires
            old(shapes).wf(),
            old(self)@.wf(old(shapes)),
        ensures
            final(shapes).wf(),
            old(shapes).kept_in(final(shapes)),
            final(self)@.wf(final(shapes)),
            written(old(self)@, old(shapes), final(self)@, final(shapes), name@, value),
            forall|v: Value|
                final(self)@.edges().contains(v) ==> v == value || old(self)@.edges().contains(v),
    {
        let ghost attributes = self@;
        let ghost layouts = *shapes;
        match self {
            Attributes::Slots { shape, values } => {
                let id = *shape;
                match shapes.slot(id, name) {
                    Some(i) => {
                        values[i] = value;
                        proof {
                            lemma_last_slot(shapes.layout(id), name@);
                            assert forall|other: Seq<char>| #[trigger]
                                self@.value_of(shapes, other) == if other == name@ {
                                Some(value)
                            } else {
                                attributes.value_of(&layouts, other)
                            } by {
                                lemma_last_slot(shapes.layout(id), other);
                            }
                        }
                        return;
                    },
                    None => {},
                }
                match shapes.transition(id, name) {
                    Some(next) => {
                        *shape = next;
                        values.push(value);
                        proof {
                            let before = layouts.layout(id);
                            let after = shapes.layout(next);
                            assert(after == before.push(name@));
                            lemma_last_slot(before, name@);
                            assert(after.no_duplicates());
                            assert forall|other: Seq<char>| #[trigger]
                                self@.value_of(shapes, other) == if other == name@ {
                                Some(value)
                            } else {
                                attributes.value_of(&layouts, other)
                            } by {
                                assert(after.drop_last() =~= before);
                                lemma_last_slot(before, other);
                            }
                        }
                        return;
                    },
                    None => {},
                }
                let mut map = shapes.materialize(id, values);
                proof {
                    assert forall|other: Seq<char>| #[trigger]
                        named(name_pairs(map@), other) == attributes.value_of(&layouts, other) by {
                        lemma_only_slot(layouts.layout(id), values@, other, 0);
                    }
                    assert forall|v: Value|
                        AttributesView::Dictionary(name_pairs(map@)).edges().contains(v) implies
                        attributes.edges().contains(v) by {
                        lemma_dictionary_edges(name_pairs(map@), v);
                        let other = choose|n: Seq<char>| named(name_pairs(map@), n) == Some(v);
                        assert(attributes.value_of(&layouts, other) == Some(v));
                        lemma_last_slot(layouts.layout(id), other);
                        let i = last_slot(layouts.layout(id), other).unwrap();
                        assert(attributes.edges()[i] == v);
                    }
                }
                let ghost spread = name_pairs(map@);
                insert_named(&mut map, name, value);
                proof {
                    lemma_bound_edges(spread, name@, value);
                }
                *self = Attributes::Dictionary(map);
            },
            Attributes::Dictionary(values) => {
                let ghost spread = name_pairs(values@);
                insert_named(values, name, value);
                proof {
                    lemma_bound_edges(spread, name@, value);
                }
            },
        }
    }

    pub fn delete(&mut self, shapes: &Shapes, name: &str) -> (r: Option<Value>)
        requires
            shapes.wf(),
            old(self)@.wf(shapes),
        ensures
            final(self)@.wf(shapes),
            r == old(self)@.value_of(shapes, name@),
            forall|other: Seq<char>| #[trigger]
                final(self)@.value_of(shapes, other) == if other == name@ {
                    None
                } else {
                    old(self)@.value_of(shapes, other)
                },
            r is None ==> final(self)@ == old(self)@,
            r is Some ==> final(self)@ is Dictionary,
            forall|v: Value|
                final(self)@.edges().contains(v) ==> old(self)@.edges().contains(v),
    {
        let ghost attributes = self@;
        match self {
            Attributes::Slots { shape, values } => {
                let mut map = shapes.materialize(*shape, values);
                let ghost id = *shape;
                proof {
                    assert forall|other: Seq<char>| #[trigger]
                        named(name_pairs(map@), other) == attributes.value_of(shapes, other) by {
                        lemma_only_slot(shapes.layout(id), values@, other, 0);
                    }
                    assert forall|v: Value|
                        AttributesView::Dictionary(name_pairs(map@)).edges().contains(v) implies
                        attributes.edges().contains(v) by {
                        lemma_dictionary_edges(name_pairs(map@), v);
                        let other = choose|n: Seq<char>| named(name_pairs(map@), n) == Some(v);
                        assert(attributes.value_of(shapes, other) == Some(v));
                        lemma_last_slot(shapes.layout(id), other);
                        let i = last_slot(shapes.layout(id), other).unwrap();
                        assert(attributes.edges()[i] == v);
                    }
                }
                let ghost spread = name_pairs(map@);
                let removed = remove_named(&mut map, name);
                proof {
                    lemma_unbound_edges(spread, name@);
                }
                if removed.is_some() {
                    *self = Attributes::Dictionary(map);
                } else {
                    assert(attributes.value_of(shapes, name@) is None);
                }
                removed
            },
            Attributes::Dictionary(values) => {
                let ghost spread = name_pairs(values@);
                proof {
                    lemma_unbound_edges(spread, name@);
                }
                remove_named(values, name)
            },
        }
    }
}

/// A named list without `name`.
pub open spec fn unbound<T>(entries: Seq<(Seq<char>, T)>, name: Seq<char>) -> Seq<
    (Seq<char>, T),
> {
    match name_position(entries, name) {
        Some(i) => entries.remove(i),
        None => entries,
    }
}

/// Removing a name from a list without repeats leaves the other names alone.
pub proof fn lemma_unbound<T>(entries: Seq<(Seq<char>, T)>, name: Seq<char>)
    requires
        distinct_names(entries),
    ensures
        forall|other: Seq<char>| #[trigger]
            named(unbound(entries, name), other) == if other == name {
                None
            } else {
                named(entries, other)
            },
        distinct_names(unbound(entries, name)),
{
    let after = unbound(entries, name);
    lemma_name_position(entries, name);
    assert forall|other: Seq<char>| #[trigger] named(after, other) == if other == name {
        None
    } else {
        named(entries, other)
    } by {
        lemma_name_position(entries, other);
        if let Some(i) = name_position(entries, name) {
            if other == name {
                assert forall|j: int| 0 <= j < after.len() implies (#[trigger] after[j]).0
                    != other by {
                    assert(after[j] == entries[if j < i {
                        j
                    } else {
                        j + 1
                    }]);
                }
                lemma_name_absent(after, other);
            } else if let Some(k) = name_position(entries, other) {
                let at = if k < i {
                    k
                } else {
                    k - 1
                };
                assert(after[at] == entries[k]);
                assert forall|j: int| 0 <= j < at implies (#[trigger] after[j]).0 != other by {
                    assert(after[j] == entries[if j < i {
                        j
                    } else {
                        j + 1
                    }]);
                }
                lemma_name_position_is(after, other, at);
            } else {
                assert forall|j: int| 0 <= j < after.len() implies (#[trigger] after[j]).0
                    != other by {
                    assert(after[j] == entries[if j < i {
                        j
                    } else {
                        j + 1
                    }]);
                }
                lemma_name_absent(after, other);
            }
        }
    }
}

proof fn lemma_dictionary_edges(entries: Seq<(Seq<char>, Value)>, v: Value)
    requires
        distinct_names(entries),
        AttributesView::Dictionary(entries).edges().contains(v),
    ensures
        exists|n: Seq<char>| named(entries, n) == Some(v),
{
    let edges = AttributesView::Dictionary(entries).edges();
    let i = choose|i: int| 0 <= i < edges.len() && edges[i] == v;
    lemma_name_position_is(entries, entries[i].0, i);
    assert(named(entries, entries[i].0) == Some(v));
}

proof fn lemma_bound_edges(entries: Seq<(Seq<char>, Value)>, name: Seq<char>, value: Value)
    ensures
        forall|v: Value|
            AttributesView::Dictionary(bound(entries, name, value)).edges().contains(v) ==> v
                == value || AttributesView::Dictionary(entries).edges().contains(v),
{
    let before = AttributesView::Dictionary(entries).edges();
    let after = AttributesView::Dictionary(bound(entries, name, value)).edges();
    lemma_name_position(entries, name);
    assert forall|v: Value| after.contains(v) implies v == value || before.contains(v) by {
        let i = choose|i: int| 0 <= i < after.len() && after[i] == v;
        if v != value {
            assert(before[i] == v);
        }
    }
}

proof fn lemma_unbound_edges(entries: Seq<(Seq<char>, Value)>, name: Seq<char>)
    requires
        distinct_names(entries),
    ensures
        forall|v: Value|
            AttributesView::Dictionary(unbound(entries, name)).edges().contains(v)
                ==> AttributesView::Dictionary(entries).edges().contains(v),
{
    let before = AttributesView::Dictionary(entries).edges();
    let after = AttributesView::Dictionary(unbound(entries, name)).edges();
    lemma_name_position(entries, name);
    assert forall|v: Value| after.contains(v) implies before.contains(v) by {
        let i = choose|i: int| 0 <= i < after.len() && after[i] == v;
        match name_position(entries, name) {
            Some(k) => {
                let at = if i < k {
                    i
                } else {
                    i + 1
                };
                assert(before[at] == v);
            },
            None => {
                assert(before[i] == v);
            },
        }
    }
}

/// Removes `name` from a named list without repeats.
pub fn remove_named<T>(entries: &mut Vec<(String, T)>, name: &str) -> (r: Option<T>)
    requires
        distinct_names(name_pairs(old(entries)@)),
    ensures
        r == named(name_pairs(old(entries)@), name@),
        name_pairs(final(entries)@) == unbound(name_pairs(old(entries)@), name@),
        forall|other: Seq<char>| #[trigger]
            named(name_pairs(final(entries)@), other) == if other == name@ {
                None
            } else {
                named(name_pairs(old(entries)@), other)
            },
        distinct_names(name_pairs(final(entries)@)),
        r is None ==> *final(entries) == *old(entries),
{
    proof {
        lemma_unbound(name_pairs(entries@), name@);
        lemma_name_position(name_pairs(entries@), name@);
    }
    match position(entries, name) {
        Some(i) => {
            let entry = entries.remove(i);
            assert(name_pairs(entries@) =~= unbound(name_pairs(old(entries)@), name@));
            Some(entry.1)
        },
        None => None,
    }
}

/// Appends all of `values` to `visited`.
pub fn visit_all(values: &Vec<Value>, visited: &mut Vec<Value>)
    ensures
        final(visited)@ == old(visited)@ + values@,
{
    let mut i: usize = 0;
    while i < values.len()
        invariant
            i <= values.len(),
            visited@ == old(visited)@ + values@.take(i as int),
        decreases values.len() - i,
    {
        visited.push(values[i]);
        i += 1;
        assert(values@.take(i as int) =~= values@.take(i - 1).push(values[i - 1]));
        assert(visited@ =~= old(visited)@ + values@.take(i as int));
    }
    assert(values@.take(values.len() as int) =~= values@);
}

/// Appends the values of a named list to `visited`.
pub fn visit_named(entries: &Vec<(String, Value)>, visited: &mut Vec<Value>)
    ensures
        final(visited)@ == old(visited)@ + AttributesView::Dictionary(
            name_pairs(entries@),
        ).edges(),
{
    let ghost edges = AttributesView::Dictionary(name_pairs(entries@)).edges();
    let mut i: usize = 0;
    while i < entries.len()
        invariant
            i <= entries.len(),
            edges == AttributesView::Dictionary(name_pairs(entries@)).edges(),
            visited@ == old(visited)@ + edges.take(i as int),
        decreases entries.len() - i,
    {
        visited.push(entries[i].1);
        i += 1;
        assert(edges.take(i as int) =~= edges.take(i - 1).push(entries[i - 1].1));
        assert(visited@ =~= old(visited)@ + edges.take(i as int));
    }
    assert(edges.take(entries.len() as int) =~= edges);
}

} // verus!
