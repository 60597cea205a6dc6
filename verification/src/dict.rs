//! Insertion-ordered bootstrap dictionary. Keys own immutable hash material;
//! managed key/value identities are retained separately in traced entries.
use std::collections::HashMap;
use vstd::prelude::*;
use crate::key::{Key, KeyView};
use crate::measure;
use crate::value::Value;

verus! {

broadcast use vstd::std_specs::hash::group_hash_axioms;

#[derive(Debug)]
pub struct Dict {
    entries: Vec<(Value, Value)>,
    materials: Vec<Key>,
    hashes: Vec<u64>,
    index: HashMap<u64, Vec<usize>>,
    version: u64,
}

/// The entries in insertion order, what they are compared and filed by, and a
/// count of structural changes.
#[verifier::ext_equal]
pub struct DictView {
    pub entries: Seq<(Value, Value)>,
    pub materials: Seq<KeyView>,
    pub hashes: Seq<u64>,
    pub version: u64,
}

/// The positions at which `hash` stands in `hashes`, in increasing order.
pub open spec fn filed(hashes: Seq<u64>, hash: u64) -> Seq<usize>
    decreases hashes.len(),
{
    if hashes.len() == 0 {
        Seq::empty()
    } else {
        let rest = filed(hashes.drop_last(), hash);
        if hashes.last() == hash {
            rest.push((hashes.len() - 1) as usize)
        } else {
            rest
        }
    }
}

/// [`filed`] lists exactly the positions of the hash.
pub proof fn lemma_filed(hashes: Seq<u64>, hash: u64)
    requires
        hashes.len() <= usize::MAX,
    ensures
        forall|k: int|
            0 <= k < filed(hashes, hash).len() ==> 0 <= #[trigger] filed(hashes, hash)[k]
                < hashes.len() && hashes[filed(hashes, hash)[k] as int] == hash,
        forall|a: int, b: int|
            0 <= a < b < filed(hashes, hash).len() ==> #[trigger] filed(hashes, hash)[a]
                < #[trigger] filed(hashes, hash)[b],
        forall|i: int|
            0 <= i < hashes.len() && #[trigger] hashes[i] == hash ==> filed(hashes, hash).contains(
                i as usize,
            ),
    decreases hashes.len(),
{
    if hashes.len() > 0 {
        let rest = hashes.drop_last();
        lemma_filed(rest, hash);
        let list = filed(hashes, hash);
        assert forall|k: int| 0 <= k < list.len() implies 0 <= #[trigger] list[k] < hashes.len()
            && hashes[list[k] as int] == hash by {
            if k < filed(rest, hash).len() {
                assert(list[k] == filed(rest, hash)[k]);
                assert(rest[list[k] as int] == hashes[list[k] as int]);
            }
        }
        assert forall|i: int| 0 <= i < hashes.len() && #[trigger] hashes[i]
            == hash implies list.contains(i as usize) by {
            if i < rest.len() {
                assert(rest[i] == hash);
                let k = choose|k: int|
                    0 <= k < filed(rest, hash).len() && filed(rest, hash)[k] == i as usize;
                assert(list[k] == i as usize);
            } else {
                assert(list[list.len() - 1] == i as usize);
            }
        }
    }
}

/// The first of `positions` at which `material` stands.
pub open spec fn first_match(
    materials: Seq<KeyView>,
    positions: Seq<usize>,
    material: KeyView,
) -> Option<int>
    decreases positions.len(),
{
    if positions.len() == 0 {
        None
    } else if materials[positions[0] as int] == material {
        Some(positions[0] as int)
    } else {
        first_match(materials, positions.drop_first(), material)
    }
}

/// The word under which a dictionary files a hash.
pub open spec fn bucket(hash: int) -> u64 {
    (hash as i64) as u64
}

impl DictView {
    pub open spec fn empty() -> DictView {
        DictView {
            entries: Seq::empty(),
            materials: Seq::empty(),
            hashes: Seq::empty(),
            version: 0,
        }
    }

    pub open spec fn wf(self) -> bool {
        self.materials.len() == self.entries.len() && self.hashes.len() == self.entries.len()
            && self.entries.len() <= usize::MAX
    }

    /// The positions filed under a hash.
    pub open spec fn candidates(self, hash: u64) -> Seq<usize> {
        filed(self.hashes, hash)
    }

    /// Where the dictionary finds a key: the first entry filed under the
    /// key's hash that is the same key.
    pub open spec fn find(self, material: KeyView) -> Option<int> {
        first_match(self.materials, self.candidates(bucket(material.hash())), material)
    }

    /// Whether a key stands at a position, filed under its own hash.
    pub open spec fn stands(self, material: KeyView, i: int) -> bool {
        self.materials[i] == material && self.hashes[i] == bucket(material.hash())
    }

    /// Whether no key is filed twice.
    pub open spec fn distinct(self) -> bool {
        forall|i: int, j: int|
            0 <= i < j < self.entries.len() ==> !(#[trigger] self.materials[i]
                == #[trigger] self.materials[j] && self.hashes[i] == self.hashes[j])
    }

    /// The value under a key.
    pub open spec fn value_of(self, material: KeyView) -> Option<Value> {
        match self.find(material) {
            Some(i) => Some(self.entries[i].1),
            None => None,
        }
    }

    /// With another value at a position.
    pub open spec fn replaced(self, i: int, value: Value) -> DictView {
        DictView { entries: self.entries.update(i, (self.entries[i].0, value)), ..self }
    }

    /// With an entry added at the end.
    pub open spec fn added(self, key: Value, value: Value, material: KeyView, hash: u64) -> DictView {
        DictView {
            entries: self.entries.push((key, value)),
            materials: self.materials.push(material),
            hashes: self.hashes.push(hash),
            version: (self.version + 1) as u64,
        }
    }

    /// Without the entry at a position. The count of changes stops at its
    /// greatest value.
    pub open spec fn removed(self, i: int) -> DictView {
        DictView {
            entries: self.entries.remove(i),
            materials: self.materials.remove(i),
            hashes: self.hashes.remove(i),
            version: self.next_version(),
        }
    }

    /// The count after one more change, at most its greatest value.
    pub open spec fn next_version(self) -> u64 {
        if self.version == u64::MAX {
            u64::MAX
        } else {
            (self.version + 1) as u64
        }
    }
}

/// Where [`DictView::find`] looks, the key it finds is the key asked for, and
/// it misses no entry filed under the key's own hash.
pub proof fn lemma_first_match(
    materials: Seq<KeyView>,
    positions: Seq<usize>,
    material: KeyView,
)
    ensures
        first_match(materials, positions, material) matches Some(i) ==> materials[i] == material
            && exists|k: int| 0 <= k < positions.len() && positions[k] == i,
        first_match(materials, positions, material) is None ==> forall|k: int|
            0 <= k < positions.len() ==> materials[#[trigger] positions[k] as int] != material,
    decreases positions.len(),
{
    if positions.len() > 0 && materials[positions[0] as int] != material {
        let rest = positions.drop_first();
        lemma_first_match(materials, rest, material);
        if let Some(i) = first_match(materials, rest, material) {
            let k = choose|k: int| 0 <= k < rest.len() && rest[k] == i;
            assert(positions[k + 1] == i);
        } else {
            assert forall|k: int| 0 <= k < positions.len() implies materials[
            #[trigger] positions[k] as int] != material by {
                if k > 0 {
                    assert(rest[k - 1] == positions[k]);
                }
            }
        }
    }
}

proof fn lemma_match_is_first(
    materials: Seq<KeyView>,
    positions: Seq<usize>,
    material: KeyView,
    k: int,
)
    requires
        0 <= k < positions.len(),
        materials[positions[k] as int] == material,
        forall|a: int, b: int|
            0 <= a < b < positions.len() ==> #[trigger] positions[a] < #[trigger] positions[b],
    ensures
        first_match(materials, positions, material) matches Some(i) && i <= positions[k],
    decreases positions.len(),
{
    if materials[positions[0] as int] != material {
        let rest = positions.drop_first();
        assert(rest[k - 1] == positions[k]);
        assert forall|a: int, b: int| 0 <= a < b < rest.len() implies #[trigger] rest[a]
            < #[trigger] rest[b] by {
            assert(positions[a + 1] < positions[b + 1]);
        }
        lemma_match_is_first(materials, rest, material, k - 1);
    }
}

/// A key is found at the first position where it stands, if there is one.
pub proof fn lemma_found_first(dict: DictView, material: KeyView)
    requires
        dict.wf(),
    ensures
        match dict.find(material) {
            Some(i) => 0 <= i < dict.entries.len() && dict.stands(material, i) && forall|k: int|
                0 <= k < i ==> !#[trigger] dict.stands(material, k),
            None => forall|k: int|
                0 <= k < dict.entries.len() ==> !#[trigger] dict.stands(material, k),
        },
{
    let hash = bucket(material.hash());
    let positions = dict.candidates(hash);
    lemma_filed(dict.hashes, hash);
    lemma_first_match(dict.materials, positions, material);
    assert forall|k: int| 0 <= k < dict.entries.len() && #[trigger] dict.stands(
        material,
        k,
    ) implies (dict.find(material) matches Some(i) && i <= k) by {
        assert(dict.hashes[k] == hash);
        let at = choose|at: int| 0 <= at < positions.len() && positions[at] == k as usize;
        lemma_match_is_first(dict.materials, positions, material, at);
    }
}

/// Removing an entry leaves every other key what it was, and a key that was
/// filed once nowhere.
pub proof fn lemma_found_without(dict: DictView, i: int, material: KeyView)
    requires
        dict.wf(),
        dict.distinct(),
        0 <= i < dict.entries.len(),
    ensures
        dict.removed(i).wf(),
        dict.removed(i).distinct(),
        dict.stands(material, i) ==> dict.removed(i).find(material) is None,
        !dict.stands(material, i) ==> dict.removed(i).value_of(material) == dict.value_of(material),
{
    let after = dict.removed(i);
    lemma_found_first(dict, material);
    lemma_found_first(after, material);
    assert forall|k: int| 0 <= k < after.entries.len() implies #[trigger] after.stands(material, k)
        == dict.stands(material, if k < i { k } else { k + 1 }) && after.entries[k]
        == dict.entries[if k < i { k } else { k + 1 }] by {}
    assert(after.distinct()) by {
        assert forall|a: int, b: int| 0 <= a < b < after.entries.len() implies !(
        #[trigger] after.materials[a] == #[trigger] after.materials[b] && after.hashes[a]
            == after.hashes[b]) by {
            let (c, d) = (if a < i { a } else { a + 1 }, if b < i { b } else { b + 1 });
            assert(after.materials[a] == dict.materials[c]);
            assert(after.materials[b] == dict.materials[d]);
        }
    }
    match dict.find(material) {
        Some(j) => {
            if j != i {
                let at = if j < i { j } else { j - 1 };
                assert(after.stands(material, at));
                assert forall|k: int| 0 <= k < at implies !#[trigger] after.stands(material, k) by {
                    assert(!dict.stands(material, if k < i { k } else { k + 1 })) by {
                        if k >= i {
                            assert(k + 1 < j);
                        }
                    }
                }
                assert(after.find(material) == Some(at));
                if dict.stands(material, i) {
                    assert(dict.materials[j] == dict.materials[i]);
                }
            } else {
                assert forall|k: int| 0 <= k < after.entries.len() implies !#[trigger] after.stands(
                    material,
                    k,
                ) by {
                    let c = if k < i { k } else { k + 1 };
                    if dict.stands(material, c) {
                        assert(dict.materials[c] == dict.materials[i]);
                    }
                }
            }
        },
        None => {
            assert(!dict.stands(material, i));
            assert forall|k: int| 0 <= k < after.entries.len() implies !#[trigger] after.stands(
                material,
                k,
            ) by {
                assert(!dict.stands(material, if k < i { k } else { k + 1 }));
            }
        },
    }
}

/// The views of materials, in order.
pub open spec fn materials_of(keys: Seq<Key>) -> Seq<KeyView> {
    Seq::new(keys.len(), |i: int| keys[i].material())
}

impl View for Dict {
    type V = DictView;

    closed spec fn view(&self) -> DictView {
        DictView {
            entries: self.entries@,
            materials: materials_of(self.materials@),
            hashes: self.hashes@,
            version: self.version,
        }
    }
}

impl Dict {
    /// Whether the index files exactly the hashes.
    pub closed spec fn wf(&self) -> bool {
        &&& self.materials.len() == self.entries.len()
        &&& self.hashes.len() == self.entries.len()
        &&& index_files(self.index@, self.hashes@)
    }

    /// The number of entries of a well-formed dictionary fits a `usize`.
    pub proof fn lemma_view_wf(&self)
        requires
            self.wf(),
        ensures
            self@.wf(),
    {
    }

    pub fn new() -> (r: Dict)
        ensures
            r.wf(),
            r@ == DictView::empty(),
    {
        let r = Dict {
            entries: Vec::new(),
            materials: Vec::new(),
            hashes: Vec::new(),
            index: HashMap::new(),
            version: 0,
        };
        assert(r@.materials =~= Seq::empty());
        r
    }

    pub fn entries(&self) -> (r: &Vec<(Value, Value)>)
        ensures
            r@ == self@.entries,
    {
        &self.entries
    }

    pub fn len(&self) -> (r: usize)
        ensures
            r == self@.entries.len(),
    {
        self.entries.len()
    }

    pub fn version(&self) -> (r: u64)
        ensures
            r == self@.version,
    {
        self.version
    }

    /// The positions filed under a hash.
    pub fn candidates(&self, hash: i64) -> (r: Vec<usize>)
        requires
            self.wf(),
        ensures
            r@ == self@.candidates(bucket(hash as int)),
    {
        match self.index.get(&(hash as u64)) {
            Some(positions) => {
                let copy = positions.clone();
                assert(copy@ =~= positions@);
                copy
            },
            None => Vec::new(),
        }
    }

    /// Finds a key.
    pub fn find(&self, material: &Key) -> (r: Option<usize>)
        requires
            self.wf(),
        ensures
            r matches Some(i) ==> self@.find(material.material()) == Some(i as int) && i
                < self@.entries.len(),
            r is None ==> self@.find(material.material()) is None,
    {
        let hash = material.hash();
        let ghost wanted = material.material();
        let ghost all = self@.candidates(bucket(hash as int));
        proof {
            lemma_filed(self.hashes@, bucket(hash as int));
        }
        match self.index.get(&(hash as u64)) {
            Some(positions) => {
                let mut k: usize = 0;
                assert(positions@.skip(0) =~= positions@);
                while k < positions.len()
                    invariant
                        self.wf(),
                        k <= positions.len(),
                        wanted == material.material(),
                        all == positions@,
                        all == filed(self.hashes@, bucket(hash as int)),
                        all == self@.candidates(bucket(hash as int)),
                        hash == wanted.hash(),
                        forall|j: int|
                            0 <= j < all.len() ==> 0 <= #[trigger] all[j] < self.hashes@.len(),
                        self@.find(wanted) == first_match(
                            self@.materials,
                            positions@.skip(k as int),
                            wanted,
                        ),
                    decreases positions.len() - k,
                {
                    let i = positions[k];
                    assert(all[k as int] == i);
                    assert(positions@.skip(k as int)[0] == i);
                    assert(positions@.skip(k as int).drop_first() =~= positions@.skip(k + 1));
                    if self.materials[i].equals(material) {
                        return Some(i);
                    }
                    k += 1;
                }
                None
            },
            None => None,
        }
    }

    /// Puts another value under the key at a position.
    pub fn replace(&mut self, i: usize, value: Value)
        requires
            old(self).wf(),
            i < old(self)@.entries.len(),
        ensures
            final(self).wf(),
            final(self)@ == old(self)@.replaced(i as int, value),
    {
        self.entries[i].1 = value;
    }

    /// Adds an entry, filed under `hash`.
    pub fn push(&mut self, key: Value, value: Value, material: Key, hash: i64)
        requires
            old(self).wf(),
            old(self)@.version < u64::MAX,
        ensures
            final(self).wf(),
            final(self)@ == old(self)@.added(
                key,
                value,
                material.material(),
                bucket(hash as int),
            ),
    {
        let ghost before = *self;
        let ghost filed_before = self.hashes@;
        let word = hash as u64;
        let position = self.entries.len();
        let mut positions = match self.index.remove(&word) {
            Some(positions) => positions,
            None => Vec::new(),
        };
        assert(positions@ =~= filed(filed_before, word));
        positions.push(position);
        self.index.insert(word, positions);
        self.entries.push((key, value));
        self.materials.push(material);
        self.hashes.push(word);
        self.version = self.version + 1;
        proof {
            assert(self.index@.dom() =~= before.index@.dom().insert(word));
            lemma_index_pushed(before.index@, self.index@, filed_before, word);
            assert(self@.materials =~= before@.materials.push(material.material()));
        }
    }

    /// Removes the entry at a position and counts the change, unless the
    /// count is exhausted; returns whether it was not.
    pub fn remove(&mut self, i: usize) -> (counted: bool)
        requires
            old(self).wf(),
            i < old(self)@.entries.len(),
        ensures
            final(self).wf(),
            final(self)@ == old(self)@.removed(i as int),
            counted == (old(self)@.version < u64::MAX),
    {
        let ghost before = *self;
        self.entries.remove(i);
        self.materials.remove(i);
        self.hashes.remove(i);
        self.rebuild();
        assert(self@.materials =~= before@.materials.remove(i as int));
        self.count()
    }

    /// Removes every entry; returns whether the change was counted.
    pub fn clear(&mut self) -> (counted: bool)
        requires
            old(self).wf(),
        ensures
            final(self).wf(),
            final(self)@ == (DictView {
                version: old(self)@.next_version(),
                ..DictView::empty()
            }),
            counted == (old(self)@.version < u64::MAX),
    {
        self.entries.clear();
        self.materials.clear();
        self.hashes.clear();
        self.index.clear();
        assert(self@.materials =~= Seq::empty());
        self.count()
    }

    fn count(&mut self) -> (counted: bool)
        requires
            old(self).wf(),
        ensures
            final(self).wf(),
            final(self)@ == (DictView { version: old(self)@.next_version(), ..old(self)@ }),
            counted == (old(self)@.version < u64::MAX),
    {
        if self.version == u64::MAX {
            false
        } else {
            self.version = self.version + 1;
            true
        }
    }

    /// Files every hash anew.
    fn rebuild(&mut self)
        requires
            old(self).materials.len() == old(self).entries.len(),
            old(self).hashes.len() == old(self).entries.len(),
        ensures
            final(self).wf(),
            final(self)@ == old(self)@,
    {
        let ghost hashes = self.hashes@;
        let mut index: HashMap<u64, Vec<usize>> = HashMap::new();
        let mut i: usize = 0;
        assert(hashes.take(0) =~= Seq::empty());
        while i < self.hashes.len()
            invariant
                i <= self.hashes.len(),
                hashes == self.hashes@,
                index_files(index@, hashes.take(i as int)),
            decreases self.hashes.len() - i,
        {
            let ghost before = index@;
            let word = self.hashes[i];
            let mut positions = match index.remove(&word) {
                Some(positions) => positions,
                None => Vec::new(),
            };
            assert(positions@ =~= filed(hashes.take(i as int), word));
            positions.push(i);
            index.insert(word, positions);
            proof {
                assert(index@.dom() =~= before.dom().insert(word));
                lemma_index_pushed(before, index@, hashes.take(i as int), word);
                assert(hashes.take(i as int).push(word) =~= hashes.take(i + 1));
            }
            i += 1;
        }
        assert(hashes.take(hashes.len() as int) =~= hashes);
        self.index = index;
    }

    /// What the allocator gave to the parts.
    pub fn room(&self) -> (r: DictRoom)
        requires
            self.wf(),
        ensures
            r.holds(self@),
    {
        let index = measure::map_room(&self.index);
        let buckets = self.bucket_storage();
        proof {
            assert(self.index@.dom() =~= self.hashes@.to_set()) by {
                assert forall|hash: u64| self.index@.dom().contains(hash)
                    == self.hashes@.to_set().contains(hash) by {
                    lemma_filed(self.hashes@, hash);
                    if self.hashes@.contains(hash) {
                        let i = choose|i: int|
                            0 <= i < self.hashes@.len() && self.hashes@[i] == hash;
                        assert(filed(self.hashes@, hash).contains(i as usize));
                    } else if filed(self.hashes@, hash).len() > 0 {
                        assert(self.hashes@[filed(self.hashes@, hash)[0] as int] == hash);
                    }
                }
            }
        }
        DictRoom {
            entries: measure::room(&self.entries),
            materials: measure::room(&self.materials),
            hashes: measure::room(&self.hashes),
            index,
            buckets,
        }
    }

    /// The bytes allocated to the buckets of the index. Each is met at its
    /// first position.
    fn bucket_storage(&self) -> (r: usize)
        requires
            self.wf(),
        ensures
            r >= measure::saturate(
                (self@.hashes.len() * vstd::layout::size_of::<usize>()) as int,
            ),
    {
        let ghost all = self.hashes@;
        let ghost size = vstd::layout::size_of::<usize>();
        let mut total: usize = 0;
        let mut i: usize = 0;
        proof {
            lemma_among_none(all);
            assert(all.take(0) =~= Seq::<u64>::empty());
        }
        while i < self.hashes.len()
            invariant
                self.wf(),
                all == self.hashes@,
                size == vstd::layout::size_of::<usize>(),
                i <= all.len(),
                total >= measure::saturate((among(all, all.take(i as int)) * size) as int),
            decreases all.len() - i,
        {
            let word = self.hashes[i];
            proof {
                lemma_filed(all, word);
                lemma_among(all, all.take(i as int), word);
                assert(all.take(i as int).push(word) =~= all.take(i + 1));
                assert(filed(all, word).contains(i));
                assert(self.index@.dom().contains(word));
            }
            if let Some(bucket) = self.index.get(&word) {
                if bucket[0] == i {
                    proof {
                        if all.take(i as int).contains(word) {
                            let k = choose|k: int|
                                0 <= k < i && all.take(i as int)[k] == word;
                            assert(all[k] == word);
                            assert(filed(all, word).contains(k as usize));
                            let at = choose|at: int|
                                0 <= at < filed(all, word).len() && filed(all, word)[at] == k;
                            assert(at > 0);
                            assert(filed(all, word)[0] < filed(all, word)[at]);
                        }
                        vstd::arithmetic::mul::lemma_mul_is_distributive_add_other_way(
                            size as int,
                            among(all, all.take(i as int)) as int,
                            filed(all, word).len() as int,
                        );
                    }
                    total = total.saturating_add(measure::storage(bucket));
                } else {
                    proof {
                        let k = bucket[0];
                        assert(filed(all, word)[0] == k);
                        let at = choose|at: int|
                            0 <= at < filed(all, word).len() && filed(all, word)[at] == i;
                        assert(at > 0);
                        assert(filed(all, word)[0] < filed(all, word)[at]);
                        assert(all.take(i as int)[k as int] == word);
                        assert(all.take(i as int).contains(word));
                    }
                }
            }
            i += 1;
        }
        proof {
            assert(all.take(i as int) =~= all);
            lemma_among_all(all, all);
        }
        total
    }

    /// An estimate of the storage held: that of the parts as allocated. How
    /// much more than the items' own size was allocated is not stated.
    pub fn estimated_bytes(&self) -> (r: usize)
        requires
            self.wf(),
        ensures
            exists|room: DictRoom| #[trigger] room.holds(self@) && r == measure::saturate(room.total()),
            r >= measure::saturate(self@.least_bytes()),
    {
        let room = self.room();
        proof {
            lemma_least(self@, room);
        }
        room.bytes()
    }
}

/// What the allocator gave to the parts of a dictionary, in items, and in bytes
/// for the buckets of its index.
#[derive(Clone, Copy, Debug)]
pub struct DictRoom {
    pub entries: usize,
    pub materials: usize,
    pub hashes: usize,
    pub index: usize,
    pub buckets: usize,
}

impl DictRoom {
    /// Whether there is room for a dictionary.
    pub open spec fn holds(self, dict: DictView) -> bool {
        &&& self.entries >= dict.entries.len()
        &&& self.materials >= dict.materials.len()
        &&& self.hashes >= dict.hashes.len()
        &&& self.index >= dict.hashes.to_set().len()
        &&& self.buckets >= measure::saturate(
            (dict.hashes.len() * vstd::layout::size_of::<usize>()) as int,
        )
    }

    /// The bytes of the parts together.
    pub open spec fn total(self) -> int {
        self.entries * 16 + self.materials * vstd::layout::size_of::<Key>() + self.hashes
            * vstd::layout::size_of::<u64>() + self.index * vstd::layout::size_of::<
            (u64, Vec<usize>),
        >() + self.buckets
    }

    /// The bytes of the parts together.
    pub fn bytes(&self) -> (r: usize)
        ensures
            r == measure::saturate(self.total()),
    {
        let lists = measure::area(self.entries, 16).saturating_add(
            measure::area(self.materials, core::mem::size_of::<Key>()),
        ).saturating_add(measure::area(self.hashes, core::mem::size_of::<u64>()));
        lists.saturating_add(
            measure::area(self.index, core::mem::size_of::<(u64, Vec<usize>)>()),
        ).saturating_add(self.buckets)
    }
}

impl DictView {
    /// What the dictionary occupies at the least.
    pub open spec fn least_bytes(self) -> int {
        0int + self.entries.len() * 16 + self.materials.len() * vstd::layout::size_of::<Key>()
            + self.hashes.len() * vstd::layout::size_of::<u64>() + self.hashes.to_set().len()
            * vstd::layout::size_of::<(u64, Vec<usize>)>() + self.hashes.len()
            * vstd::layout::size_of::<usize>()
    }
}

proof fn lemma_least(dict: DictView, room: DictRoom)
    requires
        room.holds(dict),
    ensures
        measure::saturate(dict.least_bytes()) <= measure::saturate(room.total()),
{
    let (k, h, x) = (
        vstd::layout::size_of::<Key>() as int,
        vstd::layout::size_of::<u64>() as int,
        vstd::layout::size_of::<(u64, Vec<usize>)>() as int,
    );
    let (m, n, s) = (
        dict.materials.len() as int,
        dict.hashes.len() as int,
        dict.hashes.to_set().len() as int,
    );
    assert(m * k <= room.materials * k && n * h <= room.hashes * h && s * x <= room.index * x && 0
        <= m * k && 0 <= n * h && 0 <= s * x) by (nonlinear_arith)
        requires
            0 <= m <= room.materials,
            0 <= n <= room.hashes,
            0 <= s <= room.index,
            k >= 0,
            h >= 0,
            x >= 0,
    ;
}

/// How many of the words stand among others.
spec fn among(words: Seq<u64>, others: Seq<u64>) -> nat
    decreases words.len(),
{
    if words.len() == 0 {
        0
    } else {
        among(words.drop_last(), others) + if others.contains(words.last()) {
            1nat
        } else {
            0
        }
    }
}

proof fn lemma_among(words: Seq<u64>, others: Seq<u64>, word: u64)
    ensures
        among(words, others.push(word)) == among(words, others) + if others.contains(word) {
            0
        } else {
            filed(words, word).len()
        },
    decreases words.len(),
{
    if words.len() > 0 {
        lemma_among(words.drop_last(), others, word);
        let last = words.last();
        let further = others.push(word);
        assert(further.contains(last) == (others.contains(last) || last == word)) by {
            assert(further[others.len() as int] == word);
            if others.contains(last) {
                let i = choose|i: int| 0 <= i < others.len() && others[i] == last;
                assert(further[i] == last);
            }
            if further.contains(last) {
                let i = choose|i: int| 0 <= i < further.len() && further[i] == last;
                if i < others.len() {
                    assert(others[i] == last);
                }
            }
        }
    }
}

proof fn lemma_among_none(words: Seq<u64>)
    ensures
        among(words, Seq::empty()) == 0,
    decreases words.len(),
{
    if words.len() > 0 {
        lemma_among_none(words.drop_last());
    }
}

proof fn lemma_among_all(words: Seq<u64>, others: Seq<u64>)
    requires
        forall|i: int| 0 <= i < words.len() ==> others.contains(#[trigger] words[i]),
    ensures
        among(words, others) == words.len(),
    decreases words.len(),
{
    if words.len() > 0 {
        let rest = words.drop_last();
        assert forall|i: int| 0 <= i < rest.len() implies others.contains(#[trigger] rest[i]) by {
            assert(words[i] == rest[i]);
        }
        lemma_among_all(rest, others);
        assert(words[words.len() - 1] == words.last());
    }
}

/// Whether an index files exactly the positions of `hashes`.
spec fn index_files(index: Map<u64, Vec<usize>>, hashes: Seq<u64>) -> bool {
    forall|hash: u64|
        #![trigger filed(hashes, hash)]
        #![trigger index.dom().contains(hash)]
        if index.dom().contains(hash) {
            index[hash]@ == filed(hashes, hash) && filed(hashes, hash).len() > 0
        } else {
            filed(hashes, hash).len() == 0
        }
}

proof fn lemma_index_pushed(
    before: Map<u64, Vec<usize>>,
    after: Map<u64, Vec<usize>>,
    hashes: Seq<u64>,
    word: u64,
)
    requires
        index_files(before, hashes),
        after.dom() == before.dom().insert(word),
        forall|hash: u64| hash != word && before.dom().contains(hash) ==> after[hash] == before[hash],
        after[word]@ == filed(hashes, word).push(hashes.len() as usize),
    ensures
        index_files(after, hashes.push(word)),
{
    let next = hashes.push(word);
    assert(next.drop_last() =~= hashes);
    assert forall|hash: u64|
        #![trigger filed(next, hash)]
        #![trigger after.dom().contains(hash)]
        if after.dom().contains(hash) {
            after[hash]@ == filed(next, hash) && filed(next, hash).len() > 0
        } else {
            filed(next, hash).len() == 0
        } by {
        assert(before.dom().contains(hash) || filed(hashes, hash).len() == 0);
    }
}

} // verus!
