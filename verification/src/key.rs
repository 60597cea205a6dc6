//! Immutable hash material owned by dictionary keys.
use vstd::prelude::*;
use crate::hashing::{
    closed_with, hash_range_parts, hash_string, hash_u64, integer_hash, mixed, mixed_all,
    normalize_bigint, normalize_i64, range_parts_hash, sequence_finish, sequence_hash,
    sequence_start, sequence_step, text_hash, word_hash,
};
use crate::integer::Integer;
use crate::text::same;

verus! {

/// What a dictionary compares and hashes of a key.
#[derive(Debug)]
pub enum Key {
    Nothing,
    NotImplemented,
    SmallInt(i64),
    BigInt(Integer),
    Float(u64),
    NaN(u64),
    Text(String),
    Tuple(Vec<Key>),
    Slice(Vec<Key>),
    Range { length: i128, start: Option<i64>, step: Option<i64> },
    Identity(u64),
    Method(Box<Key>, Box<Key>),
}

/// See [`Key`]; integers of either size are one kind of key.
pub enum KeyView {
    Nothing,
    NotImplemented,
    Number(int),
    Float(u64),
    NaN(u64),
    Text(Seq<char>),
    Tuple(Seq<KeyView>),
    Slice(Seq<KeyView>),
    Range { length: int, start: Option<i64>, step: Option<i64> },
    Identity(u64),
    Method(Box<KeyView>, Box<KeyView>),
}

/// The views of a list of keys.
pub open spec fn key_views(keys: Seq<Key>) -> Seq<KeyView>
    decreases keys,
{
    if keys.len() == 0 {
        Seq::empty()
    } else {
        key_views(keys.drop_last()).push(keys.last().material())
    }
}

pub proof fn lemma_key_views(keys: Seq<Key>)
    ensures
        key_views(keys).len() == keys.len(),
        forall|i: int| 0 <= i < keys.len() ==> #[trigger] key_views(keys)[i] == keys[i].material(),
    decreases keys.len(),
{
    if keys.len() > 0 {
        lemma_key_views(keys.drop_last());
        assert forall|i: int| 0 <= i < keys.len() implies #[trigger] key_views(keys)[i]
            == keys[i].material() by {
            if i < keys.len() - 1 {
                assert(keys.drop_last()[i] == keys[i]);
            }
        }
    }
}

/// The hashes of a list of keys.
pub open spec fn key_hashes(keys: Seq<KeyView>) -> Seq<int>
    decreases keys,
{
    if keys.len() == 0 {
        Seq::empty()
    } else {
        key_hashes(keys.drop_last()).push(keys.last().hash())
    }
}

impl KeyView {
    /// The hash by which a dictionary files the key.
    pub open spec fn hash(self) -> int
        decreases self,
    {
        match self {
            KeyView::Nothing => 0x421,
            KeyView::NotImplemented => 0x422,
            KeyView::Number(n) => integer_hash(n),
            KeyView::Float(bits) => word_hash(bits),
            KeyView::NaN(identity) => word_hash(identity),
            KeyView::Identity(identity) => word_hash(identity),
            KeyView::Text(text) => text_hash(text),
            KeyView::Tuple(items) => sequence_hash(key_hashes(items)),
            KeyView::Slice(items) => sequence_hash(key_hashes(items)),
            KeyView::Range { length, start, step } => range_parts_hash(length, start, step),
            KeyView::Method(function, receiver) => closed_with(
                mixed(mixed(0x345678, function.hash()), receiver.hash()),
                2,
            ),
        }
    }
}

impl Key {
    /// The key as the dictionary compares it.
    pub open spec fn material(self) -> KeyView
        decreases self,
    {
        match self {
            Key::Nothing => KeyView::Nothing,
            Key::NotImplemented => KeyView::NotImplemented,
            Key::SmallInt(n) => KeyView::Number(n as int),
            Key::BigInt(n) => KeyView::Number(n@),
            Key::Float(bits) => KeyView::Float(bits),
            Key::NaN(identity) => KeyView::NaN(identity),
            Key::Text(text) => KeyView::Text(text@),
            Key::Tuple(items) => KeyView::Tuple(key_views(items@)),
            Key::Slice(items) => KeyView::Slice(key_views(items@)),
            Key::Range { length, start, step } => KeyView::Range {
                length: length as int,
                start,
                step,
            },
            Key::Identity(identity) => KeyView::Identity(identity),
            Key::Method(function, receiver) => KeyView::Method(
                Box::new(function.material()),
                Box::new(receiver.material()),
            ),
        }
    }

    /// Whether two keys are one key to a dictionary.
    pub fn equals(&self, other: &Key) -> (r: bool)
        ensures
            r == (self.material() == other.material()),
        decreases self,
    {
        match (self, other) {
            (Key::Nothing, Key::Nothing) => true,
            (Key::NotImplemented, Key::NotImplemented) => true,
            (Key::SmallInt(a), Key::SmallInt(b)) => *a == *b,
            (Key::BigInt(a), Key::BigInt(b)) => a.equals(b),
            (Key::SmallInt(a), Key::BigInt(b)) => Integer::from_i64(*a).equals(b),
            (Key::BigInt(a), Key::SmallInt(b)) => Integer::from_i64(*b).equals(a),
            (Key::Float(a), Key::Float(b)) => *a == *b,
            (Key::NaN(a), Key::NaN(b)) => *a == *b,
            (Key::Text(a), Key::Text(b)) => same(a.as_str(), b.as_str()),
            (Key::Tuple(a), Key::Tuple(b)) => equal_lists(a, b),
            (Key::Slice(a), Key::Slice(b)) => equal_lists(a, b),
            (
                Key::Range { length: a, start: b, step: c },
                Key::Range { length: x, start: y, step: z },
            ) => *a == *x && same_optional(*b, *y) && same_optional(*c, *z),
            (Key::Identity(a), Key::Identity(b)) => *a == *b,
            (Key::Method(a, b), Key::Method(x, y)) => a.equals(x) && b.equals(y),
            _ => false,
        }
    }

    /// The hash by which a dictionary files the key.
    pub fn hash(&self) -> (r: i64)
        ensures
            r == self.material().hash(),
        decreases self,
    {
        match self {
            Key::Nothing => 0x421,
            Key::NotImplemented => 0x422,
            Key::SmallInt(n) => normalize_i64(*n),
            Key::BigInt(n) => normalize_bigint(n),
            Key::Float(bits) => hash_u64(*bits),
            Key::NaN(identity) => hash_u64(*identity),
            Key::Identity(identity) => hash_u64(*identity),
            Key::Text(text) => hash_string(text.as_str()),
            Key::Tuple(items) => hash_list(items),
            Key::Slice(items) => hash_list(items),
            Key::Range { length, start, step } => hash_range_parts(*length, *start, *step),
            Key::Method(function, receiver) => {
                let first = function.hash();
                let second = receiver.hash();
                sequence_finish(sequence_step(sequence_step(sequence_start(), first), second), 2)
            },
        }
    }
}

fn same_optional(a: Option<i64>, b: Option<i64>) -> (r: bool)
    ensures
        r == (a == b),
{
    match (a, b) {
        (Some(x), Some(y)) => x == y,
        (None, None) => true,
        _ => false,
    }
}

fn equal_lists(a: &Vec<Key>, b: &Vec<Key>) -> (r: bool)
    ensures
        r == (key_views(a@) == key_views(b@)),
    decreases a@,
{
    proof {
        lemma_key_views(a@);
        lemma_key_views(b@);
    }
    if a.len() != b.len() {
        return false;
    }
    let mut i: usize = 0;
    while i < a.len()
        invariant
            i <= a.len(),
            a.len() == b.len(),
            key_views(a@).len() == a@.len(),
            key_views(b@).len() == b@.len(),
            forall|k: int|
                0 <= k < a@.len() ==> #[trigger] key_views(a@)[k] == a@[k].material(),
            forall|k: int|
                0 <= k < b@.len() ==> #[trigger] key_views(b@)[k] == b@[k].material(),
            forall|k: int| 0 <= k < i ==> key_views(a@)[k] == key_views(b@)[k],
        decreases a.len() - i,
    {
        assert(decreases_to!(a@ => a@[i as int]));
        if !a[i].equals(&b[i]) {
            assert(key_views(a@)[i as int] != key_views(b@)[i as int]);
            return false;
        }
        i += 1;
    }
    assert(key_views(a@) =~= key_views(b@));
    true
}

fn hash_list(items: &Vec<Key>) -> (r: i64)
    ensures
        r == sequence_hash(key_hashes(key_views(items@))),
    decreases items@,
{
    proof {
        lemma_key_views(items@);
    }
    let ghost views = key_views(items@);
    let mut accumulator = sequence_start();
    let mut i: usize = 0;
    while i < items.len()
        invariant
            i <= items.len(),
            views == key_views(items@),
            views.len() == items@.len(),
            forall|k: int| 0 <= k < items@.len() ==> #[trigger] views[k] == items@[k].material(),
            accumulator == mixed_all(key_hashes(views.take(i as int))),
        decreases items.len() - i,
    {
        assert(decreases_to!(items@ => items@[i as int]));
        accumulator = sequence_step(accumulator, items[i].hash());
        proof {
            let next = views.take(i + 1);
            assert(next.drop_last() =~= views.take(i as int));
            let hashes = key_hashes(next);
            assert(hashes.drop_last() =~= key_hashes(views.take(i as int)));
        }
        i += 1;
    }
    proof {
        assert(views.take(items@.len() as int) =~= views);
        lemma_key_hashes_len(views);
    }
    sequence_finish(accumulator, items.len())
}

proof fn lemma_key_hashes_len(keys: Seq<KeyView>)
    ensures
        key_hashes(keys).len() == keys.len(),
    decreases keys.len(),
{
    if keys.len() > 0 {
        lemma_key_hashes_len(keys.drop_last());
    }
}

} // verus!
