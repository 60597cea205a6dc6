//! Dictionaries and their keys.
use vstd::prelude::*;
use crate::dict::{bucket, DictView};
use crate::diagnostic::{Fault, Result};
use crate::float::{fixed, is_finite, one};
use crate::heap::{Heap, HeapView};
use crate::key::KeyView;
use crate::laws::comparing::says;
use crate::laws::{gives, is_number, is_object, lemma_object_word, raises};
use crate::mapping::{keys_are_stable, lemma_dict_set_frame};
use crate::object::ObjectView;
use crate::value::Value;

verus! {

/// Whether two values are one key.
pub open spec fn same_key(heap: HeapView, a: Value, b: Value) -> bool {
    heap.dict_key(a, 0) is Ok && heap.dict_key(a, 0) == heap.dict_key(b, 0)
}

/// Whether a dictionary files each of its entries under its key, and none
/// twice.
pub open spec fn keyed(heap: HeapView, dict: DictView) -> bool {
    &&& dict.wf()
    &&& forall|i: int|
        0 <= i < dict.entries.len() ==> heap.dict_key((#[trigger] dict.entries[i]).0, 0) == Ok::<
            KeyView,
            Fault,
        >(dict.materials[i]) && dict.hashes[i] == bucket(dict.materials[i].hash())
    &&& forall|i: int, j: int|
        0 <= i < j < dict.entries.len() ==> #[trigger] dict.materials[i]
            != #[trigger] dict.materials[j]
}

proof fn lemma_find(heap: HeapView, dict: DictView, material: KeyView)
    requires
        keyed(heap, dict),
    ensures
        match dict.find(material) {
            Some(i) => 0 <= i < dict.entries.len() && dict.materials[i] == material,
            None => forall|i: int|
                0 <= i < dict.entries.len() ==> #[trigger] dict.materials[i] != material,
        },
{
    let hash = bucket(material.hash());
    let positions = dict.candidates(hash);
    crate::dict::lemma_filed(dict.hashes, hash);
    crate::dict::lemma_first_match(dict.materials, positions, material);
    if dict.find(material) is None {
        assert forall|i: int| 0 <= i < dict.entries.len() implies #[trigger] dict.materials[i]
            != material by {
            let _ = dict.entries[i];
            if dict.materials[i] == material {
                assert(dict.hashes[i] == hash);
                assert(positions.contains(i as usize));
                let k = choose|k: int| 0 <= k < positions.len() && positions[k] == i as usize;
                assert(dict.materials[positions[k] as int] != material);
            }
        }
    }
}

/// Numbers are one key where they are equal, whatever they are held in; texts
/// where they have the same characters; a list or dictionary is no key.
pub proof fn keys_are_equal_values(heap: Heap, a: Value, b: Value, r: Result<bool>)
    requires
        heap.wf(),
        call_ensures(Heap::dict_keys_equal, (&heap, a, b), r),
    ensures
        forall|n: int, m: int| #[trigger]
            is_number(heap@, a, n) && #[trigger] is_number(heap@, b, m) ==> (r matches Ok(answer)
                && answer == (n == m)),
        forall|n: int, x: u64| #[trigger]
            is_number(heap@, a, n) && #[trigger] is_object(heap@, b, ObjectView::Float(x))
                && is_finite(x) ==> (r matches Ok(answer) && answer == (n * one() == fixed(x))),
        forall|s: Seq<char>, t: Seq<char>| #[trigger]
            is_object(heap@, a, ObjectView::Str(s)) && #[trigger] is_object(
                heap@,
                b,
                ObjectView::Str(t),
            ) ==> (r matches Ok(answer) && answer == (s == t)),
        forall|s: Seq<char>, n: int| #[trigger]
            is_object(heap@, a, ObjectView::Str(s)) && #[trigger] is_number(heap@, b, n) ==> (
            r matches Ok(answer) && !answer),
        heap@.objects.dom().contains(a) && (heap@.objects[a] is List || heap@.objects[a] is Dict)
            ==> r is Err && r->Err_0@.kind == "TypeError"@,
        heap@.objects.dom().contains(a) && heap@.objects[a] is Function
            && heap@.objects.dom().contains(b) && heap@.objects[b] is Function ==> (r matches Ok(
            answer,
        ) && answer == (a == b)),
{
    heap.lemma_view();
    crate::value::lemma_not_heap();
    assert(4u64 & 7 == 4 && 6u64 & 7 == 6) by (bit_vector);
    assert forall|n: int, x: u64| #[trigger]
        is_number(heap@, a, n) && #[trigger] is_object(heap@, b, ObjectView::Float(x)) && is_finite(
            x,
        ) implies (r matches Ok(answer) && answer == (n * one() == fixed(x))) by {
        lemma_object_word(heap@, b);
        lemma_whole(x, n);
    }
}

pub proof fn lemma_whole(x: u64, n: int)
    requires
        is_finite(x),
    ensures
        n * one() == fixed(x) <==> crate::float::is_integral(x) && crate::float::whole(x) == n,
        !crate::float::is_nan(x),
{
    let (f, o) = (fixed(x), one());
    vstd::arithmetic::power2::lemma_pow2_pos(1074);
    let m = crate::integer::magnitude(f) as int;
    let q = m / o;
    if f % o == 0 {
        let p = f / o;
        vstd::arithmetic::div_mod::lemma_fundamental_div_mod(f, o);
        assert(o * p == p * o && (-p) * o == -(p * o)) by (nonlinear_arith);
        if f < 0 {
            vstd::arithmetic::div_mod::lemma_fundamental_div_mod_converse(m, o, -p, 0);
        } else {
            vstd::arithmetic::div_mod::lemma_fundamental_div_mod_converse(m, o, p, 0);
        }
        assert(crate::float::whole(x) == if f < 0 {
            -q
        } else {
            q
        });
        assert((-q) * o == -(q * o)) by (nonlinear_arith);
        if n * o == f {
            assert(n == if f < 0 {
                -q
            } else {
                q
            }) by (nonlinear_arith)
                requires
                    n * o == f,
                    o > 0,
                    m == q * o,
                    f < 0 ==> m == -f,
                    f >= 0 ==> m == f,
            ;
        }
    } else {
        if n * o == f {
            assert(f % o == 0) by (nonlinear_arith)
                requires
                    n * o == f,
                    o > 0,
            ;
        }
    }
}

/// A dictionary gives the value of the entry that has the key, nothing where
/// none has it, and a subscript then fails.
pub proof fn dictionaries_find_entries(
    heap: &mut Heap,
    owner: Value,
    key: Value,
    dict: DictView,
    i: int,
    r: Result<Option<Value>>,
    s: Result<Value>,
)
    requires
        old(heap).wf(),
        is_object(old(heap)@, owner, ObjectView::Dict(dict)),
        keyed(old(heap)@, dict),
        call_ensures(Heap::dict_get, (old(heap), owner, key), r),
        call_ensures(Heap::item, (heap, owner, key), s),
    ensures
        0 <= i < dict.entries.len() && same_key(old(heap)@, dict.entries[i].0, key) ==> (r matches
            Ok(found) && found == Some(dict.entries[i].1)) && gives(
            old(heap)@,
            final(heap)@,
            s,
            dict.entries[i].1,
        ),
        old(heap)@.dict_key(key, 0) is Ok && (forall|j: int|
            0 <= j < dict.entries.len() ==> !same_key(
                old(heap)@,
                (#[trigger] dict.entries[j]).0,
                key,
            )) ==> (r matches Ok(found) && found is None) && raises(
            old(heap)@,
            final(heap)@,
            s,
            "KeyError",
        ),
{
    if old(heap)@.dict_key(key, 0) is Ok {
        let material = old(heap)@.dict_key(key, 0)->Ok_0;
        lemma_find(old(heap)@, dict, material);
        if 0 <= i < dict.entries.len() && same_key(old(heap)@, dict.entries[i].0, key) {
            assert(dict.materials[i] == material);
            let found = dict.find(material)->0;
            if found < i {
                assert(dict.materials[found] != dict.materials[i]);
            } else if i < found {
                assert(dict.materials[i] != dict.materials[found]);
            }
        } else if forall|j: int|
            0 <= j < dict.entries.len() ==> !same_key(
                old(heap)@,
                (#[trigger] dict.entries[j]).0,
                key,
            ) {
            if let Some(found) = dict.find(material) {
                let _ = dict.entries[found];
                assert(!same_key(old(heap)@, dict.entries[found].0, key));
            }
        }
    }
}

/// Whether a dictionary stands behind a handle, with some entries.
pub open spec fn has_entries(heap: HeapView, owner: Value, entries: Seq<(Value, Value)>) -> bool {
    heap.objects.dom().contains(owner) && heap.objects[owner] is Dict
        && heap.objects[owner]->Dict_0.entries == entries
}

/// What is set under a key that is there replaces the value and keeps the
/// place; what is set under a new key comes last. Nothing else changes.
pub proof fn dictionary_entries_are_set(
    heap: &mut Heap,
    owner: Value,
    key: Value,
    value: Value,
    dict: DictView,
    i: int,
    r: Result<()>,
)
    requires
        old(heap).wf(),
        is_object(old(heap)@, owner, ObjectView::Dict(dict)),
        keyed(old(heap)@, dict),
        call_ensures(Heap::set_item, (heap, owner, key, value), r),
    ensures
        forall|v: Value|
            v != owner && old(heap)@.objects.dom().contains(v) ==> #[trigger] final(heap)@.objects[v]
                == old(heap)@.objects[v],
        0 <= i < dict.entries.len() && same_key(old(heap)@, dict.entries[i].0, key) ==> r is Ok
            && has_entries(
            final(heap)@,
            owner,
            dict.entries.update(i, (dict.entries[i].0, value)),
        ),
        old(heap)@.dict_key(key, 0) is Ok && dict.version < u64::MAX && (forall|j: int|
            0 <= j < dict.entries.len() ==> !same_key(
                old(heap)@,
                (#[trigger] dict.entries[j]).0,
                key,
            )) ==> r is Ok && has_entries(
            final(heap)@,
            owner,
            dict.entries.push((key, value)),
        ) && final(heap)@.objects[owner]->Dict_0.version > dict.version,
{
    reveal(HeapView::dict_set);
    lemma_dict_set_frame(old(heap)@, owner, key, value);
    assert forall|v: Value|
        v != owner && old(heap)@.objects.dom().contains(v) implies #[trigger] final(heap)@.objects[v]
        == old(heap)@.objects[v] by {
        assert(final(heap)@.at(v) == old(heap)@.at(v));
        assert(final(heap)@.live(v) == old(heap)@.live(v));
    }
    if old(heap)@.dict_key(key, 0) is Ok {
        let material = old(heap)@.dict_key(key, 0)->Ok_0;
        lemma_find(old(heap)@, dict, material);
        if 0 <= i < dict.entries.len() && same_key(old(heap)@, dict.entries[i].0, key) {
            assert(dict.materials[i] == material);
            let found = dict.find(material)->0;
            if found < i {
                assert(dict.materials[found] != dict.materials[i]);
            } else if i < found {
                assert(dict.materials[i] != dict.materials[found]);
            }
        } else if forall|j: int|
            0 <= j < dict.entries.len() ==> !same_key(
                old(heap)@,
                (#[trigger] dict.entries[j]).0,
                key,
            ) {
            if let Some(found) = dict.find(material) {
                let _ = dict.entries[found];
                assert(!same_key(old(heap)@, dict.entries[found].0, key));
            }
        }
    }
}

/// A deleted entry is gone, and the others keep their order; a key that no
/// entry has cannot be deleted.
pub proof fn dictionary_entries_are_deleted(
    heap: &mut Heap,
    owner: Value,
    key: Value,
    dict: DictView,
    i: int,
    r: Result<()>,
)
    requires
        old(heap).wf(),
        is_object(old(heap)@, owner, ObjectView::Dict(dict)),
        keyed(old(heap)@, dict),
        call_ensures(Heap::delete_item, (heap, owner, key), r),
    ensures
        forall|v: Value|
            v != owner ==> #[trigger] final(heap)@.objects[v] == old(heap)@.objects[v],
        0 <= i < dict.entries.len() && same_key(old(heap)@, dict.entries[i].0, key) && dict.version
            < u64::MAX ==> r is Ok && has_entries(
            final(heap)@,
            owner,
            dict.entries.take(i) + dict.entries.skip(i + 1),
        ),
        old(heap)@.dict_key(key, 0) is Ok && (forall|j: int|
            0 <= j < dict.entries.len() ==> !same_key(
                old(heap)@,
                (#[trigger] dict.entries[j]).0,
                key,
            )) ==> raises(old(heap)@, final(heap)@, r, "KeyError"),
{
    if old(heap)@.dict_key(key, 0) is Ok {
        let material = old(heap)@.dict_key(key, 0)->Ok_0;
        lemma_find(old(heap)@, dict, material);
        if 0 <= i < dict.entries.len() && same_key(old(heap)@, dict.entries[i].0, key) {
            assert(dict.materials[i] == material);
            let found = dict.find(material)->0;
            if found < i {
                assert(dict.materials[found] != dict.materials[i]);
            } else if i < found {
                assert(dict.materials[i] != dict.materials[found]);
            }
            assert(dict.entries.remove(i) =~= dict.entries.take(i) + dict.entries.skip(i + 1));
        } else if forall|j: int|
            0 <= j < dict.entries.len() ==> !same_key(
                old(heap)@,
                (#[trigger] dict.entries[j]).0,
                key,
            ) {
            if let Some(found) = dict.find(material) {
                let _ = dict.entries[found];
                assert(!same_key(old(heap)@, dict.entries[found].0, key));
            }
        }
    }
}

/// A cleared dictionary has no entry.
pub proof fn cleared_dictionaries_are_empty(
    heap: &mut Heap,
    owner: Value,
    dict: DictView,
    r: Result<()>,
)
    requires
        old(heap).wf(),
        is_object(old(heap)@, owner, ObjectView::Dict(dict)),
        call_ensures(Heap::dict_clear, (heap, owner), r),
    ensures
        has_entries(final(heap)@, owner, Seq::empty()),
        forall|v: Value|
            v != owner ==> #[trigger] final(heap)@.objects[v] == old(heap)@.objects[v],
{
}

/// What a dictionary says of its entries.
pub proof fn dictionaries_list_their_entries(
    heap: Heap,
    owner: Value,
    dict: DictView,
    index: usize,
    entries: Result<Vec<(Value, Value)>>,
    len: Result<usize>,
    entry: Result<(Value, Value)>,
)
    requires
        heap.wf(),
        is_object(heap@, owner, ObjectView::Dict(dict)),
        call_ensures(Heap::dict_entries, (&heap, owner), entries),
        call_ensures(Heap::dict_len, (&heap, owner), len),
        call_ensures(Heap::dict_entry_at, (&heap, owner, index), entry),
    ensures
        entries matches Ok(found) && found@ == dict.entries,
        len matches Ok(n) && n == dict.entries.len(),
        index < dict.entries.len() ==> (entry matches Ok(found) && found
            == dict.entries[index as int]),
        index >= dict.entries.len() ==> entry is Err,
{
}

proof fn lemma_set(heap: HeapView, owner: Value, key: Value, value: Value)
    requires
        is_object(heap, owner, heap.objects[owner]),
        heap.objects[owner] is Dict,
        keyed(heap, heap.objects[owner]->Dict_0),
        heap.objects[owner]->Dict_0.entries.len() < usize::MAX,
        heap.dict_set(owner, key, value).1 is Ok,
    ensures
        ({
            let after = heap.dict_set(owner, key, value).0;
            let (d, e) = (heap.objects[owner]->Dict_0, after.objects[owner]->Dict_0);
            &&& is_object(after, owner, after.objects[owner])
            &&& after.objects[owner] is Dict
            &&& keyed(after, e)
            &&& e.entries.len() <= d.entries.len() + 1
            &&& heap.dict_key(key, 0) is Ok
            &&& e.value_of(heap.dict_key(key, 0)->Ok_0) == Some(value)
            &&& forall|k: KeyView|
                k != heap.dict_key(key, 0)->Ok_0 ==> #[trigger] e.value_of(k) == d.value_of(k)
            &&& forall|v: Value| #[trigger] after.dict_key(v, 0) == heap.dict_key(v, 0)
        }),
{
    reveal(HeapView::dict_set);
    let after = heap.dict_set(owner, key, value).0;
    lemma_dict_set_frame(heap, owner, key, value);
    assert(heap.native(owner) == owner);
    let (d, e) = (heap.objects[owner]->Dict_0, after.objects[owner]->Dict_0);
    let material = heap.dict_key(key, 0)->Ok_0;
    lemma_find(heap, d, material);
    assert forall|v: Value| #[trigger] after.dict_key(v, 0) == heap.dict_key(v, 0) by {
        keys_are_stable(heap, after, owner, v, 0);
    }
    match d.find(material) {
        Some(i) => {
            assert(e == d.replaced(i, value));
        },
        None => {
            assert(e == d.added(key, value, material, bucket(material.hash())));
        },
    }
    assert forall|i: int| 0 <= i < e.entries.len() implies after.dict_key(
        (#[trigger] e.entries[i]).0,
        0,
    ) == Ok::<KeyView, Fault>(e.materials[i]) && e.hashes[i] == bucket(e.materials[i].hash()) by {
        if i < d.entries.len() {
            let _ = d.entries[i];
            assert(e.entries[i].0 == d.entries[i].0);
        }
    }
    assert forall|i: int, j: int| 0 <= i < j < e.entries.len() implies #[trigger] e.materials[i]
        != #[trigger] e.materials[j] by {
        if j < d.entries.len() {
            assert(d.materials[i] != d.materials[j]);
        } else {
            assert(d.materials[i] != material);
        }
    }
    lemma_find(after, e, material);
    assert forall|k: KeyView| k != material implies #[trigger] e.value_of(k) == d.value_of(k) by {
        lemma_find(after, e, k);
        lemma_find(heap, d, k);
        if let Some(i) = d.find(k) {
            assert(e.materials[i] == k);
            let j = e.find(k)->0;
            if i < j {
                assert(e.materials[i] != e.materials[j]);
            } else if j < i {
                assert(e.materials[j] != e.materials[i]);
            }
        } else if let Some(j) = e.find(k) {
            if j < d.entries.len() {
                assert(d.materials[j] == k);
            }
        }
    }
    let j = e.find(material)->0;
    match d.find(material) {
        Some(i) => {
            assert(e.materials[i] == material);
            if i < j {
                assert(e.materials[i] != e.materials[j]);
            } else if j < i {
                assert(e.materials[j] != e.materials[i]);
            }
        },
        None => {
            let last = d.entries.len() as int;
            assert(e.materials[last] == material);
            if j < last {
                assert(e.materials[j] != e.materials[last]);
            }
        },
    }
}

#[verifier::spinoff_prover]
#[verifier::rlimit(80)]
proof fn lemma_set_all(heap: HeapView, owner: Value, entries: Seq<(Value, Value)>)
    requires
        is_object(heap, owner, heap.objects[owner]),
        heap.objects[owner] is Dict,
        keyed(heap, heap.objects[owner]->Dict_0),
        heap.objects[owner]->Dict_0.entries.len() + entries.len() < usize::MAX,
        heap.dict_set_all(owner, entries).1 is Ok,
    ensures
        ({
            let after = heap.dict_set_all(owner, entries).0;
            let (d, e) = (heap.objects[owner]->Dict_0, after.objects[owner]->Dict_0);
            &&& is_object(after, owner, after.objects[owner])
            &&& after.objects[owner] is Dict
            &&& keyed(after, e)
            &&& e.entries.len() <= d.entries.len() + entries.len()
            &&& forall|v: Value| #[trigger] after.dict_key(v, 0) == heap.dict_key(v, 0)
            &&& forall|i: int|
                #![trigger entries[i]]
                0 <= i < entries.len() && (forall|j: int|
                    i < j < entries.len() ==> !same_key(heap, (#[trigger] entries[j]).0, entries[i].0))
                    ==> heap.dict_key(entries[i].0, 0) is Ok && e.value_of(
                    heap.dict_key(entries[i].0, 0)->Ok_0,
                ) == Some(entries[i].1)
            &&& forall|k: KeyView|
                (forall|j: int|
                    0 <= j < entries.len() ==> heap.dict_key((#[trigger] entries[j]).0, 0) != Ok::<
                        KeyView,
                        Fault,
                    >(k)) ==> #[trigger] e.value_of(k) == d.value_of(k)
        }),
    decreases entries.len(),
{
    if entries.len() > 0 {
        let front = entries.drop_last();
        let mid = heap.dict_set_all(owner, front).0;
        lemma_set_all(heap, owner, front);
        let (key, value) = entries.last();
        lemma_set(mid, owner, key, value);
        let after = heap.dict_set_all(owner, entries).0;
        let (d, m, e) = (
            heap.objects[owner]->Dict_0,
            mid.objects[owner]->Dict_0,
            after.objects[owner]->Dict_0,
        );
        let n = entries.len() - 1;
        assert forall|v: Value| #[trigger] after.dict_key(v, 0) == heap.dict_key(v, 0) by {
            assert(mid.dict_key(v, 0) == heap.dict_key(v, 0));
        }
        assert forall|i: int|
            #![trigger entries[i]]
            0 <= i < entries.len() && (forall|j: int|
                i < j < entries.len() ==> !same_key(heap, (#[trigger] entries[j]).0, entries[i].0))
            implies heap.dict_key(entries[i].0, 0) is Ok && e.value_of(
            heap.dict_key(entries[i].0, 0)->Ok_0,
        ) == Some(entries[i].1) by {
            assert(mid.dict_key(entries[i].0, 0) == heap.dict_key(entries[i].0, 0));
            assert(mid.dict_key(key, 0) == heap.dict_key(key, 0));
            if i < n {
                assert(front[i] == entries[i]);
                assert forall|j: int| i < j < front.len() implies !same_key(
                    heap,
                    (#[trigger] front[j]).0,
                    front[i].0,
                ) by {
                    assert(entries[j] == front[j]);
                }
                assert(entries[n].0 == key);
                assert(!same_key(heap, entries[n].0, entries[i].0));
            }
        }
        assert forall|k: KeyView|
            (forall|j: int|
                0 <= j < entries.len() ==> heap.dict_key((#[trigger] entries[j]).0, 0) != Ok::<
                    KeyView,
                    Fault,
                >(k)) implies #[trigger] e.value_of(k) == d.value_of(k) by {
            assert(mid.dict_key(key, 0) == heap.dict_key(key, 0));
            assert(entries[n].0 == key);
            assert forall|j: int| 0 <= j < front.len() implies heap.dict_key(
                (#[trigger] front[j]).0,
                0,
            ) != Ok::<KeyView, Fault>(k) by {
                assert(entries[j] == front[j]);
            }
            assert(m.value_of(k) == d.value_of(k));
        }
    }
}

/// A merged dictionary has every entry of the other, with the other's value,
/// and keeps its own entries where the other has none of their key.
pub proof fn merged_dictionaries_take_the_other_entries(
    heap: &mut Heap,
    owner: Value,
    other: Value,
    dict: DictView,
    added: DictView,
    r: Result<()>,
)
    requires
        old(heap).wf(),
        owner != other,
        is_object(old(heap)@, owner, ObjectView::Dict(dict)),
        is_object(old(heap)@, other, ObjectView::Dict(added)),
        keyed(old(heap)@, dict),
        keyed(old(heap)@, added),
        dict.entries.len() + added.entries.len() < usize::MAX,
        call_ensures(Heap::dict_merge, (heap, owner, other), r),
    ensures
        r is Ok ==> {
            let merged = final(heap)@.objects[owner]->Dict_0;
            &&& final(heap)@.objects.dom().contains(owner) && final(heap)@.objects[owner] is Dict
            &&& forall|i: int|
                0 <= i < added.entries.len() ==> exists|j: int|
                    0 <= j < merged.entries.len() && same_key(
                        old(heap)@,
                        merged.entries[j].0,
                        (#[trigger] added.entries[i]).0,
                    ) && (#[trigger] merged.entries[j]).1 == added.entries[i].1
            &&& forall|i: int|
                0 <= i < dict.entries.len() && (forall|j: int|
                    0 <= j < added.entries.len() ==> !same_key(
                        old(heap)@,
                        (#[trigger] added.entries[j]).0,
                        dict.entries[i].0,
                    )) ==> exists|j: int|
                    0 <= j < merged.entries.len() && same_key(
                        old(heap)@,
                        merged.entries[j].0,
                        (#[trigger] dict.entries[i]).0,
                    ) && (#[trigger] merged.entries[j]).1 == dict.entries[i].1
        },
{
    let (before, after) = (old(heap)@, final(heap)@);
    if r is Ok {
        lemma_set_all(before, owner, added.entries);
        let merged = after.objects[owner]->Dict_0;
        assert forall|i: int| 0 <= i < added.entries.len() implies exists|j: int|
            0 <= j < merged.entries.len() && same_key(
                before,
                merged.entries[j].0,
                (#[trigger] added.entries[i]).0,
            ) && (#[trigger] merged.entries[j]).1 == added.entries[i].1 by {
            assert forall|j: int| i < j < added.entries.len() implies !same_key(
                before,
                (#[trigger] added.entries[j]).0,
                added.entries[i].0,
            ) by {
                assert(added.materials[i] != added.materials[j]);
            }
            let k = before.dict_key(added.entries[i].0, 0)->Ok_0;
            lemma_find(after, merged, k);
            let j = merged.find(k)->0;
            let entry = merged.entries[j];
            assert(after.dict_key(entry.0, 0) == before.dict_key(entry.0, 0));
        }
        assert forall|i: int|
            0 <= i < dict.entries.len() && (forall|j: int|
                0 <= j < added.entries.len() ==> !same_key(
                    before,
                    (#[trigger] added.entries[j]).0,
                    dict.entries[i].0,
                )) implies exists|j: int|
            0 <= j < merged.entries.len() && same_key(
                before,
                merged.entries[j].0,
                (#[trigger] dict.entries[i]).0,
            ) && (#[trigger] merged.entries[j]).1 == dict.entries[i].1 by {
            let k = dict.materials[i];
            assert forall|j: int| 0 <= j < added.entries.len() implies before.dict_key(
                (#[trigger] added.entries[j]).0,
                0,
            ) != Ok::<KeyView, Fault>(k) by {
                assert(!same_key(before, added.entries[j].0, dict.entries[i].0));
            }
            assert(merged.value_of(k) == dict.value_of(k));
            lemma_find(before, dict, k);
            lemma_find(after, merged, k);
            let f = dict.find(k)->0;
            if f < i {
                assert(dict.materials[f] != dict.materials[i]);
            } else if i < f {
                assert(dict.materials[i] != dict.materials[f]);
            }
            let j = merged.find(k)->0;
            let entry = merged.entries[j];
            assert(after.dict_key(entry.0, 0) == before.dict_key(entry.0, 0));
        }
    }
}

} // verus!
