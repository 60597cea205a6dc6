//! Edges between managed values: how an owner's references are listed.
use vstd::prelude::*;
use crate::value::Value;

verus! {

/// The value of an optional edge, if it is there.
pub open spec fn optional(edge: Option<Value>) -> Seq<Value> {
    match edge {
        Some(value) => seq![value],
        None => Seq::empty(),
    }
}

/// The keys and values of a list of pairs, in order.
pub open spec fn pair_values(pairs: Seq<(Value, Value)>) -> Seq<Value> {
    Seq::new(
        2 * pairs.len(),
        |i: int|
            if i % 2 == 0 {
                pairs[i / 2].0
            } else {
                pairs[i / 2].1
            },
    )
}

/// What the first pair with this key holds.
pub open spec fn first_pair(pairs: Seq<(Value, Value)>, key: Value) -> Option<Value>
    decreases pairs.len(),
{
    if pairs.len() == 0 {
        None
    } else if pairs[0].0 == key {
        Some(pairs[0].1)
    } else {
        first_pair(pairs.drop_first(), key)
    }
}

/// Appends an optional edge to `visited`.
pub fn visit_optional(edge: Option<Value>, visited: &mut Vec<Value>)
    ensures
        final(visited)@ == old(visited)@ + optional(edge),
{
    if let Some(value) = edge {
        visited.push(value);
    }
}

/// Appends the keys and values of `pairs` to `visited`.
pub fn visit_pairs(pairs: &Vec<(Value, Value)>, visited: &mut Vec<Value>)
    ensures
        final(visited)@ == old(visited)@ + pair_values(pairs@),
{
    let mut i: usize = 0;
    while i < pairs.len()
        invariant
            i <= pairs.len(),
            visited@ == old(visited)@ + pair_values(pairs@.take(i as int)),
        decreases pairs.len() - i,
    {
        visited.push(pairs[i].0);
        visited.push(pairs[i].1);
        i += 1;
        proof {
            let before = pair_values(pairs@.take(i - 1));
            let after = pair_values(pairs@.take(i as int));
            assert forall|k: int| 0 <= k < after.len() implies after[k] == before.push(
                pairs[i - 1].0,
            ).push(pairs[i - 1].1)[k] by {
                assert(k / 2 < i);
            }
            assert(after =~= before.push(pairs[i - 1].0).push(pairs[i - 1].1));
        }
    }
    assert(pairs@.take(pairs.len() as int) =~= pairs@);
}

/// Finds the first pair with this key.
pub fn find_pair(pairs: &Vec<(Value, Value)>, key: Value) -> (r: Option<Value>)
    ensures
        r == first_pair(pairs@, key),
{
    let mut i: usize = 0;
    assert(pairs@.skip(0) =~= pairs@);
    while i < pairs.len()
        invariant
            i <= pairs.len(),
            first_pair(pairs@, key) == first_pair(pairs@.skip(i as int), key),
        decreases pairs.len() - i,
    {
        assert(pairs@.skip(i as int)[0] == pairs[i as int]);
        assert(pairs@.skip(i as int).drop_first() =~= pairs@.skip(i + 1));
        if pairs[i].0 == key {
            return Some(pairs[i].1);
        }
        i += 1;
    }
    None
}

/// Whether `value` stands among `values`.
pub fn contains(values: &Vec<Value>, value: Value) -> (r: bool)
    ensures
        r == values@.contains(value),
{
    let mut i: usize = 0;
    while i < values.len()
        invariant
            i <= values.len(),
            forall|j: int| 0 <= j < i ==> values[j] != value,
        decreases values.len() - i,
    {
        if values[i] == value {
            assert(values@[i as int] == value);
            return true;
        }
        i += 1;
    }
    false
}

/// A copy of a list of values.
pub fn copy_values(values: &Vec<Value>) -> (r: Vec<Value>)
    ensures
        r@ == values@,
{
    let copy = values.clone();
    assert(copy@ =~= values@);
    copy
}

/// A copy of a list of pairs.
pub fn copy_pairs(pairs: &Vec<(Value, Value)>) -> (r: Vec<(Value, Value)>)
    ensures
        r@ == pairs@,
{
    let mut copy: Vec<(Value, Value)> = Vec::new();
    let mut i: usize = 0;
    while i < pairs.len()
        invariant
            i <= pairs.len(),
            copy@ == pairs@.take(i as int),
        decreases pairs.len() - i,
    {
        copy.push((pairs[i].0, pairs[i].1));
        i += 1;
        assert(copy@ =~= pairs@.take(i as int));
    }
    assert(copy@ =~= pairs@);
    copy
}

} // verus!
