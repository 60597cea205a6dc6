//! Storage estimates. Sums stop at the greatest `usize` instead of wrapping.
use std::collections::HashMap;
use vstd::prelude::*;
use crate::text::name_pairs;

verus! {

/// The nearest `usize`.
pub open spec fn saturate(n: int) -> int {
    if n > usize::MAX {
        usize::MAX as int
    } else {
        n
    }
}

/// `Vec::capacity`: what was allocated, which holds at least the items.
#[verifier::external_body]
pub(crate) fn room<T>(items: &Vec<T>) -> (r: usize)
    ensures
        r >= items@.len(),
{
    items.capacity()
}

/// `String::capacity`: what was allocated, which holds at least the text.
#[verifier::external_body]
pub(crate) fn text_room(text: &String) -> (r: usize)
    ensures
        r >= vstd::utf8::encode_utf8(text@).len(),
{
    text.capacity()
}

/// `HashMap::capacity`: what was allocated, which holds at least the items.
#[verifier::external_body]
pub(crate) fn map_room(index: &HashMap<u64, Vec<usize>>) -> (r: usize)
    ensures
        r >= index@.len(),
{
    index.capacity()
}

/// `count` items of `size` bytes.
pub fn area(count: usize, size: usize) -> (r: usize)
    ensures
        r == saturate(count * size),
{
    match count.checked_mul(size) {
        Some(n) => n,
        None => usize::MAX,
    }
}

/// The bytes of the items of a vector, as allocated.
pub fn storage<T>(items: &Vec<T>) -> (r: usize)
    ensures
        r >= saturate((items@.len() * vstd::layout::size_of::<T>()) as int),
{
    let capacity = room(items);
    let size = core::mem::size_of::<T>();
    assert(items@.len() * vstd::layout::size_of::<T>() <= capacity * size) by (nonlinear_arith)
        requires
            items@.len() <= capacity,
            size == vstd::layout::size_of::<T>(),
    ;
    area(capacity, size)
}

/// The bytes of the names of a named list.
pub open spec fn name_bytes<T>(entries: Seq<(Seq<char>, T)>) -> int
    decreases entries.len(),
{
    if entries.len() == 0 {
        0
    } else {
        name_bytes(entries.drop_last()) + vstd::utf8::encode_utf8(entries.last().0).len()
    }
}

/// The bytes allocated to the names of a named list.
pub fn name_storage<T>(entries: &Vec<(String, T)>) -> (r: usize)
    ensures
        r >= saturate(name_bytes(name_pairs(entries@))),
{
    let ghost names = name_pairs(entries@);
    let mut total: usize = 0;
    let mut i: usize = 0;
    while i < entries.len()
        invariant
            i <= entries.len(),
            names == name_pairs(entries@),
            total >= saturate(name_bytes(names.take(i as int))),
        decreases entries.len() - i,
    {
        assert(names.take(i + 1).drop_last() =~= names.take(i as int));
        total = total.saturating_add(text_room(&entries[i].0));
        i += 1;
    }
    assert(names.take(names.len() as int) =~= names);
    total
}

} // verus!
