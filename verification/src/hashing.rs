//! Language-level hash normalization shared by `hash()` and dictionary buckets.
//!
//! These helpers deliberately consume logical values rather than heap addresses.
//! The concrete mixing algorithm is an implementation detail; equal values
//! must nevertheless produce equal results so custom `__hash__` implementations
//! can interoperate with builtin keys.
use std::hash::{DefaultHasher, Hash, Hasher};
use vstd::prelude::*;
use vstd::std_specs::hash::DefaultHasherAdditionalSpecFns;
use crate::integer::{magnitude, trunc_rem, Integer};

verus! {

pub const HASH_MODULUS: i64 = 0x1fff_ffff_ffff_ffff;

/// No hash is minus one.
pub open spec fn normalized(hash: int) -> int {
    if hash == -1 {
        -2
    } else {
        hash
    }
}

/// The hash of an integer of any size.
pub open spec fn integer_hash(n: int) -> int {
    if i64::MIN <= n <= i64::MAX {
        normalized(n)
    } else {
        normalized(trunc_rem(n, HASH_MODULUS as int))
    }
}

/// The hash of a machine word.
pub open spec fn word_hash(word: u64) -> int {
    normalized(word as int % HASH_MODULUS as int)
}

/// What a hasher has been given once `str::hash` wrote a text to it.
pub uninterp spec fn text_written(given: Seq<Seq<u8>>, text: Seq<char>) -> Seq<Seq<u8>>;

/// The digest a new `DefaultHasher` gives of a text.
pub open spec fn text_digest(text: Seq<char>) -> u64 {
    DefaultHasher::spec_finish(text_written(Seq::empty(), text))
}

/// The hash of a text.
pub open spec fn text_hash(text: Seq<char>) -> int {
    word_hash(text_digest(text))
}

/// One item mixed into a sequence hash.
pub open spec fn mixed(accumulator: int, item: int) -> int {
    (accumulator * 1_000_003 + item) % (HASH_MODULUS as int)
}

/// The items of a sequence, mixed in order.
pub open spec fn mixed_all(items: Seq<int>) -> int
    decreases items.len(),
{
    if items.len() == 0 {
        0x345678
    } else {
        mixed(mixed_all(items.drop_last()), items.last())
    }
}

/// A sequence hash closed with the sequence's length.
pub open spec fn closed_with(accumulator: int, length: int) -> int {
    normalized((accumulator + length) % (HASH_MODULUS as int))
}

/// The hash of a sequence whose items hash to `items`.
pub open spec fn sequence_hash(items: Seq<int>) -> int {
    closed_with(mixed_all(items), items.len() as int)
}

/// The number of items of the range from `start` to `stop` by `step`.
pub open spec fn range_count(start: int, stop: int, step: int) -> int {
    if step > 0 {
        if start >= stop {
            0
        } else {
            1 + (stop - 1 - start) / step
        }
    } else if start <= stop {
        0
    } else {
        1 + (start - 1 - stop) / (-step)
    }
}

/// The hash of a range from what tells it apart from other ranges.
pub open spec fn range_parts_hash(length: int, start: Option<i64>, step: Option<i64>) -> int {
    let first = mixed(0x345678, integer_hash(length));
    let second = match start {
        Some(n) => mixed(first, normalized(n as int)),
        None => first,
    };
    let third = match step {
        Some(n) => mixed(second, normalized(n as int)),
        None => second,
    };
    closed_with(
        third,
        if length == 0 {
            1
        } else if length == 1 {
            2
        } else {
            3
        },
    )
}

/// What a range's start and step contribute to its identity.
pub open spec fn range_start(start: i64, stop: i64, step: i64) -> Option<i64> {
    if range_count(start as int, stop as int, step as int) != 0 {
        Some(start)
    } else {
        None
    }
}

/// See [`range_start`].
pub open spec fn range_step(start: i64, stop: i64, step: i64) -> Option<i64> {
    if range_count(start as int, stop as int, step as int) > 1 {
        Some(step)
    } else {
        None
    }
}

pub fn normalize_i64(value: i64) -> (r: i64)
    ensures
        r == normalized(value as int),
{
    if value == -1 {
        -2
    } else {
        value
    }
}

pub fn normalize_bigint(value: &Integer) -> (r: i64)
    ensures
        r == integer_hash(value@),
{
    match value.to_i64() {
        Some(n) => normalize_i64(n),
        None => {
            let remainder = value.remainder(&Integer::from_i64(HASH_MODULUS));
            proof {
                let m = magnitude(value@);
                assert(0 <= m % (HASH_MODULUS as nat) < HASH_MODULUS);
                assert(magnitude(HASH_MODULUS as int) == HASH_MODULUS as nat);
            }
            match remainder.to_i64() {
                Some(n) => normalize_i64(n),
                None => 0,
            }
        },
    }
}

pub fn hash_u64(value: u64) -> (r: i64)
    ensures
        r == word_hash(value),
{
    normalize_i64((value % HASH_MODULUS as u64) as i64)
}

pub fn hash_string(value: &str) -> (r: i64)
    ensures
        r == text_hash(value@),
{
    hash_u64(digest(value))
}

fn digest(value: &str) -> (r: u64)
    ensures
        r == text_digest(value@),
{
    let mut hasher = DefaultHasher::new();
    write_text(value, &mut hasher);
    hasher.finish()
}

/// `str::hash`: what it gives a hasher is a function of the text and of what
/// the hasher was given before. Which bytes it writes is left unsaid.
#[verifier::external_body]
fn write_text(value: &str, hasher: &mut DefaultHasher)
    ensures
        final(hasher)@ == text_written(old(hasher)@, value@),
{
    value.hash(hasher)
}

pub fn sequence_start() -> (r: i64)
    ensures
        r == mixed_all(Seq::<int>::empty()),
{
    0x345678
}

pub fn sequence_step(accumulator: i64, item: i64) -> (r: i64)
    ensures
        r == mixed(accumulator as int, item as int),
        0 <= r < HASH_MODULUS,
{
    let sum: i128 = accumulator as i128 * 1_000_003 + item as i128;
    match sum.checked_rem_euclid(HASH_MODULUS as i128) {
        Some(r) => r as i64,
        None => 0,
    }
}

pub fn sequence_finish(accumulator: i64, length: usize) -> (r: i64)
    ensures
        r == closed_with(accumulator as int, length as int),
{
    let sum: i128 = accumulator as i128 + length as i128;
    match sum.checked_rem_euclid(HASH_MODULUS as i128) {
        Some(r) => normalize_i64(r as i64),
        None => 0,
    }
}

pub fn range_length(start: i64, stop: i64, step: i64) -> (r: i128)
    requires
        step != 0,
    ensures
        r == range_count(start as int, stop as int, step as int),
        0 <= r <= 0xffff_ffff_ffff_ffff,
{
    let (start, stop, step) = (start as i128, stop as i128, step as i128);
    if step > 0 {
        if start >= stop {
            0
        } else {
            proof {
                let d = stop - 1 - start;
                assert(0 <= d / (step as int) <= d) by (nonlinear_arith)
                    requires
                        d >= 0,
                        step >= 1,
                ;
            }
            1 + (stop - 1 - start) / step
        }
    } else if start <= stop {
        0
    } else {
        proof {
            let d = start - 1 - stop;
            let s = -step;
            assert(0 <= d / s <= d) by (nonlinear_arith)
                requires
                    d >= 0,
                    s >= 1,
            ;
        }
        1 + (start - 1 - stop) / -step
    }
}

pub fn hash_range(start: i64, stop: i64, step: i64) -> (r: i64)
    requires
        step != 0,
    ensures
        r == range_parts_hash(
            range_count(start as int, stop as int, step as int),
            range_start(start, stop, step),
            range_step(start, stop, step),
        ),
{
    let length = range_length(start, stop, step);
    hash_range_parts(
        length,
        if length != 0 {
            Some(start)
        } else {
            None
        },
        if length > 1 {
            Some(step)
        } else {
            None
        },
    )
}

pub fn hash_range_parts(length: i128, start: Option<i64>, step: Option<i64>) -> (r: i64)
    ensures
        r == range_parts_hash(length as int, start, step),
{
    let mut accumulator = sequence_start();
    accumulator = sequence_step(accumulator, normalize_bigint(&Integer::from_i128(length)));
    if let Some(start) = start {
        accumulator = sequence_step(accumulator, normalize_i64(start));
    }
    if let Some(step) = step {
        accumulator = sequence_step(accumulator, normalize_i64(step));
    }
    sequence_finish(
        accumulator,
        if length == 0 {
            1
        } else if length == 1 {
            2
        } else {
            3
        },
    )
}

/// The items of a range are the integers from `start` by `step` that lie
/// before `stop`, and there are [`range_count`] of them.
pub proof fn range_count_counts(start: int, stop: int, step: int, i: int)
    requires
        step != 0,
        i >= 0,
    ensures
        i < range_count(start, stop, step) <==> (if step > 0 {
            start + i * step < stop
        } else {
            start + i * step > stop
        }),
{
    if step > 0 {
        if start < stop {
            let d = stop - 1 - start;
            assert(i <= d / step <==> i * step <= d) by (nonlinear_arith)
                requires
                    d >= 0,
                    step > 0,
                    i >= 0,
            ;
        } else {
            assert(i * step >= 0) by (nonlinear_arith)
                requires
                    i >= 0,
                    step > 0,
            ;
        }
    } else {
        let s = -step;
        assert(i * step == -(i * s)) by (nonlinear_arith)
            requires
                s == -step,
        ;
        if start > stop {
            let d = start - 1 - stop;
            assert(i <= d / s <==> i * s <= d) by (nonlinear_arith)
                requires
                    d >= 0,
                    s > 0,
                    i >= 0,
            ;
        } else {
            assert(i * s >= 0) by (nonlinear_arith)
                requires
                    i >= 0,
                    s > 0,
            ;
        }
    }
}

/// Equal ranges (the same items in the same order) hash alike.
pub proof fn equal_ranges_hash_alike(a: (i64, i64, i64), b: (i64, i64, i64))
    requires
        a.2 != 0,
        b.2 != 0,
        range_count(a.0 as int, a.1 as int, a.2 as int) == range_count(
            b.0 as int,
            b.1 as int,
            b.2 as int,
        ),
        range_count(a.0 as int, a.1 as int, a.2 as int) > 0 ==> a.0 == b.0,
        range_count(a.0 as int, a.1 as int, a.2 as int) > 1 ==> a.2 == b.2,
    ensures
        range_parts_hash(
            range_count(a.0 as int, a.1 as int, a.2 as int),
            range_start(a.0, a.1, a.2),
            range_step(a.0, a.1, a.2),
        ) == range_parts_hash(
            range_count(b.0 as int, b.1 as int, b.2 as int),
            range_start(b.0, b.1, b.2),
            range_step(b.0, b.1, b.2),
        ),
{
    let (start, stop, step) = (a.0 as int, a.1 as int, a.2 as int);
    if step > 0 && start < stop {
        vstd::arithmetic::div_mod::lemma_div_pos_is_pos(stop - 1 - start, step);
    } else if step < 0 && start > stop {
        vstd::arithmetic::div_mod::lemma_div_pos_is_pos(start - 1 - stop, -step);
    }
}

} // verus!
