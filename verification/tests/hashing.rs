use tonic_runtime::hashing::{
    hash_range, hash_string, hash_u64, normalize_bigint, normalize_i64, range_length,
    sequence_finish, sequence_start, sequence_step,
};
use tonic_runtime::integer::Integer;
use tonic_runtime::key::Key;

const MODULUS: i128 = (1 << 61) - 1;

#[test]
fn integers_hash_to_their_remainders() {
    assert_eq!(normalize_i64(5), 5);
    assert_eq!(normalize_i64(-1), -2);
    assert_eq!(normalize_i64(-2), -2);
    assert_eq!(normalize_bigint(&Integer::from_i64(7)), 7);
    let big = Integer::from_i64(1).shift_left(100);
    assert_eq!(
        normalize_bigint(&big) as i128,
        (1i128 << 100) % MODULUS
    );
    assert_eq!(hash_u64(9), 9);
}

#[test]
fn texts_hash_by_content() {
    let digest = hash_string("tonic");
    assert_eq!(digest, hash_string(&"to_nic".replace('_', "")));
    assert_ne!(digest, hash_string("tonik"));
    assert!((digest as i128) < MODULUS);
}

#[test]
fn sequences_hash_in_order() {
    let ab = sequence_finish(sequence_step(sequence_step(sequence_start(), 1), 2), 2);
    let ba = sequence_finish(sequence_step(sequence_step(sequence_start(), 2), 1), 2);
    assert_ne!(ab, ba);
    assert_eq!(sequence_start(), 0x345678);
    assert_eq!(sequence_step(1, 5), 1_000_008);
    let key = Key::Tuple(vec![Key::SmallInt(1), Key::SmallInt(2)]);
    assert_eq!(key.hash(), ab);
}

#[test]
fn equal_ranges_hash_the_same() {
    assert_eq!(range_length(0, 10, 3), 4);
    assert_eq!(range_length(10, 0, -3), 4);
    assert_eq!(range_length(0, 0, 1), 0);
    assert_eq!(range_length(i64::MIN, i64::MAX, 1), u64::MAX as i128);
    assert_eq!(hash_range(0, 3, 2), hash_range(0, 4, 2));
    assert_eq!(hash_range(5, 5, 1), hash_range(9, 2, 4));
    assert_eq!(hash_range(7, 8, 1), hash_range(7, 20, 100));
    assert_ne!(hash_range(0, 3, 1), hash_range(0, 4, 1));
}
