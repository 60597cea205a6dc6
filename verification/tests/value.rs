use tonic_runtime::value::Value;

#[test]
fn encoding() {
    assert_eq!(std::mem::size_of::<Value>(), 8);
    for n in [Value::MIN_INT, -1, 0, 1, Value::MAX_INT] {
        assert_eq!(Value::small_int(n).unwrap().as_int(), Some(n));
    }
    assert!(Value::small_int(Value::MAX_INT + 1).is_none());
    assert!(Value::none().as_int().is_none());
}

#[test]
fn heap_words_keep_index_and_generation() {
    let value = Value::heap(7, 3);
    assert_eq!(value.heap_index(), Some(7));
    assert_eq!(value.generation(), 3);
    assert_eq!(Value::heap(u32::MAX, Value::MAX_GENERATION).heap_index(), Some(0xffff_ffff));
    assert_ne!(Value::heap(7, 3), Value::heap(7, 4));
    assert_ne!(Value::heap(7, 3), Value::heap(8, 3));
    assert_eq!(Value::from_jit(value.raw()), value);
}

#[test]
fn immediate_words_differ() {
    let words = [
        Value::none(),
        Value::unbound(),
        Value::not_implemented(),
        Value::bool(false),
        Value::bool(true),
        Value::zero(),
        Value::one(),
    ];
    for i in 0..words.len() {
        for j in 0..words.len() {
            assert_eq!(words[i] == words[j], i == j);
        }
        assert_eq!(words[i].heap_index(), None);
    }
    assert_eq!(Value::bool(true).as_bool(), Some(true));
    assert_eq!(Value::bool(false).as_bool(), Some(false));
    assert_eq!(Value::none().as_bool(), None);
    assert_eq!(Value::bool(true).integer(), Some(1));
    assert_eq!(Value::small_int(-9).unwrap().integer(), Some(-9));
    assert!(Value::small_int(Value::MIN_INT - 1).is_none());
}
