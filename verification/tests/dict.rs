use tonic_runtime::dict::Dict;
use tonic_runtime::heap::Heap;
use tonic_runtime::object::Object;
use tonic_runtime::value::Value;

fn small(n: i64) -> Value {
    Value::small_int(n).unwrap()
}

fn text(heap: &mut Heap, text: &str) -> Value {
    heap.allocate(Object::Str(text.to_string())).unwrap()
}

fn dict(heap: &mut Heap) -> Value {
    heap.allocate(Object::Dict(Dict::new())).unwrap()
}

#[test]
fn what_was_set_is_read_and_others_stay() {
    let mut heap = Heap::new();
    let owner = dict(&mut heap);
    for i in 0..50 {
        heap.dict_set(owner, small(i), small(i * i)).unwrap();
    }
    heap.dict_set(owner, small(7), small(-1)).unwrap();
    assert_eq!(heap.dict_len(owner).unwrap(), 50);
    for i in 0..50 {
        let expected = if i == 7 { -1 } else { i * i };
        assert_eq!(heap.dict_get(owner, small(i)).unwrap(), Some(small(expected)));
    }
    assert_eq!(heap.dict_get(owner, small(50)).unwrap(), None);
    let order: Vec<Value> = heap
        .dict_entries(owner)
        .unwrap()
        .iter()
        .map(|entry| entry.0)
        .collect();
    assert_eq!(order, (0..50).map(small).collect::<Vec<_>>());
}

#[test]
fn deletion_keeps_the_order_and_counts_a_version() {
    let mut heap = Heap::new();
    let owner = dict(&mut heap);
    for i in 0..4 {
        heap.dict_set(owner, small(i), small(i)).unwrap();
    }
    let version = heap.dict_version(owner).unwrap();
    heap.dict_delete(owner, small(1)).unwrap();
    assert!(heap.dict_version(owner).unwrap() > version);
    assert_eq!(
        heap.dict_entries(owner).unwrap(),
        vec![
            (small(0), small(0)),
            (small(2), small(2)),
            (small(3), small(3))
        ]
    );
    assert_eq!(heap.dict_get(owner, small(3)).unwrap(), Some(small(3)));
    let missing = heap.dict_delete(owner, small(1)).unwrap_err();
    assert_eq!(missing.kind, "KeyError");
    assert_eq!(missing.message, "1");
    assert!(missing.pieces.is_none());
    heap.dict_clear(owner).unwrap();
    assert_eq!(heap.dict_len(owner).unwrap(), 0);
}

#[test]
fn replacing_a_value_keeps_the_version() {
    let mut heap = Heap::new();
    let owner = dict(&mut heap);
    heap.dict_set(owner, small(1), small(1)).unwrap();
    let version = heap.dict_version(owner).unwrap();
    heap.dict_set(owner, small(1), small(2)).unwrap();
    assert_eq!(heap.dict_version(owner).unwrap(), version);
}

#[test]
fn keys_are_values_not_handles() {
    let mut heap = Heap::new();
    let owner = dict(&mut heap);
    let a = text(&mut heap, "key");
    let b = text(&mut heap, "key");
    heap.dict_set(owner, a, small(1)).unwrap();
    assert_eq!(heap.dict_get(owner, b).unwrap(), Some(small(1)));
    assert_eq!(heap.dict_get_str(owner, "key").unwrap(), Some(small(1)));
    heap.dict_set_str(owner, "key", small(2)).unwrap();
    assert_eq!(heap.dict_len(owner).unwrap(), 1);
    let x = heap.allocate(Object::Tuple(vec![a, small(1)])).unwrap();
    let y = heap.allocate(Object::Tuple(vec![b, small(1)])).unwrap();
    heap.dict_set(owner, x, small(3)).unwrap();
    assert_eq!(heap.dict_get(owner, y).unwrap(), Some(small(3)));
    let list = heap.allocate(Object::List(vec![])).unwrap();
    assert_eq!(heap.dict_set(owner, list, small(1)).unwrap_err().kind, "TypeError");
    assert_eq!(heap.dict_get(small(1), a).unwrap_err().kind, "TypeError");
}

#[test]
fn merging_takes_the_other_entries_over() {
    let mut heap = Heap::new();
    let owner = dict(&mut heap);
    let other = dict(&mut heap);
    heap.dict_set(owner, small(1), small(1)).unwrap();
    heap.dict_set(other, small(1), small(5)).unwrap();
    heap.dict_set(other, small(2), small(6)).unwrap();
    heap.dict_merge(owner, other).unwrap();
    assert_eq!(
        heap.dict_entries(owner).unwrap(),
        vec![(small(1), small(5)), (small(2), small(6))]
    );
}

#[test]
fn items_of_lists_and_dictionaries() {
    let mut heap = Heap::new();
    let list = heap
        .allocate(Object::List(vec![small(1), small(2), small(3)]))
        .unwrap();
    heap.set_item(list, small(-1), small(9)).unwrap();
    assert_eq!(heap.item(list, small(2)).unwrap(), small(9));
    assert_eq!(heap.item(list, small(3)).unwrap_err().kind, "IndexError");
    assert_eq!(
        heap.set_item(list, small(-4), small(0)).unwrap_err().kind,
        "IndexError"
    );
    heap.delete_item(list, small(0)).unwrap();
    assert!(matches!(heap.get(list), Ok(Object::List(v)) if v == &vec![small(2), small(9)]));
    let word = text(&mut heap, "abc");
    let letter = heap.item(word, small(1)).unwrap();
    assert!(matches!(heap.get(letter), Ok(Object::Str(s)) if s == "b"));
    let owner = dict(&mut heap);
    heap.set_item(owner, small(4), small(5)).unwrap();
    assert_eq!(heap.item(owner, small(4)).unwrap(), small(5));
    assert_eq!(heap.item(owner, small(6)).unwrap_err().kind, "KeyError");
    heap.delete_item(owner, small(4)).unwrap();
    assert_eq!(heap.length(owner).unwrap(), small(0));
    assert_eq!(heap.length(list).unwrap(), small(2));
    assert_eq!(heap.length(small(1)).unwrap_err().kind, "TypeError");
}
