use tonic_runtime::dict::Dict;
use tonic_runtime::heap::Heap;
use tonic_runtime::mro::merge;
use tonic_runtime::object::Object;
use tonic_runtime::sequence::slice_positions;
use tonic_runtime::value::Value;

fn small(n: i64) -> Value {
    Value::small_int(n).unwrap()
}

fn drain(heap: &mut Heap, source: Value) -> Vec<Value> {
    let iterator = heap.iterator(source).unwrap();
    let mut items = Vec::new();
    while let Some(item) = heap.next(iterator).unwrap() {
        items.push(item);
    }
    assert_eq!(heap.next(iterator).unwrap(), None);
    items
}

#[test]
fn iterators_yield_each_item_once() {
    let mut heap = Heap::new();
    let list = heap.allocate(Object::List(vec![small(3), small(1)])).unwrap();
    assert_eq!(drain(&mut heap, list), vec![small(3), small(1)]);
    let range = heap
        .allocate(Object::Range { start: 5, stop: -1, step: -2 })
        .unwrap();
    assert_eq!(drain(&mut heap, range), vec![small(5), small(3), small(1)]);
    let dict = heap.allocate(Object::Dict(Dict::new())).unwrap();
    heap.dict_set(dict, small(8), small(0)).unwrap();
    assert_eq!(drain(&mut heap, dict), vec![small(8)]);
    let word = heap.allocate(Object::Str("hé".to_string())).unwrap();
    let letters = drain(&mut heap, word);
    assert_eq!(letters.len(), 2);
    assert!(matches!(heap.get(letters[1]), Ok(Object::Str(s)) if s == "é"));
    assert_eq!(heap.iterator(small(1)).unwrap_err().kind, "TypeError");
}

#[test]
fn a_changed_dictionary_stops_its_iterator() {
    let mut heap = Heap::new();
    let dict = heap.allocate(Object::Dict(Dict::new())).unwrap();
    heap.dict_set(dict, small(1), small(0)).unwrap();
    let iterator = heap.iterator(dict).unwrap();
    assert!(heap.is_iterator(iterator));
    assert!(!heap.is_iterator(dict));
    heap.dict_set(dict, small(2), small(0)).unwrap();
    assert_eq!(heap.next(iterator).unwrap_err().kind, "RuntimeError");
}

#[test]
fn slices_pick_positions() {
    assert_eq!(slice_positions(5, None, None, 2), vec![0, 2, 4]);
    assert_eq!(slice_positions(5, None, None, -1), vec![4, 3, 2, 1, 0]);
    assert_eq!(slice_positions(5, Some(-2), None, 1), vec![3, 4]);
    assert_eq!(slice_positions(5, Some(1), Some(-1), 1), vec![1, 2, 3]);
    assert_eq!(slice_positions(5, Some(9), Some(2), 1), Vec::<usize>::new());
    assert_eq!(slice_positions(0, None, None, 1), Vec::<usize>::new());
}

#[test]
fn ancestors_are_merged_in_order() {
    let (a, b, c, o) = (small(1), small(2), small(3), small(4));
    assert_eq!(
        merge(vec![vec![a, o], vec![b, o], vec![a, b]]),
        Some(vec![a, b, o])
    );
    assert_eq!(merge(vec![vec![a, b], vec![b, a]]), None);
    assert_eq!(merge(vec![]), Some(vec![]));
    assert_eq!(
        merge(vec![vec![c, a, o], vec![b, o], vec![c, b]]),
        Some(vec![c, a, b, o])
    );
}

#[test]
fn merging_needs_one_order_for_all() {
    let (a, b, c) = (small(1), small(2), small(3));
    assert_eq!(merge(vec![vec![a, b], vec![b, c]]), Some(vec![a, b, c]));
    assert_eq!(merge(vec![vec![b, c], vec![a, c], vec![b, a]]), Some(vec![b, a, c]));
    assert_eq!(merge(vec![vec![a, b], vec![b, a]]), None);
    assert_eq!(merge(vec![vec![a, b], vec![b, c], vec![c, a]]), None);
    assert_eq!(merge(vec![vec![], vec![a]]), Some(vec![a]));
}
