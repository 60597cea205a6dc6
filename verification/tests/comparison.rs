use tonic_runtime::dict::Dict;
use tonic_runtime::float::{relate_floats, relate_integer, Relation};
use tonic_runtime::heap::Heap;
use tonic_runtime::integer::Integer;
use tonic_runtime::object::Object;
use tonic_runtime::op::Op;
use tonic_runtime::value::Value;

fn small(n: i64) -> Value {
    Value::small_int(n).unwrap()
}

fn float(heap: &mut Heap, x: f64) -> Value {
    heap.allocate(Object::Float(x.to_bits())).unwrap()
}

fn text(heap: &mut Heap, text: &str) -> Value {
    heap.allocate(Object::Str(text.to_string())).unwrap()
}

fn holds(heap: &Heap, op: Op, a: Value, b: Value) -> bool {
    heap.compare(op, a, b).unwrap().as_bool().unwrap()
}

#[test]
fn numbers_compare_by_value() {
    let mut heap = Heap::new();
    let half = float(&mut heap, 0.5);
    let one = float(&mut heap, 1.0);
    let nan = float(&mut heap, f64::NAN);
    assert!(holds(&heap, Op::Eq, one, small(1)));
    assert!(holds(&heap, Op::Eq, Value::bool(true), one));
    assert!(holds(&heap, Op::Lt, half, small(1)));
    assert!(holds(&heap, Op::Gt, small(1), half));
    assert!(!holds(&heap, Op::Eq, nan, nan));
    assert!(holds(&heap, Op::Ne, nan, nan));
    assert!(!holds(&heap, Op::Le, nan, one));
    assert!(!holds(&heap, Op::Ge, nan, one));
}

#[test]
fn integers_and_floats_compare_exactly() {
    let odd = Integer::from_i64((1 << 53) + 1);
    assert_eq!(
        relate_integer(&odd, ((1u64 << 53) as f64).to_bits()),
        Relation::Greater
    );
    assert_eq!(
        relate_integer(&Integer::from_i64(3), f64::INFINITY.to_bits()),
        Relation::Less
    );
    assert_eq!(
        relate_floats(0.0f64.to_bits(), (-0.0f64).to_bits()),
        Relation::Equal
    );
    assert_eq!(
        relate_floats(f64::NAN.to_bits(), 0.0f64.to_bits()),
        Relation::Unordered
    );
    for (x, y) in [(1.5f64, 2.5f64), (-1.0, 1e300), (f64::NEG_INFINITY, 5e-324), (2.0, 2.0)] {
        assert_eq!(
            relate_floats(x.to_bits(), y.to_bits()),
            relate_floats(y.to_bits(), x.to_bits()).flip()
        );
    }
}

#[test]
fn equal_numbers_find_one_entry() {
    let mut heap = Heap::new();
    let dict = heap.allocate(Object::Dict(Dict::new())).unwrap();
    let one = float(&mut heap, 1.0);
    heap.dict_set(dict, small(1), small(10)).unwrap();
    heap.dict_set(dict, one, small(20)).unwrap();
    heap.dict_set(dict, Value::bool(true), small(30)).unwrap();
    assert_eq!(heap.dict_len(dict).unwrap(), 1);
    assert_eq!(heap.dict_get(dict, one).unwrap(), Some(small(30)));
    assert_eq!(heap.dict_entry_at(dict, 0).unwrap(), (small(1), small(30)));
    let half = float(&mut heap, 0.5);
    let other_half = float(&mut heap, 0.5);
    assert!(heap.dict_keys_equal(half, other_half).unwrap());
    assert!(!heap.dict_keys_equal(half, one).unwrap());
}

#[test]
fn sequences_compare_item_by_item() {
    let mut heap = Heap::new();
    let a = text(&mut heap, "ab");
    let b = text(&mut heap, "b");
    assert!(holds(&heap, Op::Lt, a, b));
    let x = heap.allocate(Object::List(vec![small(1), a])).unwrap();
    let y = heap.allocate(Object::List(vec![small(1), b])).unwrap();
    let z = heap.allocate(Object::List(vec![small(1)])).unwrap();
    assert!(holds(&heap, Op::Lt, x, y));
    assert!(holds(&heap, Op::Lt, z, x));
    assert!(holds(&heap, Op::Ne, x, y));
    let tuple = heap.allocate(Object::Tuple(vec![small(1)])).unwrap();
    assert!(holds(&heap, Op::Ne, tuple, z));
    assert_eq!(heap.compare(Op::Lt, tuple, z).unwrap_err().kind, "TypeError");
    assert_eq!(heap.compare(Op::Lt, a, small(1)).unwrap_err().kind, "TypeError");
}

#[test]
fn ranges_and_dictionaries_compare_by_content() {
    let mut heap = Heap::new();
    let a = heap
        .allocate(Object::Range { start: 0, stop: 3, step: 2 })
        .unwrap();
    let b = heap
        .allocate(Object::Range { start: 0, stop: 4, step: 2 })
        .unwrap();
    assert!(holds(&heap, Op::Eq, a, b));
    let c = heap
        .allocate(Object::Range { start: 0, stop: 5, step: 2 })
        .unwrap();
    assert!(!holds(&heap, Op::Eq, a, c));
    let x = heap.allocate(Object::Dict(Dict::new())).unwrap();
    let y = heap.allocate(Object::Dict(Dict::new())).unwrap();
    heap.dict_set(x, small(1), small(2)).unwrap();
    heap.dict_set(x, small(3), small(4)).unwrap();
    heap.dict_set(y, small(3), small(4)).unwrap();
    assert!(!holds(&heap, Op::Eq, x, y));
    heap.dict_set(y, small(1), small(2)).unwrap();
    assert!(holds(&heap, Op::Eq, x, y));
}

#[test]
fn truth_of_values() {
    let mut heap = Heap::new();
    let empty = text(&mut heap, "");
    let full = text(&mut heap, "x");
    let zero = float(&mut heap, -0.0);
    assert!(!heap.truth(empty).unwrap());
    assert!(heap.truth(full).unwrap());
    assert!(!heap.truth(zero).unwrap());
    assert!(!heap.truth(Value::none()).unwrap());
    assert!(!heap.truth(small(0)).unwrap());
    assert!(heap.truth(small(-1)).unwrap());
    assert_eq!(
        heap.truth(Value::not_implemented()).unwrap_err().kind,
        "TypeError"
    );
}

#[test]
fn too_deep_comparisons_are_refused() {
    let mut heap = Heap::new();
    let mut a = heap.allocate(Object::List(vec![])).unwrap();
    let mut b = heap.allocate(Object::List(vec![])).unwrap();
    for _ in 0..150 {
        a = heap.allocate(Object::List(vec![a])).unwrap();
        b = heap.allocate(Object::List(vec![b])).unwrap();
    }
    assert_eq!(heap.compare(Op::Eq, a, b).unwrap_err().kind, "RecursionError");
}
