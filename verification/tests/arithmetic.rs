use tonic_runtime::arithmetic::{calculate, Computed, Quantity};
use tonic_runtime::dict::Dict;
use tonic_runtime::heap::Heap;
use tonic_runtime::integer::Integer;
use tonic_runtime::object::Object;
use tonic_runtime::op::{base_binary_op, Op};
use tonic_runtime::value::Value;

fn small(n: i64) -> Value {
    Value::small_int(n).unwrap()
}

fn computed(op: Op, x: i64, y: i64) -> i64 {
    match calculate(op, &Integer::from_i64(x), &Integer::from_i64(y), true).unwrap() {
        Quantity::Integer(n) => n.to_i64().unwrap(),
        _ => panic!("expected an integer"),
    }
}

fn value_of(result: Computed) -> Value {
    match result {
        Computed::Value(value) => value,
        Computed::Float(_) => panic!("expected a value"),
    }
}

fn kind(op: Op, x: i64, y: i64) -> &'static str {
    calculate(op, &Integer::from_i64(x), &Integer::from_i64(y), true)
        .unwrap_err()
        .kind
}

#[test]
fn floor_division_rounds_down() {
    for (x, y, q, r) in [(7, 2, 3, 1), (-7, 2, -4, 1), (7, -2, -4, -1), (-7, -2, 3, -1)] {
        assert_eq!(computed(Op::FloorDiv, x, y), q);
        assert_eq!(computed(Op::Mod, x, y), r);
        assert_eq!(q * y + r, x);
    }
    assert_eq!(kind(Op::FloorDiv, 1, 0), "ZeroDivisionError");
    assert_eq!(kind(Op::Mod, 1, 0), "ZeroDivisionError");
}

#[test]
fn integer_operators() {
    assert_eq!(computed(Op::Add, 3, 4), 7);
    assert_eq!(computed(Op::Sub, 3, 4), -1);
    assert_eq!(computed(Op::Mul, -3, 4), -12);
    assert_eq!(computed(Op::Pow, 2, 10), 1024);
    assert_eq!(computed(Op::BitAnd, 6, 3), 2);
    assert_eq!(computed(Op::BitOr, 6, 3), 7);
    assert_eq!(computed(Op::BitXor, 6, 3), 5);
    assert_eq!(computed(Op::LeftShift, 3, 4), 48);
    assert_eq!(computed(Op::RightShift, -9, 1), -5);
    assert_eq!(kind(Op::LeftShift, 1, -1), "ValueError");
    assert_eq!(kind(Op::RightShift, 1, -1), "ValueError");
    assert!(matches!(
        calculate(Op::Div, &Integer::from_i64(1), &Integer::from_i64(4), true),
        Ok(Quantity::Float(bits)) if bits == 0.25f64.to_bits()
    ));
    assert_eq!(kind(Op::Div, 1, 0), "ZeroDivisionError");
}

#[test]
fn values_beyond_a_word_are_stored() {
    let mut heap = Heap::new();
    let result = heap.binary(Op::Mul, small(Value::MAX_INT), small(100)).unwrap();
    let value = value_of(result);
    assert!(value.as_int().is_none());
    assert_eq!(
        heap.integer(value).unwrap().to_decimal(),
        (Value::MAX_INT as i128 * 100).to_string()
    );
    let back = value_of(heap.binary(Op::FloorDiv, value, small(100)).unwrap());
    assert_eq!(back.as_int(), Some(Value::MAX_INT));
    let flag = value_of(heap.binary(Op::Add, Value::bool(true), small(2)).unwrap());
    assert_eq!(flag.as_int(), Some(3));
    assert_eq!(heap.to_i64(back).unwrap(), Value::MAX_INT);
    assert_eq!(heap.to_i64(value).unwrap_err().kind, "OverflowError");
}

#[test]
fn sequences_join() {
    let mut heap = Heap::new();
    let a = heap.allocate(Object::Str("ab".to_string())).unwrap();
    let b = heap.allocate(Object::Str("cd".to_string())).unwrap();
    let joined = value_of(heap.binary(Op::Add, a, b).unwrap());
    assert!(matches!(heap.get(joined), Ok(Object::Str(s)) if s == "abcd"));
    let x = heap.allocate(Object::List(vec![small(1)])).unwrap();
    let y = heap.allocate(Object::List(vec![small(2)])).unwrap();
    let both = value_of(heap.binary(Op::Add, x, y).unwrap());
    assert!(matches!(heap.get(both), Ok(Object::List(v)) if v == &vec![small(1), small(2)]));
    assert!(matches!(heap.get(x), Ok(Object::List(v)) if v == &vec![small(1)]));
    assert_eq!(heap.binary(Op::Mul, a, small(3)).unwrap_err().kind, "TypeError");
    assert_eq!(heap.binary(Op::Sub, a, b).unwrap_err().kind, "TypeError");
}

#[test]
fn floats_are_requested_and_settled() {
    let mut heap = Heap::new();
    let x = heap.allocate(Object::Float(1.5f64.to_bits())).unwrap();
    let request = match heap.binary(Op::Add, x, small(2)).unwrap() {
        Computed::Float(request) => request,
        Computed::Value(_) => panic!("expected a request"),
    };
    assert_eq!(request.op, Op::Add);
    assert_eq!(request.x, 1.5f64.to_bits());
    assert_eq!(request.y, 2.0f64.to_bits());
    let sum = heap.settle_float(request, 3.5f64.to_bits()).unwrap();
    assert!(matches!(heap.get(sum), Ok(Object::Float(bits)) if *bits == 3.5f64.to_bits()));
    assert_eq!(
        heap.binary(Op::FloorDiv, x, small(0)).unwrap_err().kind,
        "ZeroDivisionError"
    );
}

#[test]
fn unary_operators() {
    let mut heap = Heap::new();
    assert_eq!(heap.unary(Op::Neg, small(5)).unwrap().as_int(), Some(-5));
    assert_eq!(heap.unary(Op::Pos, Value::bool(true)).unwrap().as_int(), Some(1));
    assert_eq!(heap.unary(Op::Invert, small(5)).unwrap().as_int(), Some(-6));
    let x = heap.allocate(Object::Float(1.5f64.to_bits())).unwrap();
    let minus = heap.unary(Op::Neg, x).unwrap();
    assert!(matches!(heap.get(minus), Ok(Object::Float(b)) if *b == (-1.5f64).to_bits()));
    assert_eq!(heap.unary(Op::Pos, x).unwrap(), x);
    assert_eq!(heap.unary(Op::Not, x).unwrap(), Value::bool(false));
    let word = heap.allocate(Object::Str("x".to_string())).unwrap();
    assert_eq!(heap.unary(Op::Neg, word).unwrap_err().kind, "TypeError");
}

#[test]
fn inplace_operators_have_plain_ones() {
    assert_eq!(base_binary_op(Op::InplaceAdd), Op::Add);
    assert_eq!(base_binary_op(Op::InplaceRightShift), Op::RightShift);
    assert_eq!(base_binary_op(Op::Mul), Op::Mul);
}

#[test]
fn adding_in_place_extends_the_list_itself() {
    let mut heap = Heap::new();
    let list = heap.allocate(Object::List(vec![small(1)])).unwrap();
    let other = heap.allocate(Object::Tuple(vec![small(2), small(3)])).unwrap();
    let same = value_of(heap.inplace_add(list, other).unwrap());
    assert_eq!(same, list);
    assert!(matches!(
        heap.get(list),
        Ok(Object::List(v)) if v == &vec![small(1), small(2), small(3)]
    ));
}

#[test]
fn adding_in_place_takes_any_iterable() {
    let mut heap = Heap::new();
    let list = heap.allocate(Object::List(vec![small(0)])).unwrap();
    let range = heap
        .allocate(Object::Range { start: 5, stop: 0, step: -2 })
        .unwrap();
    assert_eq!(value_of(heap.inplace_add(list, range).unwrap()), list);
    assert!(matches!(
        heap.get(list),
        Ok(Object::List(v)) if v == &vec![small(0), small(5), small(3), small(1)]
    ));
    let dict = heap.allocate(Object::Dict(Dict::new())).unwrap();
    heap.dict_set(dict, small(7), small(70)).unwrap();
    heap.dict_set(dict, small(8), small(80)).unwrap();
    let list = heap.allocate(Object::List(vec![])).unwrap();
    heap.inplace_add(list, dict).unwrap();
    assert!(matches!(heap.get(list), Ok(Object::List(v)) if v == &vec![small(7), small(8)]));
    let items = heap.allocate(Object::List(vec![small(1), small(2), small(3)])).unwrap();
    let iterator = heap.iterator(items).unwrap();
    assert_eq!(heap.next(iterator).unwrap(), Some(small(1)));
    heap.inplace_add(list, iterator).unwrap();
    assert!(matches!(
        heap.get(list),
        Ok(Object::List(v)) if v == &vec![small(7), small(8), small(2), small(3)]
    ));
    assert_eq!(heap.next(iterator).unwrap(), None);
    let word = heap.allocate(Object::Str("aé".to_string())).unwrap();
    let letters = heap.allocate(Object::List(vec![])).unwrap();
    heap.inplace_add(letters, word).unwrap();
    let found = match heap.get(letters) {
        Ok(Object::List(values)) => values.clone(),
        _ => panic!("expected a list"),
    };
    assert_eq!(found.len(), 2);
    assert!(matches!(heap.get(found[0]), Ok(Object::Str(s)) if s == "a"));
    assert!(matches!(heap.get(found[1]), Ok(Object::Str(s)) if s == "é"));
    heap.inplace_add(list, list).unwrap();
    assert!(matches!(heap.get(list), Ok(Object::List(v)) if v.len() == 8));
    assert_eq!(heap.inplace_add(list, small(1)).unwrap_err().kind, "TypeError");
}

#[test]
fn negative_powers_of_immediates_round_their_operands_first() {
    let mut heap = Heap::new();
    let request = |heap: &mut Heap, x: i64, y: i64| match heap.binary(Op::Pow, small(x), small(y)) {
        Ok(Computed::Float(request)) => (request.op, request.x, request.y),
        _ => panic!("expected a request"),
    };
    let beyond = -9007199254740993i64;
    assert_eq!(
        request(&mut heap, -1, beyond),
        (Op::Pow, (-1.0f64).to_bits(), (-9007199254740992.0f64).to_bits())
    );
    assert_eq!(
        request(&mut heap, 1, -3),
        (Op::Pow, 1.0f64.to_bits(), (-3.0f64).to_bits())
    );
    assert_eq!(
        request(&mut heap, 2, -1),
        (Op::Pow, 2.0f64.to_bits(), (-1.0f64).to_bits())
    );
    assert_eq!(
        heap.binary(Op::Pow, small(0), small(-1)).unwrap_err().kind,
        "ZeroDivisionError"
    );
    assert_eq!(
        heap.binary(Op::Pow, Value::bool(false), small(-1)).unwrap_err().kind,
        "ZeroDivisionError"
    );
    let huge = heap
        .allocate(Object::Int(Integer::from_i64(2).power(70).plus(&Integer::from_i64(1)).negated()))
        .unwrap();
    let odd = value_of(heap.binary(Op::Pow, small(-1), huge).unwrap());
    assert!(matches!(heap.get(odd), Ok(Object::Float(bits)) if *bits == (-1.0f64).to_bits()));
    let one = value_of(heap.binary(Op::Pow, small(1), huge).unwrap());
    assert!(matches!(heap.get(one), Ok(Object::Float(bits)) if *bits == 1.0f64.to_bits()));
}
