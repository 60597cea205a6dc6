use tonic_runtime::diagnostic::Diagnostic;
use tonic_runtime::dict::Dict;
use tonic_runtime::format::{float_patterns, quote, render, with_exponent};
use tonic_runtime::heap::Heap;
use tonic_runtime::object::Object;
use tonic_runtime::value::Value;

fn small(n: i64) -> Value {
    Value::small_int(n).unwrap()
}

fn shown(heap: &Heap, value: Value, repr: bool) -> String {
    let pieces = heap.format(value, repr).unwrap();
    let numbers = float_patterns(&pieces)
        .iter()
        .map(|bits| format!("{:?}", f64::from_bits(*bits)))
        .collect();
    render(&pieces, &numbers)
}

#[test]
fn plain_values() {
    let mut heap = Heap::new();
    assert_eq!(shown(&heap, Value::none(), true), "None");
    assert_eq!(shown(&heap, Value::bool(true), true), "True");
    assert_eq!(shown(&heap, small(-12), true), "-12");
    let word = heap.allocate(Object::Str("it's".to_string())).unwrap();
    assert_eq!(shown(&heap, word, false), "it's");
    assert_eq!(shown(&heap, word, true), "'it\\'s'");
    let float = heap.allocate(Object::Float(1.5f64.to_bits())).unwrap();
    assert_eq!(shown(&heap, float, true), "1.5");
    let nan = heap.allocate(Object::Float(f64::NAN.to_bits())).unwrap();
    assert_eq!(shown(&heap, nan, true), "nan");
}

#[test]
fn containers_show_their_items() {
    let mut heap = Heap::new();
    let word = heap.allocate(Object::Str("a".to_string())).unwrap();
    let one = heap.allocate(Object::Tuple(vec![word])).unwrap();
    assert_eq!(shown(&heap, one, false), "('a',)");
    let pair = heap.allocate(Object::Tuple(vec![word, small(2)])).unwrap();
    assert_eq!(shown(&heap, pair, false), "('a', 2)");
    let list = heap.allocate(Object::List(vec![small(1), pair])).unwrap();
    assert_eq!(shown(&heap, list, false), "[1, ('a', 2)]");
    let dict = heap.allocate(Object::Dict(Dict::new())).unwrap();
    heap.dict_set(dict, word, list).unwrap();
    assert_eq!(shown(&heap, dict, false), "{'a': [1, ('a', 2)]}");
    let range = heap
        .allocate(Object::Range { start: 0, stop: 5, step: 1 })
        .unwrap();
    assert_eq!(shown(&heap, range, false), "range(0, 5)");
}

#[test]
fn cycles_are_cut_short() {
    let mut heap = Heap::new();
    let list = heap.allocate(Object::List(vec![small(1)])).unwrap();
    heap.append_list(list, list).unwrap();
    assert_eq!(shown(&heap, list, false), "[1, [...]]");
    let dict = heap.allocate(Object::Dict(Dict::new())).unwrap();
    heap.dict_set(dict, small(1), dict).unwrap();
    assert_eq!(shown(&heap, dict, false), "{1: {...}}");
}

#[test]
fn quotes_and_escapes() {
    assert_eq!(quote("plain"), "'plain'");
    assert_eq!(quote("it's"), "'it\\'s'");
    assert_eq!(quote("\"it's\""), "'\"it\\'s\"'");
    assert_eq!(quote("a\nb\tc\\d"), "'a\\nb\\tc\\\\d'");
    assert_eq!(quote("\u{7f}"), "'\\x7f'");
}

#[test]
fn exponents_have_two_digits_and_a_sign() {
    assert_eq!(with_exponent("1e5"), "1e+05");
    assert_eq!(with_exponent("1e-7"), "1e-07");
    assert_eq!(with_exponent("2.5"), "2.5");
}

#[test]
fn missing_keys_are_shown() {
    let mut heap = Heap::new();
    let dict = heap.allocate(Object::Dict(Dict::new())).unwrap();
    let word = heap.allocate(Object::Str("gone".to_string())).unwrap();
    let deleted = heap.dict_delete(dict, word).unwrap_err();
    assert_eq!((deleted.kind, deleted.message.as_str()), ("KeyError", "'gone'"));
    assert_eq!(render(&deleted.text(), &vec![]), "'gone'");
    let read = heap.item(dict, word).unwrap_err();
    assert_eq!((read.kind, read.message.as_str()), ("KeyError", "'gone'"));
    assert_eq!(heap.item(dict, small(-7)).unwrap_err().message, "-7");
    let half = heap.allocate(Object::Float(0.5f64.to_bits())).unwrap();
    let pair = heap.allocate(Object::Tuple(vec![half, small(2)])).unwrap();
    let shown = heap.item(dict, pair).unwrap_err();
    assert_eq!(shown.message, "(, 2)");
    let pieces = shown.text();
    assert_eq!(float_patterns(&pieces), vec![0.5f64.to_bits()]);
    assert_eq!(render(&pieces, &vec!["0.5".to_string()]), "(0.5, 2)");
    let plain = Diagnostic::new("ValueError", "bad value");
    assert_eq!(render(&plain.text(), &vec![]), "bad value");
    let mut nested = small(1);
    for _ in 0..99 {
        nested = heap.allocate(Object::Tuple(vec![nested])).unwrap();
    }
    assert_eq!(heap.missing_key(nested).message.len(), 1 + 3 * 99);
    for _ in 0..10 {
        nested = heap.allocate(Object::Tuple(vec![nested])).unwrap();
    }
    assert_eq!(heap.missing_key(nested).message, "missing key");
}
