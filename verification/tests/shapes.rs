use tonic_runtime::shapes::{Attributes, ShapeId, Shapes};
use tonic_runtime::value::Value;

fn small(n: i64) -> Value {
    Value::small_int(n).unwrap()
}

#[test]
fn transitions_share_layouts_and_preserve_values() {
    let mut shapes = Shapes::new();
    let mut a = Attributes::new();
    let mut b = Attributes::new();
    a.set(&mut shapes, "x", small(1));
    b.set(&mut shapes, "x", small(2));
    assert_eq!(shapes.len(), 2);
    assert_eq!(a.get(&shapes, "x"), Value::small_int(1));
    assert_eq!(b.get(&shapes, "x"), Value::small_int(2));
    for i in 0..100 {
        a.set(&mut shapes, &format!("n{i}"), small(i));
    }
    assert!(matches!(a, Attributes::Dictionary(_)));
    assert_eq!(a.get(&shapes, "x"), Value::small_int(1));
    assert_eq!(a.get(&shapes, "n99"), Value::small_int(99));
}

#[test]
fn metadata_limits_do_not_become_guest_attribute_limits() {
    let mut shapes = Shapes::new();
    for i in 0..5000 {
        let mut attrs = Attributes::new();
        let name = format!("attr{i}");
        attrs.set(&mut shapes, &name, small(i));
        assert_eq!(attrs.get(&shapes, &name), Value::small_int(i));
    }
    assert_eq!(shapes.len(), 4097);
    let name = "x".repeat(2048);
    let mut attrs = Attributes::new();
    attrs.set(&mut shapes, &name, Value::none());
    assert_eq!(attrs.get(&shapes, &name), Some(Value::none()));
    assert_eq!(shapes.len(), 4097);
}

#[test]
fn deleting_keeps_the_others() {
    let mut shapes = Shapes::new();
    let mut attrs = Attributes::new();
    attrs.set(&mut shapes, "a", small(1));
    attrs.set(&mut shapes, "b", small(2));
    attrs.set(&mut shapes, "c", small(3));
    assert_eq!(attrs.delete(&shapes, "b"), Some(small(2)));
    assert_eq!(attrs.delete(&shapes, "b"), None);
    assert_eq!(attrs.get(&shapes, "a"), Some(small(1)));
    assert_eq!(attrs.get(&shapes, "b"), None);
    assert_eq!(attrs.get(&shapes, "c"), Some(small(3)));
    let mut visited = Vec::new();
    attrs.trace(&mut visited);
    visited.sort_by_key(|value| value.raw());
    assert_eq!(visited, vec![small(1), small(3)]);
}

#[test]
fn a_cached_slot_reads_what_the_name_reads() {
    let mut shapes = Shapes::new();
    let mut attrs = Attributes::new();
    attrs.set(&mut shapes, "a", small(1));
    attrs.set(&mut shapes, "b", small(2));
    let (shape, slot) = attrs.slot_cache(&shapes, "b").unwrap();
    assert_eq!(slot, 1);
    assert_eq!(attrs.cached_slot(shape, slot), Some(small(2)));
    attrs.set(&mut shapes, "b", small(5));
    assert_eq!(attrs.cached_slot(shape, slot), attrs.get(&shapes, "b"));
    attrs.set(&mut shapes, "c", small(3));
    assert_eq!(attrs.cached_slot(shape, slot), None);
    assert_eq!(attrs.slot_cache(&shapes, "missing"), None);
}

#[test]
fn layouts_spell_out_their_names() {
    let mut shapes = Shapes::new();
    let mut attrs = Attributes::new();
    attrs.set(&mut shapes, "first", small(1));
    attrs.set(&mut shapes, "second", small(2));
    let (shape, _) = attrs.slot_cache(&shapes, "first").unwrap();
    assert_eq!(shapes.slot(shape, "second"), Some(1));
    assert_eq!(shapes.slot(shape, "third"), None);
    let grown = shapes.transition(shape, "third").unwrap();
    assert_eq!(shapes.transition(shape, "third"), Some(grown));
    let mut entries = shapes.materialize(shape, &vec![small(7), small(8)]);
    entries.sort_by_key(|(_, value)| value.raw());
    assert_eq!(
        entries,
        vec![
            ("first".to_string(), small(7)),
            ("second".to_string(), small(8))
        ]
    );
}

#[test]
fn a_transition_leads_to_one_shape_for_ever() {
    let mut shapes = Shapes::new();
    let root = ShapeId(0);
    assert_eq!(shapes.len(), 1);
    let x = shapes.transition(root, "x").unwrap();
    let xy = shapes.transition(x, "y").unwrap();
    let y = shapes.transition(root, "y").unwrap();
    assert_eq!(shapes.len(), 4);
    assert_ne!(xy, y);
    for i in 0..5000 {
        shapes.transition(root, &format!("n{i}"));
        assert!(shapes.len() <= 4097);
    }
    assert_eq!(shapes.len(), 4097);
    assert_eq!(shapes.transition(root, "x"), Some(x));
    assert_eq!(shapes.transition(x, "y"), Some(xy));
    assert_eq!(shapes.transition(root, "y"), Some(y));
    assert_eq!(shapes.transition(y, "x"), None);
    assert_eq!(shapes.slot(xy, "y"), Some(1));
}

#[test]
fn equal_writes_share_caches() {
    let mut shapes = Shapes::new();
    let mut a = Attributes::new();
    let mut b = Attributes::new();
    let names = ["x", "y", "x", "z"];
    for (i, name) in names.iter().enumerate() {
        a.set(&mut shapes, name, small(i as i64));
    }
    let count = shapes.len();
    assert_eq!(count, 4);
    b.set(&mut shapes, "x", small(10));
    assert_eq!(shapes.len(), count);
    shapes.transition(ShapeId(0), "other");
    for name in &names[1..] {
        b.set(&mut shapes, name, small(20));
    }
    for name in ["x", "y", "z"] {
        let cache = a.slot_cache(&shapes, name);
        assert!(cache.is_some());
        assert_eq!(b.slot_cache(&shapes, name), cache);
    }
    assert_eq!(a.slot_cache(&shapes, "w"), None);
    let (shape, slot) = a.slot_cache(&shapes, "z").unwrap();
    assert_eq!(b.cached_slot(shape, slot), Some(small(20)));
}

#[test]
fn materializing_takes_as_many_values_as_there_are_names() {
    let mut shapes = Shapes::new();
    let x = shapes.transition(ShapeId(0), "x").unwrap();
    let xy = shapes.transition(x, "y").unwrap();
    let mut map = shapes.materialize(xy, &vec![small(1), small(2), small(3)]);
    map.sort_by(|a, b| a.0.cmp(&b.0));
    assert_eq!(map, vec![("x".to_string(), small(1)), ("y".to_string(), small(2))]);
}
