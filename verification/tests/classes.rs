use tonic_runtime::heap::Heap;
use tonic_runtime::object::{Builtin, Object};
use tonic_runtime::shapes::Attributes;
use tonic_runtime::value::Value;

fn small(n: i64) -> Value {
    Value::small_int(n).unwrap()
}

fn class(heap: &mut Heap, name: &str, bases: Vec<Value>) -> Value {
    let made = heap.namespace(name, bases).unwrap();
    heap.finish_class(made).unwrap();
    made
}

fn object_class(heap: &mut Heap) -> Value {
    let object_new = heap.allocate(Object::Builtin(Builtin::ObjectNew)).unwrap();
    let object_getattribute = heap
        .allocate(Object::Builtin(Builtin::ObjectGetAttribute))
        .unwrap();
    let object_setattr = heap
        .allocate(Object::Builtin(Builtin::ObjectSetAttr))
        .unwrap();
    let object_delattr = heap
        .allocate(Object::Builtin(Builtin::ObjectDelAttr))
        .unwrap();
    heap.root_object_class(
        object_new,
        object_getattribute,
        object_setattr,
        object_delattr,
    )
    .unwrap()
}

/// Every old object with a young edge is remembered.
fn assert_remembered_set_complete(heap: &Heap) {
    for owner in heap.handles() {
        if heap.is_young(owner) || heap.is_remembered(owner) {
            continue;
        }
        let mut edges = Vec::new();
        heap.get(owner).unwrap().trace(&mut edges);
        for edge in edges {
            assert!(!heap.is_young(edge));
        }
    }
}

#[test]
fn type_identity_version_and_mro_survive_heap_movement() {
    let mut heap = Heap::new();
    heap.allocate(Object::Str("dead".to_string())).unwrap();
    let a = class(&mut heap, "A", Vec::new());
    let b = class(&mut heap, "B", vec![a]);
    let c = class(&mut heap, "C", Vec::new());
    let a_id = heap.class(a).unwrap().id;
    let b_id = heap.class(b).unwrap().id;
    assert_ne!(a_id, b_id);
    let a_version = heap.class(a).unwrap().version;
    let b_version = heap.class(b).unwrap().version;
    let c_version = heap.class(c).unwrap().version;
    heap.set_attr(a, "x", small(1)).unwrap();
    assert!(heap.class(a).unwrap().version > a_version);
    assert!(heap.class(b).unwrap().version > b_version);
    assert_eq!(heap.class(c).unwrap().version, c_version);
    assert_eq!(heap.class_lookup(b, "x").unwrap(), Value::small_int(1));
    assert!(heap.collect(&vec![b, c]).unwrap().moved > 0);
    assert_eq!(heap.class(a).unwrap().id, a_id);
    assert_eq!(heap.class(b).unwrap().id, b_id);
    heap.set_attr(a, "x", small(2)).unwrap();
    assert_eq!(heap.class_lookup(b, "x").unwrap(), Value::small_int(2));
}

#[test]
fn exhausted_type_ids_do_not_wrap() {
    let mut heap = Heap::new();
    heap.exhaust_types();
    let namespace = heap.namespace("C", Vec::new()).unwrap();
    assert!(heap.finish_class(namespace).is_err());
    assert!(matches!(heap.get(namespace), Ok(Object::Namespace(_))));
    assert_eq!(heap.collect(&vec![]).unwrap().survivors, 0);
}

#[test]
fn class_dependency_links_are_weak_and_pruned_by_collection() {
    let mut heap = Heap::new();
    let base = class(&mut heap, "Base", Vec::new());
    let child = class(&mut heap, "Child", vec![base]);
    assert_eq!(heap.class(base).unwrap().dependents, vec![child]);
    assert_eq!(heap.collect(&vec![base]).unwrap().reclaimed, 3);
    assert!(heap.class(base).unwrap().dependents.is_empty());
    heap.set_attr(base, "x", small(1)).unwrap();
}

#[test]
fn class_namespace_and_instance_write_barriers_retain_young_values() {
    let mut heap = Heap::new();
    let object = object_class(&mut heap);
    let namespace = heap.namespace("C", vec![object]).unwrap();
    heap.collect_young(&vec![object, namespace]).unwrap();
    let namespace_value = heap
        .allocate(Object::Str("namespace".to_string()))
        .unwrap();
    heap.namespace_set(namespace, "pending", namespace_value)
        .unwrap();
    assert_remembered_set_complete(&heap);
    heap.collect_young(&vec![object, namespace]).unwrap();
    assert!(heap.get(namespace_value).is_ok());

    heap.finish_class(namespace).unwrap();
    let instance = heap.instance(namespace).unwrap();
    heap.collect_young(&vec![object, namespace, instance])
        .unwrap();
    let class_value = heap.allocate(Object::List(vec![])).unwrap();
    let instance_value = heap.allocate(Object::List(vec![])).unwrap();
    heap.set_attr(namespace, "shared", class_value).unwrap();
    heap.set_attr(instance, "value", instance_value).unwrap();
    assert_remembered_set_complete(&heap);
    let minor = heap
        .collect_young(&vec![object, namespace, instance])
        .unwrap();
    assert_eq!(minor.promoted, 2);
    assert!(heap.get(class_value).is_ok());
    assert!(heap.get(instance_value).is_ok());
}

fn type_class(heap: &mut Heap, object: Value) -> Value {
    let mut method = |builtin| heap.allocate(Object::Builtin(builtin)).unwrap();
    let new = method(Builtin::TypeNew);
    let get = method(Builtin::TypeGetAttribute);
    let set = method(Builtin::TypeSetAttr);
    let delete = method(Builtin::TypeDelAttr);
    heap.root_type_class(object, new, get, set, delete).unwrap()
}

#[test]
fn the_class_of_classes_is_its_own_metaclass() {
    let mut heap = Heap::new();
    let object = object_class(&mut heap);
    let meta = type_class(&mut heap, object);
    assert!(heap.class(object).unwrap().root);
    assert_eq!(heap.class(meta).unwrap().metaclass, meta);
    assert_eq!(heap.class(object).unwrap().metaclass, meta);
    assert_eq!(heap.class(meta).unwrap().mro, vec![object]);
    let module = heap.class_lookup(meta, "__module__").unwrap().unwrap();
    assert!(matches!(heap.get(module), Ok(Object::Str(s)) if s == "builtins"));
    assert_eq!(
        heap.set_attr(object, "x", small(1)).unwrap_err().message,
        "cannot modify immutable object type"
    );
    let whole = heap.builtin_class("int", vec![object], meta).unwrap();
    assert_eq!(heap.class(whole).unwrap().metaclass, meta);
    assert!(heap.class_is_subclass(whole, object).unwrap());
    assert!(!heap.class_is_subclass(object, whole).unwrap());
    assert!(heap.builtin_class("bad", vec![small(1)], meta).is_err());
    assert_eq!(heap.select_metaclass(None, &vec![whole], meta).unwrap(), meta);
    assert!(!heap.has_custom_metaclass_hook(meta, meta, "__call__").unwrap());
}

#[test]
fn diamonds_are_linearized_and_conflicts_refused() {
    let mut heap = Heap::new();
    let a = class(&mut heap, "A", vec![]);
    let b = class(&mut heap, "B", vec![a]);
    let c = class(&mut heap, "C", vec![a]);
    let d = class(&mut heap, "D", vec![b, c]);
    assert_eq!(heap.class(d).unwrap().mro, vec![b, c, a]);
    heap.set_attr(a, "x", small(1)).unwrap();
    heap.set_attr(c, "x", small(2)).unwrap();
    assert_eq!(heap.class_lookup(d, "x").unwrap(), Some(small(2)));
    let bad = heap.namespace("Bad", vec![a, b]).unwrap();
    assert_eq!(heap.finish_class(bad).unwrap_err().kind, "TypeError");
}

#[test]
fn attributes_read_back_and_disappear() {
    let mut heap = Heap::new();
    let owner = class(&mut heap, "C", vec![]);
    let instance = heap.instance(owner).unwrap();
    heap.set_attr(owner, "x", small(1)).unwrap();
    assert_eq!(heap.attr(instance, "x").unwrap(), small(1));
    heap.set_attr(instance, "x", small(2)).unwrap();
    assert_eq!(heap.attr(instance, "x").unwrap(), small(2));
    assert_eq!(heap.attr(owner, "x").unwrap(), small(1));
    heap.del_attr(instance, "x").unwrap();
    assert_eq!(heap.attr(instance, "x").unwrap(), small(1));
    heap.del_attr(owner, "x").unwrap();
    assert_eq!(heap.attr(instance, "x").unwrap_err().kind, "AttributeError");
    assert_eq!(heap.del_attr(owner, "x").unwrap_err().kind, "AttributeError");
}

#[test]
fn changing_a_class_outdates_cached_slots() {
    let mut heap = Heap::new();
    let owner = class(&mut heap, "C", vec![]);
    let instance = heap.instance(owner).unwrap();
    heap.set_attr(instance, "x", small(3)).unwrap();
    let (held, shape, slot, epoch) = heap.instance_slot_cache(instance, "x").unwrap();
    assert_eq!(held, owner);
    assert_eq!(
        heap.cached_instance_slot(instance, owner, shape, slot, epoch),
        Some(small(3))
    );
    heap.set_attr(owner, "y", small(4)).unwrap();
    assert_eq!(
        heap.cached_instance_slot(instance, owner, shape, slot, epoch),
        None
    );
}

#[test]
fn namespaces_stand_over_mappings() {
    let mut heap = Heap::new();
    let meta = Value::unbound();
    let plain = heap.namespace("M.C", vec![]).unwrap();
    heap.namespace_set(plain, "x", small(1)).unwrap();
    assert_eq!(heap.namespace_get(plain, "x").unwrap(), Some(small(1)));
    assert_eq!(heap.namespace_backing_mapping(plain).unwrap(), None);
    let mapping = heap.namespace_mapping(plain).unwrap();
    assert_eq!(heap.dict_get_str(mapping, "x").unwrap(), Some(small(1)));
    assert_eq!(heap.namespace_backing_mapping(plain).unwrap(), Some(mapping));
    heap.namespace_set(plain, "y", small(2)).unwrap();
    assert_eq!(heap.dict_get_str(mapping, "y").unwrap(), Some(small(2)));
    heap.namespace_delete(plain, "x").unwrap();
    assert_eq!(heap.namespace_get(plain, "x").unwrap(), None);
    heap.finish_class(plain).unwrap();
    assert_eq!(heap.class_lookup(plain, "y").unwrap(), Some(small(2)));

    let source = heap
        .allocate(Object::Dict(tonic_runtime::dict::Dict::new()))
        .unwrap();
    heap.dict_set_str(source, "z", small(5)).unwrap();
    let made = heap
        .namespace_from_type_mapping("T", vec![], meta, source)
        .unwrap();
    heap.finish_class(made).unwrap();
    assert_eq!(heap.class_lookup(made, "z").unwrap(), Some(small(5)));
    assert!(heap.class_lookup(made, "__module__").unwrap().is_some());
    assert_eq!(heap.dict_len(source).unwrap(), 1);
    assert_eq!(
        heap.namespace_from_type_mapping("T", vec![], meta, plain)
            .unwrap_err()
            .message,
        "type namespace must be a dict"
    );
    let list = heap.allocate(Object::List(vec![])).unwrap();
    assert_eq!(
        heap.namespace_from_mapping("T", vec![], meta, list)
            .unwrap_err()
            .message,
        "metaclass __prepare__ must return a mapping"
    );
}

#[test]
fn a_mapping_lists_the_names_of_its_namespace_in_order() {
    let mut heap = Heap::new();
    let plain = heap.namespace("C", vec![]).unwrap();
    for (name, n) in [("b", 1), ("a", 2), ("c", 3), ("b", 4)] {
        heap.namespace_set(plain, name, small(n)).unwrap();
    }
    let mapping = heap.namespace_mapping(plain).unwrap();
    let entries = match heap.get(mapping) {
        Ok(Object::Dict(dict)) => dict.entries().clone(),
        _ => panic!("expected a dictionary"),
    };
    let names: Vec<String> = entries
        .iter()
        .map(|(key, _)| match heap.get(*key) {
            Ok(Object::Str(name)) => name.clone(),
            _ => panic!("expected a string"),
        })
        .collect();
    assert_eq!(
        names,
        vec!["__module__", "__qualname__", "__doc__", "b", "a", "c"]
    );
    let values: Vec<Value> = entries[3..].iter().map(|(_, value)| *value).collect();
    assert_eq!(values, vec![small(4), small(2), small(3)]);
}

#[test]
fn instances_share_layouts_until_one_gives_up_a_name() {
    let mut heap = Heap::new();
    let owner = class(&mut heap, "C", vec![]);
    let a = heap.instance(owner).unwrap();
    let b = heap.instance(owner).unwrap();
    for (name, n) in [("x", 1), ("y", 2), ("x", 3)] {
        heap.set_attr(a, name, small(n)).unwrap();
        heap.set_attr(b, name, small(-n)).unwrap();
    }
    let shape = |heap: &Heap, value: Value| match heap.get(value) {
        Ok(Object::Instance { attributes: Attributes::Slots { shape, .. }, .. }) => Some(*shape),
        _ => None,
    };
    assert!(shape(&heap, a).is_some());
    assert_eq!(shape(&heap, a), shape(&heap, b));
    assert_eq!(heap.shapes().len(), 3);
    heap.del_attr(a, "x").unwrap();
    assert_eq!(shape(&heap, a), None);
    assert!(shape(&heap, b).is_some());
    assert_eq!(heap.shapes().len(), 3);
    assert_eq!(heap.attr(a, "y").unwrap(), small(2));
    assert_eq!(heap.attr(b, "x").unwrap(), small(-3));
}
