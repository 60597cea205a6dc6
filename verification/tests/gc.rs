use tonic_runtime::dict::Dict;
use tonic_runtime::heap::Heap;
use tonic_runtime::object::Object;
use tonic_runtime::value::Value;

fn text(heap: &mut Heap, text: &str) -> Value {
    heap.allocate(Object::Str(text.to_string())).unwrap()
}

/// Every old object with a young edge is remembered.
fn assert_remembered_set_complete(heap: &Heap) {
    for owner in heap.handles() {
        if heap.is_young(owner) || heap.is_remembered(owner) {
            continue;
        }
        let mut edges = Vec::new();
        heap.get(owner).unwrap().trace(&mut edges);
        for edge in edges {
            assert!(!heap.is_young(edge));
        }
    }
}

#[test]
fn cycle_collection_and_stale_generation() {
    let mut heap = Heap::new();
    let a = heap.allocate(Object::List(vec![])).unwrap();
    heap.append_list(a, a).unwrap();
    let b = text(&mut heap, "kept");
    let stats = heap.collect(&vec![b]).unwrap();
    assert_eq!(stats.reclaimed, 1);
    assert_eq!(stats.moved, 1);
    assert!(matches!(heap.get(b), Ok(Object::Str(s)) if s == "kept"));
    let c = text(&mut heap, "new");
    assert_eq!(a.heap_index(), c.heap_index());
    assert_ne!(a, c);
    assert!(heap.get(a).is_err());
}

#[test]
fn cells_functions_and_defaults_trace() {
    let mut heap = Heap::new();
    let dead = text(&mut heap, "dead");
    let value = text(&mut heap, "value");
    let cell = heap.allocate(Object::Cell(value)).unwrap();
    let default = heap.allocate(Object::List(vec![value])).unwrap();
    let f = heap
        .allocate(Object::Function {
            code: 1,
            execution: 1,
            captures: vec![cell],
            defaults: vec![default],
        })
        .unwrap();
    let stats = heap.collect(&vec![f]).unwrap();
    assert_eq!(stats.reclaimed, 1);
    assert!(heap.get(dead).is_err());
    assert_eq!(heap.cell(cell).unwrap(), value);
    assert_eq!(stats.survivors, 4);
}

#[test]
fn invalid_roots_do_not_partially_collect() {
    let mut heap = Heap::new();
    let value = text(&mut heap, "valid");
    assert!(heap.collect(&vec![value, Value::heap(100, 1)]).is_err());
    assert!(heap.get(value).is_ok());
    assert_eq!(heap.live_objects(), 1);
}

#[test]
fn generation_exhaustion_retires_slot() {
    let mut heap = Heap::new();
    let old = text(&mut heap, "old");
    let last = heap.exhaust_generation(old).unwrap();
    assert_eq!(last.generation(), Value::MAX_GENERATION);
    heap.collect(&vec![]).unwrap();
    let new = text(&mut heap, "new");
    assert_ne!(old.heap_index(), new.heap_index());
}

#[test]
fn mutation_after_collection_keeps_new_edges() {
    let mut heap = Heap::new();
    let list = heap.allocate(Object::List(vec![])).unwrap();
    heap.collect(&vec![list]).unwrap();
    let young = text(&mut heap, "young");
    heap.append_list(list, young).unwrap();
    heap.collect(&vec![list]).unwrap();
    assert!(heap.get(young).is_ok());
}

#[test]
fn minor_collects_nursery_promotes_survivors_and_major_reclaims_old() {
    let mut heap = Heap::new();
    let live = heap.allocate(Object::List(vec![])).unwrap();
    let dead = text(&mut heap, "dead");
    let minor = heap.collect_young(&vec![live]).unwrap();
    assert!(!minor.major);
    assert_eq!(minor.young_reclaimed, 1);
    assert_eq!(minor.promoted, 1);
    assert!(heap.get(live).is_ok());
    assert!(heap.get(dead).is_err());

    let young_dead = text(&mut heap, "young-dead");
    let minor = heap.collect_young(&vec![]).unwrap();
    assert_eq!(minor.young_reclaimed, 1);
    assert!(
        heap.get(live).is_ok(),
        "minor must not trace or reclaim old space"
    );
    assert!(heap.get(young_dead).is_err());

    let major = heap.collect(&vec![]).unwrap();
    assert!(major.major);
    assert_eq!(major.reclaimed, 1);
    assert!(heap.get(live).is_err());
}

#[test]
fn remembered_set_keeps_old_to_young_mutations_alive() {
    let mut heap = Heap::new();
    let list = heap.allocate(Object::List(vec![Value::none()])).unwrap();
    let cell = heap.allocate(Object::Cell(Value::none())).unwrap();
    let dict = heap.allocate(Object::Dict(Dict::new())).unwrap();
    let module = heap.allocate(Object::Module(Vec::new())).unwrap();
    heap.collect_young(&vec![list, cell, dict, module]).unwrap();

    let list_value = text(&mut heap, "list");
    let appended_value = text(&mut heap, "appended");
    let cell_value = text(&mut heap, "cell");
    let dict_key = text(&mut heap, "key");
    let dict_value = text(&mut heap, "value");
    let module_value = text(&mut heap, "module");
    heap.set_item(list, Value::small_int(0).unwrap(), list_value)
        .unwrap();
    heap.append_list(list, appended_value).unwrap();
    heap.store_cell(cell, cell_value).unwrap();
    heap.dict_set(dict, dict_key, dict_value).unwrap();
    heap.add_module_member(module, "member", module_value)
        .unwrap();
    assert_remembered_set_complete(&heap);

    let minor = heap.collect_young(&vec![list, cell, dict, module]).unwrap();
    assert_eq!(minor.promoted, 6);
    for value in [
        list_value,
        appended_value,
        cell_value,
        dict_key,
        dict_value,
        module_value,
    ] {
        assert!(heap.get(value).is_ok());
    }
    assert_eq!(heap.cell(cell).unwrap(), cell_value);
    assert_eq!(heap.dict_get(dict, dict_key).unwrap(), Some(dict_value));
    assert!(matches!(
        heap.get(list),
        Ok(Object::List(values)) if values == &vec![list_value, appended_value]
    ));
    assert!(matches!(
        heap.get(module),
        Ok(Object::Module(members)) if members == &vec![("member".to_string(), module_value)]
    ));
}

#[test]
fn deterministic_mutation_graph_matches_reachability_model() {
    let mut heap = Heap::new();
    let mut values: Vec<Value> = Vec::new();
    let mut edges: Vec<Vec<usize>> = Vec::new();
    let mut alive: Vec<bool> = Vec::new();
    let mut roots: Vec<usize> = Vec::new();
    let mut seed = 17u64;
    let mut random = |bound: usize| {
        seed = seed.wrapping_mul(6364136223846793005).wrapping_add(1);
        (seed >> 32) as usize % bound
    };
    for _ in 0..200 {
        for _ in 0..16 {
            let id = values.len();
            values.push(heap.allocate(Object::List(vec![])).unwrap());
            edges.push(Vec::new());
            alive.push(true);
            if roots.len() < 8 {
                roots.push(id);
            } else {
                let from = roots[random(roots.len())];
                if random(3) == 0 {
                    heap.append_list(values[from], values[id]).unwrap();
                    edges[from].push(id);
                }
                let to = roots[random(roots.len())];
                if random(3) == 0 {
                    heap.append_list(values[id], values[to]).unwrap();
                    edges[id].push(to);
                }
                roots[random(8)] = id;
            }
            heap.append_list(values[id], values[id]).unwrap();
            edges[id].push(id);
        }
        let mut expected = vec![false; values.len()];
        let mut work = roots.clone();
        while let Some(id) = work.pop() {
            if !expected[id] {
                expected[id] = true;
                work.extend_from_slice(&edges[id]);
            }
        }
        let held: Vec<Value> = roots.iter().map(|id| values[*id]).collect();
        let stats = heap.collect(&held).unwrap();
        assert_eq!(stats.survivors, expected.iter().filter(|v| **v).count());
        for id in 0..values.len() {
            assert_eq!(heap.get(values[id]).is_ok(), expected[id]);
            if expected[id] {
                assert!(alive[id], "collected object resurrected through slot reuse");
                let Object::List(items) = heap.get(values[id]).unwrap() else {
                    unreachable!()
                };
                assert_eq!(
                    items,
                    &edges[id].iter().map(|i| values[*i]).collect::<Vec<_>>()
                );
            }
        }
        alive = expected;
    }
    assert_eq!(heap.collect(&vec![]).unwrap().survivors, 0);
}

#[test]
fn exceptions_keep_their_cause_context_and_trace() {
    let mut heap = Heap::new();
    let base = heap.namespace("E", vec![]).unwrap();
    heap.finish_class(base).unwrap();
    let mut raise = |text: &str| {
        heap.allocate(Object::Exception {
            class: base,
            message: text.to_string(),
            arguments: vec![],
            attributes: tonic_runtime::shapes::Attributes::new(),
            cause: None,
            context: None,
            suppress_context: false,
            traceback: None,
        })
        .unwrap()
    };
    let first = raise("first");
    let second = raise("second");
    let third = raise("third");
    heap.collect_young(&vec![first]).unwrap();
    assert!(heap.get(second).is_err());
    let later = heap.allocate(Object::Str("later".to_string())).unwrap();
    heap.set_exception_context(first, later).unwrap();
    assert_remembered_set_complete(&heap);
    heap.collect_young(&vec![]).unwrap();
    assert!(heap.get(later).is_ok());
    heap.set_exception_cause(first, Some(later), true).unwrap();
    assert!(matches!(
        heap.get(first),
        Ok(Object::Exception { cause, suppress_context: true, .. }) if *cause == Some(later)
    ));
    assert!(heap.get(third).is_err());
    assert_eq!(heap.exception_traceback(first).unwrap(), None);
    assert!(heap.exception_traceback(later).is_err());
}

#[test]
fn namespaces_and_mappings_stay_remembered() {
    let mut heap = Heap::new();
    let namespace = heap.namespace("C", vec![]).unwrap();
    heap.collect_young(&vec![namespace]).unwrap();
    let text = heap.allocate(Object::Str("young".to_string())).unwrap();
    heap.namespace_set(namespace, "x", text).unwrap();
    assert_remembered_set_complete(&heap);
    let mapping = heap.namespace_mapping(namespace).unwrap();
    assert_remembered_set_complete(&heap);
    heap.collect_young(&vec![]).unwrap();
    assert_eq!(heap.dict_get_str(mapping, "x").unwrap(), Some(text));
    let later = heap.allocate(Object::Str("later".to_string())).unwrap();
    heap.dict_set_str(mapping, "y", later).unwrap();
    assert_remembered_set_complete(&heap);
    heap.namespace_delete(namespace, "x").unwrap();
    assert_remembered_set_complete(&heap);
    heap.collect_young(&vec![]).unwrap();
    assert!(heap.get(later).is_ok());
}

#[test]
fn freed_slots_are_given_out_again_with_a_later_generation() {
    let mut heap = Heap::new();
    let dead: Vec<Value> = (0..3).map(|i| text(&mut heap, &format!("dead{i}"))).collect();
    let kept = text(&mut heap, "kept");
    heap.collect(&vec![kept]).unwrap();
    for old in dead.iter().rev() {
        let new = text(&mut heap, "new");
        assert_eq!(new.heap_index(), old.heap_index());
        assert_eq!(new.generation(), old.generation() + 1);
        assert!(heap.get(*old).is_err());
    }
    let next = text(&mut heap, "next");
    assert_eq!(next.heap_index(), Some(4));
    assert_eq!(next.generation(), kept.generation());
    assert!(matches!(heap.get(kept), Ok(Object::Str(s)) if s == "kept"));
}

#[test]
fn bytes_are_those_of_the_objects() {
    let mut heap = Heap::new();
    assert_eq!(heap.bytes(), 0);
    let mut word = String::with_capacity(100);
    word.push('x');
    let string = Object::Str(word);
    let weight = string.estimated_bytes();
    assert_eq!(weight, std::mem::size_of::<Object>() + 100);
    let kept = heap.allocate(string).unwrap();
    assert_eq!(heap.bytes(), weight);
    let mut dict = Dict::new();
    let empty = dict.room();
    assert_eq!(empty.bytes(), 0);
    assert_eq!(dict.estimated_bytes(), 0);
    dict = Dict::new();
    heap.allocate(Object::Dict(dict)).unwrap();
    let most = heap.bytes();
    assert_eq!(most, weight + std::mem::size_of::<Object>());
    heap.collect(&vec![kept]).unwrap();
    assert_eq!(heap.bytes(), weight);
    assert_eq!(heap.peak_bytes(), most);
    heap.collect(&vec![]).unwrap();
    assert_eq!(heap.bytes(), 0);
    assert_eq!(heap.peak_bytes(), most);
}

#[test]
fn room_covers_what_is_held() {
    let mut heap = Heap::new();
    let owner = heap.allocate(Object::Dict(Dict::new())).unwrap();
    for i in 0..9 {
        let n = Value::small_int(i).unwrap();
        heap.dict_set(owner, n, n).unwrap();
    }
    let dict = match heap.get(owner) {
        Ok(Object::Dict(dict)) => dict,
        _ => panic!("expected a dictionary"),
    };
    let room = dict.room();
    assert!(room.entries >= 9 && room.materials >= 9 && room.hashes >= 9);
    assert_eq!(dict.estimated_bytes(), room.bytes());
    assert!(room.bytes() >= 9 * std::mem::size_of::<(Value, Value)>());
    let object = heap.get(owner).unwrap();
    assert_eq!(
        object.estimated_bytes(),
        std::mem::size_of::<Object>() + room.bytes()
    );
    assert_eq!(object.room().bytes(), room.bytes());
}

/// What the live objects occupy together.
fn occupied(heap: &Heap) -> usize {
    heap.handles()
        .iter()
        .map(|value| heap.get(*value).unwrap().estimated_bytes())
        .sum()
}

#[test]
fn bytes_follow_objects_that_grow_and_shrink() {
    let mut heap = Heap::new();
    let list = heap.allocate(Object::List(vec![])).unwrap();
    let dict = heap.allocate(Object::Dict(Dict::new())).unwrap();
    let module = heap.allocate(Object::Module(vec![])).unwrap();
    for i in 0..40 {
        let n = Value::small_int(i).unwrap();
        heap.append_list(list, n).unwrap();
        heap.dict_set(dict, n, n).unwrap();
        heap.dict_set_str(dict, &format!("key{i}"), n).unwrap();
        heap.add_module_member(module, &format!("name{i}"), n).unwrap();
        assert_eq!(heap.bytes(), occupied(&heap));
    }
    let class = heap.namespace("C", vec![]).unwrap();
    heap.namespace_set(class, "method", list).unwrap();
    heap.namespace_set(class, "other", dict).unwrap();
    assert_eq!(heap.bytes(), occupied(&heap));
    heap.finish_class(class).unwrap();
    assert_eq!(heap.bytes(), occupied(&heap));
    let sub = heap.namespace("D", vec![class]).unwrap();
    heap.finish_class(sub).unwrap();
    let instance = heap.instance(sub).unwrap();
    heap.set_attr(instance, "x", list).unwrap();
    heap.set_attr(class, "shared", list).unwrap();
    assert_eq!(heap.bytes(), occupied(&heap));
    let most = heap.bytes();
    assert_eq!(heap.peak_bytes(), most);
    heap.clear_list(list).unwrap();
    assert!(heap.bytes() < most);
    heap.dict_clear(dict).unwrap();
    assert_eq!(heap.bytes(), occupied(&heap));
    assert_eq!(heap.peak_bytes(), most);
}
