use tonic_runtime::arithmetic::Computed;
use tonic_runtime::buffer::Buffer;
use tonic_runtime::diagnostic::Diagnostic;
use tonic_runtime::finalization::{release_references, release_removed};
use tonic_runtime::foreign::{ForeignSpec, TonicForeignVTable, TracedHandles, FOREIGN_OWNED};
use tonic_runtime::handles::{Handle, HandleTable, TokenSource};
use tonic_runtime::heap::Heap;
use tonic_runtime::native::{fastmath_add, Context, Read, ValueKind};
use tonic_runtime::object::Object;
use tonic_runtime::shapes::Attributes;
use tonic_runtime::value::Value;

fn context() -> Context {
    Context::new(Heap::new(), HandleTable::new(), TokenSource::starting_at(1))
}

fn bits(values: &[f64]) -> Vec<u64> {
    values.iter().map(|value| value.to_bits()).collect()
}

#[test]
fn values_cross_the_boundary_and_back() {
    let mut context = context();
    let n = context.from_i64(-3).unwrap();
    assert_eq!(context.to_i64(n).unwrap(), -3);
    let flag = context.from_bool(true).unwrap();
    assert!(context.to_bool(flag).unwrap());
    let word = context.from_str("tonic").unwrap();
    assert_eq!(context.as_str(word).unwrap(), "tonic");
    let x = context.from_f64_bits(0.5f64.to_bits()).unwrap();
    assert_eq!(context.to_f64_bits(x).unwrap(), 0.5f64.to_bits());
    let big = context
        .int_from_decimal("123456789012345678901234567890")
        .unwrap();
    assert_eq!(
        context.int_decimal(big).unwrap(),
        "123456789012345678901234567890"
    );
    assert_eq!(context.to_i64(big).unwrap_err().kind, "OverflowError");
    assert_eq!(context.int_from_decimal("12x").unwrap_err().kind, "ValueError");
    assert_eq!(context.to_i64(word).unwrap_err().kind, "TypeError");
    assert_eq!(context.to_bool(n).unwrap_err().kind, "TypeError");
    assert_eq!(context.resolve(Handle::from_raw(1)).unwrap_err().kind, "HandleError");
    assert_eq!(context.value_kind(big).unwrap(), ValueKind::Int);
    assert_eq!(context.value_kind(word).unwrap(), ValueKind::Str);
    let none = context.none().unwrap();
    assert_eq!(context.value_kind(none).unwrap(), ValueKind::Nothing);
    assert!(!context.is_identical(n, word).unwrap());
    let again = context.from_i64(-3).unwrap();
    assert!(context.is_identical(n, again).unwrap());
}

#[test]
fn containers_are_built_and_read() {
    let mut context = context();
    let list = context.new_list().unwrap();
    let one = context.from_i64(1).unwrap();
    let two = context.from_i64(2).unwrap();
    context.list_append(list, one).unwrap();
    context.list_append(list, two).unwrap();
    assert_eq!(context.sequence_len(list).unwrap(), 2);
    let second = context.sequence_get(list, 1).unwrap();
    assert_eq!(context.to_i64(second).unwrap(), 2);
    assert_eq!(context.sequence_get(list, 2).unwrap_err().kind, "IndexError");
    let tuple = context.new_tuple(&vec![one, list]).unwrap();
    assert_eq!(context.sequence_len(tuple).unwrap(), 2);
    assert_eq!(context.value_kind(tuple).unwrap(), ValueKind::Tuple);
    let dict = context.new_dict().unwrap();
    context.dict_set(dict, one, list).unwrap();
    assert_eq!(context.dict_len(dict).unwrap(), 1);
    let (key, value) = context.dict_entry(dict, 0).unwrap();
    assert_eq!(context.to_i64(key).unwrap(), 1);
    assert!(context.is_identical(value, list).unwrap());
    assert_eq!(context.sequence_len(dict).unwrap_err().kind, "TypeError");
}

#[test]
fn native_addition() {
    let mut context = context();
    let a = context.from_i64(40).unwrap();
    let b = context.from_i64(2).unwrap();
    let sum = fastmath_add(&mut context, a, b).unwrap();
    assert_eq!(context.to_i64(sum).unwrap(), 42);
    let most = context.from_i64(i64::MAX).unwrap();
    assert_eq!(
        fastmath_add(&mut context, most, b).unwrap_err().message,
        "fastmath.add accepts an i64 result"
    );
    assert!(matches!(context.add(most, b).unwrap(), Computed::Value(_)));
}

#[test]
fn persistent_handles_outlive_a_context() {
    let mut context = context();
    let word = context.from_str("kept").unwrap();
    let kept = context.persist(word).unwrap();
    let (heap, handles, tokens) = context.close();
    let mut context = Context::new(heap, handles, tokens);
    assert!(context.resolve(word).is_err());
    let borrowed = context.borrow_persistent(&kept).unwrap();
    assert_eq!(context.as_str(borrowed).unwrap(), "kept");
    context.release_persistent(&kept).unwrap();
    assert!(context.borrow_persistent(&kept).is_err());
}

#[test]
fn buffers_are_laid_out_in_rows() {
    let buffer = Buffer::from_bits(&bits(&[1.0; 24]), &vec![2, 3, 4], false).unwrap();
    assert_eq!(buffer.strides(), &vec![96, 32, 8]);
    assert_eq!(buffer.len(), 24);
    let wrong = Buffer::from_bits(&bits(&[1.0; 5]), &vec![2, 3], false).unwrap_err();
    assert_eq!(wrong.kind, "BufferError");
    assert_eq!(wrong.message, "buffer shape describes 6 elements, got 5");
    assert!(Buffer::from_bits(&vec![], &vec![usize::MAX, 2], false).is_err());
    let mut context = context();
    let handle = context
        .from_f64_buffer(&bits(&[1.0, 2.0]), &vec![2], true)
        .unwrap();
    let reader = context.f64_buffer(handle).unwrap();
    assert_eq!(reader.as_slice(), &bits(&[1.0, 2.0]));
    assert_eq!(reader.shape(), &vec![2]);
    assert_eq!(reader.strides(), &vec![8]);
    assert!(reader.is_writable());
}

#[test]
fn buffers_come_from_sequences() {
    let mut context = context();
    let one = context.from_i64(1).unwrap();
    let half = context.from_f64_bits(0.5f64.to_bits()).unwrap();
    let list = context.new_tuple(&vec![one, half]).unwrap();
    let buffer = context.f64_buffer_from_sequence(list).unwrap();
    assert_eq!(
        context.sum_f64_values(buffer).unwrap(),
        bits(&[1.0, 0.5])
    );
    assert_eq!(context.sum_f64_values(list).unwrap(), bits(&[1.0, 0.5]));
    let word = context.from_str("x").unwrap();
    let bad = context.new_tuple(&vec![one, word]).unwrap();
    assert_eq!(
        context.f64_buffer_from_sequence(bad).unwrap_err().kind,
        "TypeError"
    );
}

#[test]
fn foreign_payloads_are_typed() {
    let mut context = context();
    let spec = ForeignSpec::validate(&TonicForeignVTable {
        struct_size: 40,
        abi_version: 1,
        adapter_id: 9,
        flags: 0,
        trace: None,
        destroy: None,
    })
    .unwrap();
    let nothing = TracedHandles {
        owned: vec![],
        borrowed: vec![],
    };
    let handle = context.create_foreign(77, spec, nothing).unwrap();
    assert_eq!(context.foreign_payload(handle, 9).unwrap(), 77);
    assert!(context.foreign_payload(handle, 8).is_err());
    assert_eq!(context.value_kind(handle).unwrap(), ValueKind::Foreign);
    let reference = context.create_foreign_reference(handle).unwrap();
    let borrowed = context.borrow_foreign_reference(reference).unwrap();
    assert!(context.is_identical(borrowed, handle).unwrap());
    context.release_foreign_reference(reference).unwrap();
    assert!(context.borrow_foreign_reference(reference).is_err());
}

#[test]
fn only_a_native_call_can_call_back() {
    let mut heap = Heap::new();
    let getter = heap.allocate(Object::Str("getter".to_string())).unwrap();
    let setter = heap.allocate(Object::Str("setter".to_string())).unwrap();
    let property = heap
        .allocate(Object::Property {
            getter: Some(getter),
            setter: Some(setter),
            deleter: None,
        })
        .unwrap();
    let class = heap.namespace("C", vec![]).unwrap();
    heap.namespace_set(class, "p", property).unwrap();
    heap.finish_class(class).unwrap();
    let instance = heap
        .allocate(Object::Instance {
            class,
            attributes: Attributes::new(),
            native: None,
        })
        .unwrap();
    let message = "Tonic callback requires an active native call context";
    let mut idle = Context::new(heap, HandleTable::new(), TokenSource::starting_at(1));
    let owner = idle.local(instance).unwrap();
    let two = idle.from_i64(2).unwrap();
    let dict = idle.new_dict().unwrap();
    assert_eq!(idle.call(owner, &vec![two]).unwrap_err().message, message);
    assert_eq!(
        idle.call_with_keywords(owner, &vec![], dict).unwrap_err().message,
        message
    );
    assert_eq!(idle.get_attr(owner, "p").unwrap_err().message, message);
    assert_eq!(idle.set_attr(owner, "p", two).unwrap_err().message, message);
    assert_eq!(idle.get_attr(owner, "q").unwrap_err().kind, "AttributeError");
    assert!(idle.set_attr(owner, "q", two).unwrap().is_none());
    assert!(matches!(idle.get_attr(owner, "q"), Ok(Read::Handle(_))));
    assert_eq!(
        idle.call(Handle::from_raw(77), &vec![]).unwrap_err().kind,
        "HandleError"
    );

    let (heap, handles, tokens) = idle.close();
    let mut called = Context::for_native_call(heap, handles, tokens);
    let owner = called.local(instance).unwrap();
    let two = called.from_i64(2).unwrap();
    let request = called.call(owner, &vec![two]).unwrap();
    assert_eq!(request.callable, instance);
    assert!(matches!(
        called.get_attr(owner, "p"),
        Ok(Read::Call { callable, arguments })
            if callable == getter && arguments == vec![instance]
    ));
    let request = called.set_attr(owner, "p", two).unwrap().unwrap();
    assert_eq!(request.callable, setter);
}

#[test]
fn failed_traces_count_and_payloads_are_owed_once() {
    let mut context = context();
    let spec = ForeignSpec::validate(&TonicForeignVTable {
        struct_size: 40,
        abi_version: 1,
        adapter_id: 9,
        flags: FOREIGN_OWNED,
        trace: Some(11),
        destroy: Some(22),
    })
    .unwrap();
    let nothing = || TracedHandles {
        owned: vec![],
        borrowed: vec![],
    };
    let first = context.create_foreign(77, spec, nothing()).unwrap();
    context.create_foreign(78, spec, nothing()).unwrap();
    let wrapper = context.resolve(first).unwrap();
    let before = context.heap.counters().foreign_trace_calls;
    let failed = Err(Diagnostic::new("ForeignError", "no"));
    let refused = context.heap.refresh_foreign(wrapper, &context.handles, failed);
    assert_eq!(refused.unwrap_err().message, "no");
    assert_eq!(context.heap.counters().foreign_trace_calls, before + 1);
    let removed = context
        .heap
        .refresh_foreign(wrapper, &context.handles, Ok(nothing()))
        .unwrap();
    assert!(removed.is_empty());
    assert_eq!(context.heap.counters().foreign_trace_calls, before + 2);
    context.heap.collect(&vec![wrapper]).unwrap();
    let mut owed = context.heap.shut_down();
    let payloads: Vec<usize> = owed.iter().map(|pending| pending.payload).collect();
    assert_eq!(payloads, vec![78, 77]);
    for pending in &mut owed {
        let payload = pending.payload;
        assert_eq!(context.heap.finalize(pending), Some((22, payload)));
        assert_eq!(context.heap.finalize(pending), None);
    }
    for mut pending in context.heap.shut_down() {
        assert_eq!(context.heap.finalize(&mut pending), None);
    }
}

#[test]
fn a_closed_context_gives_its_slots_back_in_order() {
    let mut context = context();
    let first = context.from_i64(1).unwrap();
    let kept = context.persist(first).unwrap();
    let second = context.from_i64(2).unwrap();
    let slots = [first.raw() as u32, second.raw() as u32];
    let (heap, handles, tokens) = context.close();
    let mut context = Context::new(heap, handles, tokens);
    let third = context.from_i64(3).unwrap();
    let fourth = context.from_i64(4).unwrap();
    assert_eq!([fourth.raw() as u32, third.raw() as u32], slots);
    let borrowed = context.borrow_persistent(&kept).unwrap();
    assert_eq!(context.to_i64(borrowed).unwrap(), 1);
}

#[test]
fn references_are_released_up_to_a_stale_one() {
    let mut tokens = TokenSource::starting_at(1);
    let mut table = HandleTable::new();
    let n = Value::small_int(5).unwrap();
    let a = table.insert_foreign_reference(&mut tokens, n).unwrap();
    let b = table.insert_foreign_reference(&mut tokens, n).unwrap();
    let c = table.insert_foreign_reference(&mut tokens, n).unwrap();
    assert_eq!(
        release_removed(&mut table, &vec![a, a, b]).unwrap_err().kind,
        "HandleError"
    );
    assert_eq!(table.active(), 2);
    assert!(release_removed(&mut table, &vec![b]).is_ok());
    release_references(&mut table, &vec![a, c, b]);
    assert_eq!(table.active(), 0);
}
