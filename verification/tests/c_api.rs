use tonic_runtime::c_api::{
    bool_input, lookup_status, negotiate_api, number_of_kind, query_capability, require_items,
    require_out, write_text, BoundaryEnd, BoundaryError, TonicBuffer, TonicCapability,
    TonicContext, TonicExceptionKind, TonicHandle, TonicPersistentHandle, TonicRuntimeOwner,
    TonicStatus, TonicValueKind, CAP_CORE, CAP_CROSS_COLLECTOR_V1, TONIC_ABI_VERSION,
    TONIC_API_SIZE, TONIC_BUFFER_SIZE, TONIC_CAPABILITIES,
};
use tonic_runtime::buffer::{BUFFER_C_CONTIGUOUS, BUFFER_WRITABLE};
use tonic_runtime::diagnostic::Diagnostic;
use tonic_runtime::format::{render, Piece};
use tonic_runtime::handles::{HandleTable, TokenSource};
use tonic_runtime::heap::Heap;
use tonic_runtime::native::{Context, ValueKind};
use tonic_runtime::runtime_owner::{RuntimeIds, RuntimeOwner};

fn call_context() -> TonicContext {
    TonicContext::new(Context::new(
        Heap::new(),
        HandleTable::new(),
        TokenSource::starting_at(1),
    ))
}

fn end_of<T>(result: Result<T, BoundaryError>) -> BoundaryEnd {
    match result {
        Ok(_) => BoundaryEnd::Returned,
        Err(error) => BoundaryEnd::Failed(error),
    }
}

fn invalid<T>(result: Result<T, BoundaryError>) -> String {
    match result {
        Err(BoundaryError::InvalidArgument(text)) => text.to_string(),
        _ => panic!("expected an invalid argument"),
    }
}

#[test]
fn version_size_and_capability_negotiation_is_strict() {
    let api = negotiate_api(TONIC_ABI_VERSION, TONIC_API_SIZE, CAP_CORE).unwrap();
    assert_eq!(api.abi_version, 1);
    assert_eq!(api.struct_size, TONIC_API_SIZE);
    assert_eq!(negotiate_api(2, 0, 0).unwrap_err().kind, "NativeAbiError");
    assert!(negotiate_api(1, api.struct_size + 1, 0).is_err());
    assert!(negotiate_api(1, 0, 1 << 63).is_err());
}

#[test]
fn exported_api_lookup_never_returns_a_partial_table() {
    assert_eq!(
        lookup_status(true, 1, 0, TONIC_CAPABILITIES),
        TonicStatus::ok()
    );
    assert_eq!(lookup_status(true, 99, 0, 0), TonicStatus::abi_mismatch());
    assert!(negotiate_api(99, 0, 0).is_err());
    assert_eq!(
        lookup_status(false, 1, 0, 0),
        TonicStatus::invalid_argument()
    );
}

#[test]
fn boundary_contains_panics_and_records_a_guest_error() {
    let mut call = call_context();
    assert_eq!(call.enter(true), None);
    let status = call.settle(BoundaryEnd::Panicked);
    assert_eq!(status, TonicStatus::panic());
    let error = call.exception.unwrap();
    assert_eq!(error.kind, "RuntimeError");
    assert!(error.message.contains("contained"));
}

#[test]
fn exception_text_supports_length_query_without_clearing_the_error() {
    let mut call = call_context();
    call.exception = Some(Diagnostic::new("ValueError", "bad value"));
    assert_eq!(call.enter(false), None);
    let required = call.exception_message().len();
    let copies = write_text(required, false, 0);
    assert!(matches!(copies, Ok(false)));
    assert_eq!(call.settle(end_of(copies)), TonicStatus::ok());
    assert_eq!(required, 9);
    assert_eq!(call.enter(false), None);
    let copies = write_text(call.exception_message().len(), true, required);
    assert!(matches!(copies, Ok(true)));
    assert_eq!(call.settle(end_of(copies)), TonicStatus::ok());
    assert_eq!(call.exception_message(), "bad value");
    assert_eq!(call.exception.as_ref().unwrap().kind, "ValueError");
}

#[test]
fn the_text_of_a_missing_key_shows_the_key() {
    let mut call = call_context();
    assert!(call.exception_text().is_empty());
    let dict = call.context.new_dict().unwrap();
    let word = call.context.from_str("gone").unwrap();
    let half = call.context.from_f64_bits(0.5f64.to_bits()).unwrap();
    let owner = call.context.resolve(dict).unwrap();
    let key = call.context.resolve(word).unwrap();
    let error = call.context.heap.dict_delete(owner, key).unwrap_err();
    call.settle(BoundaryEnd::Failed(BoundaryError::Diagnostic(error)));
    assert_eq!(call.exception_kind(), "KeyError");
    assert_eq!(call.exception_message(), "'gone'");
    assert_eq!(render(&call.exception_text(), &vec![]), "'gone'");
    let key = call.context.resolve(half).unwrap();
    let error = call.context.heap.dict_delete(owner, key).unwrap_err();
    call.settle(BoundaryEnd::Failed(BoundaryError::Diagnostic(error)));
    assert_eq!(call.exception_text(), vec![Piece::Float(0.5f64.to_bits())]);
}

#[test]
fn capability_query_is_versioned_and_unknown_ids_are_safe() {
    let mut call = call_context();
    for capability in [
        TonicCapability::panic_guard(),
        TonicCapability::runtime_owner_v1(),
        TonicCapability::protocol_access_v1(),
        TonicCapability::cross_collector_v1(),
    ] {
        assert_eq!(call.enter(true), None);
        let version = query_capability(capability, 1);
        assert!(matches!(version, Ok(1)));
        assert_eq!(call.settle(end_of(version)), TonicStatus::ok());
    }
    assert_eq!(call.enter(true), None);
    let unknown = query_capability(TonicCapability(99), 1);
    assert_eq!(call.settle(end_of(unknown)), TonicStatus::unsupported());
    assert_eq!(call.exception.as_ref().unwrap().kind, "NativeApiError");
}

#[test]
fn negotiation_names_what_is_missing() {
    assert_eq!(
        negotiate_api(2, 0, 0).unwrap_err().message,
        "native ABI 2 is incompatible with ABI 1"
    );
    assert_eq!(
        negotiate_api(1, TONIC_API_SIZE + 1, 0).unwrap_err().message,
        "native API function table is smaller than the extension requires"
    );
    assert_eq!(
        negotiate_api(1, 0, 0xab00 | CAP_CORE).unwrap_err().message,
        "native API lacks required capability bits 0xa800"
    );
    assert_eq!(
        lookup_status(true, 1, 0, 1 << 63),
        TonicStatus::unsupported()
    );
    assert_eq!(
        negotiate_api(1, 0, CAP_CROSS_COLLECTOR_V1)
            .unwrap()
            .capabilities,
        0x7ff
    );
}

#[test]
fn statuses_and_exceptions_of_failed_operations() {
    let mut call = call_context();
    let error = BoundaryError::Diagnostic(Diagnostic::new("KeyError", "gone"));
    assert_eq!(
        call.settle(BoundaryEnd::Failed(error)),
        TonicStatus::exception()
    );
    assert_eq!(call.exception_kind(), "KeyError");
    assert_eq!(call.exception_message(), "gone");
    assert_eq!(call.settle(BoundaryEnd::Returned), TonicStatus::ok());
    assert_eq!(call.exception_kind(), "KeyError");
    assert_eq!(call.enter(true), None);
    assert_eq!(call.exception_kind(), "");
    let refused = require_out(false);
    assert_eq!(call.settle(end_of(refused)), TonicStatus::invalid_argument());
    assert_eq!(call.exception_kind(), "NativeApiError");
    assert_eq!(call.exception_message(), "null output pointer");
    call.live = false;
    assert_eq!(call.enter(true), Some(TonicStatus::invalid_argument()));
    assert_eq!(call.exception_kind(), "NativeApiError");
}

#[test]
fn outputs_inputs_and_versions_are_checked() {
    assert!(require_out(true).is_ok());
    assert!(require_items(true, 3, "null tuple items").is_ok());
    assert!(require_items(false, 0, "null tuple items").is_ok());
    assert_eq!(
        invalid(require_items(false, 1, "null tuple items")),
        "null tuple items"
    );
    assert_eq!(
        invalid(write_text(9, true, 8)),
        "exception text buffer is too small"
    );
    assert_eq!(
        invalid(write_text(9, false, 9)),
        "null exception text buffer"
    );
    assert!(matches!(write_text(0, true, 0), Ok(false)));
    assert!(matches!(bool_input(0), Ok(false)));
    assert!(matches!(bool_input(1), Ok(true)));
    assert_eq!(invalid(bool_input(2)), "bool input must be zero or one");
    assert!(matches!(
        query_capability(TonicCapability::buffer_v1(), 2),
        Err(BoundaryError::Unsupported("capability version is not supported"))
    ));
    assert!(matches!(
        query_capability(TonicCapability(0), 0),
        Err(BoundaryError::Unsupported("capability is not supported"))
    ));
}

#[test]
fn native_code_raises_by_number() {
    let mut call = call_context();
    call.raise_exception(TonicExceptionKind::overflow_error(), Some("too big"))
        .unwrap();
    assert_eq!(call.exception_kind(), "OverflowError");
    assert_eq!(call.exception_message(), "too big");
    assert_eq!(
        invalid(call.raise_exception(TonicExceptionKind(7), Some("?"))),
        "unknown exception kind"
    );
    assert_eq!(
        invalid(call.raise_exception(TonicExceptionKind::type_error(), None)),
        "exception message is not UTF-8"
    );
    assert_eq!(call.exception_message(), "too big");
}

#[test]
fn kinds_have_stable_numbers() {
    assert_eq!(number_of_kind(ValueKind::Nothing), TonicValueKind(1));
    assert_eq!(number_of_kind(ValueKind::Dict), TonicValueKind(9));
    assert_eq!(number_of_kind(ValueKind::Other), TonicValueKind(255));
}

#[test]
fn native_results_count_only_without_an_exception() {
    let mut call = call_context();
    let handle = call.context.from_i64(12).unwrap();
    let output = TonicHandle::from_internal(handle);
    assert_eq!(
        call.finish_native(Some(TonicStatus::ok()), output).unwrap(),
        handle
    );
    assert!(!call.live);
    assert_eq!(call.context.to_i64(handle).unwrap(), 12);

    let mut call = call_context();
    let bad = call.finish_native(Some(TonicStatus::ok()), TonicHandle(77));
    assert_eq!(bad.unwrap_err().kind, "HandleError");

    let mut call = call_context();
    let silent = call.finish_native(Some(TonicStatus::exception()), output);
    assert_eq!(
        silent.unwrap_err().message,
        "native extension returned failure without setting an exception"
    );

    let mut call = call_context();
    call.exception = Some(Diagnostic::new("ValueError", "kept"));
    let raised = call.finish_native(Some(TonicStatus::ok()), output);
    assert_eq!(raised.unwrap_err().message, "kept");
    assert!(call.exception.is_none());

    let mut call = call_context();
    call.exception = Some(Diagnostic::new("ValueError", "kept"));
    let panicked = call.finish_native(None, output);
    assert_eq!(
        panicked.unwrap_err().message,
        "native extension panic was contained at the Tonic C ABI boundary"
    );
    assert_eq!(call.exception.unwrap().message, "kept");

    let mut call = call_context();
    assert!(call.finish_init(Some(TonicStatus::ok())).is_ok());
    let mut call = call_context();
    assert_eq!(
        call.finish_init(None).unwrap_err().message,
        "native extension init panic was contained at the Tonic C ABI boundary"
    );
    let mut call = call_context();
    assert_eq!(
        call.finish_init(Some(TonicStatus::panic()))
            .unwrap_err()
            .message,
        "extension init returned failure without setting an exception"
    );
}

#[test]
fn exported_buffers_are_described_and_released() {
    let mut call = call_context();
    let values: Vec<u64> = vec![1.0f64.to_bits(), 2.0f64.to_bits(), 3.0f64.to_bits()];
    let buffer = call
        .context
        .from_f64_buffer(&values, &vec![3], false)
        .unwrap();
    let handle = TonicHandle::from_internal(buffer);
    assert!(matches!(
        call.buffer_export(handle, 4),
        Err(BoundaryError::Unsupported("unknown buffer request flags"))
    ));
    match call.buffer_export(handle, BUFFER_WRITABLE) {
        Err(BoundaryError::Diagnostic(error)) => assert_eq!(error.message, "buffer is read-only"),
        _ => panic!("expected a read-only buffer"),
    }
    let exported = call.buffer_export(handle, 0).unwrap();
    assert_eq!(exported.struct_size, TONIC_BUFFER_SIZE);
    assert_eq!(exported.flags, BUFFER_C_CONTIGUOUS);
    assert_eq!(exported.byte_len, 24);
    assert_eq!(exported.item_size, 8);
    assert_eq!(exported.ndim, 1);
    let small = TonicBuffer {
        struct_size: TONIC_BUFFER_SIZE - 1,
        ..exported
    };
    assert_eq!(
        invalid(call.buffer_release(&small)),
        "buffer descriptor is smaller than ABI v1"
    );
    assert_eq!(call.buffer_release(&exported).unwrap(), TonicBuffer::empty());
    assert!(call.buffer_release(&exported).is_err());
}

#[test]
fn delayed_releases_wait_for_a_live_runtime() {
    let mut ids = RuntimeIds::starting_at(1);
    let mut owner = TonicRuntimeOwner {
        owner: RuntimeOwner::new(&mut ids).unwrap(),
    };
    assert_eq!(
        owner.persistent_release_deferred(TonicPersistentHandle(5)),
        TonicStatus::ok()
    );
    assert_eq!(
        owner.foreign_reference_release_deferred(TonicHandle(6)),
        TonicStatus::ok()
    );
    assert_eq!(owner.owner.take_persistent_releases(), vec![5]);
    assert_eq!(owner.owner.take_foreign_reference_releases(), vec![6]);
    assert_eq!(owner.owner.take_persistent_releases(), Vec::<u64>::new());
    owner.owner.mark_dead();
    assert_eq!(
        owner.persistent_release_deferred(TonicPersistentHandle(5)),
        TonicStatus::unsupported()
    );
    assert_eq!(
        owner.foreign_reference_release_deferred(TonicHandle(6)),
        TonicStatus::unsupported()
    );
}
