use tonic_runtime::c_api::{TonicStatus, TONIC_ABI_VERSION};
use tonic_runtime::foreign::{
    settle_trace, ForeignSpec, TonicForeignVTable, TraceEnd, FOREIGN_OWNED, FOREIGN_VTABLE_BYTES,
};
use tonic_runtime::handles::Handle;

fn vtable() -> TonicForeignVTable {
    TonicForeignVTable {
        struct_size: FOREIGN_VTABLE_BYTES,
        abi_version: TONIC_ABI_VERSION,
        adapter_id: 9,
        flags: 0,
        trace: None,
        destroy: None,
    }
}

#[test]
fn validation_rejects_truncated_unknown_and_inconsistent_vtables() {
    let mut table = vtable();
    table.struct_size = 0;
    assert_eq!(
        ForeignSpec::validate(&table).unwrap_err().kind,
        "ForeignError"
    );
    table = vtable();
    table.abi_version += 1;
    assert!(ForeignSpec::validate(&table).is_err());
    table = vtable();
    table.flags = 1 << 63;
    assert!(ForeignSpec::validate(&table).is_err());
    table = vtable();
    table.flags = FOREIGN_OWNED;
    assert!(ForeignSpec::validate(&table).is_err());
}

#[test]
fn a_valid_vtable_is_taken_over() {
    let mut table = vtable();
    table.flags = FOREIGN_OWNED;
    table.destroy = Some(5);
    let spec = ForeignSpec::validate(&table).unwrap();
    assert_eq!(spec.adapter_id, 9);
    assert!(spec.owned);
}

#[test]
fn traced_references_come_out_sorted_and_once() {
    let a = Handle::from_raw(9);
    let b = Handle::from_raw(4);
    let c = Handle::from_raw(6);
    let traced =
        settle_trace(TraceEnd::Returned(TonicStatus::ok()), vec![a, b], vec![c]).unwrap();
    assert_eq!(traced.owned, vec![b, a]);
    assert_eq!(traced.borrowed, vec![c]);
    for (owned, borrowed) in [
        (vec![a, a], vec![]),
        (vec![], vec![b, b]),
        (vec![a, b], vec![b]),
    ] {
        assert_eq!(
            settle_trace(TraceEnd::Returned(TonicStatus::ok()), owned, borrowed)
                .unwrap_err()
                .message,
            "foreign trace callback reported a reference more than once"
        );
    }
}

#[test]
fn failed_traces_are_reported() {
    assert_eq!(
        settle_trace(TraceEnd::Panicked, vec![], vec![])
            .unwrap_err()
            .message,
        "foreign trace panic was contained at the Tonic ABI boundary"
    );
    assert_eq!(
        settle_trace(
            TraceEnd::Returned(TonicStatus::invalid_argument()),
            vec![],
            vec![]
        )
        .unwrap_err()
        .message,
        "foreign trace callback failed with status TonicStatus(2)"
    );
}
