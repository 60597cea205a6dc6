use tonic_runtime::handles::{Handle, HandleKind, HandleTable, TokenSource};
use tonic_runtime::value::Value;

fn small(n: i64) -> Value {
    Value::small_int(n).unwrap()
}

#[test]
fn released_handles_stay_dead() {
    let mut tokens = TokenSource::starting_at(1);
    let mut table = HandleTable::new();
    let a = table.insert(&mut tokens, small(1), HandleKind::Local).unwrap();
    assert_eq!(table.resolve(a).unwrap(), small(1));
    table.release(a, HandleKind::Local).unwrap();
    assert_eq!(table.resolve(a).unwrap_err().kind, "HandleError");
    let b = table.insert(&mut tokens, small(2), HandleKind::Local).unwrap();
    assert_ne!(a, b);
    assert!(table.resolve(a).is_err());
    assert_eq!(table.resolve(b).unwrap(), small(2));
    assert_eq!(table.active(), 1);
    assert_eq!(table.release(a, HandleKind::Local).unwrap_err().kind, "HandleError");
}

#[test]
fn kinds_are_not_confused() {
    let mut tokens = TokenSource::starting_at(1);
    let mut table = HandleTable::new();
    let local = table.insert(&mut tokens, small(1), HandleKind::Local).unwrap();
    let kept = table.persist_value(&mut tokens, small(2)).unwrap();
    assert_eq!(table.resolve_persistent(&kept).unwrap(), small(2));
    assert!(table.release(local, HandleKind::BufferOwner).is_err());
    assert!(table.release(Handle::from_raw(kept.raw()), HandleKind::Local).is_err());
    table.release_persistent(&kept).unwrap();
    assert!(table.resolve_persistent(&kept).is_err());
    let foreign = table.insert_foreign_reference(&mut tokens, small(3)).unwrap();
    assert_eq!(table.resolve_foreign_reference(foreign).unwrap(), small(3));
    assert!(table.resolve_foreign_reference(local).is_err());
    table.release_foreign_reference(foreign).unwrap();
    assert!(table.resolve_foreign_reference(foreign).is_err());
}

#[test]
fn held_values_are_roots() {
    let mut tokens = TokenSource::starting_at(1);
    let mut table = HandleTable::new();
    let a = table.insert(&mut tokens, small(1), HandleKind::Local).unwrap();
    table.insert(&mut tokens, small(2), HandleKind::Persistent).unwrap();
    table.release(a, HandleKind::Local).unwrap();
    let mut roots = Vec::new();
    table.roots(&mut roots);
    assert_eq!(roots, vec![small(2)]);
    table.invalidate_all();
    assert_eq!(table.active(), 0);
}

#[test]
fn tokens_run_out_without_wrapping() {
    let mut tokens = TokenSource::starting_at(u32::MAX - 1);
    let mut table = HandleTable::new();
    assert!(table.insert(&mut tokens, small(1), HandleKind::Local).is_ok());
    assert!(table.insert(&mut tokens, small(1), HandleKind::Local).is_err());
    assert!(table.insert(&mut tokens, small(1), HandleKind::Local).is_err());
    assert_eq!(table.active(), 1);
}

#[test]
fn counts_follow_grants_and_releases() {
    let mut tokens = TokenSource::starting_at(1);
    let mut table = HandleTable::new();
    let a = table.insert(&mut tokens, small(1), HandleKind::Local).unwrap();
    let b = table.insert(&mut tokens, small(1), HandleKind::Persistent).unwrap();
    let c = table.insert_foreign_reference(&mut tokens, small(3)).unwrap();
    assert_eq!(table.active(), 3);
    let mut roots = Vec::new();
    table.roots(&mut roots);
    assert_eq!(roots, vec![small(1), small(1)]);
    table.release(a, HandleKind::Local).unwrap();
    assert_eq!(table.active(), 2);
    assert_eq!(
        table.release(a, HandleKind::Local).unwrap_err().message,
        "stale, released, or foreign-runtime handle"
    );
    assert_eq!(table.active(), 2);
    table.release_foreign_reference(c).unwrap();
    assert_eq!(table.active(), 1);
    let mut roots = Vec::new();
    table.roots(&mut roots);
    assert_eq!(roots, vec![small(1)]);
    table.invalidate_all();
    assert_eq!(table.active(), 0);
    let mut roots = Vec::new();
    table.roots(&mut roots);
    assert!(roots.is_empty());
    assert!(table.resolve(b).is_err());
    let d = table.insert(&mut tokens, small(4), HandleKind::Local).unwrap();
    assert_eq!(table.active(), 1);
    assert_eq!(table.resolve(d).unwrap(), small(4));
    assert!(table.resolve(a).is_err() && table.resolve(b).is_err());
}

#[test]
fn promoting_a_stale_reference_takes_no_token() {
    let mut tokens = TokenSource::starting_at(7);
    let mut table = HandleTable::new();
    let reference = table.insert_foreign_reference(&mut tokens, small(1)).unwrap();
    let kept = table.promote_foreign_reference(&mut tokens, reference).unwrap();
    assert_eq!(kept.raw() >> 32, 8);
    assert_eq!(table.resolve_persistent(&kept).unwrap(), small(1));
    table.release_foreign_reference(reference).unwrap();
    assert!(table.promote_foreign_reference(&mut tokens, reference).is_err());
    let next = table.insert(&mut tokens, small(2), HandleKind::Local).unwrap();
    assert_eq!(next.raw() >> 32, 9);
    assert_eq!(table.active(), 2);
}

#[test]
fn spare_slots_are_used_from_the_last_on() {
    let mut tokens = TokenSource::starting_at(1);
    let mut table = HandleTable::new();
    let made: Vec<Handle> = (0..3)
        .map(|i| table.insert(&mut tokens, small(i), HandleKind::Local).unwrap())
        .collect();
    let slots: Vec<u32> = made.iter().map(|handle| handle.raw() as u32).collect();
    assert_eq!(slots, vec![0, 1, 2]);
    table.release(made[2], HandleKind::Local).unwrap();
    table.release(made[0], HandleKind::Local).unwrap();
    let mut next = Vec::new();
    for i in 0..3 {
        let handle = table.insert(&mut tokens, small(i), HandleKind::Local).unwrap();
        next.push(handle.raw() as u32);
    }
    assert_eq!(next, vec![0, 2, 3]);
    table.invalidate_all();
    let last = table.insert(&mut tokens, small(9), HandleKind::Local).unwrap();
    assert_eq!(last.raw() as u32, 3);
}
