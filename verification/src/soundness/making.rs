//! Operations that make objects keep the heap sound.
use vstd::prelude::*;
use crate::arithmetic::{binary_done, unary_done, Computed};
use crate::attributes::answers;
use crate::diagnostic::Diagnostic;
use crate::heap::HeapView;
use crate::namespaces::allocates;
use crate::object::ObjectView;
use crate::op::Op;
use crate::sequence::{yields, Yield};
use crate::soundness::allocation_keeps_sound;
use crate::storage::integer_made;
use crate::value::Value;

verus! {

/// Making an object whose edges are known keeps the heap sound, whether or not
/// there is room for it.
pub proof fn making_keeps_sound(
    before: HeapView,
    after: HeapView,
    result: core::result::Result<Value, Diagnostic>,
    object: ObjectView,
)
    requires
        before.wf(),
        before.sound(),
        allocates(before, after, result, object),
        forall|e: Value| #[trigger] object.edges().contains(e) ==> before.known(e),
    ensures
        after.sound(),
        result matches Ok(value) ==> after.known(value),
{
    if let Ok(value) = result {
        allocation_keeps_sound(before, value, object);
    }
}

/// Making an integer keeps the heap sound.
pub proof fn integers_keep_sound(
    before: HeapView,
    after: HeapView,
    n: int,
    result: core::result::Result<Value, Diagnostic>,
)
    requires
        before.wf(),
        before.sound(),
        integer_made(before, after, n, result),
    ensures
        after.sound(),
{
    if let Ok(value) = result {
        if !(Value::MIN_INT <= n <= Value::MAX_INT) {
            allocation_keeps_sound(before, value, ObjectView::Int(n));
        }
    }
}

/// A binary operator keeps the heap sound.
pub proof fn binary_operators_keep_sound(
    before: HeapView,
    after: HeapView,
    result: core::result::Result<Computed, Diagnostic>,
    op: Op,
    a: Value,
    b: Value,
)
    requires
        before.wf(),
        before.sound(),
        binary_done(before, after, result, op, a, b),
    ensures
        after.sound(),
{
    if after != before {
        if let Ok(Computed::Value(value)) = result {
            if let Some(object) = before.concatenated(a, b) {
                let (x, y) = (
                    before.objects[before.native(a)].edges(),
                    before.objects[before.native(b)].edges(),
                );
                assert forall|e: Value| #[trigger] object.edges().contains(e) implies before.known(
                    e,
                ) by {
                    if !(object is Str) {
                        let i = choose|i: int| 0 <= i < (x + y).len() && (x + y)[i] == e;
                        if i < x.len() {
                            assert(x.contains(e));
                        } else {
                            assert(y[i - x.len()] == e);
                            assert(y.contains(e));
                        }
                    }
                }
                if before.fresh(value) && after == before.allocated(value, object) {
                    allocation_keeps_sound(before, value, object);
                }
            }
            if before.fresh(value) {
                lemma_number_made(before, after, value);
            }
        }
    }
}

proof fn lemma_number_made(before: HeapView, after: HeapView, value: Value)
    requires
        before.wf(),
        before.sound(),
        before.fresh(value),
    ensures
        forall|n: int| after == #[trigger] before.allocated(value, ObjectView::Int(n)) ==> after.sound(),
        forall|bits: u64|
            after == #[trigger] before.allocated(value, ObjectView::Float(bits)) ==> after.sound(),
{
    assert forall|n: int| after == #[trigger] before.allocated(
        value,
        ObjectView::Int(n),
    ) implies after.sound() by {
        allocation_keeps_sound(before, value, ObjectView::Int(n));
    }
    assert forall|bits: u64| after == #[trigger] before.allocated(
        value,
        ObjectView::Float(bits),
    ) implies after.sound() by {
        allocation_keeps_sound(before, value, ObjectView::Float(bits));
    }
}

/// A unary operator keeps the heap sound.
pub proof fn unary_operators_keep_sound(
    before: HeapView,
    after: HeapView,
    result: core::result::Result<Value, Diagnostic>,
    op: Op,
    value: Value,
)
    requires
        before.wf(),
        before.sound(),
        unary_done(before, after, result, op, value),
    ensures
        after.sound(),
{
    if after != before {
        if let Ok(made) = result {
            if before.fresh(made) {
                lemma_number_made(before, after, made);
            }
        }
    }
}

/// Making an instance keeps the heap sound.
pub proof fn instances_keep_sound(
    before: HeapView,
    after: HeapView,
    result: core::result::Result<Value, Diagnostic>,
    class: Value,
    native: Option<Value>,
)
    requires
        before.wf(),
        before.sound(),
        before.known(class),
        native matches Some(storage) ==> before.known(storage),
        answers(before, after, result, before.new_instance(class, native)),
    ensures
        after.sound(),
{
    if before.class_at(class) is Ok {
        let object = ObjectView::Instance {
            class,
            attributes: crate::shapes::AttributesView::empty(),
            native,
        };
        assert forall|e: Value| #[trigger] object.edges().contains(e) implies before.known(e) by {
            let i = choose|i: int| 0 <= i < object.edges().len() && object.edges()[i] == e;
            assert(crate::shapes::AttributesView::empty().edges() =~= Seq::<Value>::empty());
        }
        making_keeps_sound(before, after, result, object);
    }
}

/// Making an iterator keeps the heap sound.
pub proof fn iterators_keep_sound(
    before: HeapView,
    after: HeapView,
    result: core::result::Result<Value, Diagnostic>,
    source: Value,
)
    requires
        before.wf(),
        before.sound(),
        yields(before, after, result, before.iterator(source)),
    ensures
        after.sound(),
{
    if let Yield::New(object) = before.iterator(source) {
        let v = before.native(source);
        assert forall|e: Value| #[trigger] object.edges().contains(e) implies before.known(e) by {
            if let ObjectView::MappingProxy { class } = before.objects[v] {
                assert(before.objects[v].edges()[0] == class);
                assert(before.objects[v].edges().contains(class));
            }
        }
        making_keeps_sound(before, after, result, object);
    }
}

} // verus!
