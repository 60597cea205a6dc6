//! What the builtin types make of their arguments.
use vstd::prelude::*;
use crate::calls::arguments::{ArgsView, ExpandedArgs};
use crate::calls::state::{
    ArgumentExpansion, Continuation, HashAction, IndexContinuation, IterableCollection,
    RuntimeTypeKind, Step,
};
use crate::diagnostic::Result;
use crate::float::{fixed, is_finite, one};
use crate::heap::Heap;
use crate::laws::numbers::{lemma_operands, lemma_zero_word};
use crate::laws::operators::has_method;
use crate::laws::{gives_new, is_number, is_object, raises, truth_words};
use crate::object::ObjectView;
use crate::value::{Meaning, Value};

verus! {

/// Whether arguments are just these values.
pub open spec fn are_values(arguments: ArgsView, values: Seq<Value>) -> bool {
    arguments.receiver is None && arguments.positional == values && arguments.keywords.len() == 0
}

/// Called without arguments, a builtin type makes its empty value: zero,
/// false, no characters, no items.
pub proof fn types_make_empty_values(
    heap: &mut Heap,
    class: Value,
    kind: RuntimeTypeKind,
    arguments: ExpandedArgs,
    r: Result<Step>,
)
    requires
        old(heap).wf(),
        are_values(arguments@, Seq::empty()),
        call_ensures(Heap::invoke_builtin_type, (heap, class, kind, arguments, None), r),
    ensures
        kind is Int ==> final(heap)@ == old(heap)@ && (r matches Ok(
            Step::BuiltinValue { value, finish },
        ) && value@ == Meaning::Int(0) && finish is None),
        kind is Bool ==> final(heap)@ == old(heap)@ && (r matches Ok(Step::Done(value)) && value@
            == Meaning::Bool(false)),
        kind is Float ==> match r {
            Ok(Step::BuiltinValue { value, finish }) => gives_new(
                old(heap)@,
                final(heap)@,
                Ok(value),
                ObjectView::Float(0),
            ) && finish is None,
            Ok(_) => false,
            Err(error) => old(heap)@.room == 0,
        },
        kind is Str ==> final(heap)@ == old(heap)@ && (r matches Ok(Step::Text { pieces, finish })
            && pieces@.len() == 0 && finish is None),
        kind is List ==> final(heap)@ == old(heap)@ && (r matches Ok(
            Step::Collected { kind: made, items },
        ) && made is List && items@.len() == 0),
        kind is Tuple ==> final(heap)@ == old(heap)@ && (r matches Ok(
            Step::Collected { kind: made, items },
        ) && made is Tuple && items@.len() == 0),
        kind is Range ==> raises(old(heap)@, final(heap)@, r, "TypeError"),
{
    old(heap).lemma_view();
    truth_words();
    lemma_zero_word();
    assert(arguments@.all() =~= Seq::empty());
}

/// Called with one value, a builtin type makes its own of it: a truth value of
/// its truth, a list or tuple of its items, an integer of an integer or of the
/// part of a number before the point, a number of a text that is read.
pub proof fn types_convert_their_argument(
    heap: &mut Heap,
    class: Value,
    kind: RuntimeTypeKind,
    arguments: ExpandedArgs,
    source: Value,
    n: int,
    x: u64,
    text: Seq<char>,
    r: Result<Step>,
)
    requires
        old(heap).wf(),
        are_values(arguments@, seq![source]),
        call_ensures(Heap::invoke_builtin_type, (heap, class, kind, arguments, None), r),
    ensures
        kind is Bool ==> final(heap)@ == old(heap)@ && (r matches Ok(Step::Truth { value, action })
            && value == source && action is Return),
        kind is List ==> final(heap)@ == old(heap)@ && (r matches Ok(
            Step::Collect { kind: made, source: from },
        ) && made is List && from == source),
        kind is Tuple ==> final(heap)@ == old(heap)@ && (r matches Ok(
            Step::Collect { kind: made, source: from },
        ) && made is Tuple && from == source),
        kind is Range ==> final(heap)@ == old(heap)@ && (r matches Ok(Step::Range(state))
            && state.values@ == seq![source] && state.next == 0),
        kind is Int && is_number(old(heap)@, source, n) ==> final(heap)@ == old(heap)@ && (
        r matches Ok(Step::BuiltinValue { value, finish }) && is_number(final(heap)@, value, n)
            && !(value@ is Bool) && finish is None),
        kind is Int && is_object(old(heap)@, source, ObjectView::Float(x)) && is_finite(x)
            ==> match r {
            Ok(Step::BuiltinValue { value, finish }) => exists|m: int| #[trigger]
                is_number(final(heap)@, value, m) && if fixed(x) >= 0 {
                    m * one() <= fixed(x) < (m + 1) * one()
                } else {
                    (m - 1) * one() < fixed(x) <= m * one()
                },
            Ok(_) => false,
            Err(error) => old(heap)@.room == 0,
        },
        kind is Int && is_object(old(heap)@, source, ObjectView::Float(x)) && !is_finite(x)
            ==> raises(old(heap)@, final(heap)@, r, "OverflowError"),
        kind is Float && is_object(old(heap)@, source, ObjectView::Str(text)) ==> final(heap)@
            == old(heap)@ && (r matches Ok(Step::ParseFloat { text: read, finish }) && read@ == text
            && finish is None),
{
    old(heap).lemma_view();
    truth_words();
    lemma_zero_word();
    crate::value::lemma_not_heap();
    assert(arguments@.all() =~= seq![source]);
    if is_number(old(heap)@, source, n) {
        lemma_operands(*old(heap), source, source, n, n);
        lemma_bools();
    }
    if is_object(old(heap)@, source, ObjectView::Float(x)) {
        crate::laws::lemma_object_word(old(heap)@, source);
        if is_finite(x) {
            let m = crate::float::whole(x);
            lemma_whole_part(fixed(x), m);
            if kind is Int {
                assert(old(heap)@.native(source) == source);
                assert(!old(heap)@.is_integer(source));
                assert(crate::calls::conversion::integer_stored(
                    old(heap)@,
                    final(heap)@,
                    r,
                    m,
                    None,
                ));
                if let Ok(Step::BuiltinValue { value, .. }) = r {
                    assert(is_number(final(heap)@, value, m));
                }
            }
        }
    }
}

proof fn lemma_bools()
    ensures
        forall|b: bool| (#[trigger] crate::calls::conversion::bool_index(b))@ == Meaning::Int(
            if b {
                1
            } else {
                0
            },
        ),
{
    lemma_zero_word();
    assert(9u64 & 7 == 1 && (9u64 as i64) >> 3 == 1) by (bit_vector);
}

proof fn lemma_whole_part(value: int, m: int)
    requires
        m == crate::integer::trunc_div(value, one()),
    ensures
        value >= 0 ==> m * one() <= value < (m + 1) * one(),
        value < 0 ==> (m - 1) * one() < value <= m * one(),
{
    vstd::arithmetic::power2::lemma_pow2_pos(1074);
    let d = one();
    let a = if value < 0 {
        -value
    } else {
        value
    };
    vstd::arithmetic::div_mod::lemma_fundamental_div_mod(a, d);
    vstd::arithmetic::div_mod::lemma_mod_bound(a, d);
    let q = a / d;
    assert(q * d == d * q) by (nonlinear_arith);
    assert((q + 1) * d == q * d + d) by (nonlinear_arith);
    assert((-q) * d == -(q * d)) by (nonlinear_arith);
    assert((-q - 1) * d == -(q * d) - d) by (nonlinear_arith);
}

/// An integer with a base is read once the base is an integer.
pub proof fn bases_are_converted_first(
    heap: &mut Heap,
    class: Value,
    arguments: ExpandedArgs,
    source: Value,
    base: Value,
    r: Result<Step>,
)
    requires
        old(heap).wf(),
        are_values(arguments@, seq![source, base]) || (arguments@.receiver is None
            && arguments@.positional == seq![source] && arguments@.keywords == seq![
            ("base"@, base),
        ]),
        call_ensures(
            Heap::invoke_builtin_type,
            (heap, class, RuntimeTypeKind::Int, arguments, None),
            r,
        ),
    ensures
        final(heap)@ == old(heap)@,
        r matches Ok(Step::Index { source: index, continuation: IndexContinuation::IntBase(state) })
            && index == base && state.argument == source && state.finish is None,
{
    assert(arguments@.all() =~= arguments@.positional);
}

/// Collecting runs an iterator over a list or tuple through: each step takes
/// the next item, and behind the last the collection is complete.
pub proof fn collections_run_through(
    heap: &mut Heap,
    state: IterableCollection,
    source: Value,
    index: usize,
    items: Seq<Value>,
    r: Result<Step>,
)
    requires
        old(heap).wf(),
        !(state.kind is ListInit),
        is_object(old(heap)@, state.iterator, ObjectView::Iterator { source, index }),
        is_object(old(heap)@, source, ObjectView::List(items)) || is_object(
            old(heap)@,
            source,
            ObjectView::Tuple(items),
        ),
        index < usize::MAX,
        call_ensures(Heap::continue_iterable_collection, (heap, state), r),
    ensures
        index < items.len() ==> final(heap)@.objects == old(heap)@.objects.insert(
            state.iterator,
            ObjectView::Iterator { source, index: (index + 1) as usize },
        ) && (r matches Ok(Step::CollectItems(next)) && next.items@ == state.items@.push(
            items[index as int],
        ) && next.iterator == state.iterator && next.kind == state.kind),
        index >= items.len() ==> final(heap)@ == old(heap)@ && (r matches Ok(
            Step::Collected { kind, items: all },
        ) && kind == state.kind && all@ == state.items@),
{
    old(heap).lemma_view();
}

/// A starred argument adds the items of its iterator one by one, behind the
/// arguments that are there.
pub proof fn starred_arguments_are_run_through(
    heap: &mut Heap,
    args: &mut ExpandedArgs,
    state: ArgumentExpansion,
    limit: usize,
    source: Value,
    index: usize,
    items: Seq<Value>,
    r: Result<Step>,
)
    requires
        old(heap).wf(),
        is_object(old(heap)@, state.iterator, ObjectView::Iterator { source, index }),
        is_object(old(heap)@, source, ObjectView::List(items)) || is_object(
            old(heap)@,
            source,
            ObjectView::Tuple(items),
        ),
        index < usize::MAX,
        old(args)@.positional.len() + old(args)@.keywords.len() + old(args)@.invalid_keywords.len()
            < limit,
        call_ensures(Heap::continue_argument_expansion, (heap, args, state, limit), r),
    ensures
        index < items.len() ==> final(args)@ == (ArgsView {
            positional: old(args)@.positional.push(items[index as int]),
            ..old(args)@
        }) && r == Ok::<Step, crate::diagnostic::Diagnostic>(Step::Expand(state)) && is_object(
            final(heap)@,
            state.iterator,
            ObjectView::Iterator { source, index: (index + 1) as usize },
        ),
        index >= items.len() ==> final(args)@ == old(args)@ && final(heap)@ == old(heap)@ && r
            == Ok::<Step, crate::diagnostic::Diagnostic>(Step::Expanded(state.resume_pc)),
{
    old(heap).lemma_view();
}

/// An instance is hashed by its method, and the answer must be an integer; a
/// value without one by what it holds.
pub proof fn hashes_are_asked_for(
    heap: Heap,
    value: Value,
    class: Value,
    method: Value,
    depth: usize,
    action: HashAction,
    answer: Value,
    n: int,
    r: Result<Step>,
    s: Result<Step>,
)
    requires
        heap.wf(),
        depth == 0,
        call_ensures(Heap::invoke_hash_protocol, (&heap, value, depth, action), r),
        call_ensures(Heap::finish_hash_result, (&heap, answer, action), s),
    ensures
        has_method(heap@, value, class, "__hash__"@, Some(method)) ==> (r matches Ok(
            Step::Call { callable, arguments, then },
        ) && callable == method && arguments@.receiver == Some(value)
            && arguments@.positional.len() == 0 && then == Continuation::Hash(action)),
        has_method(heap@, value, class, "__hash__"@, None) ==> r == Ok::<
            Step,
            crate::diagnostic::Diagnostic,
        >(Step::NativeHash { value, depth, action }),
        is_number(heap@, answer, n) && 0 <= n < 0x1fff_ffff_ffff_ffff ==> s == Ok::<
            Step,
            crate::diagnostic::Diagnostic,
        >(Step::CompleteHash { hash: n as i64, action }),
        answer@ is Nothing ==> s is Err && s->Err_0@.kind == "TypeError"@,
{
    heap.lemma_view();
    crate::value::lemma_not_heap();
    crate::laws::subscripts::lemma_none_word();
    if heap@.objects.dom().contains(value) {
        crate::laws::lemma_object_word(heap@, value);
    }
    if has_method(heap@, value, class, "__hash__"@, Some(method)) || has_method(
        heap@,
        value,
        class,
        "__hash__"@,
        None,
    ) {
        crate::laws::lemma_leads(
            heap@,
            seq![class] + heap@.objects[class]->Class_0.mro,
            0,
            "__hash__"@,
        );
        if heap@.objects.dom().contains(method) {
            crate::laws::lemma_object_word(heap@, method);
        }
    }
    if is_number(heap@, answer, n) {
        lemma_operands(heap, answer, answer, n, n);
    }
}

/// The hash function of a builtin type takes values of that type only.
pub proof fn hash_functions_refuse_other_types(
    heap: Heap,
    kind: RuntimeTypeKind,
    value: Value,
    object: ObjectView,
    action: HashAction,
    r: Result<Step>,
)
    requires
        heap.wf(),
        is_object(heap@, value, object),
        !(object is Instance),
        call_ensures(Heap::invoke_typed_native_hash, (&heap, kind, value, 0, action), r),
    ensures
        ({
            let fits = match object {
                ObjectView::Int(_) => kind is Int,
                ObjectView::Float(_) => kind is Float,
                ObjectView::Str(_) => kind is Str,
                ObjectView::Tuple(_) => kind is Tuple,
                ObjectView::Range { .. } => kind is Range,
                _ => false,
            };
            &&& fits ==> r == Ok::<Step, crate::diagnostic::Diagnostic>(
                Step::NativeHash { value, depth: 0, action },
            )
            &&& !fits ==> r is Err && r->Err_0@.kind == "TypeError"@
        }),
{
    heap.lemma_view();
    crate::laws::lemma_object_word(heap@, value);
}

} // verus!
