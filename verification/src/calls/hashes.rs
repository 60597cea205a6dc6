//! Hashes through protocols.
use vstd::prelude::*;
use crate::calls::state::{
    Continuation, HashAction, RuntimeTypeKind, Step, PROTOCOL_NESTING_LIMIT,
};
use crate::calls::{call_step, calls, goes, refuses, value_of};
use crate::diagnostic::{fault, Diagnostic, Fault, Result};
use crate::edges::copy_values;
use crate::float::{integral, is_integral, is_nan, nan, truncated, whole};
use crate::hashing::{
    closed_with, hash_range, hash_string, hash_u64, integer_hash, mixed, mixed_all,
    normalize_bigint, normalize_i64, normalized, range_count, range_parts_hash, range_start,
    range_step, sequence_finish, sequence_start, sequence_step, text_hash, word_hash,
};
use crate::heap::{Heap, HeapView};
use crate::lookup::Outcome;
use crate::object::{Builtin, Object, ObjectView};
use crate::storage::integer_made;
use crate::value::Value;

verus! {

/// The builtin types whose hash is a method of their own.
pub open spec fn hash_kind(builtin: Builtin) -> Option<RuntimeTypeKind> {
    match builtin {
        Builtin::IntHash => Some(RuntimeTypeKind::Int),
        Builtin::FloatHash => Some(RuntimeTypeKind::Float),
        Builtin::StrHash => Some(RuntimeTypeKind::Str),
        Builtin::TupleHash => Some(RuntimeTypeKind::Tuple),
        Builtin::RangeHash => Some(RuntimeTypeKind::Range),
        _ => None,
    }
}

/// The builtin type whose hash method a builtin is.
pub fn native_hash_kind(builtin: Builtin) -> (r: Option<RuntimeTypeKind>)
    ensures
        r == hash_kind(builtin),
{
    match builtin {
        Builtin::IntHash => Some(RuntimeTypeKind::Int),
        Builtin::FloatHash => Some(RuntimeTypeKind::Float),
        Builtin::StrHash => Some(RuntimeTypeKind::Str),
        Builtin::TupleHash => Some(RuntimeTypeKind::Tuple),
        Builtin::RangeHash => Some(RuntimeTypeKind::Range),
        _ => None,
    }
}

/// What a value is hashed by.
#[verifier::ext_equal]
pub enum Hashing {
    Known(int),
    Items(Seq<Value>),
}

/// A hash that runs through too many containers.
pub open spec fn hash_too_nested() -> Fault {
    fault("RecursionError", "hash nesting limit exceeded")
}

/// Whether a hash is handed to what it is wanted for.
pub open spec fn hashed(
    result: core::result::Result<Step, Diagnostic>,
    hash: int,
    action: HashAction,
) -> bool {
    result matches Ok(Step::CompleteHash { hash: found, action: next }) && found == hash && next
        == action
}

/// Whether the hashes of items are asked for, the first one next.
pub open spec fn items_hashed(
    result: core::result::Result<Step, Diagnostic>,
    items: Seq<Value>,
    depth: usize,
    action: HashAction,
) -> bool {
    if items.len() == 0 {
        hashed(result, closed_with(mixed_all(Seq::empty()), 0), action)
    } else {
        result matches Ok(Step::Hash { value, depth: deeper, action: next }) && value == items[0]
            && deeper == depth + 1 && (next matches HashAction::Sequence {
            values,
            next: n,
            accumulator,
            depth: held,
            outer,
        } && values@ == items && n == 1 && accumulator == mixed_all(Seq::empty()) && held == depth
            + 1 && *outer == action)
    }
}

impl HeapView {
    /// What a value is hashed by where no method of it says otherwise.
    pub open spec fn native_hash(self, value: Value) -> Outcome<Hashing> {
        let v = self.native(value);
        if v == Value::none() {
            Ok(Hashing::Known(0x421))
        } else if v == Value::not_implemented() {
            Ok(Hashing::Known(0x422))
        } else if v == Value::unbound() {
            Err(fault("TypeError", "internal value is not hashable"))
        } else if v.as_number() is Some {
            Ok(Hashing::Known(normalized(v.as_number().unwrap())))
        } else {
            match self.found(v) {
                Err(error) => Err(error),
                Ok(object) => match object {
                    ObjectView::Int(n) => Ok(Hashing::Known(integer_hash(n))),
                    ObjectView::Float(bits) => Ok(
                        Hashing::Known(
                            if is_nan(bits) {
                                word_hash(v.0)
                            } else if is_integral(bits) {
                                integer_hash(whole(bits))
                            } else {
                                word_hash(bits)
                            },
                        ),
                    ),
                    ObjectView::Str(text) => Ok(Hashing::Known(text_hash(text))),
                    ObjectView::Range { start, stop, step } => Ok(
                        Hashing::Known(
                            range_parts_hash(
                                range_count(start as int, stop as int, step as int),
                                range_start(start, stop, step),
                                range_step(start, stop, step),
                            ),
                        ),
                    ),
                    ObjectView::Tuple(items) => Ok(Hashing::Items(items)),
                    ObjectView::Slice { start, stop, step } => Ok(
                        Hashing::Items(seq![start, stop, step]),
                    ),
                    ObjectView::BoundMethod { function, receiver } => Ok(
                        Hashing::Items(seq![function, receiver]),
                    ),
                    ObjectView::List(_) => Err(fault("TypeError", "unhashable type")),
                    ObjectView::Dict(_) => Err(fault("TypeError", "unhashable type")),
                    ObjectView::Buffer(_) => Err(fault("TypeError", "unhashable type")),
                    ObjectView::MappingProxy { .. } => Err(fault("TypeError", "unhashable type")),
                    _ => Ok(Hashing::Known(word_hash(v.0))),
                },
            }
        }
    }

    /// Whether a value is of the builtin type that a hash method belongs to.
    pub open spec fn hash_fits(self, kind: RuntimeTypeKind, value: Value) -> bool {
        match (kind, self.at(self.native(value))) {
            (RuntimeTypeKind::Int, _) => self.is_integer(value),
            (RuntimeTypeKind::Float, Some(ObjectView::Float(_))) => true,
            (RuntimeTypeKind::Str, Some(ObjectView::Str(_))) => true,
            (RuntimeTypeKind::Tuple, Some(ObjectView::Tuple(_))) => true,
            (RuntimeTypeKind::Range, Some(ObjectView::Range { .. })) => true,
            _ => false,
        }
    }

    /// The builtin that a value is, if it is one.
    pub open spec fn builtin_at(self, value: Value) -> Option<Builtin> {
        match self.at(value) {
            Some(ObjectView::Builtin(builtin)) => Some(builtin),
            _ => None,
        }
    }
}

/// What comes next where a hash method of a builtin type is called.
pub open spec fn typed_hash(
    heap: HeapView,
    result: core::result::Result<Step, Diagnostic>,
    kind: RuntimeTypeKind,
    value: Value,
    depth: usize,
    action: HashAction,
) -> bool {
    if heap.hash_fits(kind, value) {
        goes(result, Step::NativeHash { value: heap.native(value), depth, action })
    } else {
        refuses(result, fault("TypeError", "hash descriptor received an incompatible object"))
    }
}

/// What asking for a hash leads to.
pub open spec fn hash_asked(
    heap: HeapView,
    result: core::result::Result<Step, Diagnostic>,
    value: Value,
    depth: usize,
    action: HashAction,
) -> bool {
    if depth > PROTOCOL_NESTING_LIMIT {
        refuses(result, hash_too_nested())
    } else {
        match heap.operator_method(value, "__hash__"@) {
            Err(error) => refuses(result, error),
            Ok(None) => goes(result, Step::NativeHash { value, depth, action }),
            Ok(Some(call)) => if call.callable == Value::none() {
                refuses(result, fault("TypeError", "unhashable type"))
            } else {
                match heap.builtin_at(call.callable) {
                    Some(Builtin::ObjectHash) => hashed(result, word_hash(value.0), action),
                    Some(builtin) => match hash_kind(builtin) {
                        Some(kind) => typed_hash(heap, result, kind, value, depth, action),
                        None => calls(
                            result,
                            call,
                            Seq::empty(),
                            Continuation::Hash(action),
                        ),
                    },
                    None => calls(result, call, Seq::empty(), Continuation::Hash(action)),
                }
            },
        }
    }
}

/// What hashing without methods leads to.
pub open spec fn native_hash_asked(
    heap: HeapView,
    result: core::result::Result<Step, Diagnostic>,
    value: Value,
    depth: usize,
    action: HashAction,
) -> bool {
    if depth > PROTOCOL_NESTING_LIMIT {
        refuses(result, hash_too_nested())
    } else {
        match heap.native_hash(value) {
            Err(error) => refuses(result, error),
            Ok(Hashing::Known(hash)) => hashed(result, hash, action),
            Ok(Hashing::Items(items)) => items_hashed(result, items, depth, action),
        }
    }
}

/// What a known hash leads to.
pub open spec fn hash_completed(
    before: HeapView,
    after: HeapView,
    result: core::result::Result<Step, Diagnostic>,
    hash: i64,
    action: HashAction,
) -> bool {
    match action {
        HashAction::Return => value_of(result) matches Some(made) && integer_made(
            before,
            after,
            hash as int,
            made,
        ),
        HashAction::Dict(start) => after == before && crate::calls::dicts::begins(
            before,
            result,
            start,
            hash,
        ),
        HashAction::Sequence { values, next, accumulator, depth, outer } => {
            let further = mixed(accumulator as int, hash as int);
            &&& after == before
            &&& if next < values@.len() {
                result matches Ok(Step::Hash { value, depth: deeper, action: then }) && value
                    == values@[next as int] && deeper == depth && (
                then matches HashAction::Sequence {
                    values: v,
                    next: n,
                    accumulator: a,
                    depth: d,
                    outer: o,
                } && v == values && n == next + 1 && a == further && d == depth && o
                    == outer)
            } else {
                hashed(result, closed_with(further, values@.len() as int), *outer)
            }
        },
    }
}

impl Heap {
    /// The builtin that a value is, if it is one.
    pub fn builtin_at(&self, value: Value) -> (r: Option<Builtin>)
        requires
            self.wf(),
        ensures
            r == self@.builtin_at(value),
    {
        match self.try_get(value) {
            Some(Object::Builtin(builtin)) => Some(*builtin),
            _ => None,
        }
    }

    /// Asks for the hash of a value.
    pub fn invoke_hash_protocol(&self, value: Value, depth: usize, action: HashAction) -> (r: Result<
        Step,
    >)
        requires
            self.wf(),
        ensures
            hash_asked(self@, r, value, depth, action),
    {
        if depth > PROTOCOL_NESTING_LIMIT {
            return Err(Diagnostic::new("RecursionError", "hash nesting limit exceeded"));
        }
        let call = match self.operator_method_call(value, "__hash__")? {
            Some(call) => call,
            None => {
                return Ok(Step::NativeHash { value, depth, action });
            },
        };
        if call.callable == Value::none() {
            return Err(Diagnostic::new("TypeError", "unhashable type"));
        }
        if let Some(builtin) = self.builtin_at(call.callable) {
            if builtin == Builtin::ObjectHash {
                return Ok(Step::CompleteHash { hash: hash_u64(value.raw()), action });
            }
            if let Some(kind) = native_hash_kind(builtin) {
                return self.invoke_typed_native_hash(kind, value, depth, action);
            }
        }
        let positional: Vec<Value> = Vec::new();
        assert(positional@ =~= Seq::<Value>::empty());
        Ok(call_step(call, positional, Continuation::Hash(action)))
    }

    /// The hash that a method of a builtin type gives.
    pub fn invoke_typed_native_hash(
        &self,
        kind: RuntimeTypeKind,
        value: Value,
        depth: usize,
        action: HashAction,
    ) -> (r: Result<Step>)
        requires
            self.wf(),
        ensures
            typed_hash(self@, r, kind, value, depth, action),
    {
        let native = self.native_value(value);
        let valid = match (kind, self.try_get(native)) {
            (RuntimeTypeKind::Int, _) => self.is_integer(value),
            (RuntimeTypeKind::Float, Some(Object::Float(_))) => true,
            (RuntimeTypeKind::Str, Some(Object::Str(_))) => true,
            (RuntimeTypeKind::Tuple, Some(Object::Tuple(_))) => true,
            (RuntimeTypeKind::Range, Some(Object::Range { .. })) => true,
            _ => false,
        };
        if !valid {
            return Err(
                Diagnostic::new("TypeError", "hash descriptor received an incompatible object"),
            );
        }
        Ok(Step::NativeHash { value: native, depth, action })
    }

    /// The hash of a value by its storage.
    pub fn invoke_native_hash(&self, value: Value, depth: usize, action: HashAction) -> (r: Result<
        Step,
    >)
        requires
            self.wf(),
        ensures
            native_hash_asked(self@, r, value, depth, action),
    {
        if depth > PROTOCOL_NESTING_LIMIT {
            return Err(Diagnostic::new("RecursionError", "hash nesting limit exceeded"));
        }
        let v = self.native_value(value);
        if v == Value::none() {
            return Ok(Step::CompleteHash { hash: 0x421, action });
        }
        if v == Value::not_implemented() {
            return Ok(Step::CompleteHash { hash: 0x422, action });
        }
        if v == Value::unbound() {
            return Err(Diagnostic::new("TypeError", "internal value is not hashable"));
        }
        if let Some(n) = v.integer() {
            return Ok(Step::CompleteHash { hash: normalize_i64(n), action });
        }
        proof {
            self.lemma_view();
        }
        let hash: i64 = match self.get(v)? {
            Object::Int(n) => normalize_bigint(n),
            Object::Float(bits) => if nan(*bits) {
                hash_u64(v.raw())
            } else if integral(*bits) {
                normalize_bigint(&truncated(*bits))
            } else {
                hash_u64(*bits)
            },
            Object::Str(text) => hash_string(text.as_str()),
            Object::Range { start, stop, step } => hash_range(*start, *stop, *step),
            Object::Tuple(items) => {
                return Ok(begin_hash_sequence(copy_values(items), depth, action));
            },
            Object::Slice { start, stop, step } => {
                let mut items: Vec<Value> = Vec::new();
                items.push(*start);
                items.push(*stop);
                items.push(*step);
                assert(items@ =~= seq![*start, *stop, *step]);
                return Ok(begin_hash_sequence(items, depth, action));
            },
            Object::BoundMethod { function, receiver } => {
                let mut items: Vec<Value> = Vec::new();
                items.push(*function);
                items.push(*receiver);
                assert(items@ =~= seq![*function, *receiver]);
                return Ok(begin_hash_sequence(items, depth, action));
            },
            Object::List(_) | Object::Dict(_) | Object::Buffer(_) | Object::MappingProxy { .. } => {
                return Err(Diagnostic::new("TypeError", "unhashable type"));
            },
            _ => hash_u64(v.raw()),
        };
        Ok(Step::CompleteHash { hash, action })
    }

    /// Takes what a hash method returned.
    pub fn finish_hash_result(&self, value: Value, action: HashAction) -> (r: Result<Step>)
        requires
            self.wf(),
        ensures
            if !self@.is_integer(value) {
                refuses(r, fault("TypeError", "__hash__ method must return an integer"))
            } else {
                match self@.integer(value) {
                    Err(error) => refuses(r, error),
                    Ok(n) => hashed(r, integer_hash(n), action),
                }
            },
    {
        if !self.is_integer(value) {
            return Err(Diagnostic::new("TypeError", "__hash__ method must return an integer"));
        }
        let n = self.integer(value)?;
        Ok(Step::CompleteHash { hash: normalize_bigint(&n), action })
    }

    /// Takes a hash to what it was wanted for.
    pub fn complete_hash(&mut self, hash: i64, action: HashAction) -> (r: Result<Step>)
        requires
            old(self).wf(),
        ensures
            final(self).wf(),
            hash_completed(old(self)@, final(self)@, r, hash, action),
            old(self)@.sound() ==> final(self)@.sound(),
    {
        match action {
            HashAction::Return => match self.i64_value(hash) {
                Ok(value) => Ok(Step::Done(value)),
                Err(error) => Err(error),
            },
            HashAction::Dict(start) => self.begin_dict_operation(start, hash),
            HashAction::Sequence { values, next, accumulator, depth, outer } => {
                let accumulator = sequence_step(accumulator, hash);
                if next < values.len() {
                    let value = values[next];
                    return Ok(
                        Step::Hash {
                            value,
                            depth,
                            action: HashAction::Sequence {
                                values,
                                next: next + 1,
                                accumulator,
                                depth,
                                outer,
                            },
                        },
                    );
                }
                Ok(
                    Step::CompleteHash {
                        hash: sequence_finish(accumulator, values.len()),
                        action: *outer,
                    },
                )
            },
        }
    }
}

/// Begins to hash items.
pub fn begin_hash_sequence(items: Vec<Value>, depth: usize, action: HashAction) -> (r: Step)
    requires
        depth < usize::MAX,
    ensures
        items_hashed(Ok(r), items@, depth, action),
{
    if items.len() == 0 {
        return Step::CompleteHash { hash: sequence_finish(sequence_start(), 0), action };
    }
    let first = items[0];
    Step::Hash {
        value: first,
        depth: depth + 1,
        action: HashAction::Sequence {
            values: items,
            next: 1,
            accumulator: sequence_start(),
            depth: depth + 1,
            outer: Box::new(action),
        },
    }
}

/// A dictionary files a key that is hashed at once under the hash that the
/// storage of the key gives.
pub proof fn keys_hash_as_values(heap: HeapView, value: Value, hash: int)
    requires
        heap.native(value) == value,
        heap.native_hash(value) == Ok::<Hashing, Fault>(Hashing::Known(hash)),
        heap.dict_key(value, 0) is Ok,
    ensures
        heap.dict_key(value, 0)->Ok_0.hash() == hash,
{
}

} // verus!
