//! Truth, length, equality and order through protocols.
use vstd::prelude::*;
use crate::calls::state::{
    Continuation, DictOperationKind, DictOperationStart, EqualityAction, IndexContinuation,
    SequenceOrder, Step, TruthAction, TruthProtocol, PROTOCOL_NESTING_LIMIT,
};
use crate::calls::{call_step, calls, goes, refuses};
use crate::comparison::satisfies;
use crate::diagnostic::{fault, Diagnostic, Fault, Result};
use crate::edges::copy_values;
use crate::float::relation_of;
use crate::heap::{Heap, HeapView};
use crate::lookup::{DescriptorCall, Outcome};
use crate::object::{Object, ObjectView};
use crate::op::Op;
use crate::storage::integer_made;
use crate::text::same;
use crate::value::{Meaning, Value};

verus! {

/// A comparison that runs through too many containers.
pub open spec fn too_nested() -> Fault {
    fault("RecursionError", "comparison nesting limit exceeded")
}

impl HeapView {
    /// The method that says whether a value counts as true.
    pub open spec fn truth_call(self, value: Value) -> Outcome<
        Option<(DescriptorCall, TruthProtocol)>,
    > {
        match self.special_method_call(value, "__bool__"@) {
            Err(error) => Err(error),
            Ok(Some(call)) => Ok(Some((call, TruthProtocol::Bool))),
            Ok(None) => match self.special_method_call(value, "__len__"@) {
                Err(error) => Err(error),
                Ok(Some(call)) => Ok(Some((call, TruthProtocol::Length))),
                Ok(None) => Ok(None),
            },
        }
    }

    /// A length as a length method may return it.
    pub open spec fn length_result(self, value: Value) -> Outcome<int> {
        match value@ {
            Meaning::Bool(b) => Ok(
                if b {
                    1
                } else {
                    0
                },
            ),
            _ => if self.is_integer(value) {
                match self.integer(value) {
                    Err(error) => Err(error),
                    Ok(n) => if n < i64::MIN || n > i64::MAX {
                        Err(fault("OverflowError", "integer does not fit i64"))
                    } else if n < 0 {
                        Err(fault("ValueError", "__len__() should return >= 0"))
                    } else {
                        Ok(n)
                    },
                }
            } else {
                Err(fault("TypeError", "__len__ returned a non-integer value"))
            },
        }
    }

    /// Whether two values are compared item by item, and by which items.
    pub open spec fn compared_items(self, left: Value, right: Value) -> Option<
        (Seq<Value>, Seq<Value>),
    > {
        match (self.at(self.native(left)), self.at(self.native(right))) {
            (Some(ObjectView::Tuple(x)), Some(ObjectView::Tuple(y))) => Some((x, y)),
            (Some(ObjectView::List(x)), Some(ObjectView::List(y))) => Some((x, y)),
            (
                Some(ObjectView::Slice { start: a, stop: b, step: c }),
                Some(ObjectView::Slice { start: d, stop: e, step: f }),
            ) => Some((seq![a, b, c], seq![d, e, f])),
            (
                Some(ObjectView::BoundMethod { function: f, receiver: x }),
                Some(ObjectView::BoundMethod { function: g, receiver: y }),
            ) => Some((seq![f, x], seq![g, y])),
            _ => None,
        }
    }

    /// The items by which two values are ordered.
    pub open spec fn ordered_items(self, left: Value, right: Value) -> Option<
        (Seq<Value>, Seq<Value>),
    > {
        match (self.at(self.native(left)), self.at(self.native(right))) {
            (Some(ObjectView::Tuple(x)), Some(ObjectView::Tuple(y))) => Some((x, y)),
            (Some(ObjectView::List(x)), Some(ObjectView::List(y))) => Some((x, y)),
            _ => None,
        }
    }

    /// Whether two values are two dictionaries.
    pub open spec fn both_dicts(self, left: Value, right: Value) -> bool {
        (self.at(self.native(left)) matches Some(ObjectView::Dict(_))) && (self.at(
            self.native(right),
        ) matches Some(ObjectView::Dict(_)))
    }
}

/// What a truth value leads to.
pub open spec fn truth_applied(truth: bool, action: TruthAction) -> Step {
    match action {
        TruthAction::Not => Step::Done(Value::of_bool(!truth)),
        TruthAction::Return => Step::Done(Value::of_bool(truth)),
        TruthAction::Jump { when, target, pc, original } => Step::Branch {
            value: original,
            taken: truth == when,
            target,
            pc,
        },
        TruthAction::Equality(action) => Step::CompleteEquality { equal: truth, action },
    }
}

/// Applies a truth value.
pub fn apply_truth(truth: bool, action: TruthAction) -> (r: Step)
    ensures
        r == truth_applied(truth, action),
{
    match action {
        TruthAction::Not => Step::Done(Value::bool(!truth)),
        TruthAction::Return => Step::Done(Value::bool(truth)),
        TruthAction::Jump { when, target, pc, original } => Step::Branch {
            value: original,
            taken: truth == when,
            target,
            pc,
        },
        TruthAction::Equality(action) => Step::CompleteEquality { equal: truth, action },
    }
}

/// What comes next where the items of two sequences are ordered.
pub open spec fn sequence_ordered(state: SequenceOrder) -> Step {
    if state.index < state.left@.len() && state.index < state.right@.len() {
        Step::Equality {
            left: state.left@[state.index as int],
            right: state.right@[state.index as int],
            action: EqualityAction::SequenceOrder(state),
        }
    } else {
        Step::Done(
            Value::of_bool(
                satisfies(
                    state.op,
                    relation_of(state.left@.len() as int, state.right@.len() as int),
                ),
            ),
        )
    }
}

/// Orders two sequences by their next items, or by their lengths.
pub fn continue_sequence_order(state: SequenceOrder) -> (r: Step)
    ensures
        r == sequence_ordered(state),
{
    if state.index < state.left.len() && state.index < state.right.len() {
        let left = state.left[state.index];
        let right = state.right[state.index];
        return Step::Equality { left, right, action: EqualityAction::SequenceOrder(state) };
    }
    let (n, m) = (state.left.len(), state.right.len());
    let answer = match state.op {
        Op::Lt => n < m,
        Op::Le => n <= m,
        Op::Gt => n > m,
        Op::Ge => n >= m,
        _ => false,
    };
    Step::Done(Value::bool(answer))
}

/// What asking for a truth value leads to.
pub open spec fn truth_asked(
    heap: HeapView,
    result: core::result::Result<Step, Diagnostic>,
    value: Value,
    action: TruthAction,
) -> bool {
    match heap.truth_call(value) {
        Err(error) => refuses(result, error),
        Ok(Some((call, protocol))) => calls(
            result,
            call,
            Seq::empty(),
            Continuation::Truth { protocol, action },
        ),
        Ok(None) => match heap.truth(value) {
            Err(error) => refuses(result, error),
            Ok(truth) => goes(result, Step::ApplyTruth { truth, action }),
        },
    }
}

/// What equality without methods leads to.
pub open spec fn fallback_taken(
    heap: HeapView,
    result: core::result::Result<Step, Diagnostic>,
    left: Value,
    right: Value,
    action: EqualityAction,
) -> bool {
    if left == right {
        goes(result, Step::CompleteEquality { equal: true, action })
    } else if heap.numeric(left) || heap.numeric(right) {
        match heap.compared(Op::Eq, left, right) {
            Err(error) => refuses(result, error),
            Ok(equal) => goes(result, Step::CompleteEquality { equal, action }),
        }
    } else if heap.both_dicts(left, right) {
        goes(
            result,
            Step::DictEqual {
                left: heap.native(left),
                right: heap.native(right),
                action,
            },
        )
    } else {
        match heap.compared_items(left, right) {
            Some((x, y)) => sequence_begun(result, x, y, action),
            None => match heap.plainly_equal(left, right) {
                Err(error) => refuses(result, error),
                Ok(equal) => goes(result, Step::CompleteEquality { equal, action }),
            },
        }
    }
}

/// What a known equality leads to.
pub open spec fn equality_completed(
    heap: HeapView,
    result: core::result::Result<Step, Diagnostic>,
    equal: bool,
    action: EqualityAction,
) -> bool {
    match action {
        EqualityAction::Return { negate } => goes(
            result,
            Step::Done(Value::of_bool(equal != negate)),
        ),
        EqualityAction::Sequence { left, right, next, depth, outer } => if !equal {
            goes(result, Step::CompleteEquality { equal: false, action: *outer })
        } else if next < left@.len() && next < right@.len() {
            goes(
                result,
                Step::Equality {
                    left: left@[next as int],
                    right: right@[next as int],
                    action: EqualityAction::Sequence {
                        left,
                        right,
                        next: (next + 1) as usize,
                        depth,
                        outer,
                    },
                },
            )
        } else {
            goes(result, Step::CompleteEquality { equal: true, action: *outer })
        },
        EqualityAction::DictCandidate { state, index } => match heap.dict(
            state.start.owner,
        ) {
            Err(error) => refuses(result, error),
            Ok(dict) => if dict.version != state.version {
                refuses(
                    result,
                    fault("RuntimeError", "dictionary changed during key comparison"),
                )
            } else if equal {
                goes(result, Step::DictMatched { state: *state, matched: Some(index) })
            } else {
                goes(result, Step::DictCandidates(*state))
            },
        },
        EqualityAction::DictEntries {
            left,
            right,
            entries,
            next,
            left_version,
            right_version,
            depth,
            outer,
        } => match heap.dict(left) {
            Err(error) => refuses(result, error),
            Ok(x) => match heap.dict(right) {
                Err(error) => if x.version != left_version {
                    refuses(
                        result,
                        fault("RuntimeError", "dictionary changed during comparison"),
                    )
                } else {
                    refuses(result, error)
                },
                Ok(y) => if x.version != left_version || y.version != right_version {
                    refuses(
                        result,
                        fault("RuntimeError", "dictionary changed during comparison"),
                    )
                } else if !equal {
                    goes(result, Step::CompleteEquality { equal: false, action: *outer })
                } else if next < entries@.len() {
                    goes(
                        result,
                        Step::Dict(
                            DictOperationStart {
                                owner: right,
                                key: entries@[next as int].0,
                                kind: DictOperationKind::CompareValue {
                                    expected: entries@[next as int].1,
                                    action: Box::new(
                                        EqualityAction::DictEntries {
                                            left,
                                            right,
                                            entries,
                                            next: (next + 1) as usize,
                                            left_version,
                                            right_version,
                                            depth,
                                            outer,
                                        },
                                    ),
                                },
                            },
                        ),
                    )
                } else {
                    goes(result, Step::CompleteEquality { equal: true, action: *outer })
                },
            },
        },
        EqualityAction::SequenceOrder(state) => if equal {
            goes(
                result,
                Step::SequenceOrder(
                    (SequenceOrder { index: (state.index + 1) as usize, ..state }),
                ),
            )
        } else {
            goes(
                result,
                Step::Order {
                    left: state.left@[state.index as int],
                    right: state.right@[state.index as int],
                    op: state.op,
                    depth: (state.depth + 1) as usize,
                },
            )
        },
    }
}

/// What comparing two dictionaries leads to.
pub open spec fn dict_equality_begun(
    heap: HeapView,
    result: core::result::Result<Step, Diagnostic>,
    left: Value,
    right: Value,
    action: EqualityAction,
) -> bool {
    if action.depth_of() + 1 > PROTOCOL_NESTING_LIMIT {
        refuses(result, too_nested())
    } else {
        match heap.dict(left) {
            Err(error) => refuses(result, error),
            Ok(x) => match heap.dict(right) {
                Err(error) => refuses(result, error),
                Ok(y) => if x.entries.len() != y.entries.len() {
                    goes(result, Step::CompleteEquality { equal: false, action })
                } else if x.entries.len() == 0 {
                    goes(result, Step::CompleteEquality { equal: true, action })
                } else {
                    entries_begun(result, left, right, x.entries, x.version, y.version, action)
                },
            },
        }
    }
}

impl Heap {
    /// Asks whether a value counts as true.
    pub fn invoke_truth(&self, value: Value, action: TruthAction) -> (r: Result<Step>)
        requires
            self.wf(),
        ensures
            truth_asked(self@, r, value, action),
    {
        let positional: Vec<Value> = Vec::new();
        assert(positional@ =~= Seq::<Value>::empty());
        if let Some(call) = self.special_method_call(value, "__bool__")? {
            return Ok(
                call_step(
                    call,
                    positional,
                    Continuation::Truth { protocol: TruthProtocol::Bool, action },
                ),
            );
        }
        if let Some(call) = self.special_method_call(value, "__len__")? {
            return Ok(
                call_step(
                    call,
                    positional,
                    Continuation::Truth { protocol: TruthProtocol::Length, action },
                ),
            );
        }
        let truth = self.truth(value)?;
        Ok(Step::ApplyTruth { truth, action })
    }

    /// Takes what a truth method returned.
    pub fn finish_truth(&self, value: Value, protocol: TruthProtocol, action: TruthAction) -> (r:
        Result<Step>)
        requires
            self.wf(),
        ensures
            match protocol {
                TruthProtocol::Bool => match value@ {
                    Meaning::Bool(truth) => goes(r, Step::ApplyTruth { truth, action }),
                    _ => refuses(r, fault("TypeError", "__bool__ should return bool")),
                },
                TruthProtocol::Length => if !self@.is_integer(value) {
                    goes(
                        r,
                        Step::Index {
                            source: value,
                            continuation: IndexContinuation::Truth(action),
                        },
                    )
                } else {
                    match self@.length_result(value) {
                        Err(error) => refuses(r, error),
                        Ok(n) => goes(r, Step::ApplyTruth { truth: n != 0, action }),
                    }
                },
            },
    {
        match protocol {
            TruthProtocol::Bool => match value.as_bool() {
                Some(truth) => Ok(Step::ApplyTruth { truth, action }),
                None => Err(Diagnostic::new("TypeError", "__bool__ should return bool")),
            },
            TruthProtocol::Length => {
                if !self.is_integer(value) {
                    return Ok(
                        Step::Index {
                            source: value,
                            continuation: IndexContinuation::Truth(action),
                        },
                    );
                }
                let n = self.checked_length(value)?;
                Ok(Step::ApplyTruth { truth: n != 0, action })
            },
        }
    }

    /// A length as a length method may return it.
    pub fn checked_length(&self, value: Value) -> (r: Result<i64>)
        requires
            self.wf(),
        ensures
            match r {
                Ok(n) => self@.length_result(value) == Ok::<int, Fault>(n as int),
                Err(error) => self@.length_result(value) == Err::<int, Fault>(error@),
            },
    {
        if let Some(b) = value.as_bool() {
            return Ok(
                if b {
                    1
                } else {
                    0
                },
            );
        }
        if !self.is_integer(value) {
            return Err(Diagnostic::new("TypeError", "__len__ returned a non-integer value"));
        }
        let n = self.to_i64(value)?;
        if n < 0 {
            return Err(Diagnostic::new("ValueError", "__len__() should return >= 0"));
        }
        Ok(n)
    }

    /// A checked length as a value.
    pub fn validate_length(&mut self, value: Value) -> (r: Result<Value>)
        requires
            old(self).wf(),
        ensures
            final(self).wf(),
            match old(self)@.length_result(value) {
                Err(error) => refuses(r, error) && final(self)@ == old(self)@,
                Ok(n) => integer_made(old(self)@, final(self)@, n, r),
            },
            old(self)@.sound() ==> final(self)@.sound(),
    {
        let n = self.checked_length(value)?;
        self.i64_value(n)
    }

    /// Takes what a length method returned.
    pub fn finish_length(&mut self, value: Value) -> (r: Result<Step>)
        requires
            old(self).wf(),
        ensures
            final(self).wf(),
            if old(self)@.is_integer(value) || value@ is Bool {
                match old(self)@.length_result(value) {
                    Err(error) => refuses(r, error) && final(self)@ == old(self)@,
                    Ok(n) => match r {
                        Ok(Step::Done(length)) => integer_made(
                            old(self)@,
                            final(self)@,
                            n,
                            Ok(length),
                        ),
                        Ok(_) => false,
                        Err(error) => integer_made(old(self)@, final(self)@, n, Err(error)),
                    },
                }
            } else {
                goes(
                    r,
                    Step::Index { source: value, continuation: IndexContinuation::Length },
                ) && final(self)@ == old(self)@
            },
            old(self)@.sound() ==> final(self)@.sound(),
    {
        if self.is_integer(value) || value.as_bool().is_some() {
            return match self.validate_length(value) {
                Ok(length) => Ok(Step::Done(length)),
                Err(error) => Err(error),
            };
        }
        Ok(Step::Index { source: value, continuation: IndexContinuation::Length })
    }

    /// Compares two values where no method answered.
    #[verifier::spinoff_prover]
    #[verifier::rlimit(40)]
    pub fn invoke_equality_fallback(&self, left: Value, right: Value, action: EqualityAction) -> (r:
        Result<Step>)
        requires
            self.wf(),
            action.depth_of() < usize::MAX,
        ensures
            fallback_taken(self@, r, left, right, action),
    {
        if left == right {
            return Ok(Step::CompleteEquality { equal: true, action });
        }
        if self.numeric(left) || self.numeric(right) {
            let equal = self.compare(Op::Eq, left, right)? == Value::bool(true);
            return Ok(Step::CompleteEquality { equal, action });
        }
        let native_left = self.native_value(left);
        let native_right = self.native_value(right);
        let mut xs: Vec<Value> = Vec::new();
        let mut ys: Vec<Value> = Vec::new();
        match (self.try_get(native_left), self.try_get(native_right)) {
            (Some(Object::Str(x)), Some(Object::Str(y))) => {
                return Ok(
                    Step::CompleteEquality { equal: same(x.as_str(), y.as_str()), action },
                );
            },
            (Some(Object::Range { .. }), Some(Object::Range { .. })) => {
                let equal = self.compare(Op::Eq, native_left, native_right)? == Value::bool(true);
                return Ok(Step::CompleteEquality { equal, action });
            },
            (Some(Object::Tuple(x)), Some(Object::Tuple(y))) => {
                xs = copy_values(x);
                ys = copy_values(y);
            },
            (Some(Object::List(x)), Some(Object::List(y))) => {
                xs = copy_values(x);
                ys = copy_values(y);
            },
            (
                Some(Object::Slice { start: a, stop: b, step: c }),
                Some(Object::Slice { start: d, stop: e, step: f }),
            ) => {
                xs.push(*a);
                xs.push(*b);
                xs.push(*c);
                ys.push(*d);
                ys.push(*e);
                ys.push(*f);
                assert(xs@ =~= seq![*a, *b, *c]);
                assert(ys@ =~= seq![*d, *e, *f]);
            },
            (
                Some(Object::BoundMethod { function: f, receiver: x }),
                Some(Object::BoundMethod { function: g, receiver: y }),
            ) => {
                xs.push(*f);
                xs.push(*x);
                ys.push(*g);
                ys.push(*y);
                assert(xs@ =~= seq![*f, *x]);
                assert(ys@ =~= seq![*g, *y]);
            },
            (Some(Object::Dict(_)), Some(Object::Dict(_))) => {
                return Ok(
                    Step::DictEqual { left: native_left, right: native_right, action },
                );
            },
            _ => {
                return Ok(Step::CompleteEquality { equal: false, action });
            },
        }
        begin_equality_sequence(xs, ys, action)
    }

    /// Orders two values: sequences item by item, others at once.
    pub fn order_without_methods(&self, left: Value, right: Value, op: Op, depth: usize) -> (r: Result<
        Step,
    >)
        requires
            self.wf(),
        ensures
            ordered(self@, r, left, right, op, depth),
    {
        let mut found = false;
        let mut xs: Vec<Value> = Vec::new();
        let mut ys: Vec<Value> = Vec::new();
        match (self.try_get(self.native_value(left)), self.try_get(self.native_value(right))) {
            (Some(Object::Tuple(x)), Some(Object::Tuple(y))) => {
                found = true;
                xs = copy_values(x);
                ys = copy_values(y);
            },
            (Some(Object::List(x)), Some(Object::List(y))) => {
                found = true;
                xs = copy_values(x);
                ys = copy_values(y);
            },
            _ => {},
        }
        if found {
            if depth > PROTOCOL_NESTING_LIMIT {
                return Err(
                    Diagnostic::new("RecursionError", "comparison nesting limit exceeded"),
                );
            }
            return Ok(
                Step::SequenceOrder(SequenceOrder { left: xs, right: ys, index: 0, op, depth }),
            );
        }
        let answer = self.compare(op, left, right)?;
        Ok(Step::Done(answer))
    }

    /// Takes an equality to what it was wanted for.
    pub fn complete_equality(&self, equal: bool, action: EqualityAction) -> (r: Result<Step>)
        requires
            self.wf(),
            action matches EqualityAction::SequenceOrder(state) ==> state.index
                < state.left@.len() && state.index < state.right@.len() && state.depth
                < usize::MAX,
        ensures
            equality_completed(self@, r, equal, action),
    {
        match action {
            EqualityAction::Return { negate } => Ok(Step::Done(Value::bool(equal != negate))),
            EqualityAction::Sequence { left, right, next, depth, outer } => {
                if !equal {
                    return Ok(Step::CompleteEquality { equal: false, action: *outer });
                }
                if next < left.len() && next < right.len() {
                    let (a, b) = (left[next], right[next]);
                    return Ok(
                        Step::Equality {
                            left: a,
                            right: b,
                            action: EqualityAction::Sequence {
                                left,
                                right,
                                next: next + 1,
                                depth,
                                outer,
                            },
                        },
                    );
                }
                Ok(Step::CompleteEquality { equal: true, action: *outer })
            },
            EqualityAction::DictCandidate { state, index } => {
                if self.dict_version(state.start.owner)? != state.version {
                    return Err(
                        Diagnostic::new(
                            "RuntimeError",
                            "dictionary changed during key comparison",
                        ),
                    );
                }
                if equal {
                    Ok(Step::DictMatched { state: *state, matched: Some(index) })
                } else {
                    Ok(Step::DictCandidates(*state))
                }
            },
            EqualityAction::DictEntries {
                left,
                right,
                entries,
                next,
                left_version,
                right_version,
                depth,
                outer,
            } => {
                if self.dict_version(left)? != left_version || self.dict_version(right)?
                    != right_version {
                    return Err(
                        Diagnostic::new("RuntimeError", "dictionary changed during comparison"),
                    );
                }
                if !equal {
                    return Ok(Step::CompleteEquality { equal: false, action: *outer });
                }
                if next < entries.len() {
                    let (key, expected) = entries[next];
                    let action = EqualityAction::DictEntries {
                        left,
                        right,
                        entries,
                        next: next + 1,
                        left_version,
                        right_version,
                        depth,
                        outer,
                    };
                    return Ok(
                        Step::Dict(
                            DictOperationStart {
                                owner: right,
                                key,
                                kind: DictOperationKind::CompareValue {
                                    expected,
                                    action: Box::new(action),
                                },
                            },
                        ),
                    );
                }
                Ok(Step::CompleteEquality { equal: true, action: *outer })
            },
            EqualityAction::SequenceOrder(state) => {
                if equal {
                    let mut state = state;
                    assert(state.left.len() <= usize::MAX);
                    state.index = state.index + 1;
                    return Ok(Step::SequenceOrder(state));
                }
                Ok(
                    Step::Order {
                        left: state.left[state.index],
                        right: state.right[state.index],
                        op: state.op,
                        depth: state.depth + 1,
                    },
                )
            },
        }
    }

    /// Begins to compare two dictionaries.
    pub fn begin_dict_equality(&self, left: Value, right: Value, action: EqualityAction) -> (r: Result<
        Step,
    >)
        requires
            self.wf(),
            action.depth_of() < usize::MAX,
        ensures
            dict_equality_begun(self@, r, left, right, action),
    {
        let depth = action.comparison_depth() + 1;
        if depth > PROTOCOL_NESTING_LIMIT {
            return Err(Diagnostic::new("RecursionError", "comparison nesting limit exceeded"));
        }
        if self.dict_len(left)? != self.dict_len(right)? {
            return Ok(Step::CompleteEquality { equal: false, action });
        }
        let entries = self.dict_entries(left)?;
        let left_version = self.dict_version(left)?;
        let right_version = self.dict_version(right)?;
        if entries.len() == 0 {
            return Ok(Step::CompleteEquality { equal: true, action });
        }
        let (key, expected) = entries[0];
        let action = EqualityAction::DictEntries {
            left,
            right,
            entries,
            next: 1,
            left_version,
            right_version,
            depth,
            outer: Box::new(action),
        };
        Ok(
            Step::Dict(
                DictOperationStart {
                    owner: right,
                    key,
                    kind: DictOperationKind::CompareValue { expected, action: Box::new(action) },
                },
            ),
        )
    }
}

impl HeapView {
    /// Whether two values without items are equal: the same text, or ranges of
    /// the same items.
    pub open spec fn plainly_equal(self, left: Value, right: Value) -> Outcome<bool> {
        let (x, y) = (self.native(left), self.native(right));
        match (self.at(x), self.at(y)) {
            (Some(ObjectView::Str(x)), Some(ObjectView::Str(y))) => Ok(x == y),
            (Some(ObjectView::Range { .. }), Some(ObjectView::Range { .. })) => self.compared(
                Op::Eq,
                x,
                y,
            ),
            _ => Ok(false),
        }
    }
}

/// Whether an order begins: item by item for sequences, with the answer for
/// other values.
pub open spec fn ordered(
    heap: HeapView,
    result: core::result::Result<Step, Diagnostic>,
    left: Value,
    right: Value,
    op: Op,
    depth: usize,
) -> bool {
    match heap.ordered_items(left, right) {
        Some((x, y)) => if depth > PROTOCOL_NESTING_LIMIT {
            refuses(result, too_nested())
        } else {
            result matches Ok(Step::SequenceOrder(state)) && state.left@ == x && state.right@
                == y && state.index == 0 && state.op == op && state.depth == depth
        },
        None => match heap.compared(op, left, right) {
            Err(error) => refuses(result, error),
            Ok(answer) => goes(result, Step::Done(Value::of_bool(answer))),
        },
    }
}

/// Whether a comparison of dictionary entries begins with the first.
pub open spec fn entries_begun(
    result: core::result::Result<Step, Diagnostic>,
    left: Value,
    right: Value,
    entries: Seq<(Value, Value)>,
    left_version: u64,
    right_version: u64,
    action: EqualityAction,
) -> bool {
    result matches Ok(Step::Dict(start)) && start.owner == right && start.key == entries[0].0 && (
    start.kind matches DictOperationKind::CompareValue { expected, action: next } && expected
        == entries[0].1 && (*next matches EqualityAction::DictEntries {
        left: l,
        right: r,
        entries: held,
        next: n,
        left_version: lv,
        right_version: rv,
        depth,
        outer,
    } && l == left && r == right && held@ == entries && n == 1 && lv == left_version && rv
        == right_version && depth == action.depth_of() + 1 && *outer == action))
}

/// Whether a comparison of items begins: with the first items, or with the
/// answer where there are none or the counts differ.
pub open spec fn sequence_begun(
    result: core::result::Result<Step, Diagnostic>,
    left: Seq<Value>,
    right: Seq<Value>,
    action: EqualityAction,
) -> bool {
    if action.depth_of() + 1 > PROTOCOL_NESTING_LIMIT {
        refuses(result, too_nested())
    } else if left.len() != right.len() {
        goes(result, Step::CompleteEquality { equal: false, action })
    } else if left.len() == 0 {
        goes(result, Step::CompleteEquality { equal: true, action })
    } else {
        result matches Ok(Step::Equality { left: a, right: b, action: next }) && a == left[0] && b
            == right[0] && (next matches EqualityAction::Sequence {
            left: x,
            right: y,
            next: n,
            depth,
            outer,
        } && x@ == left && y@ == right && n == 1 && depth == action.depth_of() + 1 && *outer
            == action)
    }
}

/// Begins to compare items.
pub fn begin_equality_sequence(left: Vec<Value>, right: Vec<Value>, action: EqualityAction) -> (r:
    Result<Step>)
    requires
        action.depth_of() < usize::MAX,
    ensures
        sequence_begun(r, left@, right@, action),
{
    let depth = action.comparison_depth() + 1;
    if depth > PROTOCOL_NESTING_LIMIT {
        return Err(Diagnostic::new("RecursionError", "comparison nesting limit exceeded"));
    }
    if left.len() != right.len() {
        return Ok(Step::CompleteEquality { equal: false, action });
    }
    if left.len() == 0 {
        return Ok(Step::CompleteEquality { equal: true, action });
    }
    let (a, b) = (left[0], right[0]);
    Ok(
        Step::Equality {
            left: a,
            right: b,
            action: EqualityAction::Sequence {
                left,
                right,
                next: 1,
                depth,
                outer: Box::new(action),
            },
        },
    )
}

} // verus!
