//! Truth, equality and order of values.
use vstd::prelude::*;
use vstd::string::StringExecFns;
use crate::arithmetic::{type_error, unsupported};
use crate::diagnostic::{fault, outcome, Diagnostic, Fault, Result};
use crate::float::{
    fixed, float_relation, integer_relation, is_finite, is_integral, is_nan, one, relate,
    relate_floats, relate_integer, relation_of, values_have_one_pattern, whole, zero, Relation,
};
use crate::hashing::{range_count, range_length};
use crate::heap::{Heap, HeapView};
use crate::lookup::Outcome;
use crate::object::{Object, ObjectView};
use crate::op::Op;
use crate::text::same;
use crate::value::{lemma_not_heap, Value};

verus! {

/// Values that nest too deeply to be compared.
pub open spec fn too_deep() -> Fault {
    fault("RecursionError", "comparison nesting limit")
}

/// How two texts compare: by their first difference, else by their lengths.
pub open spec fn text_relation(x: Seq<char>, y: Seq<char>, from: int) -> Relation
    decreases x.len() - from,
{
    if from < 0 || from >= x.len() || from >= y.len() {
        relation_of(x.len() as int, y.len() as int)
    } else if x[from] != y[from] {
        relation_of(x[from] as int, y[from] as int)
    } else {
        text_relation(x, y, from + 1)
    }
}

/// Whether two ranges have the same items.
pub open spec fn same_range(a: (i64, i64, i64), b: (i64, i64, i64)) -> bool {
    let n = range_count(a.0 as int, a.1 as int, a.2 as int);
    let m = range_count(b.0 as int, b.1 as int, b.2 as int);
    n == m && (n == 0 || (a.0 == b.0 && (n == 1 || a.2 == b.2)))
}

/// Whether a relation answers an ordering operator.
pub open spec fn satisfies(op: Op, relation: Relation) -> bool {
    match op {
        Op::Lt => relation == Relation::Less,
        Op::Le => relation == Relation::Less || relation == Relation::Equal,
        Op::Gt => relation == Relation::Greater,
        Op::Ge => relation == Relation::Greater || relation == Relation::Equal,
        _ => false,
    }
}

impl HeapView {
    /// Whether a value counts as true.
    pub open spec fn truth(self, value: Value) -> Outcome<bool> {
        let v = self.native(value);
        match v.as_number() {
            Some(n) => Ok(n != 0),
            None => if v == Value::none() {
                Ok(false)
            } else if v == Value::not_implemented() {
                Err(
                    fault("TypeError", "NotImplemented should not be used in a boolean context"),
                )
            } else {
                match self.found(v) {
                    Err(error) => Err(error),
                    Ok(object) => match object {
                        ObjectView::Int(n) => Ok(n != 0),
                        ObjectView::Float(bits) => Ok(!(is_finite(bits) && fixed(bits) == 0)),
                        ObjectView::Str(text) => Ok(text.len() != 0),
                        ObjectView::Tuple(values) => Ok(values.len() != 0),
                        ObjectView::List(values) => Ok(values.len() != 0),
                        ObjectView::Buffer(buffer) => Ok(buffer.data.len() != 0),
                        ObjectView::Dict(dict) => Ok(dict.entries.len() != 0),
                        ObjectView::MappingProxy { class } => match self.class_at(class) {
                            Err(error) => Err(error),
                            Ok(held) => Ok(held.dictionary_order.len() != 0),
                        },
                        ObjectView::Range { start, stop, step } => Ok(
                            if step > 0 {
                                start < stop
                            } else {
                                start > stop
                            },
                        ),
                        _ => Ok(true),
                    },
                }
            },
        }
    }

    /// The pattern of a floating-point number.
    pub open spec fn pattern(self, value: Value) -> u64 {
        self.objects[self.native(value)]->Float_0
    }

    /// How two numbers compare, exactly, whatever they are held in.
    pub open spec fn number_relation(self, a: Value, b: Value) -> Relation {
        if self.is_integer(a) && self.is_integer(b) {
            relation_of(self.integer(a)->Ok_0, self.integer(b)->Ok_0)
        } else if self.is_float(a) && self.is_float(b) {
            float_relation(self.pattern(a), self.pattern(b))
        } else if self.is_float(a) {
            integer_relation(self.integer(b)->Ok_0, self.pattern(a)).flipped()
        } else {
            integer_relation(self.integer(a)->Ok_0, self.pattern(b))
        }
    }

    /// Whether two values are equal.
    pub open spec fn equal(self, a: Value, b: Value, depth: int) -> Outcome<bool>
        decreases 102 - depth, 0int,
    {
        if depth > 100 {
            Err(too_deep())
        } else if self.numeric(a) && self.numeric(b) {
            Ok(self.number_relation(a, b) == Relation::Equal)
        } else if a == b {
            Ok(true)
        } else {
            match (self.at(self.native(a)), self.at(self.native(b))) {
                (
                    Some(ObjectView::BoundMethod { function: f, receiver: x }),
                    Some(ObjectView::BoundMethod { function: g, receiver: y }),
                ) => self.all_equal(seq![f, x], seq![g, y], depth + 1, 0),
                (Some(ObjectView::Dict(x)), Some(ObjectView::Dict(y))) => if x.entries.len()
                    != y.entries.len() {
                    Ok(false)
                } else {
                    self.entries_equal(x.entries, b, depth + 1, 0)
                },
                (Some(ObjectView::Str(x)), Some(ObjectView::Str(y))) => Ok(x == y),
                (Some(ObjectView::Tuple(x)), Some(ObjectView::Tuple(y))) => if x.len() != y.len() {
                    Ok(false)
                } else {
                    self.all_equal(x, y, depth + 1, 0)
                },
                (Some(ObjectView::List(x)), Some(ObjectView::List(y))) => if x.len() != y.len() {
                    Ok(false)
                } else {
                    self.all_equal(x, y, depth + 1, 0)
                },
                (
                    Some(ObjectView::Range { start: a0, stop: a1, step: a2 }),
                    Some(ObjectView::Range { start: b0, stop: b1, step: b2 }),
                ) => Ok(same_range((a0, a1, a2), (b0, b1, b2))),
                _ => Ok(false),
            }
        }
    }

    /// Whether the items of two sequences are the same or equal, from a
    /// position on.
    pub open spec fn all_equal(self, x: Seq<Value>, y: Seq<Value>, depth: int, from: int) -> Outcome<
        bool,
    >
        decreases 102 - depth, 1 + x.len() - from,
    {
        if from < 0 || from >= x.len() || from >= y.len() {
            Ok(true)
        } else if x[from] == y[from] {
            self.all_equal(x, y, depth, from + 1)
        } else {
            match self.equal(x[from], y[from], depth) {
                Err(error) => Err(error),
                Ok(true) => self.all_equal(x, y, depth, from + 1),
                Ok(false) => Ok(false),
            }
        }
    }

    /// Whether a dictionary holds entries equal to these, from a position on.
    pub open spec fn entries_equal(
        self,
        entries: Seq<(Value, Value)>,
        other: Value,
        depth: int,
        from: int,
    ) -> Outcome<bool>
        decreases 102 - depth, 1 + entries.len() - from,
    {
        if from < 0 || from >= entries.len() {
            Ok(true)
        } else {
            match self.dict_get(other, entries[from].0) {
                Err(error) => Err(error),
                Ok(None) => Ok(false),
                Ok(Some(value)) => if entries[from].1 == value {
                    self.entries_equal(entries, other, depth, from + 1)
                } else {
                    match self.equal(entries[from].1, value, depth) {
                        Err(error) => Err(error),
                        Ok(true) => self.entries_equal(entries, other, depth, from + 1),
                        Ok(false) => Ok(false),
                    }
                },
            }
        }
    }

    /// How two values are ordered.
    pub open spec fn order(self, a: Value, b: Value, depth: int) -> Outcome<Relation>
        decreases 102 - depth, 0int,
    {
        if depth > 100 {
            Err(too_deep())
        } else if self.numeric(a) && self.numeric(b) {
            Ok(self.number_relation(a, b))
        } else {
            match (self.at(self.native(a)), self.at(self.native(b))) {
                (Some(ObjectView::Str(x)), Some(ObjectView::Str(y))) => Ok(
                    text_relation(x, y, 0),
                ),
                (Some(ObjectView::Tuple(x)), Some(ObjectView::Tuple(y))) => self.sequence_order(
                    x,
                    y,
                    depth + 1,
                    0,
                ),
                (Some(ObjectView::List(x)), Some(ObjectView::List(y))) => self.sequence_order(
                    x,
                    y,
                    depth + 1,
                    0,
                ),
                _ => Err(unsupported()),
            }
        }
    }

    /// How two sequences are ordered: by their first items that differ, else
    /// by their lengths.
    pub open spec fn sequence_order(
        self,
        x: Seq<Value>,
        y: Seq<Value>,
        depth: int,
        from: int,
    ) -> Outcome<Relation>
        decreases 102 - depth, 1 + x.len() - from,
    {
        if from < 0 || from >= x.len() || from >= y.len() {
            Ok(relation_of(x.len() as int, y.len() as int))
        } else if x[from] == y[from] {
            self.sequence_order(x, y, depth, from + 1)
        } else {
            match self.equal(x[from], y[from], depth) {
                Err(error) => Err(error),
                Ok(true) => self.sequence_order(x, y, depth, from + 1),
                Ok(false) => self.order(x[from], y[from], depth),
            }
        }
    }

    /// What a comparison operator answers.
    pub open spec fn compared(self, op: Op, a: Value, b: Value) -> Outcome<bool> {
        if op == Op::Eq || op == Op::Ne {
            match self.equal(a, b, 0) {
                Err(error) => Err(error),
                Ok(equal) => Ok(equal == (op == Op::Eq)),
            }
        } else {
            match self.order(a, b, 0) {
                Err(error) => Err(error),
                Ok(relation) => Ok(satisfies(op, relation)),
            }
        }
    }
}

fn relate_lengths(x: usize, y: usize) -> (r: Relation)
    ensures
        r == relation_of(x as int, y as int),
{
    if x < y {
        Relation::Less
    } else if x == y {
        Relation::Equal
    } else {
        Relation::Greater
    }
}

/// How two texts compare.
pub fn relate_texts(x: &str, y: &str) -> (r: Relation)
    ensures
        r == text_relation(x@, y@, 0),
{
    let n = x.unicode_len();
    let m = y.unicode_len();
    let mut i: usize = 0;
    while i < n && i < m
        invariant
            i <= n,
            i <= m,
            n == x@.len(),
            m == y@.len(),
            text_relation(x@, y@, 0) == text_relation(x@, y@, i as int),
        decreases n - i,
    {
        let a = x.get_char(i);
        let b = y.get_char(i);
        if a != b {
            return if a < b {
                Relation::Less
            } else {
                Relation::Greater
            };
        }
        i += 1;
    }
    relate_lengths(n, m)
}

fn answers_op(op: Op, relation: Relation) -> (r: bool)
    ensures
        r == satisfies(op, relation),
{
    match op {
        Op::Lt => relation == Relation::Less,
        Op::Le => relation == Relation::Less || relation == Relation::Equal,
        Op::Gt => relation == Relation::Greater,
        Op::Ge => relation == Relation::Greater || relation == Relation::Equal,
        _ => false,
    }
}

impl Heap {
    /// Whether a value counts as true.
    pub fn truth(&self, value: Value) -> (r: Result<bool>)
        requires
            self.wf(),
        ensures
            outcome(r) == self@.truth(value),
    {
        let v = self.native_value(value);
        if let Some(n) = v.integer() {
            return Ok(n != 0);
        }
        if v == Value::none() {
            return Ok(false);
        }
        if v == Value::not_implemented() {
            return Err(
                Diagnostic::new(
                    "TypeError",
                    "NotImplemented should not be used in a boolean context",
                ),
            );
        }
        let truth = match self.get(v)? {
            Object::Int(n) => !n.is_zero(),
            Object::Float(bits) => !zero(*bits),
            Object::Str(text) => text.as_str().unicode_len() != 0,
            Object::Tuple(values) => values.len() != 0,
            Object::List(values) => values.len() != 0,
            Object::Buffer(buffer) => buffer.len() != 0,
            Object::Dict(dict) => dict.len() != 0,
            Object::MappingProxy { class } => self.class(*class)?.dictionary_len() != 0,
            Object::Range { start, stop, step } => if *step > 0 {
                *start < *stop
            } else {
                *start > *stop
            },
            _ => true,
        };
        Ok(truth)
    }

    /// How two numbers compare.
    fn number_order(&self, a: Value, b: Value) -> (r: Relation)
        requires
            self.wf(),
            self@.numeric(a),
            self@.numeric(b),
        ensures
            r == self@.number_relation(a, b),
    {
        let x = match self.try_get(self.native_value(a)) {
            Some(Object::Float(bits)) => Some(*bits),
            _ => None,
        };
        let y = match self.try_get(self.native_value(b)) {
            Some(Object::Float(bits)) => Some(*bits),
            _ => None,
        };
        proof {
            self.lemma_view();
            lemma_not_heap();
        }
        match (x, y) {
            (Some(x), Some(y)) => relate_floats(x, y),
            (Some(x), None) => {
                let n = self.integer(b).unwrap();
                relate_integer(&n, x).flip()
            },
            (None, Some(y)) => {
                let n = self.integer(a).unwrap();
                relate_integer(&n, y)
            },
            (None, None) => {
                let n = self.integer(a).unwrap();
                let m = self.integer(b).unwrap();
                relate(&n, &m)
            },
        }
    }

    fn equal(&self, a: Value, b: Value, depth: usize) -> (r: Result<bool>)
        requires
            self.wf(),
            depth <= 101,
        ensures
            outcome(r) == self@.equal(a, b, depth as int),
        decreases 102 - depth, 0int,
    {
        if depth > 100 {
            return Err(Diagnostic::new("RecursionError", "comparison nesting limit"));
        }
        if self.numeric(a) && self.numeric(b) {
            return Ok(self.number_order(a, b) == Relation::Equal);
        }
        if a == b {
            return Ok(true);
        }
        match (self.try_get(self.native_value(a)), self.try_get(self.native_value(b))) {
            (
                Some(Object::BoundMethod { function: f, receiver: x }),
                Some(Object::BoundMethod { function: g, receiver: y }),
            ) => {
                let mut left: Vec<Value> = Vec::new();
                left.push(*f);
                left.push(*x);
                let mut right: Vec<Value> = Vec::new();
                right.push(*g);
                right.push(*y);
                assert(left@ =~= seq![*f, *x]);
                assert(right@ =~= seq![*g, *y]);
                self.all_equal(&left, &right, depth + 1)
            },
            (Some(Object::Dict(x)), Some(Object::Dict(y))) => {
                if x.len() != y.len() {
                    return Ok(false);
                }
                self.entries_equal(x.entries(), b, depth + 1)
            },
            (Some(Object::Str(x)), Some(Object::Str(y))) => Ok(same(x.as_str(), y.as_str())),
            (Some(Object::Tuple(x)), Some(Object::Tuple(y))) => {
                if x.len() != y.len() {
                    return Ok(false);
                }
                self.all_equal(x, y, depth + 1)
            },
            (Some(Object::List(x)), Some(Object::List(y))) => {
                if x.len() != y.len() {
                    return Ok(false);
                }
                self.all_equal(x, y, depth + 1)
            },
            (
                Some(Object::Range { start: a0, stop: a1, step: a2 }),
                Some(Object::Range { start: b0, stop: b1, step: b2 }),
            ) => {
                let n = range_length(*a0, *a1, *a2);
                let m = range_length(*b0, *b1, *b2);
                Ok(n == m && (n == 0 || (*a0 == *b0 && (n == 1 || *a2 == *b2))))
            },
            _ => Ok(false),
        }
    }

    fn all_equal(&self, x: &Vec<Value>, y: &Vec<Value>, depth: usize) -> (r: Result<bool>)
        requires
            self.wf(),
            depth <= 101,
        ensures
            outcome(r) == self@.all_equal(x@, y@, depth as int, 0),
        decreases 102 - depth, 1int,
    {
        let mut i: usize = 0;
        while i < x.len() && i < y.len()
            invariant
                self.wf(),
                depth <= 101,
                i <= x.len(),
                i <= y.len(),
                self@.all_equal(x@, y@, depth as int, 0) == self@.all_equal(
                    x@,
                    y@,
                    depth as int,
                    i as int,
                ),
            decreases x.len() - i,
        {
            if x[i] != y[i] {
                match self.equal(x[i], y[i], depth) {
                    Err(error) => {
                        return Err(error);
                    },
                    Ok(equal) => if !equal {
                        return Ok(false);
                    },
                }
            }
            i += 1;
        }
        Ok(true)
    }

    fn entries_equal(&self, entries: &Vec<(Value, Value)>, other: Value, depth: usize) -> (r: Result<
        bool,
    >)
        requires
            self.wf(),
            depth <= 101,
        ensures
            outcome(r) == self@.entries_equal(entries@, other, depth as int, 0),
        decreases 102 - depth, 1int,
    {
        let mut i: usize = 0;
        while i < entries.len()
            invariant
                self.wf(),
                depth <= 101,
                i <= entries.len(),
                self@.entries_equal(entries@, other, depth as int, 0) == self@.entries_equal(
                    entries@,
                    other,
                    depth as int,
                    i as int,
                ),
            decreases entries.len() - i,
        {
            let (key, value) = entries[i];
            match self.dict_get(other, key) {
                Err(error) => {
                    return Err(error);
                },
                Ok(None) => {
                    return Ok(false);
                },
                Ok(Some(held)) => {
                    if value != held {
                        match self.equal(value, held, depth) {
                            Err(error) => {
                                return Err(error);
                            },
                            Ok(equal) => if !equal {
                                return Ok(false);
                            },
                        }
                    }
                },
            }
            i += 1;
        }
        Ok(true)
    }

    fn order(&self, a: Value, b: Value, depth: usize) -> (r: Result<Relation>)
        requires
            self.wf(),
            depth <= 101,
        ensures
            outcome(r) == self@.order(a, b, depth as int),
        decreases 102 - depth, 0int,
    {
        if depth > 100 {
            return Err(Diagnostic::new("RecursionError", "comparison nesting limit"));
        }
        if self.numeric(a) && self.numeric(b) {
            return Ok(self.number_order(a, b));
        }
        match (self.try_get(self.native_value(a)), self.try_get(self.native_value(b))) {
            (Some(Object::Str(x)), Some(Object::Str(y))) => Ok(
                relate_texts(x.as_str(), y.as_str()),
            ),
            (Some(Object::Tuple(x)), Some(Object::Tuple(y))) => self.sequence_order(
                x,
                y,
                depth + 1,
            ),
            (Some(Object::List(x)), Some(Object::List(y))) => self.sequence_order(x, y, depth + 1),
            _ => Err(type_error()),
        }
    }

    fn sequence_order(&self, x: &Vec<Value>, y: &Vec<Value>, depth: usize) -> (r: Result<Relation>)
        requires
            self.wf(),
            depth <= 101,
        ensures
            outcome(r) == self@.sequence_order(x@, y@, depth as int, 0),
        decreases 102 - depth, 1int,
    {
        let mut i: usize = 0;
        while i < x.len() && i < y.len()
            invariant
                self.wf(),
                depth <= 101,
                i <= x.len(),
                i <= y.len(),
                self@.sequence_order(x@, y@, depth as int, 0) == self@.sequence_order(
                    x@,
                    y@,
                    depth as int,
                    i as int,
                ),
            decreases x.len() - i,
        {
            if x[i] != y[i] {
                match self.equal(x[i], y[i], depth) {
                    Err(error) => {
                        return Err(error);
                    },
                    Ok(equal) => if !equal {
                        return self.order(x[i], y[i], depth);
                    },
                }
            }
            i += 1;
        }
        Ok(relate_lengths(x.len(), y.len()))
    }

    /// Applies a comparison operator.
    pub fn compare(&self, op: Op, a: Value, b: Value) -> (r: Result<Value>)
        requires
            self.wf(),
        ensures
            outcome(r) == match self@.compared(op, a, b) {
                Ok(answer) => Ok(Value::of_bool(answer)),
                Err(error) => Err(error),
            },
    {
        if op == Op::Eq || op == Op::Ne {
            return match self.equal(a, b, 0) {
                Err(error) => Err(error),
                Ok(equal) => Ok(Value::bool(equal == (op == Op::Eq))),
            };
        }
        match self.order(a, b, 0) {
            Err(error) => Err(error),
            Ok(relation) => Ok(Value::bool(answers_op(op, relation))),
        }
    }
}

/// Numbers compare one way round as the other way round, whatever they are
/// held in.
pub proof fn number_order_is_mirrored(heap: HeapView, a: Value, b: Value)
    requires
        heap.wf(),
        heap.numeric(a),
        heap.numeric(b),
    ensures
        heap.number_relation(b, a) == heap.number_relation(a, b).flipped(),
{
}

/// Numbers that are equal are one dictionary key, whatever they are held in.
pub proof fn equal_numbers_are_one_key(heap: HeapView, a: Value, b: Value)
    requires
        heap.wf(),
        heap.numeric(a),
        heap.numeric(b),
        heap.equal(a, b, 0) == Ok::<bool, Fault>(true),
    ensures
        heap.dict_key(a, 0) is Ok,
        heap.dict_key(a, 0) == heap.dict_key(b, 0),
{
    lemma_not_heap();
    if heap.is_integer(a) && heap.is_integer(b) {
    } else if heap.is_float(a) && heap.is_float(b) {
        let (x, y) = (heap.pattern(a), heap.pattern(b));
        vstd::arithmetic::power2::lemma_pow2_pos(1074);
        if is_finite(x) && is_finite(y) && fixed(x) != 0 {
            values_have_one_pattern(x, y);
        } else if is_finite(x) {
            assert(is_integral(x) && is_integral(y));
        }
    } else if heap.is_float(a) {
        lemma_whole_of(heap.integer(b)->Ok_0, heap.pattern(a));
    } else {
        lemma_whole_of(heap.integer(a)->Ok_0, heap.pattern(b));
    }
}

proof fn lemma_whole_of(n: int, bits: u64)
    requires
        integer_relation(n, bits) == Relation::Equal,
    ensures
        !is_nan(bits),
        is_integral(bits),
        whole(bits) == n,
{
    vstd::arithmetic::power2::lemma_pow2_pos(1074);
    let unit = one();
    assert(fixed(bits) == n * unit);
    vstd::arithmetic::div_mod::lemma_mod_multiples_basic(n, unit);
    if n >= 0 {
        assert(n * unit >= 0) by (nonlinear_arith)
            requires
                n >= 0,
                unit > 0,
        ;
        vstd::arithmetic::div_mod::lemma_div_by_multiple(n, unit);
    } else {
        assert(n * unit < 0 && (-n) * unit == -(n * unit)) by (nonlinear_arith)
            requires
                n < 0,
                unit > 0,
        ;
        vstd::arithmetic::div_mod::lemma_div_by_multiple(-n, unit);
    }
}

} // verus!
