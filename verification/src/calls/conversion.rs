//! Conversions to indices, ranges, slices and numbers.
use vstd::prelude::*;
use crate::attributes::answers;
use crate::calls::dicts::changes;
use crate::calls::literal::{
    int_literal, invalid_base, invalid_int_base, parse_int_literal, validate_int_base,
};
use crate::calls::known::{index_known, slice_known};
use crate::calls::state::{
    Continuation, IndexContinuation, IntBaseConversion, NativeSubclassFinish, NumericConversion,
    NumericConversionKind, RangeConstruction, RuntimeTypeKind, SliceConversion, Step,
};
use crate::calls::{call_step, calls, goes, refuses, value_of};
use crate::diagnostic::{fault, outcome, Diagnostic, Fault, Result};
use crate::heap::{Heap, HeapView};
use crate::integer::Integer;
use crate::lookup::{DescriptorCall, Outcome};
use crate::namespaces::allocates;
use crate::object::{Object, ObjectView};
use crate::sequence::yields;
use crate::storage::integer_made;
use crate::value::{lemma_not_heap, Meaning, Value};

verus! {

/// A truth value as an integer.
pub open spec fn bool_index(b: bool) -> Value {
    if b {
        Value::one()
    } else {
        Value::zero()
    }
}

/// Whether builtin storage, or the failure to make it, is handed on.
pub open spec fn builtin_made(
    result: core::result::Result<Step, Diagnostic>,
    made: core::result::Result<Value, Diagnostic>,
    finish: Option<NativeSubclassFinish>,
) -> bool {
    match made {
        Ok(value) => goes(result, Step::BuiltinValue { value, finish }),
        Err(error) => refuses(result, error@),
    }
}

impl HeapView {
    /// What an index method may return.
    pub open spec fn index_result(self, value: Value, message: &str) -> Outcome<Value> {
        match value@ {
            Meaning::Bool(b) => Ok(bool_index(b)),
            _ => if self.is_integer(value) {
                Ok(self.native(value))
            } else {
                Err(fault("TypeError", message))
            },
        }
    }

    /// An integer of 64 bits.
    pub open spec fn word(self, value: Value) -> Outcome<i64> {
        match self.integer(value) {
            Ok(n) => if i64::MIN <= n <= i64::MAX {
                Ok(n as i64)
            } else {
                Err(fault("OverflowError", "integer does not fit i64"))
            },
            Err(error) => Err(error),
        }
    }

    /// The start, stop and step that one to three arguments give a range.
    pub open spec fn range_of(self, values: Seq<Value>) -> Outcome<(i64, i64, i64)> {
        match self.word(values[0]) {
            Err(error) => Err(error),
            Ok(first) => if values.len() == 1 {
                Ok((0i64, first, 1i64))
            } else {
                match self.word(values[1]) {
                    Err(error) => Err(error),
                    Ok(second) => if values.len() == 2 {
                        Ok((first, second, 1i64))
                    } else {
                        match self.word(values[2]) {
                            Err(error) => Err(error),
                            Ok(third) => Ok((first, second, third)),
                        }
                    },
                }
            },
        }
    }

    /// The integer that a string spells in a base.
    pub open spec fn based_integer(self, base: Value, argument: Value) -> Outcome<int> {
        match self.integer(base) {
            Err(error) => Err(error),
            Ok(b) => if b != 0 && !(2 <= b <= 36) {
                Err(invalid_base())
            } else {
                match self.found(self.native(argument)) {
                    Err(error) => Err(error),
                    Ok(ObjectView::Str(text)) => match int_literal(text, b) {
                        Some(n) => Ok(n),
                        None => Err(fault("ValueError", "invalid literal for int")),
                    },
                    Ok(_) => Err(fault("TypeError", "int with explicit base requires a string")),
                }
            },
        }
    }

    /// The method that converts a value to a number.
    pub open spec fn numeric_method(self, source: Value, target: RuntimeTypeKind) -> Outcome<
        Option<(DescriptorCall, NumericConversionKind)>,
    > {
        let own = if target == RuntimeTypeKind::Int {
            "__int__"@
        } else {
            "__float__"@
        };
        match self.special_method_call(source, own) {
            Err(error) => Err(error),
            Ok(Some(call)) => Ok(
                Some(
                    (
                        call,
                        if target == RuntimeTypeKind::Int {
                            NumericConversionKind::Int
                        } else {
                            NumericConversionKind::Float
                        },
                    ),
                ),
            ),
            Ok(None) => match self.special_method_call(source, "__index__"@) {
                Err(error) => Err(error),
                Ok(Some(call)) => Ok(
                    Some(
                        (
                            call,
                            if target == RuntimeTypeKind::Int {
                                NumericConversionKind::IndexToInt
                            } else {
                                NumericConversionKind::IndexToFloat
                            },
                        ),
                    ),
                ),
                Ok(None) => Ok(None),
            },
        }
    }
}

impl SliceConversion {
    /// The component at a position.
    pub open spec fn at(self, i: int) -> Value {
        if i == 0 {
            self.start
        } else if i == 1 {
            self.stop
        } else {
            self.step
        }
    }

    /// The conversion with the next component converted.
    pub open spec fn converted(self, value: Value) -> SliceConversion {
        let next = (self.next + 1) as usize;
        if self.next == 0 {
            SliceConversion { start: value, next, ..self }
        } else if self.next == 1 {
            SliceConversion { stop: value, next, ..self }
        } else {
            SliceConversion { step: value, next, ..self }
        }
    }

    /// The next component that is there, three where none is.
    pub open spec fn pending(self, from: int) -> int
        decreases 3 - from,
    {
        if from >= 3 {
            3
        } else if self.at(from) == Value::none() {
            self.pending(from + 1)
        } else {
            from
        }
    }
}

/// Whether an index is wanted for something that it can be put to.
pub open spec fn index_ready(continuation: IndexContinuation) -> bool {
    match continuation {
        IndexContinuation::Range(state) => state.next < state.values@.len(),
        IndexContinuation::Slice(state) => state.next < 3,
        _ => true,
    }
}

/// See [`index_ready`].
pub fn index_in_range(continuation: &IndexContinuation) -> (r: bool)
    ensures
        r == index_ready(*continuation),
{
    match continuation {
        IndexContinuation::Range(state) => state.next < state.values.len(),
        IndexContinuation::Slice(state) => state.next < 3,
        _ => true,
    }
}

/// What is done with an index.
pub open spec fn indexed_done(
    before: HeapView,
    after: HeapView,
    result: core::result::Result<Step, Diagnostic>,
    value: Value,
    continuation: IndexContinuation,
) -> bool {
    match continuation {
        IndexContinuation::Length => match before.length_result(value) {
            Err(error) => after == before && refuses(result, error),
            Ok(n) => value_of(result) matches Some(made) && integer_made(before, after, n, made),
        },
        IndexContinuation::Truth(action) => after == before && match before.length_result(value) {
            Err(error) => refuses(result, error),
            Ok(n) => goes(result, Step::ApplyTruth { truth: n != 0, action }),
        },
        IndexContinuation::Range(state) => after == before && (result matches Ok(Step::Range(next))
            && next.values@ == state.values@.update(state.next as int, value) && next.next
            == state.next + 1),
        IndexContinuation::IntBase(state) => match before.based_integer(value, state.argument) {
            Err(error) => after == before && refuses(result, error),
            Ok(n) => integer_stored(before, after, result, n, state.finish),
        },
        IndexContinuation::GetItem { owner } => value_of(result) matches Some(made) && yields(
            before,
            after,
            made,
            before.item(owner, value),
        ),
        IndexContinuation::SetItem { owner, value: item } => changes(
            after,
            result,
            before.set_item(owner, value, item),
            Step::Done(Value::none()),
        ),
        IndexContinuation::DelItem { owner } => changes(
            after,
            result,
            before.delete_item(owner, value),
            Step::Done(Value::none()),
        ),
        IndexContinuation::Slice(state) => after == before && goes(
            result,
            Step::Slice(state.converted(value)),
        ),
    }
}

/// What the result of an index method does.
pub open spec fn index_finished(
    before: HeapView,
    after: HeapView,
    result: core::result::Result<Step, Diagnostic>,
    value: Value,
    continuation: IndexContinuation,
) -> bool {
    match before.index_result(value, "__index__ returned a non-integer value") {
        Err(error) => after == before && refuses(result, error),
        Ok(index) => indexed_done(before, after, result, index, continuation),
    }
}

/// What reading a slice does.
pub open spec fn slice_read(
    before: HeapView,
    after: HeapView,
    result: core::result::Result<Step, Diagnostic>,
    state: SliceConversion,
) -> bool {
    exists|between: HeapView, made: core::result::Result<Value, Diagnostic>|
        #![trigger allocates(
            before,
            between,
            made,
            ObjectView::Slice { start: state.start, stop: state.stop, step: state.step },
        )]
        allocates(
            before,
            between,
            made,
            ObjectView::Slice { start: state.start, stop: state.stop, step: state.step },
        ) && match made {
            Err(error) => after == between && refuses(result, error@),
            Ok(slice) => value_of(result) matches Some(item) && yields(
                between,
                after,
                item,
                between.item(state.owner, slice),
            ),
        }
}

/// What the result of a conversion method does.
pub open spec fn numeric_finished(
    before: HeapView,
    after: HeapView,
    result: core::result::Result<Step, Diagnostic>,
    value: Value,
    state: NumericConversion,
) -> bool {
    match state.kind {
        NumericConversionKind::Int | NumericConversionKind::IndexToInt => after == before
            && match before.index_result(value, "integer conversion method must return int") {
            Err(error) => refuses(result, error),
            Ok(index) => goes(
                result,
                Step::BuiltinValue { value: index, finish: state.finish },
            ),
        },
        NumericConversionKind::Float => after == before && if before.is_float(value) {
            goes(
                result,
                Step::BuiltinValue { value: before.native(value), finish: state.finish },
            )
        } else {
            refuses(result, fault("TypeError", "__float__ must return float"))
        },
        NumericConversionKind::IndexToFloat => match before.index_result(
            value,
            "__index__ must return int",
        ) {
            Err(error) => after == before && refuses(result, error),
            Ok(index) => float_made(before, after, result, index, state.finish),
        },
    }
}

/// What making a binary64 number of a number does.
pub open spec fn float_made(
    before: HeapView,
    after: HeapView,
    result: core::result::Result<Step, Diagnostic>,
    value: Value,
    finish: Option<NativeSubclassFinish>,
) -> bool {
    exists|bits: core::result::Result<u64, Fault>|
        #![trigger before.is_float_of(value, bits)]
        before.is_float_of(value, bits) && match bits {
            Err(error) => after == before && refuses(result, error),
            Ok(bits) => float_allocated(before, after, result, bits, finish),
        }
}

/// What storing an integer does.
pub open spec fn integer_stored(
    before: HeapView,
    after: HeapView,
    result: core::result::Result<Step, Diagnostic>,
    n: int,
    finish: Option<NativeSubclassFinish>,
) -> bool {
    exists|made: core::result::Result<Value, Diagnostic>|
        #![trigger integer_made(before, after, n, made)]
        integer_made(before, after, n, made) && builtin_made(result, made, finish)
}

/// What making a binary64 number does.
pub open spec fn float_allocated(
    before: HeapView,
    after: HeapView,
    result: core::result::Result<Step, Diagnostic>,
    bits: u64,
    finish: Option<NativeSubclassFinish>,
) -> bool {
    exists|made: core::result::Result<Value, Diagnostic>|
        #![trigger allocates(before, after, made, ObjectView::Float(bits))]
        allocates(before, after, made, ObjectView::Float(bits)) && builtin_made(
            result,
            made,
            finish,
        )
}

/// What putting a subclass instance over builtin storage does.
pub open spec fn builtin_finished(
    before: HeapView,
    after: HeapView,
    result: core::result::Result<Step, Diagnostic>,
    value: Value,
    finish: Option<NativeSubclassFinish>,
) -> bool {
    match finish {
        None => after == before && goes(result, Step::Done(value)),
        Some(finish) => exists|made: core::result::Result<Value, Diagnostic>|
            #![trigger answers(before, after, made, before.new_instance(finish.class, Some(value)))]
            answers(before, after, made, before.new_instance(finish.class, Some(value)))
                && match made {
                Err(error) => refuses(result, error@),
                Ok(instance) => goes(
                    result,
                    match finish.initialize {
                        Some(arguments) => Step::New { class: finish.class, instance, arguments },
                        None => Step::Done(instance),
                    },
                ),
            },
    }
}

/// What asking for an integer index leads to.
pub open spec fn index_asked(
    before: HeapView,
    after: HeapView,
    result: core::result::Result<Step, Diagnostic>,
    source: Value,
    continuation: IndexContinuation,
) -> bool {
    if source@ is Bool || before.is_integer(source) {
        match before.index_result(source, "__index__ returned a non-integer value") {
            Err(error) => false,
            Ok(index) => index_finished(
                before,
                after,
                result,
                index,
                continuation,
            ),
        }
    } else {
        after == before && match before.special_method_call(
            source,
            "__index__"@,
        ) {
            Err(error) => refuses(result, error),
            Ok(None) => refuses(
                result,
                fault("TypeError", "object cannot be interpreted as an integer"),
            ),
            Ok(Some(call)) => calls(
                result,
                call,
                Seq::empty(),
                Continuation::Index(continuation),
            ),
        }
    }
}

/// What comes next in making a range.
pub open spec fn range_continued(
    before: HeapView,
    after: HeapView,
    result: core::result::Result<Step, Diagnostic>,
    state: RangeConstruction,
) -> bool {
    if state.next < state.values@.len() {
        after == before && goes(
            result,
            Step::Index {
                source: state.values@[state.next as int],
                continuation: IndexContinuation::Range(state),
            },
        )
    } else {
        match before.range_of(state.values@) {
            Err(error) => after == before && refuses(result, error),
            Ok((start, stop, step)) => if step == 0 {
                after == before && refuses(
                    result,
                    fault("ValueError", "range step must not be zero"),
                )
            } else {
                value_of(result) matches Some(made) && allocates(
                    before,
                    after,
                    made,
                    ObjectView::Range { start, stop, step },
                )
            },
        }
    }
}

/// What comes next in reading a slice.
pub open spec fn slice_continued(
    before: HeapView,
    after: HeapView,
    result: core::result::Result<Step, Diagnostic>,
    state: SliceConversion,
) -> bool {
    let at = state.pending(state.next as int);
    if at < 3 {
        after == before && goes(
            result,
            Step::Index {
                source: state.at(at),
                continuation: IndexContinuation::Slice(
                    (SliceConversion { next: at as usize, ..state }),
                ),
            },
        )
    } else {
        slice_read(before, after, result, state)
    }
}

/// What converting to a number leads to.
pub open spec fn numeric_asked(
    heap: HeapView,
    result: core::result::Result<Step, Diagnostic>,
    source: Value,
    target: RuntimeTypeKind,
    finish: Option<NativeSubclassFinish>,
) -> bool {
    match heap.numeric_method(source, target) {
        Err(error) => refuses(result, error),
        Ok(Some((call, kind))) => calls(
            result,
            call,
            Seq::empty(),
            Continuation::Numeric(NumericConversion { kind, finish }),
        ),
        Ok(None) => if target == RuntimeTypeKind::Int {
            if heap.is_integer(source) {
                goes(result, Step::BuiltinValue { value: heap.native(source), finish })
            } else {
                refuses(result, fault("TypeError", "cannot convert value to int"))
            }
        } else if heap.is_float(source) {
            goes(result, Step::BuiltinValue { value: heap.native(source), finish })
        } else {
            refuses(result, fault("TypeError", "cannot convert value to float"))
        },
    }
}

impl Heap {
    /// What an index method may return.
    pub fn normalize_index_result(&self, value: Value, message: &str) -> (r: Result<Value>)
        requires
            self.wf(),
        ensures
            outcome(r) == self@.index_result(value, message),
    {
        match value.as_bool() {
            Some(b) => Ok(
                if b {
                    Value::one()
                } else {
                    Value::zero()
                },
            ),
            None => if self.is_integer(value) {
                Ok(self.native_value(value))
            } else {
                Err(Diagnostic::new("TypeError", message))
            },
        }
    }

    /// Converts a value to an index, by its method where it is no integer.
    pub fn invoke_index_conversion(&mut self, source: Value, continuation: IndexContinuation) -> (r:
        Result<Step>)
        requires
            old(self).wf(),
            index_ready(continuation),
        ensures
            final(self).wf(),
            index_asked(old(self)@, final(self)@, r, source, continuation),
            old(self)@.sound() && index_known(old(self)@, continuation) ==> final(self)@.sound(),
    {
        if source.as_bool().is_some() || self.is_integer(source) {
            let index = self.normalize_index_result(
                source,
                "__index__ returned a non-integer value",
            )?;
            return self.finish_index_conversion(index, continuation);
        }
        match self.special_method_call(source, "__index__")? {
            Some(call) => {
                let none: Vec<Value> = Vec::new();
                assert(none@ =~= Seq::<Value>::empty());
                Ok(call_step(call, none, Continuation::Index(continuation)))
            },
            None => Err(
                Diagnostic::new("TypeError", "object cannot be interpreted as an integer"),
            ),
        }
    }

    /// Takes what an index method returned to what it was wanted for.
    pub fn finish_index_conversion(&mut self, value: Value, continuation: IndexContinuation) -> (r:
        Result<Step>)
        requires
            old(self).wf(),
            index_ready(continuation),
        ensures
            final(self).wf(),
            index_finished(old(self)@, final(self)@, r, value, continuation),
            old(self)@.sound() && index_known(old(self)@, continuation) ==> final(self)@.sound(),
    {
        let index = self.normalize_index_result(value, "__index__ returned a non-integer value")?;
        proof {
            self.lemma_view();
            lemma_not_heap();
            assert(self@.known(index));
        }
        match continuation {
            IndexContinuation::Length => match self.validate_length(index) {
                Ok(length) => Ok(Step::Done(length)),
                Err(error) => Err(error),
            },
            IndexContinuation::Truth(action) => {
                let n = self.checked_length(index)?;
                Ok(Step::ApplyTruth { truth: n != 0, action })
            },
            IndexContinuation::Range(state) => {
                let mut state = state;
                state.values.set(state.next, index);
                assert(state.values.len() <= usize::MAX);
                state.next = state.next + 1;
                Ok(Step::Range(state))
            },
            IndexContinuation::IntBase(state) => self.finish_int_base(index, state),
            IndexContinuation::GetItem { owner } => match self.item(owner, index) {
                Ok(item) => Ok(Step::Done(item)),
                Err(error) => Err(error),
            },
            IndexContinuation::SetItem { owner, value: item } => {
                self.set_item(owner, index, item)?;
                Ok(Step::Done(Value::none()))
            },
            IndexContinuation::DelItem { owner } => {
                self.delete_item(owner, index)?;
                Ok(Step::Done(Value::none()))
            },
            IndexContinuation::Slice(state) => {
                let mut state = state;
                if state.next == 0 {
                    state.start = index;
                } else if state.next == 1 {
                    state.stop = index;
                } else {
                    state.step = index;
                }
                state.next = state.next + 1;
                Ok(Step::Slice(state))
            },
        }
    }

    /// Makes an integer of a string and a base.
    fn finish_int_base(&mut self, base: Value, state: IntBaseConversion) -> (r: Result<Step>)
        requires
            old(self).wf(),
        ensures
            final(self).wf(),
            match old(self)@.based_integer(base, state.argument) {
                Err(error) => final(self)@ == old(self)@ && refuses(r, error),
                Ok(n) => integer_stored(old(self)@, final(self)@, r, n, state.finish),
            },
            old(self)@.sound() ==> final(self)@.sound(),
    {
        let ghost before = self@;
        let radix = match self.integer(base)?.to_i64() {
            Some(n) => validate_int_base(n)?,
            None => {
                return Err(invalid_int_base());
            },
        };
        let n = match self.get(self.native_value(state.argument))? {
            Object::Str(text) => match parse_int_literal(text.as_str(), radix) {
                Some(n) => n,
                None => {
                    return Err(Diagnostic::new("ValueError", "invalid literal for int"));
                },
            },
            _ => {
                return Err(
                    Diagnostic::new("TypeError", "int with explicit base requires a string"),
                );
            },
        };
        assert(before.based_integer(base, state.argument) == Ok::<int, Fault>(n@));
        self.store_integer(n, state.finish)
    }

    /// Stores an integer.
    pub fn store_integer(&mut self, n: Integer, finish: Option<NativeSubclassFinish>) -> (r: Result<
        Step,
    >)
        requires
            old(self).wf(),
        ensures
            final(self).wf(),
            integer_stored(old(self)@, final(self)@, r, n@, finish),
            old(self)@.sound() ==> final(self)@.sound(),
    {
        let ghost before = self@;
        let ghost number = n@;
        let made = self.int_value(n);
        assert(integer_made(before, self@, number, made));
        match made {
            Ok(value) => Ok(Step::BuiltinValue { value, finish }),
            Err(error) => Err(error),
        }
    }

    /// Converts the next argument of a range, or makes the range.
    pub fn continue_range_construction(&mut self, state: RangeConstruction) -> (r: Result<Step>)
        requires
            old(self).wf(),
            1 <= state.values@.len() <= 3,
        ensures
            final(self).wf(),
            range_continued(old(self)@, final(self)@, r, state),
            old(self)@.sound() ==> final(self)@.sound(),
    {
        if state.next < state.values.len() {
            let source = state.values[state.next];
            return Ok(Step::Index { source, continuation: IndexContinuation::Range(state) });
        }
        let first = self.to_i64(state.values[0])?;
        let mut start: i64 = 0;
        let mut stop: i64 = first;
        let mut step: i64 = 1;
        if state.values.len() > 1 {
            start = first;
            stop = self.to_i64(state.values[1])?;
        }
        if state.values.len() == 3 {
            step = self.to_i64(state.values[2])?;
        }
        if step == 0 {
            return Err(Diagnostic::new("ValueError", "range step must not be zero"));
        }
        match self.allocate(Object::Range { start, stop, step }) {
            Ok(value) => Ok(Step::Done(value)),
            Err(error) => Err(error),
        }
    }

    /// Converts the next component of a slice, or reads the slice.
    pub fn continue_slice_conversion(&mut self, state: SliceConversion) -> (r: Result<Step>)
        requires
            old(self).wf(),
            state.next <= 3,
        ensures
            final(self).wf(),
            slice_continued(old(self)@, final(self)@, r, state),
            old(self)@.sound() && slice_known(old(self)@, state) ==> final(self)@.sound(),
    {
        let ghost before = self@;
        let mut at: usize = state.next;
        while at < 3
            invariant
                self.wf(),
                self@ == before,
                before == old(self)@,
                at <= 3,
                state.pending(state.next as int) == state.pending(at as int),
            decreases 3 - at,
        {
            let source = if at == 0 {
                state.start
            } else if at == 1 {
                state.stop
            } else {
                state.step
            };
            if source != Value::none() {
                let mut state = state;
                state.next = at;
                return Ok(Step::Index { source, continuation: IndexContinuation::Slice(state) });
            }
            at += 1;
        }
        self.read_slice(state)
    }

    /// Reads a slice whose components are converted.
    fn read_slice(&mut self, state: SliceConversion) -> (r: Result<Step>)
        requires
            old(self).wf(),
        ensures
            final(self).wf(),
            slice_read(old(self)@, final(self)@, r, state),
            old(self)@.sound() && slice_known(old(self)@, state) ==> final(self)@.sound(),
    {
        let ghost before = self@;
        let made = self.allocate(
            Object::Slice { start: state.start, stop: state.stop, step: state.step },
        );
        let ghost between = self@;
        assert(allocates(
            before,
            between,
            made,
            ObjectView::Slice { start: state.start, stop: state.stop, step: state.step },
        ));
        match made {
            Err(error) => Err(error),
            Ok(slice) => match self.item(state.owner, slice) {
                Ok(item) => Ok(Step::Done(item)),
                Err(error) => Err(error),
            },
        }
    }

    /// Converts a value to a number, by its methods first.
    pub fn invoke_numeric_conversion(
        &self,
        source: Value,
        target: RuntimeTypeKind,
        finish: Option<NativeSubclassFinish>,
    ) -> (r: Result<Step>)
        requires
            self.wf(),
            target == RuntimeTypeKind::Int || target == RuntimeTypeKind::Float,
        ensures
            numeric_asked(self@, r, source, target, finish),
    {
        let to_int = target == RuntimeTypeKind::Int;
        let none: Vec<Value> = Vec::new();
        assert(none@ =~= Seq::<Value>::empty());
        let own = if to_int {
            "__int__"
        } else {
            "__float__"
        };
        if let Some(call) = self.special_method_call(source, own)? {
            let kind = if to_int {
                NumericConversionKind::Int
            } else {
                NumericConversionKind::Float
            };
            return Ok(
                call_step(call, none, Continuation::Numeric(NumericConversion { kind, finish })),
            );
        }
        if let Some(call) = self.special_method_call(source, "__index__")? {
            let kind = if to_int {
                NumericConversionKind::IndexToInt
            } else {
                NumericConversionKind::IndexToFloat
            };
            return Ok(
                call_step(call, none, Continuation::Numeric(NumericConversion { kind, finish })),
            );
        }
        if to_int {
            if self.is_integer(source) {
                return Ok(Step::BuiltinValue { value: self.native_value(source), finish });
            }
            return Err(Diagnostic::new("TypeError", "cannot convert value to int"));
        }
        if self.is_float(source) {
            return Ok(Step::BuiltinValue { value: self.native_value(source), finish });
        }
        Err(Diagnostic::new("TypeError", "cannot convert value to float"))
    }

    /// Takes what a conversion method returned.
    pub fn finish_numeric_conversion(&mut self, value: Value, state: NumericConversion) -> (r: Result<
        Step,
    >)
        requires
            old(self).wf(),
        ensures
            final(self).wf(),
            numeric_finished(old(self)@, final(self)@, r, value, state),
            old(self)@.sound() ==> final(self)@.sound(),
    {
        match state.kind {
            NumericConversionKind::Int | NumericConversionKind::IndexToInt => {
                let index = self.normalize_index_result(
                    value,
                    "integer conversion method must return int",
                )?;
                Ok(Step::BuiltinValue { value: index, finish: state.finish })
            },
            NumericConversionKind::Float => {
                if !self.is_float(value) {
                    return Err(Diagnostic::new("TypeError", "__float__ must return float"));
                }
                Ok(Step::BuiltinValue { value: self.native_value(value), finish: state.finish })
            },
            NumericConversionKind::IndexToFloat => {
                let index = self.normalize_index_result(value, "__index__ must return int")?;
                self.make_float(index, state.finish)
            },
        }
    }

    /// Makes a binary64 number of a number.
    pub fn make_float(&mut self, value: Value, finish: Option<NativeSubclassFinish>) -> (r: Result<
        Step,
    >)
        requires
            old(self).wf(),
        ensures
            final(self).wf(),
            float_made(old(self)@, final(self)@, r, value, finish),
            old(self)@.sound() ==> final(self)@.sound(),
    {
        let ghost before = self@;
        let bits = match self.float(value) {
            Ok(bits) => bits,
            Err(error) => {
                assert(before.is_float_of(value, Err(error@)));
                return Err(error);
            },
        };
        assert(before.is_float_of(value, Ok(bits)));
        self.store_float(bits, finish)
    }

    /// Stores a binary64 number.
    pub fn store_float(&mut self, bits: u64, finish: Option<NativeSubclassFinish>) -> (r: Result<
        Step,
    >)
        requires
            old(self).wf(),
        ensures
            final(self).wf(),
            float_allocated(old(self)@, final(self)@, r, bits, finish),
            old(self)@.sound() ==> final(self)@.sound(),
    {
        let ghost before = self@;
        let made = self.allocate(Object::Float(bits));
        assert(allocates(before, self@, made, ObjectView::Float(bits)));
        match made {
            Ok(value) => Ok(Step::BuiltinValue { value, finish }),
            Err(error) => Err(error),
        }
    }

    /// Puts a subclass instance over builtin storage, where one is wanted.
    pub fn finish_builtin_value(&mut self, value: Value, finish: Option<NativeSubclassFinish>) -> (r:
        Result<Step>)
        requires
            old(self).wf(),
        ensures
            final(self).wf(),
            builtin_finished(old(self)@, final(self)@, r, value, finish),
            old(self)@.sound() && old(self)@.known(value) ==> final(self)@.sound(),
    {
        match finish {
            None => Ok(Step::Done(value)),
            Some(finish) => {
                let instance = self.native_instance(finish.class, value)?;
                match finish.initialize {
                    Some(arguments) => Ok(
                        Step::New { class: finish.class, instance, arguments },
                    ),
                    None => Ok(Step::Done(instance)),
                }
            },
        }
    }
}

} // verus!
