//! The constructors and initializers of builtin types.
use vstd::prelude::*;
use crate::calls::arguments::{ArgsView, ExpandedArgs};
use crate::calls::construct::exception_called;
use crate::calls::conversion::{bool_index, float_allocated, float_made, integer_stored};
use crate::calls::literal::{int_literal, parse_int_literal};
use crate::calls::state::{
    DictConstructionStart, DictMergeFinish, IndexContinuation, IntBaseConversion,
    IterableCollectionKind, NativeSubclassFinish, RangeConstruction, RuntimeTypeKind, Step,
    TruthAction,
};
use crate::calls::{goes, refuses};
use crate::dict::{Dict, DictView};
use crate::diagnostic::{fault, fault_text, outcome, Diagnostic, Result};
use crate::float::{finite, is_finite, truncated, whole};
use crate::heap::{no_memory, Heap, HeapView};
use crate::lookup::Outcome;
use crate::namespaces::allocates;
use crate::object::{Object, ObjectView};
use crate::text::{join3, name_pairs, same};
use crate::value::{Meaning, Value};

verus! {

/// The heap once strings were made of names, given the strings.
pub open spec fn keys_after(
    heap: HeapView,
    names: Seq<(Seq<char>, Value)>,
    keys: Seq<(Value, Value)>,
) -> HeapView
    decreases keys.len(),
{
    if keys.len() == 0 {
        heap
    } else {
        let last = keys.len() - 1;
        keys_after(heap, names, keys.drop_last()).allocated(
            keys[last].0,
            ObjectView::Str(names[last].0),
        )
    }
}

/// Whether strings were made of names in turn, each a new object.
pub open spec fn keys_fresh(
    heap: HeapView,
    names: Seq<(Seq<char>, Value)>,
    keys: Seq<(Value, Value)>,
) -> bool
    decreases keys.len(),
{
    if keys.len() == 0 {
        true
    } else {
        let last = keys.len() - 1;
        let between = keys_after(heap, names, keys.drop_last());
        &&& keys_fresh(heap, names, keys.drop_last())
        &&& between.room > 0
        &&& between.fresh(keys[last].0)
        &&& keys[last].1 == names[last].1
    }
}

/// What making strings of names does.
pub open spec fn keys_named(
    before: HeapView,
    after: HeapView,
    result: core::result::Result<Vec<(Value, Value)>, Diagnostic>,
    names: Seq<(Seq<char>, Value)>,
) -> bool {
    match result {
        Ok(keys) => keys@.len() == names.len() && keys_fresh(before, names, keys@) && after
            == keys_after(before, names, keys@),
        Err(error) => error@ == no_memory() && after.room == 0 && exists|keys: Seq<(Value, Value)>|
            #![trigger keys_after(before, names, keys)]
            keys.len() < names.len() && keys_fresh(before, names, keys) && after == keys_after(
                before,
                names,
                keys,
            ),
    }
}

/// Whether a dictionary is filled next: by a dictionary, by another iterable,
/// or by nothing but its keywords.
pub open spec fn dict_sourced(
    heap: HeapView,
    result: core::result::Result<Step, Diagnostic>,
    start: DictConstructionStart,
    source: Option<Value>,
) -> bool {
    match source {
        None => goes(result, Step::DictDone(start)),
        Some(source) => match heap.found(heap.native(source)) {
            Err(error) => refuses(result, error),
            Ok(ObjectView::Dict(dict)) => result matches Ok(Step::DictMerge(state))
                && state.target == start.result && state.entries@ == dict.entries && state.next
                == 0 && state.finish == DictMergeFinish::Construction(start),
            Ok(_) => goes(result, Step::DictFrom { start, source }),
        },
    }
}

/// What filling a dictionary does at first: strings are made of the keywords.
pub open spec fn dict_begun(
    before: HeapView,
    after: HeapView,
    result: core::result::Result<Step, Diagnostic>,
    target: Value,
    names: Seq<(Seq<char>, Value)>,
    native: Option<NativeSubclassFinish>,
    return_value: Option<Value>,
    source: Option<Value>,
) -> bool {
    exists|keys: core::result::Result<Vec<(Value, Value)>, Diagnostic>|
        #![trigger keys_named(before, after, keys, names)]
        keys_named(before, after, keys, names) && match keys {
            Err(error) => refuses(result, error@),
            Ok(keys) => dict_sourced(
                after,
                result,
                DictConstructionStart { result: target, keywords: keys, native, return_value },
                source,
            ),
        }
}

/// What the constructor of dictionaries does.
pub open spec fn dict_called(
    before: HeapView,
    after: HeapView,
    result: core::result::Result<Step, Diagnostic>,
    arguments: ArgsView,
    finish: Option<NativeSubclassFinish>,
) -> bool {
    let values = arguments.all();
    if values.len() > 1 {
        after == before && refuses(
            result,
            fault("TypeError", "dict expects at most one positional argument"),
        )
    } else {
        exists|between: HeapView, made: core::result::Result<Value, Diagnostic>|
            #![trigger allocates(before, between, made, ObjectView::Dict(DictView::empty()))]
            allocates(before, between, made, ObjectView::Dict(DictView::empty())) && match made {
                Err(error) => after == between && refuses(result, error@),
                Ok(target) => dict_begun(
                    between,
                    after,
                    result,
                    target,
                    arguments.keywords,
                    finish,
                    None,
                    if values.len() == 1 {
                        Some(values[0])
                    } else {
                        None
                    },
                ),
            }
    }
}

impl HeapView {
    /// Whether a value has a method that makes a number of it.
    pub open spec fn has_conversion(self, value: Value, name: Seq<char>) -> Outcome<bool> {
        match self.special_method_call(value, name) {
            Err(error) => Err(error),
            Ok(Some(_)) => Ok(true),
            Ok(None) => match self.special_method_call(value, "__index__"@) {
                Err(error) => Err(error),
                Ok(call) => Ok(call is Some),
            },
        }
    }
}

/// The base that the constructor of integers is given, if any.
pub open spec fn int_base(arguments: ArgsView) -> Outcome<Option<Value>> {
    let values = arguments.all();
    let keywords = arguments.keywords;
    if values.len() > 2 || keywords.len() > 1 {
        Err(fault("TypeError", "int expects at most two arguments"))
    } else if keywords.len() == 1 {
        if keywords[0].0 != "base"@ {
            Err(
                fault_text(
                    "TypeError",
                    "int got unexpected keyword '"@ + keywords[0].0 + "'"@,
                ),
            )
        } else if values.len() == 2 {
            Err(fault("TypeError", "int got multiple values for base"))
        } else {
            Ok(Some(keywords[0].1))
        }
    } else if values.len() == 2 {
        Ok(Some(values[1]))
    } else {
        Ok(None)
    }
}

/// What making an integer of a value without conversion methods does.
pub open spec fn int_stored(
    before: HeapView,
    after: HeapView,
    result: core::result::Result<Step, Diagnostic>,
    value: Value,
    finish: Option<NativeSubclassFinish>,
) -> bool {
    if value@ matches Meaning::Bool(b) {
        after == before && goes(
            result,
            Step::BuiltinValue { value: bool_index(value@->Bool_0), finish },
        )
    } else if before.is_integer(value) {
        after == before && goes(result, Step::BuiltinValue { value: before.native(value), finish })
    } else {
        match before.found(before.native(value)) {
            Err(error) => after == before && refuses(result, error),
            Ok(ObjectView::Float(bits)) => if is_finite(bits) {
                integer_stored(before, after, result, whole(bits), finish)
            } else {
                after == before && refuses(
                    result,
                    fault("OverflowError", "cannot convert float to integer"),
                )
            },
            Ok(ObjectView::Str(text)) => match int_literal(text, 10) {
                Some(n) => integer_stored(before, after, result, n, finish),
                None => after == before && refuses(
                    result,
                    fault("ValueError", "invalid literal for int"),
                ),
            },
            Ok(_) => after == before && refuses(
                result,
                fault("TypeError", "cannot convert value to int"),
            ),
        }
    }
}

/// What the constructor of integers does.
pub open spec fn int_called(
    before: HeapView,
    after: HeapView,
    result: core::result::Result<Step, Diagnostic>,
    arguments: ArgsView,
    finish: Option<NativeSubclassFinish>,
) -> bool {
    let values = arguments.all();
    match int_base(arguments) {
        Err(error) => after == before && refuses(result, error),
        Ok(Some(base)) => after == before && if values.len() == 0 {
            refuses(result, fault("TypeError", "int missing string argument when base is given"))
        } else {
            goes(
                result,
                Step::Index {
                    source: base,
                    continuation: IndexContinuation::IntBase(
                        IntBaseConversion { argument: values[0], finish },
                    ),
                },
            )
        },
        Ok(None) => if values.len() == 0 {
            after == before && goes(result, Step::BuiltinValue { value: Value::zero(), finish })
        } else {
            match before.has_conversion(values[0], "__int__"@) {
                Err(error) => after == before && refuses(result, error),
                Ok(true) => after == before && goes(
                    result,
                    Step::Numeric { source: values[0], target: RuntimeTypeKind::Int, finish },
                ),
                Ok(false) => int_stored(before, after, result, values[0], finish),
            }
        },
    }
}

/// What the constructor of binary64 numbers does.
pub open spec fn float_called(
    before: HeapView,
    after: HeapView,
    result: core::result::Result<Step, Diagnostic>,
    argument: Option<Value>,
    finish: Option<NativeSubclassFinish>,
) -> bool {
    match argument {
        None => float_allocated(before, after, result, 0, finish),
        Some(value) => match before.has_conversion(value, "__float__"@) {
            Err(error) => after == before && refuses(result, error),
            Ok(true) => after == before && goes(
                result,
                Step::Numeric { source: value, target: RuntimeTypeKind::Float, finish },
            ),
            Ok(false) => match before.at(before.native(value)) {
                Some(ObjectView::Str(text)) => after == before && (result matches Ok(
                    Step::ParseFloat { text: found, finish: f },
                ) && found@ == text && f == finish),
                _ => float_made(before, after, result, value, finish),
            },
        },
    }
}

/// The collection that the constructor of lists or tuples makes.
pub open spec fn collection_kind(
    kind: RuntimeTypeKind,
    finish: Option<NativeSubclassFinish>,
) -> IterableCollectionKind {
    match finish {
        None => if kind == RuntimeTypeKind::List {
            IterableCollectionKind::List
        } else {
            IterableCollectionKind::Tuple
        },
        Some(finish) => if kind == RuntimeTypeKind::List {
            IterableCollectionKind::NativeList(finish)
        } else {
            IterableCollectionKind::NativeTuple(finish)
        },
    }
}

/// What the constructor of a builtin type with at most one argument does.
pub open spec fn simple_called(
    before: HeapView,
    after: HeapView,
    result: core::result::Result<Step, Diagnostic>,
    kind: RuntimeTypeKind,
    argument: Option<Value>,
    finish: Option<NativeSubclassFinish>,
) -> bool {
    match kind {
        RuntimeTypeKind::List | RuntimeTypeKind::Tuple => after == before && match argument {
            None => result matches Ok(Step::Collected { kind: k, items }) && k == collection_kind(
                kind,
                finish,
            ) && items@ == Seq::<Value>::empty(),
            Some(source) => goes(
                result,
                Step::Collect { kind: collection_kind(kind, finish), source },
            ),
        },
        RuntimeTypeKind::Bool => after == before && goes(
            result,
            match argument {
                None => Step::Done(Value::of_bool(false)),
                Some(value) => Step::Truth { value, action: TruthAction::Return },
            },
        ),
        RuntimeTypeKind::Float => float_called(before, after, result, argument, finish),
        _ => after == before && match argument {
            None => result matches Ok(Step::Text { pieces, finish: f }) && pieces@ == Seq::<
                crate::format::Piece,
            >::empty() && f == finish,
            Some(value) => match before.formatted(value, false) {
                Err(error) => refuses(result, error),
                Ok(text) => result matches Ok(Step::Text { pieces, finish: f }) && pieces@ == text
                    && f == finish,
            },
        },
    }
}

/// What the constructor of a builtin type does.
pub open spec fn type_called(
    before: HeapView,
    after: HeapView,
    result: core::result::Result<Step, Diagnostic>,
    class: Value,
    kind: RuntimeTypeKind,
    arguments: ArgsView,
    finish: Option<NativeSubclassFinish>,
) -> bool {
    let values = arguments.all();
    match kind {
        RuntimeTypeKind::Range => after == before && if arguments.keywords.len() != 0
            || values.len() < 1 || values.len() > 3 {
            refuses(result, fault("TypeError", "range expects 1 to 3 positional arguments"))
        } else {
            result matches Ok(Step::Range(state)) && state.values@ == values && state.next == 0
        },
        RuntimeTypeKind::Int => int_called(before, after, result, arguments, finish),
        RuntimeTypeKind::Dict => dict_called(before, after, result, arguments, finish),
        RuntimeTypeKind::Exception => after == before && if arguments.keywords.len() != 0 {
            refuses(result, fault("TypeError", "exception types do not accept keyword arguments"))
        } else {
            exception_called(before, result, class, ArgsView::of(None, values), false)
        },
        _ => if arguments.keywords.len() != 0 || values.len() > 1 {
            after == before && refuses(
                result,
                fault("TypeError", "builtin type accepts at most one positional argument"),
            )
        } else {
            simple_called(
                before,
                after,
                result,
                kind,
                if values.len() == 1 {
                    Some(values[0])
                } else {
                    None
                },
                finish,
            )
        },
    }
}

impl Heap {
    /// Makes strings of names.
    fn name_keys(&mut self, names: &Vec<(String, Value)>) -> (r: Result<Vec<(Value, Value)>>)
        requires
            old(self).wf(),
        ensures
            final(self).wf(),
            keys_named(old(self)@, final(self)@, r, name_pairs(names@)),
            old(self)@.sound() ==> final(self)@.sound(),
    {
        let ghost before = self@;
        let ghost views = name_pairs(names@);
        let mut keys: Vec<(Value, Value)> = Vec::new();
        let mut i: usize = 0;
        while i < names.len()
            invariant
                self.wf(),
                before == old(self)@,
                views == name_pairs(names@),
                i <= names.len(),
                keys@.len() == i,
                keys_fresh(before, views, keys@),
                self@ == keys_after(before, views, keys@),
                before.sound() ==> self@.sound(),
            decreases names.len() - i,
        {
            let ghost held = keys@;
            match self.allocate(Object::Str(names[i].0.clone())) {
                Ok(key) => {
                    keys.push((key, names[i].1));
                    assert(keys@.drop_last() =~= held);
                    assert(views[i as int] == (names@[i as int].0@, names@[i as int].1));
                },
                Err(error) => {
                    assert(held.len() < views.len() && keys_fresh(before, views, held) && self@
                        == keys_after(before, views, held));
                    return Err(error);
                },
            }
            i += 1;
        }
        Ok(keys)
    }

    /// Fills a dictionary with what is given first, and with keywords.
    pub(crate) fn begin_dict(
        &mut self,
        target: Value,
        names: &Vec<(String, Value)>,
        native: Option<NativeSubclassFinish>,
        return_value: Option<Value>,
        source: Option<Value>,
    ) -> (r: Result<Step>)
        requires
            old(self).wf(),
        ensures
            final(self).wf(),
            dict_begun(
                old(self)@,
                final(self)@,
                r,
                target,
                name_pairs(names@),
                native,
                return_value,
                source,
            ),
            old(self)@.sound() ==> final(self)@.sound(),
    {
        let ghost before = self@;
        let keys = self.name_keys(names);
        assert(keys_named(before, self@, keys, name_pairs(names@)));
        let keywords = match keys {
            Ok(keys) => keys,
            Err(error) => {
                return Err(error);
            },
        };
        let start = DictConstructionStart { result: target, keywords, native, return_value };
        let source = match source {
            None => {
                return Ok(Step::DictDone(start));
            },
            Some(source) => source,
        };
        let mapping = match self.get(self.native_value(source))? {
            Object::Dict(_) => true,
            _ => false,
        };
        if mapping {
            return self.invoke_dict_merge(target, source, DictMergeFinish::Construction(start));
        }
        Ok(Step::DictFrom { start, source })
    }

    fn call_dict(&mut self, arguments: &ExpandedArgs, finish: Option<NativeSubclassFinish>) -> (r:
        Result<Step>)
        requires
            old(self).wf(),
        ensures
            final(self).wf(),
            dict_called(old(self)@, final(self)@, r, arguments@, finish),
            old(self)@.sound() ==> final(self)@.sound(),
    {
        let ghost before = self@;
        let values = arguments.values();
        if values.len() > 1 {
            return Err(
                Diagnostic::new("TypeError", "dict expects at most one positional argument"),
            );
        }
        let dict = Dict::new();
        proof {
            dict.lemma_view_wf();
        }
        let made = self.allocate(Object::Dict(dict));
        assert(allocates(before, self@, made, ObjectView::Dict(DictView::empty())));
        let target = match made {
            Ok(target) => target,
            Err(error) => {
                return Err(error);
            },
        };
        let source = if values.len() == 1 {
            Some(values[0])
        } else {
            None
        };
        self.begin_dict(target, &arguments.keywords, finish, None, source)
    }

    fn has_conversion(&self, value: Value, name: &str) -> (r: Result<bool>)
        requires
            self.wf(),
        ensures
            outcome(r) == self@.has_conversion(value, name@),
    {
        if self.special_method_call(value, name)?.is_some() {
            return Ok(true);
        }
        Ok(self.special_method_call(value, "__index__")?.is_some())
    }

    fn store_int(&mut self, value: Value, finish: Option<NativeSubclassFinish>) -> (r: Result<Step>)
        requires
            old(self).wf(),
        ensures
            final(self).wf(),
            int_stored(old(self)@, final(self)@, r, value, finish),
            old(self)@.sound() ==> final(self)@.sound(),
    {
        if let Some(b) = value.as_bool() {
            let value = if b {
                Value::one()
            } else {
                Value::zero()
            };
            return Ok(Step::BuiltinValue { value, finish });
        }
        if self.is_integer(value) {
            return Ok(Step::BuiltinValue { value: self.native_value(value), finish });
        }
        let n = match self.get(self.native_value(value))? {
            Object::Float(bits) => {
                if !finite(*bits) {
                    return Err(
                        Diagnostic::new("OverflowError", "cannot convert float to integer"),
                    );
                }
                truncated(*bits)
            },
            Object::Str(text) => match parse_int_literal(text.as_str(), 10) {
                Some(n) => n,
                None => {
                    return Err(Diagnostic::new("ValueError", "invalid literal for int"));
                },
            },
            _ => {
                return Err(Diagnostic::new("TypeError", "cannot convert value to int"));
            },
        };
        self.store_integer(n, finish)
    }

    fn call_int(&mut self, arguments: &ExpandedArgs, finish: Option<NativeSubclassFinish>) -> (r:
        Result<Step>)
        requires
            old(self).wf(),
        ensures
            final(self).wf(),
            int_called(old(self)@, final(self)@, r, arguments@, finish),
            old(self)@.sound() ==> final(self)@.sound(),
    {
        let values = arguments.values();
        let count = arguments.keywords.len();
        assert(arguments@.keywords.len() == count);
        if values.len() > 2 || count > 1 {
            return Err(Diagnostic::new("TypeError", "int expects at most two arguments"));
        }
        let mut base = if values.len() == 2 {
            Some(values[1])
        } else {
            None
        };
        if count == 1 {
            let name = arguments.keywords[0].0.as_str();
            assert(arguments@.keywords[0] == (name@, arguments.keywords@[0].1));
            if !same(name, "base") {
                return Err(
                    Diagnostic::with_text(
                        "TypeError",
                        join3("int got unexpected keyword '", name, "'"),
                    ),
                );
            }
            if base.is_some() {
                return Err(Diagnostic::new("TypeError", "int got multiple values for base"));
            }
            base = Some(arguments.keywords[0].1);
        }
        if let Some(source) = base {
            if values.len() == 0 {
                return Err(
                    Diagnostic::new("TypeError", "int missing string argument when base is given"),
                );
            }
            return Ok(
                Step::Index {
                    source,
                    continuation: IndexContinuation::IntBase(
                        IntBaseConversion { argument: values[0], finish },
                    ),
                },
            );
        }
        if values.len() == 0 {
            return Ok(Step::BuiltinValue { value: Value::zero(), finish });
        }
        let source = values[0];
        if self.has_conversion(source, "__int__")? {
            return Ok(Step::Numeric { source, target: RuntimeTypeKind::Int, finish });
        }
        self.store_int(source, finish)
    }

    fn call_float(&mut self, argument: Option<Value>, finish: Option<NativeSubclassFinish>) -> (r:
        Result<Step>)
        requires
            old(self).wf(),
        ensures
            final(self).wf(),
            float_called(old(self)@, final(self)@, r, argument, finish),
            old(self)@.sound() ==> final(self)@.sound(),
    {
        let source = match argument {
            None => {
                return self.store_float(0, finish);
            },
            Some(source) => source,
        };
        if self.has_conversion(source, "__float__")? {
            return Ok(Step::Numeric { source, target: RuntimeTypeKind::Float, finish });
        }
        if let Some(Object::Str(text)) = self.try_get(self.native_value(source)) {
            return Ok(Step::ParseFloat { text: text.clone(), finish });
        }
        self.make_float(source, finish)
    }

    fn call_simple(
        &mut self,
        kind: RuntimeTypeKind,
        argument: Option<Value>,
        finish: Option<NativeSubclassFinish>,
    ) -> (r: Result<Step>)
        requires
            old(self).wf(),
        ensures
            final(self).wf(),
            simple_called(old(self)@, final(self)@, r, kind, argument, finish),
            old(self)@.sound() ==> final(self)@.sound(),
    {
        match kind {
            RuntimeTypeKind::List | RuntimeTypeKind::Tuple => {
                let list = kind == RuntimeTypeKind::List;
                let kind = match finish {
                    None => if list {
                        IterableCollectionKind::List
                    } else {
                        IterableCollectionKind::Tuple
                    },
                    Some(finish) => if list {
                        IterableCollectionKind::NativeList(finish)
                    } else {
                        IterableCollectionKind::NativeTuple(finish)
                    },
                };
                match argument {
                    None => Ok(Step::Collected { kind, items: Vec::new() }),
                    Some(source) => Ok(Step::Collect { kind, source }),
                }
            },
            RuntimeTypeKind::Bool => match argument {
                None => Ok(Step::Done(Value::bool(false))),
                Some(value) => Ok(Step::Truth { value, action: TruthAction::Return }),
            },
            RuntimeTypeKind::Float => self.call_float(argument, finish),
            _ => match argument {
                None => Ok(Step::Text { pieces: Vec::new(), finish }),
                Some(value) => {
                    let pieces = self.format(value, false)?;
                    Ok(Step::Text { pieces, finish })
                },
            },
        }
    }

    /// Calls a builtin type.
    pub fn invoke_builtin_type(
        &mut self,
        class: Value,
        kind: RuntimeTypeKind,
        arguments: ExpandedArgs,
        finish: Option<NativeSubclassFinish>,
    ) -> (r: Result<Step>)
        requires
            old(self).wf(),
        ensures
            final(self).wf(),
            type_called(old(self)@, final(self)@, r, class, kind, arguments@, finish),
            old(self)@.sound() ==> final(self)@.sound(),
    {
        let values = arguments.values();
        let keywords = arguments.keywords.len();
        assert(arguments@.keywords.len() == keywords);
        match kind {
            RuntimeTypeKind::Range => {
                if keywords != 0 || values.len() < 1 || values.len() > 3 {
                    return Err(
                        Diagnostic::new("TypeError", "range expects 1 to 3 positional arguments"),
                    );
                }
                Ok(Step::Range(RangeConstruction { values, next: 0 }))
            },
            RuntimeTypeKind::Int => self.call_int(&arguments, finish),
            RuntimeTypeKind::Dict => self.call_dict(&arguments, finish),
            RuntimeTypeKind::Exception => {
                if keywords != 0 {
                    return Err(
                        Diagnostic::new(
                            "TypeError",
                            "exception types do not accept keyword arguments",
                        ),
                    );
                }
                let message = self.exception_message(&values)?;
                Ok(
                    Step::Exception {
                        class,
                        arguments: ExpandedArgs::inline(None, values),
                        user: false,
                        message,
                    },
                )
            },
            _ => {
                if keywords != 0 || values.len() > 1 {
                    return Err(
                        Diagnostic::new(
                            "TypeError",
                            "builtin type accepts at most one positional argument",
                        ),
                    );
                }
                let argument = if values.len() == 1 {
                    Some(values[0])
                } else {
                    None
                };
                self.call_simple(kind, argument, finish)
            },
        }
    }

    /// Stores a text.
    pub fn finish_text(&mut self, text: String, finish: Option<NativeSubclassFinish>) -> (r: Result<
        Step,
    >)
        requires
            old(self).wf(),
        ensures
            final(self).wf(),
            crate::calls::collect::stored(
                old(self)@,
                final(self)@,
                r,
                ObjectView::Str(text@),
                finish,
            ),
            old(self)@.sound() ==> final(self)@.sound(),
    {
        self.store(Object::Str(text), finish)
    }
}

} // verus!
