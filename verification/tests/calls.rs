use tonic_runtime::calls::arguments::ExpandedArgs;
use tonic_runtime::calls::construct::ClassFacts;
use tonic_runtime::calls::equality::continue_sequence_order;
use tonic_runtime::calls::expansion::{take_argument, ArgumentPart};
use tonic_runtime::calls::frames::{CodeInfo, FrameBounds, SuperFrame, Window};
use tonic_runtime::calls::literal::{parse_int_literal, validate_int_base};
use tonic_runtime::calls::operators::method_names;
use tonic_runtime::calls::perform::{can_perform, settled};
use tonic_runtime::calls::resume::can_resume;
use tonic_runtime::calls::state::{
    ArgumentExpansion, AttributeMissing, BinaryCompletion, Continuation, DictConstructionStart,
    DictOperationKind, DictOperationStart, EqualityAction, HashAction, IndexContinuation,
    IterableCollectionKind, RangeConstruction, RuntimeTypeKind, SequenceOrder, SliceConversion,
    Step, TruthAction, TruthProtocol, UnaryProtocolKind,
};
use tonic_runtime::calls::target::World;
use tonic_runtime::diagnostic::Diagnostic;
use tonic_runtime::dict::Dict;
use tonic_runtime::format::{render, Piece};
use tonic_runtime::heap::Heap;
use tonic_runtime::object::{Builtin, Object};
use tonic_runtime::op::Op;
use tonic_runtime::value::Value;

fn small(n: i64) -> Value {
    Value::small_int(n).unwrap()
}

fn text(heap: &mut Heap, text: &str) -> Value {
    heap.allocate(Object::Str(text.to_string())).unwrap()
}

fn list(heap: &mut Heap, items: Vec<Value>) -> Value {
    heap.allocate(Object::List(items)).unwrap()
}

fn class(heap: &mut Heap, name: &str, bases: Vec<Value>) -> Value {
    let made = heap.namespace(name, bases).unwrap();
    heap.finish_class(made).unwrap();
    made
}

fn function(heap: &mut Heap, code: u16) -> Value {
    heap.allocate(Object::Function {
        code,
        execution: 1,
        captures: vec![],
        defaults: vec![],
    })
    .unwrap()
}

fn args(values: Vec<Value>) -> ExpandedArgs {
    ExpandedArgs::inline(None, values)
}

fn world() -> World {
    World {
        execution: 1,
        class_bodies: vec![false, true],
        arities: vec![2],
    }
}

/// Performs steps until one is left to the embedder; classes without methods
/// stand in for those of the operands.
fn drive(heap: &mut Heap, step: Step) -> Result<Step, Diagnostic> {
    let mut step = step;
    loop {
        step = match step {
            Step::Equality { left, right, action } => heap.invoke_equality(
                left,
                right,
                (Value::none(), Value::none()),
                action,
            )?,
            Step::Order { left, right, op, depth } => heap.invoke_order_comparison(
                (left, right),
                (Value::none(), Value::none()),
                op,
                depth,
            )?,
            other => {
                if settled(&other) {
                    return Ok(other);
                }
                assert!(can_perform(&other));
                heap.perform(other)?
            }
        };
    }
}

fn done(heap: &mut Heap, step: Step) -> Value {
    match drive(heap, step).unwrap() {
        Step::Done(value) => value,
        other => panic!("expected a result, got {other:?}"),
    }
}

fn failure(heap: &mut Heap, step: Step) -> String {
    drive(heap, step).unwrap_err().message
}

#[test]
fn equality_runs_through_nested_containers() {
    let mut heap = Heap::new();
    let a = text(&mut heap, "a");
    let b = text(&mut heap, "a");
    let x = list(&mut heap, vec![small(1), a]);
    let y = list(&mut heap, vec![small(1), b]);
    let equal = Step::Equality {
        left: x,
        right: y,
        action: EqualityAction::Return { negate: false },
    };
    assert_eq!(done(&mut heap, equal), Value::bool(true));
    let different = Step::Equality {
        left: x,
        right: a,
        action: EqualityAction::Return { negate: true },
    };
    assert_eq!(done(&mut heap, different), Value::bool(true));
    let mut deep_x = x;
    let mut deep_y = y;
    for _ in 0..40 {
        deep_x = list(&mut heap, vec![deep_x]);
        deep_y = list(&mut heap, vec![deep_y]);
    }
    let deep = Step::Equality {
        left: deep_x,
        right: deep_y,
        action: EqualityAction::Return { negate: false },
    };
    assert_eq!(drive(&mut heap, deep).unwrap_err().kind, "RecursionError");
}

#[test]
fn dictionaries_are_equal_by_entries() {
    let mut heap = Heap::new();
    let x = heap.allocate(Object::Dict(Dict::new())).unwrap();
    let y = heap.allocate(Object::Dict(Dict::new())).unwrap();
    for (key, value) in [(1, 2), (3, 4)] {
        heap.dict_set(x, small(key), small(value)).unwrap();
    }
    for (key, value) in [(3, 4), (1, 2)] {
        heap.dict_set(y, small(key), small(value)).unwrap();
    }
    let ask = |left, right| Step::Equality {
        left,
        right,
        action: EqualityAction::Return { negate: false },
    };
    assert_eq!(done(&mut heap, ask(x, y)), Value::bool(true));
    heap.dict_set(y, small(1), small(9)).unwrap();
    assert_eq!(done(&mut heap, ask(x, y)), Value::bool(false));
}

#[test]
fn lists_are_ordered_by_their_first_difference() {
    let mut heap = Heap::new();
    let x = list(&mut heap, vec![small(1), small(2)]);
    let y = list(&mut heap, vec![small(1), small(3)]);
    let ask = |op| Step::Order {
        left: x,
        right: y,
        op,
        depth: 0,
    };
    assert_eq!(done(&mut heap, ask(Op::Lt)), Value::bool(true));
    assert_eq!(done(&mut heap, ask(Op::Ge)), Value::bool(false));
    let by_length = continue_sequence_order(SequenceOrder {
        left: vec![],
        right: vec![small(1)],
        index: 0,
        op: Op::Le,
        depth: 1,
    });
    assert!(matches!(by_length, Step::Done(v) if v == Value::bool(true)));
}

#[test]
fn dictionary_operations_run_through_hashes() {
    let mut heap = Heap::new();
    let dict = heap.allocate(Object::Dict(Dict::new())).unwrap();
    let a = text(&mut heap, "key");
    let b = text(&mut heap, "key");
    let store = Step::Dict(DictOperationStart {
        owner: dict,
        key: a,
        kind: DictOperationKind::Store(small(5)),
    });
    done(&mut heap, store);
    let get = Step::Dict(DictOperationStart {
        owner: dict,
        key: b,
        kind: DictOperationKind::Get,
    });
    assert_eq!(done(&mut heap, get), small(5));
    let delete = Step::Dict(DictOperationStart {
        owner: dict,
        key: b,
        kind: DictOperationKind::Delete,
    });
    done(&mut heap, delete);
    assert_eq!(heap.dict_len(dict).unwrap(), 0);
    let missing = Step::Dict(DictOperationStart {
        owner: dict,
        key: a,
        kind: DictOperationKind::Get,
    });
    assert_eq!(drive(&mut heap, missing).unwrap_err().kind, "KeyError");
}

#[test]
fn hashes_of_equal_values_agree() {
    let mut heap = Heap::new();
    let one = heap.allocate(Object::Float(1.0f64.to_bits())).unwrap();
    let hash_of = |heap: &mut Heap, value| {
        let step = Step::Hash {
            value,
            depth: 0,
            action: HashAction::Return,
        };
        done(heap, step)
    };
    assert_eq!(hash_of(&mut heap, one), hash_of(&mut heap, small(1)));
    let x = heap.allocate(Object::Tuple(vec![one, small(2)])).unwrap();
    let y = heap.allocate(Object::Tuple(vec![small(1), small(2)])).unwrap();
    assert_eq!(hash_of(&mut heap, x), hash_of(&mut heap, y));
    let unhashable = list(&mut heap, vec![]);
    let step = Step::Hash {
        value: unhashable,
        depth: 0,
        action: HashAction::Return,
    };
    assert_eq!(drive(&mut heap, step).unwrap_err().kind, "TypeError");
}

#[test]
fn truth_asks_methods_first() {
    let mut heap = Heap::new();
    let owner = class(&mut heap, "C", vec![]);
    let method = function(&mut heap, 0);
    heap.set_attr(owner, "__bool__", method).unwrap();
    let instance = heap.instance(owner).unwrap();
    let step = drive(
        &mut heap,
        Step::Truth {
            value: instance,
            action: TruthAction::Return,
        },
    )
    .unwrap();
    let then = match step {
        Step::Call { callable, arguments, then } => {
            assert_eq!(callable, method);
            assert_eq!(arguments.values(), vec![instance]);
            then
        }
        other => panic!("expected a call, got {other:?}"),
    };
    assert!(can_resume(&then));
    assert!(matches!(
        then,
        Continuation::Truth { protocol: TruthProtocol::Bool, .. }
    ));
    let next = heap.resume(then, Ok(Value::bool(false))).unwrap();
    assert_eq!(done(&mut heap, next), Value::bool(false));
    let wrong = Continuation::Truth {
        protocol: TruthProtocol::Bool,
        action: TruthAction::Return,
    };
    assert_eq!(
        heap.resume(wrong, Ok(small(1))).unwrap_err().message,
        "__bool__ should return bool"
    );
    let jump = Step::Truth {
        value: small(0),
        action: TruthAction::Jump {
            when: false,
            target: 9,
            pc: 4,
            original: small(0),
        },
    };
    assert!(matches!(
        drive(&mut heap, jump).unwrap(),
        Step::Branch { taken: true, target: 9, pc: 4, .. }
    ));
}

#[test]
fn operators_ask_both_operands() {
    let mut heap = Heap::new();
    let left_class = class(&mut heap, "L", vec![]);
    let right_class = class(&mut heap, "R", vec![]);
    let add = function(&mut heap, 0);
    let radd = function(&mut heap, 0);
    heap.set_attr(left_class, "__add__", add).unwrap();
    heap.set_attr(right_class, "__radd__", radd).unwrap();
    let left = heap.instance(left_class).unwrap();
    let right = heap.instance(right_class).unwrap();
    assert_eq!(
        method_names(Op::Add),
        Some((None, "__add__", "__radd__"))
    );
    let state = heap
        .binary_protocol(Op::Add, (left, right), (left_class, right_class))
        .unwrap()
        .unwrap();
    assert_eq!(state.candidates.len(), 2);
    assert!(matches!(state.completion, BinaryCompletion::Value));
    let first = heap.continue_binary_protocol(state).unwrap();
    let then = match first {
        Step::Call { callable, arguments, then } => {
            assert_eq!(callable, add);
            assert_eq!(arguments.values(), vec![left, right]);
            then
        }
        other => panic!("expected a call, got {other:?}"),
    };
    let second = heap.resume(then, Ok(Value::not_implemented())).unwrap();
    let then = match drive(&mut heap, second).unwrap() {
        Step::Call { callable, arguments, then } => {
            assert_eq!(callable, radd);
            assert_eq!(arguments.values(), vec![right, left]);
            then
        }
        other => panic!("expected a call, got {other:?}"),
    };
    let refused = heap.resume(then, Ok(Value::not_implemented())).unwrap();
    assert_eq!(drive(&mut heap, refused).unwrap_err().kind, "TypeError");
}

#[test]
fn functions_get_frames_and_natives_their_arguments() {
    let mut heap = Heap::new();
    let callee = function(&mut heap, 0);
    assert!(matches!(
        heap.invoke_target(callee, args(vec![small(1)]), &world()).unwrap(),
        Step::Frame { code: 0, .. }
    ));
    let body = function(&mut heap, 1);
    assert_eq!(
        heap.invoke_target(body, args(vec![]), &world()).unwrap_err().message,
        "class body cannot be called directly"
    );
    let native = heap.allocate(Object::Native(0)).unwrap();
    assert!(matches!(
        heap.invoke_target(native, args(vec![small(1), small(2)]), &world()).unwrap(),
        Step::Native { index: 0, .. }
    ));
    assert_eq!(
        heap.invoke_target(native, args(vec![small(1)]), &world()).unwrap_err().kind,
        "TypeError"
    );
    let items = list(&mut heap, vec![]);
    assert_eq!(
        heap.invoke_target(items, args(vec![]), &world()).unwrap_err().message,
        "object is not callable"
    );
    assert_eq!(
        heap.invoke_target(small(3), args(vec![]), &world()).unwrap_err().message,
        "expected a heap object"
    );
    let method = heap
        .allocate(Object::BoundMethod { function: callee, receiver: small(7) })
        .unwrap();
    match heap.invoke_target(method, args(vec![small(1)]), &world()).unwrap() {
        Step::Frame { arguments, .. } => {
            assert_eq!(arguments.values(), vec![small(7), small(1)]);
        }
        other => panic!("expected a frame, got {other:?}"),
    }
}

#[test]
fn builtins_are_called() {
    let mut heap = Heap::new();
    let len = heap.allocate(Object::Builtin(Builtin::Len)).unwrap();
    let items = list(&mut heap, vec![small(1), small(2)]);
    let step = heap.invoke_target(len, args(vec![items]), &world()).unwrap();
    assert_eq!(done(&mut heap, step), small(2));
    let abs = heap.allocate(Object::Builtin(Builtin::Abs)).unwrap();
    let step = heap.invoke_target(abs, args(vec![small(-4)]), &world()).unwrap();
    assert_eq!(done(&mut heap, step), small(4));
    let wrong = heap.invoke_target(len, args(vec![]), &world());
    assert_eq!(wrong.unwrap_err().kind, "TypeError");
    let print = heap.allocate(Object::Builtin(Builtin::Print)).unwrap();
    let word = text(&mut heap, "hi");
    match heap.invoke_target(print, args(vec![word, small(3)]), &world()).unwrap() {
        Step::Print { pieces, failure } => {
            assert_eq!(render(&pieces, &vec![]), "hi 3\n");
            assert!(failure.is_none());
        }
        other => panic!("expected a text, got {other:?}"),
    }
}

#[test]
fn attributes_are_read_set_and_deleted() {
    let mut heap = Heap::new();
    let owner = class(&mut heap, "C", vec![]);
    let instance = heap.instance(owner).unwrap();
    let set = Step::SetAttribute {
        owner: instance,
        name: "x".to_string(),
        value: small(4),
    };
    assert_eq!(done(&mut heap, set), Value::none());
    let get = |missing| Step::Attribute {
        owner: instance,
        name: "x".to_string(),
        missing,
    };
    assert_eq!(done(&mut heap, get(AttributeMissing::Raise)), small(4));
    assert_eq!(
        done(&mut heap, get(AttributeMissing::HasAttr)),
        Value::bool(true)
    );
    let delete = Step::DeleteAttribute {
        owner: instance,
        name: "x".to_string(),
    };
    assert_eq!(done(&mut heap, delete), Value::none());
    assert_eq!(
        drive(&mut heap, get(AttributeMissing::Raise)).unwrap_err().kind,
        "AttributeError"
    );
    assert_eq!(
        done(&mut heap, get(AttributeMissing::Default(small(8)))),
        small(8)
    );
    assert_eq!(
        done(&mut heap, get(AttributeMissing::HasAttr)),
        Value::bool(false)
    );
}

#[test]
fn conversions_make_numbers_ranges_and_slices() {
    let mut heap = Heap::new();
    let range = Step::Range(RangeConstruction {
        values: vec![small(1), small(9), small(3)],
        next: 0,
    });
    let made = done(&mut heap, range);
    assert!(matches!(
        heap.get(made),
        Ok(Object::Range { start: 1, stop: 9, step: 3 })
    ));
    let zero = Step::Range(RangeConstruction {
        values: vec![small(1), small(9), small(0)],
        next: 0,
    });
    assert_eq!(failure(&mut heap, zero), "range step must not be zero");
    let items = list(&mut heap, vec![small(5), small(6), small(7)]);
    let slice = Step::Slice(SliceConversion {
        owner: items,
        start: small(1),
        stop: Value::none(),
        step: Value::none(),
        next: 0,
    });
    let part = done(&mut heap, slice);
    assert!(matches!(heap.get(part), Ok(Object::List(v)) if v == &vec![small(6), small(7)]));
    let word = text(&mut heap, "x");
    let index = Step::Index {
        source: word,
        continuation: IndexContinuation::GetItem { owner: items },
    };
    assert_eq!(
        failure(&mut heap, index),
        "object cannot be interpreted as an integer"
    );
}

#[test]
fn constructors_of_builtin_types() {
    let mut heap = Heap::new();
    let exact = class(&mut heap, "T", vec![]);
    let call = |kind, values| Step::BuiltinType {
        class: exact,
        kind,
        arguments: args(values),
        finish: None,
    };
    let word = text(&mut heap, " 12 ");
    assert_eq!(done(&mut heap, call(RuntimeTypeKind::Int, vec![word])), small(12));
    let hexadecimal = text(&mut heap, "0xff");
    assert_eq!(
        done(&mut heap, call(RuntimeTypeKind::Int, vec![hexadecimal, small(16)])),
        small(255)
    );
    assert_eq!(
        done(&mut heap, call(RuntimeTypeKind::Bool, vec![small(3)])),
        Value::bool(true)
    );
    let source = heap.allocate(Object::Tuple(vec![small(1), small(2)])).unwrap();
    let made = done(&mut heap, call(RuntimeTypeKind::List, vec![source]));
    assert!(matches!(heap.get(made), Ok(Object::List(v)) if v == &vec![small(1), small(2)]));
    match drive(&mut heap, call(RuntimeTypeKind::Float, vec![word])).unwrap() {
        Step::ParseFloat { text, .. } => assert_eq!(text.trim(), "12"),
        other => panic!("expected a text to read, got {other:?}"),
    }
    match drive(&mut heap, call(RuntimeTypeKind::Str, vec![small(12)])).unwrap() {
        Step::Text { pieces, .. } => {
            assert_eq!(pieces, vec![Piece::Char('1'), Piece::Char('2')]);
        }
        other => panic!("expected a text, got {other:?}"),
    }
    let bad = text(&mut heap, "12x");
    assert_eq!(
        drive(&mut heap, call(RuntimeTypeKind::Int, vec![bad])).unwrap_err().kind,
        "ValueError"
    );
}

#[test]
fn dictionaries_are_built_from_pairs() {
    let mut heap = Heap::new();
    let pair = heap.allocate(Object::Tuple(vec![small(1), small(2)])).unwrap();
    let source = list(&mut heap, vec![pair]);
    let result = heap.allocate(Object::Dict(Dict::new())).unwrap();
    let keyword = text(&mut heap, "k");
    let step = Step::DictFrom {
        start: DictConstructionStart {
            result,
            keywords: vec![(keyword, small(3))],
            native: None,
            return_value: None,
        },
        source,
    };
    assert_eq!(done(&mut heap, step), result);
    assert_eq!(
        heap.dict_entries(result).unwrap(),
        vec![(small(1), small(2)), (keyword, small(3))]
    );
    let short = heap.allocate(Object::Tuple(vec![small(1)])).unwrap();
    let source = list(&mut heap, vec![short]);
    let step = Step::DictFrom {
        start: DictConstructionStart {
            result,
            keywords: vec![],
            native: None,
            return_value: None,
        },
        source,
    };
    assert_eq!(
        failure(&mut heap, step),
        "dictionary update sequence element #0 has length 1; 2 is required"
    );
}

#[test]
fn iterables_are_unpacked() {
    let mut heap = Heap::new();
    let source = list(&mut heap, vec![small(4), small(5)]);
    let unpack = |count| Step::Collect {
        kind: IterableCollectionKind::Unpack { first: 3, count },
        source,
    };
    match drive(&mut heap, unpack(2)).unwrap() {
        Step::Unpack { first, items } => {
            assert_eq!(first, 3);
            assert_eq!(items, vec![small(4), small(5)]);
        }
        other => panic!("expected items, got {other:?}"),
    }
    assert_eq!(drive(&mut heap, unpack(3)).unwrap_err().kind, "ValueError");
    assert_eq!(drive(&mut heap, unpack(1)).unwrap_err().kind, "ValueError");
}

fn info() -> CodeInfo {
    CodeInfo {
        name: "f".to_string(),
        registers: 6,
        positional: 2,
        posonly: 1,
        keyword_only: 1,
        vararg: Some(3),
        kwarg: Some(4),
        defaults: vec![1],
        locals: vec!["a".to_string(), "b".to_string(), "c".to_string()],
        cell_locals: vec![],
        free_vars: vec![],
        params: 5,
    }
}

fn bounds() -> FrameBounds {
    FrameBounds {
        depth: 0,
        frames: 10,
        base: 0,
        registers: 100,
    }
}

fn enter(
    heap: &mut Heap,
    info: &CodeInfo,
    arguments: &ExpandedArgs,
    callable: Option<Value>,
) -> Result<Window, Diagnostic> {
    heap.enter_frame(info, arguments, callable, bounds())
}

#[test]
fn arguments_become_registers() {
    let mut heap = Heap::new();
    let callable = heap
        .allocate(Object::Function {
            code: 0,
            execution: 1,
            captures: vec![],
            defaults: vec![small(20)],
        })
        .unwrap();
    let mut given = args(vec![small(1)]);
    given.keyword("c".to_string(), small(3)).unwrap();
    given.keyword("extra".to_string(), small(9)).unwrap();
    let window = enter(&mut heap, &info(), &given, Some(callable)).unwrap();
    assert_eq!(window.registers.len(), 6);
    assert_eq!(window.registers[0], small(1));
    assert_eq!(window.registers[1], small(20));
    assert_eq!(window.registers[2], small(3));
    assert!(matches!(heap.get(window.registers[3]), Ok(Object::Tuple(v)) if v.is_empty()));
    assert_eq!(
        heap.dict_get_str(window.registers[4], "extra").unwrap(),
        Some(small(9))
    );
    assert_eq!(window.registers[5], Value::unbound());

    let missing = enter(&mut heap, &info(), &args(vec![small(1)]), Some(callable));
    assert_eq!(
        missing.unwrap_err().message,
        "f() missing required argument 'c'"
    );
    let mut twice = args(vec![small(1), small(2)]);
    twice.keyword("b".to_string(), small(3)).unwrap();
    assert_eq!(
        enter(&mut heap, &info(), &twice, Some(callable)).unwrap_err().message,
        "f() got multiple values for argument 'b'"
    );
    let mut plain = info();
    plain.vararg = None;
    plain.kwarg = None;
    let many = args(vec![small(1), small(2), small(3)]);
    assert_eq!(
        enter(&mut heap, &plain, &many, Some(callable)).unwrap_err().message,
        "f() accepts at most 2 positional arguments, got 3"
    );
    let mut unknown = args(vec![small(1)]);
    unknown.keyword("a".to_string(), small(3)).unwrap();
    assert_eq!(
        enter(&mut heap, &plain, &unknown, Some(callable)).unwrap_err().message,
        "f() got unexpected or positional-only keyword 'a'"
    );
    let deep = FrameBounds { depth: 10, ..bounds() };
    let refused = heap.enter_frame(&info(), &given, Some(callable), deep);
    assert_eq!(refused.unwrap_err().kind, "RecursionError");
    let narrow = FrameBounds { registers: 5, ..bounds() };
    let refused = heap.enter_frame(&info(), &given, Some(callable), narrow);
    assert_eq!(refused.unwrap_err().kind, "MemoryError");
}

#[test]
fn shared_parameters_move_to_cells() {
    let mut heap = Heap::new();
    let mut shared = info();
    shared.cell_locals = vec![0];
    shared.keyword_only = 0;
    let window = enter(&mut heap, &shared, &args(vec![small(1), small(2)]), None).unwrap();
    assert_eq!(window.registers[0], Value::unbound());
    assert_eq!(window.cells.len(), 1);
    assert_eq!(heap.cell(window.cells[0]).unwrap(), small(1));
}

#[test]
fn super_needs_a_class_cell_and_a_receiver() {
    let mut heap = Heap::new();
    let base = class(&mut heap, "Base", vec![]);
    let derived = class(&mut heap, "Derived", vec![base]);
    let instance = heap.instance(derived).unwrap();
    let cell = heap.allocate(Object::Cell(derived)).unwrap();
    let frame = SuperFrame {
        free_vars: vec!["__class__".to_string()],
        params: 1,
        cells: vec![cell],
        own_cells: 0,
        receiver: instance,
    };
    let made = heap.frame_super(&Some(frame)).unwrap();
    assert!(matches!(
        heap.get(made),
        Ok(Object::Super { start_class, receiver }) if *start_class == derived && *receiver == instance
    ));
    assert_eq!(heap.frame_super(&None).unwrap_err().kind, "RuntimeError");
}

#[test]
fn star_arguments_are_expanded() {
    let mut heap = Heap::new();
    let source = list(&mut heap, vec![small(1), small(2)]);
    let mut given = args(vec![]);
    let mut step = heap.expand_star_argument(source, Some(7)).unwrap();
    loop {
        step = match step {
            Step::Expand(state) => heap
                .continue_argument_expansion(&mut given, state, 255)
                .unwrap(),
            Step::ExpandItem { item, state } => {
                take_argument(&mut given, item, state, 255).unwrap()
            }
            Step::Expanded(pc) => {
                assert_eq!(pc, None);
                break;
            }
            other => panic!("unexpected {other:?}"),
        };
    }
    assert_eq!(given.values(), vec![small(1), small(2)]);
    assert_eq!(given.count(), 2);
    let state = ArgumentExpansion {
        iterator: Value::none(),
        resume_pc: None,
    };
    assert!(take_argument(&mut given, small(3), state, 2).is_err());
    let mapping = heap.allocate(Object::Dict(Dict::new())).unwrap();
    heap.dict_set_str(mapping, "k", small(5)).unwrap();
    heap.append_argument(&mut given, ArgumentPart::Mapping, mapping, 255).unwrap();
    assert_eq!(given.keywords, vec![("k".to_string(), small(5))]);
    assert_eq!(
        heap.append_argument(&mut given, ArgumentPart::Mapping, mapping, 255)
            .unwrap_err()
            .message,
        "multiple values for keyword argument 'k'"
    );
    let named = ArgumentPart::Named("other".to_string());
    heap.append_argument(&mut given, named, small(6), 255).unwrap();
    heap.append_argument(&mut given, ArgumentPart::Positional, small(7), 255)
        .unwrap();
    assert_eq!(given.count(), 5);
    let refused = heap.append_argument(&mut given, ArgumentPart::Positional, small(8), 5);
    assert_eq!(refused.unwrap_err().kind, "ResourceError");
    let lone = ArgumentPart::Star { lone: true };
    let refused = heap.append_argument(&mut given, lone, source, 255);
    assert_eq!(refused.unwrap_err().message, "invalid deferred argument state");
    let mut fresh = args(vec![]);
    let lone = ArgumentPart::Star { lone: true };
    heap.append_argument(&mut fresh, lone, source, 255).unwrap();
    assert_eq!(fresh.deferred_star, Some(source));
    let begun = heap
        .append_argument(&mut fresh, ArgumentPart::Star { lone: false }, source, 255)
        .unwrap();
    assert!(matches!(begun, Step::Expand(_)));
}

#[test]
fn classes_are_called_by_what_they_are() {
    let mut heap = Heap::new();
    let owner = class(&mut heap, "C", vec![]);
    let facts = ClassFacts {
        type_class: true,
        builtin: None,
        exception: false,
        metaclass: false,
        storage: None,
    };
    assert!(matches!(
        heap.invoke_class(owner, args(vec![small(1)]), facts).unwrap(),
        Step::ClassOf { .. }
    ));
    assert_eq!(
        heap.invoke_class(owner, args(vec![]), facts).unwrap_err().message,
        "type expects one or three positional arguments"
    );
    let builtin = ClassFacts {
        type_class: false,
        builtin: Some(RuntimeTypeKind::Int),
        ..facts
    };
    assert!(matches!(
        heap.invoke_class(owner, args(vec![]), builtin).unwrap(),
        Step::BuiltinType { kind: RuntimeTypeKind::Int, .. }
    ));
}

#[test]
fn unary_methods_fall_back() {
    let mut heap = Heap::new();
    let step = heap.invoke_unary_protocol(small(5), UnaryProtocolKind::Neg).unwrap();
    assert_eq!(done(&mut heap, step), small(-5));
    let owner = class(&mut heap, "C", vec![]);
    let method = function(&mut heap, 0);
    heap.set_attr(owner, "__abs__", method).unwrap();
    let instance = heap.instance(owner).unwrap();
    assert!(matches!(
        heap.invoke_unary_protocol(instance, UnaryProtocolKind::Abs).unwrap(),
        Step::Call { callable, .. } if callable == method
    ));
}

#[test]
fn integer_literals() {
    let read = |text: &str, base| parse_int_literal(text, base).map(|n| n.to_i64().unwrap());
    assert_eq!(read("42", 10), Some(42));
    assert_eq!(read(" -0b101 ", 0), Some(-5));
    assert_eq!(read("0o17", 8), Some(15));
    assert_eq!(read("zz", 36), Some(1295));
    assert_eq!(read("1_0", 10), Some(10));
    assert_eq!(read("", 10), None);
    assert_eq!(read("9", 8), None);
    assert_eq!(validate_int_base(16).unwrap(), 16);
    assert!(validate_int_base(1).is_err());
    assert!(validate_int_base(37).is_err());
}
