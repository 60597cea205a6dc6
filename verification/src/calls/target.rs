//! Calls of any callable.
use vstd::prelude::*;
use crate::attributes::answers;
use crate::calls::arguments::{ArgsView, ExpandedArgs};
use crate::calls::construct::{native_new_kind, new_kind, ClassFacts};
use crate::calls::hashes::{hash_kind, hashed, native_hash_kind, typed_hash};
use crate::calls::known::{
    arguments_known, lemma_bound_known, lemma_positional_known, lemma_property_known,
};
use crate::calls::operators::{unary_asked, unary_fallen};
use crate::calls::print::prints;
use crate::calls::state::{AttributeMissing, Continuation, HashAction, Step, UnaryProtocolKind};
use crate::calls::{call_step, calls, goes, refuses, value_of};
use crate::diagnostic::{fault, fault_text, outcome, Diagnostic, Fault, Result};
use crate::edges::optional;
use crate::hashing::{hash_u64, word_hash};
use crate::heap::{Heap, HeapView};
use crate::lookup::{DescriptorCall, Outcome};
use crate::namespaces::allocates;
use crate::object::{Builtin, Object, ObjectView};
use crate::sequence::yields;
use crate::soundness::reading::special_calls_are_known;
use crate::text::{decimal, decimal_usize, join3};
use crate::value::Value;

verus! {

/// What a call needs to know of the program that runs.
#[derive(Debug)]
pub struct World {
    /// The execution that functions must belong to.
    pub execution: u64,
    /// For each code object, whether it is the body of a class.
    pub class_bodies: Vec<bool>,
    /// For each native function, how many arguments it takes.
    pub arities: Vec<usize>,
}

impl World {
    /// Whether a function of the current execution has a code object, and a
    /// native function an arity.
    pub open spec fn knows(&self, heap: HeapView, value: Value) -> bool {
        match heap.at(value) {
            Some(ObjectView::Function { code, execution, .. }) => execution == self.execution
                ==> code < self.class_bodies@.len(),
            Some(ObjectView::Native(index)) => index < self.arities@.len(),
            _ => true,
        }
    }

    /// See [`World::knows`].
    pub fn covers(&self, heap: &Heap, value: Value) -> (r: bool)
        requires
            heap.wf(),
        ensures
            r == self.knows(heap@, value),
    {
        match heap.try_get(value) {
            Some(Object::Function { code, execution, .. }) => *execution != self.execution
                || (*code as usize) < self.class_bodies.len(),
            Some(Object::Native(index)) => *index < self.arities.len(),
            _ => true,
        }
    }
}

/// What is said of a value that cannot be called.
pub open spec fn not_callable() -> Fault {
    fault("TypeError", "object is not callable")
}

impl HeapView {
    /// What a callable redirects its call to, if it does.
    pub open spec fn redirected(self, callee: Value) -> Outcome<Option<DescriptorCall>> {
        match self.found(callee) {
            Err(error) => Err(error),
            Ok(ObjectView::StaticMethod(function)) => Ok(
                Some(DescriptorCall { callable: function, receiver: None }),
            ),
            Ok(ObjectView::BoundMethod { function, receiver }) => Ok(
                Some(DescriptorCall { callable: function, receiver: Some(receiver) }),
            ),
            Ok(object) => if object.class_of() is Some {
                match self.special_method_call(callee, "__call__"@) {
                    Err(error) => Err(error),
                    Ok(None) => Err(not_callable()),
                    Ok(Some(call)) => Ok(Some(call)),
                }
            } else {
                Ok(None)
            },
        }
    }

    /// Where a call ends once every redirection was followed, and with which
    /// receiver.
    pub open spec fn resolved(self, callee: Value, receiver: Option<Value>, redirects: int) -> Outcome<
        DescriptorCall,
    >
        decreases 101 - redirects,
    {
        match self.redirected(callee) {
            Err(error) => Err(error),
            Ok(None) => Ok(DescriptorCall { callable: callee, receiver }),
            Ok(Some(call)) => if redirects >= 100 {
                Err(fault("RecursionError", "callable protocol chain is too deep"))
            } else if call.receiver is Some && receiver is Some {
                Err(fault("BytecodeError", "duplicate bound receiver"))
            } else {
                self.resolved(
                    call.callable,
                    if call.receiver is Some {
                        call.receiver
                    } else {
                        receiver
                    },
                    redirects + 1,
                )
            },
        }
    }
}

/// Whether a builtin reads, sets or deletes attributes.
pub open spec fn is_attribute_builtin(builtin: Builtin) -> bool {
    match builtin {
        Builtin::GetAttr => true,
        Builtin::SetAttr => true,
        Builtin::DelAttr => true,
        Builtin::HasAttr => true,
        Builtin::ObjectGetAttribute => true,
        Builtin::ObjectSetAttr => true,
        Builtin::ObjectDelAttr => true,
        Builtin::TypeGetAttribute => true,
        Builtin::TypeSetAttr => true,
        Builtin::TypeDelAttr => true,
        _ => false,
    }
}

/// See [`is_attribute_builtin`].
fn attribute_builtin(builtin: Builtin) -> (r: bool)
    ensures
        r == is_attribute_builtin(builtin),
{
    match builtin {
        Builtin::GetAttr
        | Builtin::SetAttr
        | Builtin::DelAttr
        | Builtin::HasAttr
        | Builtin::ObjectGetAttribute
        | Builtin::ObjectSetAttr
        | Builtin::ObjectDelAttr
        | Builtin::TypeGetAttribute
        | Builtin::TypeSetAttr
        | Builtin::TypeDelAttr => true,
        _ => false,
    }
}

/// Whether an attribute builtin takes so many arguments.
pub open spec fn attribute_arity(builtin: Builtin, count: int) -> bool {
    match builtin {
        Builtin::GetAttr => count == 2 || count == 3,
        Builtin::SetAttr => count == 3,
        Builtin::ObjectSetAttr => count == 3,
        Builtin::TypeSetAttr => count == 3,
        _ => count == 2,
    }
}

/// Whether an attribute operation comes next.
pub open spec fn attribute_next(
    result: core::result::Result<Step, Diagnostic>,
    builtin: Builtin,
    values: Seq<Value>,
    name: Seq<char>,
) -> bool {
    let owner = values[0];
    match builtin {
        Builtin::GetAttr => result matches Ok(Step::Attribute { owner: o, name: n, missing })
            && o == owner && n@ == name && missing == if values.len() == 3 {
            AttributeMissing::Default(values[2])
        } else {
            AttributeMissing::Raise
        },
        Builtin::HasAttr => result matches Ok(Step::Attribute { owner: o, name: n, missing })
            && o == owner && n@ == name && missing == AttributeMissing::HasAttr,
        Builtin::SetAttr => result matches Ok(Step::SetAttribute { owner: o, name: n, value })
            && o == owner && n@ == name && value == values[2],
        Builtin::DelAttr => result matches Ok(Step::DeleteAttribute { owner: o, name: n }) && o
            == owner && n@ == name,
        Builtin::ObjectGetAttribute | Builtin::TypeGetAttribute => result matches Ok(
            Step::DefaultAttribute { owner: o, name: n },
        ) && o == owner && n@ == name,
        Builtin::ObjectSetAttr | Builtin::TypeSetAttr => result matches Ok(
            Step::DefaultSet { owner: o, name: n, value },
        ) && o == owner && n@ == name && value == values[2],
        _ => result matches Ok(Step::DefaultDelete { owner: o, name: n }) && o == owner && n@
            == name,
    }
}

/// What an attribute builtin does.
pub open spec fn attribute_called(
    heap: HeapView,
    result: core::result::Result<Step, Diagnostic>,
    builtin: Builtin,
    arguments: ArgsView,
) -> bool {
    let values = arguments.all();
    let on_class = heap.is_class(values[0]);
    if arguments.keywords.len() != 0 {
        refuses(result, fault("TypeError", "attribute builtin does not accept keyword arguments"))
    } else if !attribute_arity(builtin, values.len() as int) {
        refuses(result, fault("TypeError", "invalid attribute builtin arity"))
    } else if (builtin == Builtin::TypeGetAttribute || builtin == Builtin::TypeSetAttr || builtin
        == Builtin::TypeDelAttr) && !on_class {
        refuses(result, fault("TypeError", "type attribute descriptor requires a class object"))
    } else if (builtin == Builtin::ObjectSetAttr || builtin == Builtin::ObjectDelAttr)
        && on_class {
        refuses(
            result,
            fault("TypeError", "object attribute mutation does not accept a class object"),
        )
    } else {
        match heap.at(values[1]) {
            Some(ObjectView::Str(name)) => attribute_next(result, builtin, values, name),
            _ => refuses(result, fault("TypeError", "attribute name must be a string")),
        }
    }
}

/// What a value stands for where none means nothing.
pub open spec fn given(values: Seq<Value>, i: int) -> Option<Value> {
    if i < values.len() && values[i] != Value::none() {
        Some(values[i])
    } else {
        None
    }
}

/// Whether a builtin is called at once.
pub open spec fn is_plain(builtin: Builtin) -> bool {
    new_kind(builtin) is None && hash_kind(builtin) is None && !is_attribute_builtin(builtin)
        && builtin != Builtin::ListInit && builtin != Builtin::DictInit && builtin
        != Builtin::TypeNew && builtin != Builtin::Hash && builtin != Builtin::ObjectHash
}

/// What a builtin does that is called at once.
pub open spec fn plain_called(
    before: HeapView,
    after: HeapView,
    result: core::result::Result<Step, Diagnostic>,
    builtin: Builtin,
    arguments: ArgsView,
) -> bool {
    let values = arguments.all();
    let named = arguments.keywords.len() != 0;
    if builtin != Builtin::Print && builtin != Builtin::ObjectInit && named {
        after == before && refuses(
            result,
            fault("TypeError", "builtin does not accept keyword arguments"),
        )
    } else {
        match builtin {
            Builtin::Print => after == before && match before.separators(arguments.keywords) {
                Err(error) => refuses(result, error),
                Ok(separators) => prints(result, before.printed(values, separators)),
            },
            Builtin::ObjectNew => after == before && if values.len() != 1 {
                refuses(
                    result,
                    fault("TypeError", "object.__new__ expects one class argument"),
                )
            } else {
                goes(result, Step::ObjectNew { class: values[0] })
            },
            Builtin::ObjectInit => after == before && if values.len() == 0 {
                refuses(result, fault("TypeError", "object.__init__ expects an instance"))
            } else if values.len() != 1 || named {
                goes(result, Step::ObjectInit { instance: values[0] })
            } else {
                goes(result, Step::Done(Value::none()))
            },
            Builtin::Super => if values.len() == 0 {
                after == before && goes(result, Step::Super)
            } else if values.len() == 2 {
                value_of(result) matches Some(made) && answers(
                    before,
                    after,
                    made,
                    before.super_value(values[0], values[1]),
                )
            } else {
                after == before && refuses(
                    result,
                    fault("TypeError", "super() expects zero or two arguments"),
                )
            },
            Builtin::Property => if values.len() > 3 {
                after == before && refuses(
                    result,
                    fault("TypeError", "property expects at most three arguments"),
                )
            } else {
                value_of(result) matches Some(made) && allocates(
                    before,
                    after,
                    made,
                    ObjectView::Property {
                        getter: given(values, 0),
                        setter: given(values, 1),
                        deleter: given(values, 2),
                    },
                )
            },
            Builtin::StaticMethod | Builtin::ClassMethod => if values.len() != 1 {
                after == before && refuses(
                    result,
                    fault("TypeError", "method descriptor expects one argument"),
                )
            } else {
                value_of(result) matches Some(made) && allocates(
                    before,
                    after,
                    made,
                    if builtin == Builtin::StaticMethod {
                        ObjectView::StaticMethod(values[0])
                    } else {
                        ObjectView::ClassMethod(values[0])
                    },
                )
            },
            Builtin::IsInstance | Builtin::IsSubclass => after == before && if values.len() != 2 {
                refuses(result, fault("TypeError", "type check expects two arguments"))
            } else {
                goes(
                    result,
                    Step::InstanceCheck {
                        value: values[0],
                        class: values[1],
                        subclass: builtin == Builtin::IsSubclass,
                    },
                )
            },
            _ => if values.len() != 1 {
                after == before && refuses(
                    result,
                    fault("TypeError", "builtin expects one argument"),
                )
            } else if builtin == Builtin::Len {
                value_of(result) matches Some(made) && yields(
                    before,
                    after,
                    made,
                    before.length(values[0]),
                )
            } else {
                value_of(result) matches Some(made) && unary_fallen(
                    before,
                    after,
                    made,
                    UnaryProtocolKind::Abs,
                    values[0],
                )
            },
        }
    }
}

/// What a hash builtin does.
pub open spec fn hash_called(
    heap: HeapView,
    result: core::result::Result<Step, Diagnostic>,
    builtin: Builtin,
    arguments: ArgsView,
) -> bool {
    let values = arguments.all();
    if arguments.keywords.len() != 0 || values.len() != 1 {
        refuses(result, fault("TypeError", "hash operation expects one argument"))
    } else {
        match builtin {
            Builtin::Hash => goes(
                result,
                Step::Hash { value: values[0], depth: 0, action: HashAction::Return },
            ),
            Builtin::ObjectHash => hashed(result, word_hash(values[0].0), HashAction::Return),
            _ => typed_hash(
                heap,
                result,
                hash_kind(builtin).unwrap(),
                values[0],
                0,
                HashAction::Return,
            ),
        }
    }
}

/// What calling a builtin does.
pub open spec fn builtin_called(
    before: HeapView,
    after: HeapView,
    result: core::result::Result<Step, Diagnostic>,
    builtin: Builtin,
    arguments: ArgsView,
) -> bool {
    let values = arguments.all();
    let single = arguments.keywords.len() == 0 && values.len() == 1;
    if new_kind(builtin) is Some {
        after == before && (result matches Ok(Step::NativeNew { kind, arguments: a }) && Some(kind)
            == new_kind(builtin) && a@ == arguments)
    } else if builtin == Builtin::ListInit || builtin == Builtin::DictInit {
        after == before && (result matches Ok(
            Step::NativeInit { builtin: b, arguments: a, result: value },
        ) && b == builtin && a@ == arguments && value == Value::none())
    } else if builtin == Builtin::TypeNew {
        after == before && (result matches Ok(Step::TypeNew { arguments: a }) && a@ == arguments)
    } else if builtin == Builtin::Hash || builtin == Builtin::ObjectHash || hash_kind(
        builtin,
    ) is Some {
        after == before && hash_called(before, result, builtin, arguments)
    } else if is_attribute_builtin(builtin) {
        after == before && attribute_called(before, result, builtin, arguments)
    } else if builtin == Builtin::Abs && single {
        unary_asked(before, after, result, values[0], UnaryProtocolKind::Abs)
    } else if builtin == Builtin::Len && single {
        match before.special_method_call(values[0], "__len__"@) {
            Err(error) => after == before && refuses(result, error),
            Ok(Some(call)) => after == before && calls(
                result,
                call,
                Seq::empty(),
                Continuation::Length,
            ),
            Ok(None) => plain_called(before, after, result, builtin, arguments),
        }
    } else {
        plain_called(before, after, result, builtin, arguments)
    }
}

/// What is said of a native function that got another number of arguments than
/// it takes.
pub open spec fn native_arity(arity: usize, count: int) -> Fault {
    fault_text(
        "TypeError",
        "native function expects "@ + decimal(arity as int) + " arguments, got "@ + decimal(count),
    )
}

/// What a property decorator does: the property with another accessor.
pub open spec fn decorated(
    before: HeapView,
    after: HeapView,
    result: core::result::Result<Step, Diagnostic>,
    property: Value,
    arguments: ArgsView,
    deletes: bool,
) -> bool {
    let values = arguments.all();
    if values.len() != 1 || arguments.keywords.len() != 0 {
        after == before && refuses(
            result,
            if deletes {
                fault("TypeError", "property deleter decorator expects one argument")
            } else {
                fault("TypeError", "property setter decorator expects one argument")
            },
        )
    } else {
        match before.found(property) {
            Err(error) => after == before && refuses(result, error),
            Ok(ObjectView::Property { getter, setter, deleter }) => value_of(result) matches Some(
                made,
            ) && allocates(
                before,
                after,
                made,
                if deletes {
                    ObjectView::Property { getter, setter, deleter: Some(values[0]) }
                } else {
                    ObjectView::Property { getter, setter: Some(values[0]), deleter }
                },
            ),
            Ok(_) => after == before && refuses(
                result,
                if deletes {
                    fault("TypeError", "invalid property deleter")
                } else {
                    fault("TypeError", "invalid property setter")
                },
            ),
        }
    }
}

/// What calling the end of every redirection does.
pub open spec fn resolved_called(
    before: HeapView,
    after: HeapView,
    result: core::result::Result<Step, Diagnostic>,
    callee: Value,
    arguments: ArgsView,
    world: World,
) -> bool {
    let values = arguments.all();
    match before.at(callee) {
        Some(ObjectView::PropertyDeleter(property)) => decorated(
            before,
            after,
            result,
            property,
            arguments,
            true,
        ),
        Some(ObjectView::PropertySetter(property)) => decorated(
            before,
            after,
            result,
            property,
            arguments,
            false,
        ),
        Some(ObjectView::Class(_)) => after == before && (result matches Ok(
            Step::Class { class, arguments: a },
        ) && class == callee && a@ == arguments),
        Some(ObjectView::Function { code, execution, .. }) => after == before && if execution
            != world.execution {
            refuses(
                result,
                fault("RuntimeError", "callable belongs to a previous module execution"),
            )
        } else if world.class_bodies@[code as int] {
            refuses(result, fault("BytecodeError", "class body cannot be called directly"))
        } else {
            result matches Ok(Step::Frame { code: c, callable, arguments: a }) && c == code
                && callable == callee && a@ == arguments
        },
        Some(ObjectView::Builtin(builtin)) => builtin_called(
            before,
            after,
            result,
            builtin,
            arguments,
        ),
        Some(ObjectView::Native(index)) => after == before && if arguments.keywords.len() != 0 {
            refuses(
                result,
                fault(
                    "TypeError",
                    "registered native function does not accept keyword arguments",
                ),
            )
        } else if values.len() != world.arities@[index as int] {
            refuses(result, native_arity(world.arities@[index as int], values.len() as int))
        } else {
            result matches Ok(Step::Native { index: i, arguments: a }) && i == index && a@ == values
        },
        _ => after == before && refuses(result, not_callable()),
    }
}

/// What a call does.
pub open spec fn target_called(
    before: HeapView,
    after: HeapView,
    result: core::result::Result<Step, Diagnostic>,
    callee: Value,
    arguments: ArgsView,
    world: World,
) -> bool {
    if arguments.invalid_keywords.len() != 0 {
        after == before && refuses(result, fault("TypeError", "keywords must be strings"))
    } else {
        match before.resolved(callee, arguments.receiver, 0) {
            Err(error) => after == before && refuses(result, error),
            Ok(end) => resolved_called(
                before,
                after,
                result,
                end.callable,
                ArgsView { receiver: end.receiver, ..arguments },
                world,
            ),
        }
    }
}

fn given_value(values: &Vec<Value>, i: usize) -> (r: Option<Value>)
    ensures
        r == given(values@, i as int),
{
    if i < values.len() && values[i] != Value::none() {
        Some(values[i])
    } else {
        None
    }
}

/// The receiver that a call ends with is known.
proof fn lemma_resolved_known(
    heap: HeapView,
    callee: Value,
    receiver: Option<Value>,
    redirects: int,
)
    requires
        heap.wf(),
        heap.sound(),
        receiver matches Some(value) ==> heap.known(value),
    ensures
        heap.resolved(callee, receiver, redirects) matches Ok(end) ==> (end.receiver matches Some(
            value,
        ) ==> heap.known(value)),
    decreases 101 - redirects,
{
    if let Ok(Some(call)) = heap.redirected(callee) {
        if let Some(ObjectView::BoundMethod { function, receiver: held }) = heap.at(callee) {
            assert(heap.objects[callee].edges()[1] == held);
            assert(heap.objects[callee].edges().contains(held));
        }
        special_calls_are_known(heap, callee, "__call__"@);
        if redirects < 100 {
            lemma_resolved_known(
                heap,
                call.callable,
                if call.receiver is Some {
                    call.receiver
                } else {
                    receiver
                },
                redirects + 1,
            );
        }
    }
}

/// The accessors of a property are known.
proof fn lemma_accessors_known(heap: HeapView, property: Value)
    requires
        heap.sound(),
        heap.at(property) matches Some(ObjectView::Property { .. }),
    ensures
        heap.objects[property]->Property_getter matches Some(value) ==> heap.known(value),
        heap.objects[property]->Property_setter matches Some(value) ==> heap.known(value),
        heap.objects[property]->Property_deleter matches Some(value) ==> heap.known(value),
{
    let object = heap.objects[property];
    let edges = object.edges();
    assert forall|i: int| 0 <= i < edges.len() implies heap.known(#[trigger] edges[i]) by {
        assert(edges.contains(edges[i]));
    }
    let first = optional(object->Property_getter);
    let second = first + optional(object->Property_setter);
    if let Some(value) = object->Property_getter {
        assert(edges[0] == value);
    }
    if let Some(value) = object->Property_setter {
        assert(edges[first.len() as int] == value);
    }
    if let Some(value) = object->Property_deleter {
        assert(edges[second.len() as int] == value);
    }
}

impl Heap {
    fn redirect(&self, callee: Value) -> (r: Result<Option<DescriptorCall>>)
        requires
            self.wf(),
        ensures
            outcome(r) == self@.redirected(callee),
    {
        match self.get(callee)? {
            Object::StaticMethod(function) => Ok(
                Some(DescriptorCall { callable: *function, receiver: None }),
            ),
            Object::BoundMethod { function, receiver } => Ok(
                Some(DescriptorCall { callable: *function, receiver: Some(*receiver) }),
            ),
            object => {
                if object.instance_class().is_none() {
                    return Ok(None);
                }
                match self.special_method_call(callee, "__call__")? {
                    Some(call) => Ok(Some(call)),
                    None => Err(Diagnostic::new("TypeError", "object is not callable")),
                }
            },
        }
    }

    /// Follows every redirection of a call.
    pub fn resolve_target(&self, callee: Value, receiver: Option<Value>) -> (r: Result<
        DescriptorCall,
    >)
        requires
            self.wf(),
        ensures
            outcome(r) == self@.resolved(callee, receiver, 0),
            r matches Ok(end) ==> self@.live(end.callable),
    {
        let mut end = DescriptorCall { callable: callee, receiver };
        let mut redirects: usize = 0;
        loop
            invariant
                self.wf(),
                redirects <= 100,
                self@.resolved(callee, receiver, 0) == self@.resolved(
                    end.callable,
                    end.receiver,
                    redirects as int,
                ),
            decreases 101 - redirects,
        {
            let call = match self.redirect(end.callable)? {
                Some(call) => call,
                None => {
                    return Ok(end);
                },
            };
            if redirects >= 100 {
                return Err(
                    Diagnostic::new("RecursionError", "callable protocol chain is too deep"),
                );
            }
            if call.receiver.is_some() {
                if end.receiver.is_some() {
                    return Err(Diagnostic::new("BytecodeError", "duplicate bound receiver"));
                }
                end.receiver = call.receiver;
            }
            redirects += 1;
            end.callable = call.callable;
        }
    }

    /// Calls a value.
    pub fn invoke_target(&mut self, callee: Value, arguments: ExpandedArgs, world: &World) -> (r: Result<
        Step,
    >)
        requires
            old(self).wf(),
            arguments@.invalid_keywords.len() == 0 ==> (old(self)@.resolved(
                callee,
                arguments@.receiver,
                0,
            ) matches Ok(end) ==> world.knows(old(self)@, end.callable)),
        ensures
            final(self).wf(),
            target_called(old(self)@, final(self)@, r, callee, arguments@, *world),
            old(self)@.sound() && arguments_known(old(self)@, arguments@) ==> final(self)@.sound(),
    {
        if arguments.invalid_keywords.len() != 0 {
            return Err(Diagnostic::new("TypeError", "keywords must be strings"));
        }
        let end = self.resolve_target(callee, arguments.receiver)?;
        proof {
            self.lemma_view();
            if self@.sound() && arguments_known(self@, arguments@) {
                lemma_positional_known(self@, arguments@);
                lemma_resolved_known(self@, callee, arguments@.receiver, 0);
                lemma_bound_known(self@, arguments@, end.receiver);
            }
        }
        let mut bound = arguments;
        bound.receiver = end.receiver;
        self.call_resolved(end.callable, bound, world)
    }

    fn decorate(&mut self, property: Value, arguments: &ExpandedArgs, deletes: bool) -> (r: Result<
        Step,
    >)
        requires
            old(self).wf(),
        ensures
            final(self).wf(),
            decorated(old(self)@, final(self)@, r, property, arguments@, deletes),
            old(self)@.sound() && arguments_known(old(self)@, arguments@) ==> final(self)@.sound(),
    {
        let values = arguments.values();
        assert(arguments@.keywords.len() == arguments.keywords.len());
        if values.len() != 1 || arguments.keywords.len() != 0 {
            return Err(
                if deletes {
                    Diagnostic::new("TypeError", "property deleter decorator expects one argument")
                } else {
                    Diagnostic::new("TypeError", "property setter decorator expects one argument")
                },
            );
        }
        let object = match self.get(property)? {
            Object::Property { getter, setter, deleter } => if deletes {
                Object::Property { getter: *getter, setter: *setter, deleter: Some(values[0]) }
            } else {
                Object::Property { getter: *getter, setter: Some(values[0]), deleter: *deleter }
            },
            _ => {
                return Err(
                    if deletes {
                        Diagnostic::new("TypeError", "invalid property deleter")
                    } else {
                        Diagnostic::new("TypeError", "invalid property setter")
                    },
                );
            },
        };
        proof {
            if self@.sound() && arguments_known(self@, arguments@) {
                lemma_positional_known(self@, arguments@);
                assert(self@.known(arguments@.all()[0]));
                lemma_accessors_known(self@, property);
                lemma_property_known(
                    self@,
                    object@->Property_getter,
                    object@->Property_setter,
                    object@->Property_deleter,
                );
            }
        }
        match self.allocate(object) {
            Ok(value) => Ok(Step::Done(value)),
            Err(error) => Err(error),
        }
    }

    fn call_resolved(&mut self, callee: Value, arguments: ExpandedArgs, world: &World) -> (r: Result<
        Step,
    >)
        requires
            old(self).wf(),
            world.knows(old(self)@, callee),
            old(self)@.live(callee),
        ensures
            final(self).wf(),
            resolved_called(old(self)@, final(self)@, r, callee, arguments@, *world),
            old(self)@.sound() && arguments_known(old(self)@, arguments@) ==> final(self)@.sound(),
    {
        assert(arguments@.keywords.len() == arguments.keywords.len());
        match self.get(callee)? {
            Object::PropertyDeleter(property) => {
                let property = *property;
                self.decorate(property, &arguments, true)
            },
            Object::PropertySetter(property) => {
                let property = *property;
                self.decorate(property, &arguments, false)
            },
            Object::Class(_) => Ok(Step::Class { class: callee, arguments }),
            Object::Function { code, execution, .. } => {
                if *execution != world.execution {
                    return Err(
                        Diagnostic::new(
                            "RuntimeError",
                            "callable belongs to a previous module execution",
                        ),
                    );
                }
                let code = *code;
                if world.class_bodies[code as usize] {
                    return Err(
                        Diagnostic::new("BytecodeError", "class body cannot be called directly"),
                    );
                }
                Ok(Step::Frame { code, callable: callee, arguments })
            },
            Object::Builtin(builtin) => {
                let builtin = *builtin;
                self.invoke_builtin(builtin, arguments)
            },
            Object::Native(index) => {
                let index = *index;
                if arguments.keywords.len() != 0 {
                    return Err(
                        Diagnostic::new(
                            "TypeError",
                            "registered native function does not accept keyword arguments",
                        ),
                    );
                }
                let values = arguments.values();
                let arity = world.arities[index];
                if values.len() != arity {
                    let expected = decimal_usize(arity);
                    let got = decimal_usize(values.len());
                    let mut text = join3(
                        "native function expects ",
                        expected.as_str(),
                        " arguments, got ",
                    );
                    text.append(got.as_str());
                    assert(text@ =~= native_arity(arity, values@.len() as int).message);
                    return Err(Diagnostic::with_text("TypeError", text));
                }
                Ok(Step::Native { index, arguments: values })
            },
            _ => Err(Diagnostic::new("TypeError", "object is not callable")),
        }
    }

    fn call_hash(&self, builtin: Builtin, arguments: &ExpandedArgs) -> (r: Result<Step>)
        requires
            self.wf(),
            builtin == Builtin::Hash || builtin == Builtin::ObjectHash || hash_kind(
                builtin,
            ) is Some,
        ensures
            hash_called(self@, r, builtin, arguments@),
    {
        let values = arguments.values();
        assert(arguments@.keywords.len() == arguments.keywords.len());
        if arguments.keywords.len() != 0 || values.len() != 1 {
            return Err(Diagnostic::new("TypeError", "hash operation expects one argument"));
        }
        let value = values[0];
        match native_hash_kind(builtin) {
            Some(kind) => self.invoke_typed_native_hash(kind, value, 0, HashAction::Return),
            None => if builtin == Builtin::Hash {
                Ok(Step::Hash { value, depth: 0, action: HashAction::Return })
            } else {
                Ok(
                    Step::CompleteHash { hash: hash_u64(value.raw()), action: HashAction::Return },
                )
            },
        }
    }

    fn call_attribute(&self, builtin: Builtin, arguments: &ExpandedArgs) -> (r: Result<Step>)
        requires
            self.wf(),
            is_attribute_builtin(builtin),
        ensures
            attribute_called(self@, r, builtin, arguments@),
    {
        let values = arguments.values();
        let count = values.len();
        assert(arguments@.keywords.len() == arguments.keywords.len());
        if arguments.keywords.len() != 0 {
            return Err(
                Diagnostic::new("TypeError", "attribute builtin does not accept keyword arguments"),
            );
        }
        let valid = match builtin {
            Builtin::GetAttr => count == 2 || count == 3,
            Builtin::SetAttr | Builtin::ObjectSetAttr | Builtin::TypeSetAttr => count == 3,
            _ => count == 2,
        };
        if !valid {
            return Err(Diagnostic::new("TypeError", "invalid attribute builtin arity"));
        }
        let owner = values[0];
        let on_class = self.is_class(owner);
        if (builtin == Builtin::TypeGetAttribute || builtin == Builtin::TypeSetAttr || builtin
            == Builtin::TypeDelAttr) && !on_class {
            return Err(
                Diagnostic::new("TypeError", "type attribute descriptor requires a class object"),
            );
        }
        if (builtin == Builtin::ObjectSetAttr || builtin == Builtin::ObjectDelAttr) && on_class {
            return Err(
                Diagnostic::new(
                    "TypeError",
                    "object attribute mutation does not accept a class object",
                ),
            );
        }
        let name = match self.try_get(values[1]) {
            Some(Object::Str(name)) => name.clone(),
            _ => {
                return Err(Diagnostic::new("TypeError", "attribute name must be a string"));
            },
        };
        Ok(
            match builtin {
                Builtin::GetAttr => {
                    let missing = if count == 3 {
                        AttributeMissing::Default(values[2])
                    } else {
                        AttributeMissing::Raise
                    };
                    Step::Attribute { owner, name, missing }
                },
                Builtin::HasAttr => Step::Attribute {
                    owner,
                    name,
                    missing: AttributeMissing::HasAttr,
                },
                Builtin::SetAttr => Step::SetAttribute { owner, name, value: values[2] },
                Builtin::DelAttr => Step::DeleteAttribute { owner, name },
                Builtin::ObjectGetAttribute | Builtin::TypeGetAttribute => Step::DefaultAttribute {
                    owner,
                    name,
                },
                Builtin::ObjectSetAttr | Builtin::TypeSetAttr => Step::DefaultSet {
                    owner,
                    name,
                    value: values[2],
                },
                _ => Step::DefaultDelete { owner, name },
            },
        )
    }

    /// Calls a builtin.
    pub fn invoke_builtin(&mut self, builtin: Builtin, arguments: ExpandedArgs) -> (r: Result<Step>)
        requires
            old(self).wf(),
        ensures
            final(self).wf(),
            builtin_called(old(self)@, final(self)@, r, builtin, arguments@),
            old(self)@.sound() && arguments_known(old(self)@, arguments@) ==> final(self)@.sound(),
    {
        if let Some(kind) = native_new_kind(builtin) {
            return Ok(Step::NativeNew { kind, arguments });
        }
        if builtin == Builtin::ListInit || builtin == Builtin::DictInit {
            return Ok(Step::NativeInit { builtin, arguments, result: Value::none() });
        }
        if builtin == Builtin::TypeNew {
            return Ok(Step::TypeNew { arguments });
        }
        if builtin == Builtin::Hash || builtin == Builtin::ObjectHash || native_hash_kind(
            builtin,
        ).is_some() {
            return self.call_hash(builtin, &arguments);
        }
        if attribute_builtin(builtin) {
            return self.call_attribute(builtin, &arguments);
        }
        let values = arguments.values();
        assert(arguments@.keywords.len() == arguments.keywords.len());
        if arguments.keywords.len() == 0 && values.len() == 1 {
            if builtin == Builtin::Abs {
                return self.invoke_unary_protocol(values[0], UnaryProtocolKind::Abs);
            }
            if builtin == Builtin::Len {
                if let Some(call) = self.special_method_call(values[0], "__len__")? {
                    let none: Vec<Value> = Vec::new();
                    assert(none@ =~= Seq::<Value>::empty());
                    return Ok(call_step(call, none, Continuation::Length));
                }
            }
        }
        self.call_builtin(builtin, &arguments)
    }

    /// Calls a builtin at once.
    pub fn call_builtin(&mut self, builtin: Builtin, arguments: &ExpandedArgs) -> (r: Result<Step>)
        requires
            old(self).wf(),
            is_plain(builtin),
        ensures
            final(self).wf(),
            plain_called(old(self)@, final(self)@, r, builtin, arguments@),
            old(self)@.sound() && arguments_known(old(self)@, arguments@) ==> final(self)@.sound(),
    {
        let values = arguments.values();
        let count = values.len();
        let named = arguments.keywords.len() != 0;
        assert(arguments@.keywords.len() == arguments.keywords.len());
        if builtin != Builtin::Print && builtin != Builtin::ObjectInit && named {
            return Err(
                Diagnostic::new("TypeError", "builtin does not accept keyword arguments"),
            );
        }
        proof {
            if arguments_known(self@, arguments@) {
                lemma_positional_known(self@, arguments@);
                assert forall|i: int| 0 <= i < values@.len() implies self@.known(
                    #[trigger] values@[i],
                ) by {
                    assert(values@[i] == arguments@.all()[i]);
                }
                lemma_property_known(
                    self@,
                    given(values@, 0),
                    given(values@, 1),
                    given(values@, 2),
                );
            }
        }
        let made = match builtin {
            Builtin::Print => {
                return self.print(arguments);
            },
            Builtin::ObjectNew => {
                if count != 1 {
                    return Err(
                        Diagnostic::new("TypeError", "object.__new__ expects one class argument"),
                    );
                }
                return Ok(Step::ObjectNew { class: values[0] });
            },
            Builtin::ObjectInit => {
                if count == 0 {
                    return Err(
                        Diagnostic::new("TypeError", "object.__init__ expects an instance"),
                    );
                }
                if count != 1 || named {
                    return Ok(Step::ObjectInit { instance: values[0] });
                }
                return Ok(Step::Done(Value::none()));
            },
            Builtin::Super => {
                if count == 0 {
                    return Ok(Step::Super);
                }
                if count != 2 {
                    return Err(
                        Diagnostic::new("TypeError", "super() expects zero or two arguments"),
                    );
                }
                self.super_value(values[0], values[1])
            },
            Builtin::Property => {
                if count > 3 {
                    return Err(
                        Diagnostic::new("TypeError", "property expects at most three arguments"),
                    );
                }
                self.allocate(
                    Object::Property {
                        getter: given_value(&values, 0),
                        setter: given_value(&values, 1),
                        deleter: given_value(&values, 2),
                    },
                )
            },
            Builtin::StaticMethod | Builtin::ClassMethod => {
                if count != 1 {
                    return Err(
                        Diagnostic::new("TypeError", "method descriptor expects one argument"),
                    );
                }
                if builtin == Builtin::StaticMethod {
                    self.allocate(Object::StaticMethod(values[0]))
                } else {
                    self.allocate(Object::ClassMethod(values[0]))
                }
            },
            Builtin::IsInstance | Builtin::IsSubclass => {
                if count != 2 {
                    return Err(Diagnostic::new("TypeError", "type check expects two arguments"));
                }
                return Ok(
                    Step::InstanceCheck {
                        value: values[0],
                        class: values[1],
                        subclass: builtin == Builtin::IsSubclass,
                    },
                );
            },
            _ => {
                if count != 1 {
                    return Err(Diagnostic::new("TypeError", "builtin expects one argument"));
                }
                if builtin == Builtin::Len {
                    self.length(values[0])
                } else {
                    self.unary_fallback(UnaryProtocolKind::Abs, values[0])
                }
            },
        };
        match made {
            Ok(value) => Ok(Step::Done(value)),
            Err(error) => Err(error),
        }
    }

    /// Makes an instance of a class without builtin storage.
    pub fn object_new(&mut self, class: Value, facts: ClassFacts) -> (r: Result<Value>)
        requires
            old(self).wf(),
        ensures
            final(self).wf(),
            if facts.builtin is Some || facts.storage is Some {
                final(self)@ == old(self)@ && refuses(
                    r,
                    fault("TypeError", "object.__new__ cannot allocate native builtin storage"),
                )
            } else {
                answers(old(self)@, final(self)@, r, old(self)@.new_instance(class, None))
            },
            old(self)@.sound() ==> final(self)@.sound(),
    {
        if facts.builtin.is_some() || facts.storage.is_some() {
            return Err(
                Diagnostic::new("TypeError", "object.__new__ cannot allocate native builtin storage"),
            );
        }
        self.instance(class)
    }

    /// Accepts arguments beside the instance where the class has a constructor
    /// of its own that took them.
    pub fn object_init(&self, class: Value) -> (r: Result<Value>)
        requires
            self.wf(),
        ensures
            outcome(r) == match self@.class_lookup(class, "__new__"@) {
                Err(error) => Err(error),
                Ok(constructor) => match self@.class_lookup(class, "__init__"@) {
                    Err(error) => Err(error),
                    Ok(initializer) => if self@.builtin_of(constructor) != Some(Builtin::ObjectNew)
                        && self@.builtin_of(initializer) == Some(Builtin::ObjectInit) {
                        Ok(Value::none())
                    } else {
                        Err(fault("TypeError", "object.__init__ expects only the instance"))
                    },
                },
            },
    {
        let constructor = self.class_lookup(class, "__new__")?;
        let initializer = self.class_lookup(class, "__init__")?;
        let custom_new = match self.builtin_of(constructor) {
            Some(builtin) => builtin != Builtin::ObjectNew,
            None => true,
        };
        let object_init = match self.builtin_of(initializer) {
            Some(builtin) => builtin == Builtin::ObjectInit,
            None => false,
        };
        if custom_new && object_init {
            Ok(Value::none())
        } else {
            Err(Diagnostic::new("TypeError", "object.__init__ expects only the instance"))
        }
    }
}

} // verus!
