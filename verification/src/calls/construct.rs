//! Classes as constructors.
use vstd::prelude::*;
use crate::attributes::answers;
use crate::calls::arguments::{ArgsView, ExpandedArgs};
use crate::calls::known::{arguments_known, lemma_positional_known};
use crate::calls::state::{Continuation, NativeSubclassFinish, RuntimeTypeKind, Step};
use crate::calls::{goes, refuses};
use crate::dict::{Dict, DictView};
use crate::diagnostic::{fault, outcome, Diagnostic, Result};
use crate::heap::{Heap, HeapView};
use crate::lookup::Outcome;
use crate::namespaces::allocates;
use crate::object::{Builtin, Object, ObjectView};
use crate::shapes::{Attributes, AttributesView};
use crate::value::Value;

verus! {

/// What is known of a class that is called.
#[derive(Clone, Copy, Debug)]
pub struct ClassFacts {
    /// Whether it is the class of classes.
    pub type_class: bool,
    /// The builtin type that it is.
    pub builtin: Option<RuntimeTypeKind>,
    /// Whether its instances are exceptions.
    pub exception: bool,
    /// Whether its instances are classes.
    pub metaclass: bool,
    /// The builtin type that it descends from.
    pub storage: Option<RuntimeTypeKind>,
}

/// See [`NativeSubclassFinish`].
#[verifier::ext_equal]
pub struct FinishView {
    pub class: Value,
    pub initialize: Option<ArgsView>,
}

/// The view of arguments that may be none.
pub open spec fn args_view(arguments: Option<ExpandedArgs>) -> Option<ArgsView> {
    match arguments {
        Some(arguments) => Some(arguments@),
        None => None,
    }
}

/// The view of a finish that may be none.
pub open spec fn finish_view(finish: Option<NativeSubclassFinish>) -> Option<FinishView> {
    match finish {
        Some(finish) => Some(
            FinishView { class: finish.class, initialize: args_view(finish.initialize) },
        ),
        None => None,
    }
}

/// The builtin type whose constructor a builtin is.
pub open spec fn new_kind(builtin: Builtin) -> Option<RuntimeTypeKind> {
    match builtin {
        Builtin::IntNew => Some(RuntimeTypeKind::Int),
        Builtin::BoolNew => Some(RuntimeTypeKind::Bool),
        Builtin::FloatNew => Some(RuntimeTypeKind::Float),
        Builtin::StrNew => Some(RuntimeTypeKind::Str),
        Builtin::ListNew => Some(RuntimeTypeKind::List),
        Builtin::TupleNew => Some(RuntimeTypeKind::Tuple),
        Builtin::DictNew => Some(RuntimeTypeKind::Dict),
        Builtin::RangeNew => Some(RuntimeTypeKind::Range),
        _ => None,
    }
}

/// See [`new_kind`].
pub fn native_new_kind(builtin: Builtin) -> (r: Option<RuntimeTypeKind>)
    ensures
        r == new_kind(builtin),
{
    match builtin {
        Builtin::IntNew => Some(RuntimeTypeKind::Int),
        Builtin::BoolNew => Some(RuntimeTypeKind::Bool),
        Builtin::FloatNew => Some(RuntimeTypeKind::Float),
        Builtin::StrNew => Some(RuntimeTypeKind::Str),
        Builtin::ListNew => Some(RuntimeTypeKind::List),
        Builtin::TupleNew => Some(RuntimeTypeKind::Tuple),
        Builtin::DictNew => Some(RuntimeTypeKind::Dict),
        Builtin::RangeNew => Some(RuntimeTypeKind::Range),
        _ => None,
    }
}

/// The initializer that a builtin type has.
pub open spec fn canonical_initializer(kind: RuntimeTypeKind) -> Builtin {
    match kind {
        RuntimeTypeKind::List => Builtin::ListInit,
        RuntimeTypeKind::Dict => Builtin::DictInit,
        _ => Builtin::ObjectInit,
    }
}

/// The empty storage of a list or dictionary.
pub open spec fn empty_storage(kind: RuntimeTypeKind) -> ObjectView {
    if kind == RuntimeTypeKind::List {
        ObjectView::List(Seq::empty())
    } else {
        ObjectView::Dict(DictView::empty())
    }
}

impl HeapView {
    /// The builtin that an attribute of a class is.
    pub open spec fn builtin_of(self, value: Option<Value>) -> Option<Builtin> {
        match value {
            Some(value) => self.builtin_at(value),
            None => None,
        }
    }

    /// Whether a class has the initializer of a builtin type.
    pub open spec fn initializes_as(self, class: Value, kind: RuntimeTypeKind) -> Outcome<bool> {
        match self.class_lookup(class, "__init__"@) {
            Err(error) => Err(error),
            Ok(initializer) => Ok(
                self.builtin_of(initializer) == Some(canonical_initializer(kind)),
            ),
        }
    }

    /// The builtin behind an initializer, bound or not.
    pub open spec fn initializer_builtin(self, initializer: Value) -> Outcome<Option<Builtin>> {
        match self.found(initializer) {
            Err(error) => Err(error),
            Ok(ObjectView::Builtin(builtin)) => Ok(Some(builtin)),
            Ok(ObjectView::BoundMethod { function, .. }) => match self.found(function) {
                Err(error) => Err(error),
                Ok(ObjectView::Builtin(builtin)) => Ok(Some(builtin)),
                Ok(_) => Ok(None),
            },
            Ok(_) => Ok(None),
        }
    }
}

/// Whether the constructor of a builtin type comes next.
pub open spec fn constructs(
    result: core::result::Result<Step, Diagnostic>,
    class: Value,
    kind: RuntimeTypeKind,
    arguments: ArgsView,
    finish: Option<FinishView>,
) -> bool {
    result matches Ok(Step::BuiltinType { class: c, kind: k, arguments: a, finish: f }) && c
        == class && k == kind && a@ == arguments && finish_view(f) == finish
}

/// Whether an instance is initialized next, or failed to be made.
pub open spec fn initializes(
    result: core::result::Result<Step, Diagnostic>,
    class: Value,
    made: core::result::Result<Value, Diagnostic>,
    arguments: ArgsView,
) -> bool {
    match made {
        Ok(instance) => result matches Ok(Step::New { class: c, instance: i, arguments: a }) && c
            == class && i == instance && a@ == arguments,
        Err(error) => refuses(result, error@),
    }
}

/// What making an instance over new builtin storage does.
pub open spec fn over_storage(
    before: HeapView,
    after: HeapView,
    made: core::result::Result<Value, Diagnostic>,
    class: Value,
    kind: RuntimeTypeKind,
) -> bool {
    exists|between: HeapView, native: core::result::Result<Value, Diagnostic>|
        #![trigger allocates(before, between, native, empty_storage(kind))]
        allocates(before, between, native, empty_storage(kind)) && match native {
            Err(error) => after == between && (made matches Err(found) && found@ == error@),
            Ok(native) => answers(
                between,
                after,
                made,
                between.new_instance(class, Some(native)),
            ),
        }
}

/// What calling a class does that descends from a builtin type by a
/// constructor of that type.
pub open spec fn stored_class_called(
    before: HeapView,
    after: HeapView,
    result: core::result::Result<Step, Diagnostic>,
    class: Value,
    kind: RuntimeTypeKind,
    arguments: ArgsView,
) -> bool {
    match before.initializes_as(class, kind) {
        Err(error) => after == before && refuses(result, error),
        Ok(canonical) => if !canonical && (kind == RuntimeTypeKind::List || kind
            == RuntimeTypeKind::Dict) {
            exists|made: core::result::Result<Value, Diagnostic>|
                #![trigger over_storage(before, after, made, class, kind)]
                over_storage(before, after, made, class, kind) && initializes(
                    result,
                    class,
                    made,
                    arguments,
                )
        } else {
            after == before && constructs(
                result,
                class,
                kind,
                arguments,
                Some(
                    FinishView {
                        class,
                        initialize: if canonical {
                            None
                        } else {
                            Some(arguments)
                        },
                    },
                ),
            )
        },
    }
}

/// What calling a class does by its constructor.
pub open spec fn plain_class_called(
    before: HeapView,
    after: HeapView,
    result: core::result::Result<Step, Diagnostic>,
    class: Value,
    constructor: Option<Value>,
    arguments: ArgsView,
) -> bool {
    match constructor {
        None => after == before && refuses(result, fault("TypeError", "class has no __new__")),
        Some(constructor) => if before.builtin_at(constructor) == Some(Builtin::ObjectNew) {
            exists|made: core::result::Result<Value, Diagnostic>|
                #![trigger answers(before, after, made, before.new_instance(class, None))]
                answers(before, after, made, before.new_instance(class, None)) && initializes(
                    result,
                    class,
                    made,
                    arguments,
                )
        } else {
            after == before && (result matches Ok(
                Step::Call {
                    callable,
                    arguments: given,
                    then: Continuation::New { class: c, arguments: held },
                },
            ) && callable == constructor && given@ == (ArgsView {
                receiver: Some(class),
                ..arguments
            }) && c == class && held@ == arguments)
        },
    }
}

/// What calling a class does.
pub open spec fn class_called(
    before: HeapView,
    after: HeapView,
    result: core::result::Result<Step, Diagnostic>,
    class: Value,
    arguments: ArgsView,
    facts: ClassFacts,
) -> bool {
    let values = arguments.all();
    if facts.type_class {
        &&& after == before
        &&& if arguments.keywords.len() == 0 && values.len() == 3 {
            goes(
                result,
                Step::DynamicType { name: values[0], bases: values[1], namespace: values[2] },
            )
        } else if arguments.keywords.len() != 0 || values.len() != 1 {
            refuses(result, fault("TypeError", "type expects one or three positional arguments"))
        } else {
            goes(result, Step::ClassOf { value: values[0], get: None })
        }
    } else if facts.builtin is Some {
        after == before && constructs(
            result,
            class,
            facts.builtin.unwrap(),
            arguments,
            None,
        )
    } else if facts.exception {
        &&& after == before
        &&& if arguments.receiver is Some {
            refuses(result, fault("BytecodeError", "bound exception class call"))
        } else {
            exception_called(before, result, class, arguments, true)
        }
    } else if facts.metaclass {
        after == before && refuses(
            result,
            fault(
                "UnsupportedFeature",
                "direct custom metaclass calls require metaclass __new__/__init__ support",
            ),
        )
    } else if arguments.receiver is Some {
        after == before && refuses(result, fault("BytecodeError", "bound class call"))
    } else {
        match before.class_lookup(class, "__new__"@) {
            Err(error) => after == before && refuses(result, error),
            Ok(constructor) => instance_called(
                before,
                after,
                result,
                class,
                constructor,
                arguments,
                facts.storage,
            ),
        }
    }
}

/// What calling a class does whose constructor was looked up.
pub open spec fn instance_called(
    before: HeapView,
    after: HeapView,
    result: core::result::Result<Step, Diagnostic>,
    class: Value,
    constructor: Option<Value>,
    arguments: ArgsView,
    storage: Option<RuntimeTypeKind>,
) -> bool {
    let builtin = before.builtin_of(constructor);
    let made = match builtin {
        Some(builtin) => new_kind(builtin),
        None => None,
    };
    match storage {
        None => plain_class_called(before, after, result, class, constructor, arguments),
        Some(kind) => if made is Some {
            if made != Some(kind) {
                after == before && refuses(
                    result,
                    fault("TypeError", "native subclass inherited an incompatible __new__"),
                )
            } else {
                stored_class_called(before, after, result, class, kind, arguments)
            }
        } else if builtin == Some(Builtin::ObjectNew) {
            after == before && constructs(
                result,
                class,
                kind,
                arguments,
                Some(FinishView { class, initialize: Some(arguments) }),
            )
        } else {
            plain_class_called(before, after, result, class, constructor, arguments)
        },
    }
}

/// Whether an exception is made next, with its message.
pub open spec fn exception_called(
    heap: HeapView,
    result: core::result::Result<Step, Diagnostic>,
    class: Value,
    arguments: ArgsView,
    user: bool,
) -> bool {
    match heap.exception_message(arguments.positional) {
        Err(error) => refuses(result, error),
        Ok(pieces) => result matches Ok(
            Step::Exception { class: c, arguments: a, user: u, message },
        ) && c == class && a@ == arguments && u == user && message@ == pieces,
    }
}

/// An exception without cause, context or traceback.
pub open spec fn new_exception(class: Value, message: Seq<char>, arguments: Seq<Value>) -> ObjectView {
    ObjectView::Exception {
        class,
        message,
        arguments,
        attributes: AttributesView::empty(),
        cause: None,
        context: None,
        suppress_context: false,
        traceback: None,
    }
}

/// What comes behind the making of an exception.
pub open spec fn exception_initialized(
    heap: HeapView,
    result: core::result::Result<Step, Diagnostic>,
    class: Value,
    instance: Value,
    arguments: ArgsView,
) -> bool {
    match heap.class_lookup(class, "__init__"@) {
        Err(error) => refuses(result, error),
        Ok(initializer) => if initializer is None || heap.builtin_of(initializer) == Some(
            Builtin::ObjectInit,
        ) {
            if arguments.keywords.len() != 0 {
                refuses(
                    result,
                    fault(
                        "TypeError",
                        "exception classes do not accept keyword arguments without __init__",
                    ),
                )
            } else {
                goes(result, Step::Done(instance))
            }
        } else {
            initializes(result, class, Ok(instance), arguments)
        },
    }
}

/// What making an exception does.
pub open spec fn exception_made(
    before: HeapView,
    after: HeapView,
    result: core::result::Result<Step, Diagnostic>,
    class: Value,
    arguments: ArgsView,
    user: bool,
    message: Seq<char>,
) -> bool {
    exists|made: core::result::Result<Value, Diagnostic>|
        #![trigger allocates(before, after, made, new_exception(class, message, arguments.positional))]
        allocates(before, after, made, new_exception(class, message, arguments.positional))
            && match made {
            Err(error) => refuses(result, error@),
            Ok(instance) => if user {
                exception_initialized(after, result, class, instance, arguments)
            } else {
                goes(result, Step::Done(instance))
            },
        }
}

pub(crate) fn new_storage(kind: RuntimeTypeKind) -> (r: Object)
    ensures
        r@ == empty_storage(kind),
        forall|shapes: &crate::shapes::Shapes| #[trigger] r.wf(shapes),
{
    if kind == RuntimeTypeKind::List {
        let items: Vec<Value> = Vec::new();
        assert(items@ =~= Seq::<Value>::empty());
        Object::List(items)
    } else {
        let dict = Dict::new();
        proof {
            dict.lemma_view_wf();
        }
        Object::Dict(dict)
    }
}

impl Heap {
    /// The builtin that an attribute of a class is.
    pub(crate) fn builtin_of(&self, value: Option<Value>) -> (r: Option<Builtin>)
        requires
            self.wf(),
        ensures
            r == self@.builtin_of(value),
    {
        match value {
            Some(value) => self.builtin_at(value),
            None => None,
        }
    }

    /// Whether a class has the initializer of a builtin type.
    pub fn has_canonical_native_initializer(&self, class: Value, kind: RuntimeTypeKind) -> (r: Result<
        bool,
    >)
        requires
            self.wf(),
        ensures
            outcome(r) == self@.initializes_as(class, kind),
    {
        let initializer = self.class_lookup(class, "__init__")?;
        let expected = match kind {
            RuntimeTypeKind::List => Builtin::ListInit,
            RuntimeTypeKind::Dict => Builtin::DictInit,
            _ => Builtin::ObjectInit,
        };
        Ok(
            match self.builtin_of(initializer) {
                Some(builtin) => builtin == expected,
                None => false,
            },
        )
    }

    pub(crate) fn instance_over_storage(&mut self, class: Value, kind: RuntimeTypeKind) -> (r: Result<Value>)
        requires
            old(self).wf(),
        ensures
            final(self).wf(),
            over_storage(old(self)@, final(self)@, r, class, kind),
            old(self)@.sound() ==> final(self)@.sound(),
    {
        let ghost before = self@;
        let native = self.allocate(new_storage(kind));
        assert(allocates(before, self@, native, empty_storage(kind)));
        match native {
            Err(error) => Err(error),
            Ok(native) => self.native_instance(class, native),
        }
    }

    /// Calls a class.
    pub fn invoke_class(&mut self, class: Value, arguments: ExpandedArgs, facts: ClassFacts) -> (r:
        Result<Step>)
        requires
            old(self).wf(),
        ensures
            final(self).wf(),
            class_called(old(self)@, final(self)@, r, class, arguments@, facts),
            old(self)@.sound() ==> final(self)@.sound(),
    {
        let keywords = arguments.keywords.len();
        assert(arguments@.keywords.len() == keywords);
        if facts.type_class {
            let values = arguments.values();
            if keywords == 0 && values.len() == 3 {
                return Ok(
                    Step::DynamicType { name: values[0], bases: values[1], namespace: values[2] },
                );
            }
            if keywords != 0 || values.len() != 1 {
                return Err(
                    Diagnostic::new("TypeError", "type expects one or three positional arguments"),
                );
            }
            return Ok(Step::ClassOf { value: values[0], get: None });
        }
        if let Some(kind) = facts.builtin {
            return Ok(Step::BuiltinType { class, kind, arguments, finish: None });
        }
        if facts.exception {
            if arguments.receiver.is_some() {
                return Err(Diagnostic::new("BytecodeError", "bound exception class call"));
            }
            let message = self.exception_message(&arguments.positional)?;
            return Ok(Step::Exception { class, arguments, user: true, message });
        }
        if facts.metaclass {
            return Err(
                Diagnostic::new(
                    "UnsupportedFeature",
                    "direct custom metaclass calls require metaclass __new__/__init__ support",
                ),
            );
        }
        if arguments.receiver.is_some() {
            return Err(Diagnostic::new("BytecodeError", "bound class call"));
        }
        let constructor = self.class_lookup(class, "__new__")?;
        if let Some(kind) = facts.storage {
            if let Some(builtin) = self.builtin_of(constructor) {
                if let Some(made) = native_new_kind(builtin) {
                    if made != kind {
                        return Err(
                            Diagnostic::new(
                                "TypeError",
                                "native subclass inherited an incompatible __new__",
                            ),
                        );
                    }
                    return self.call_stored_class(class, kind, arguments);
                }
                if builtin == Builtin::ObjectNew {
                    let initialize = Some(arguments.copy());
                    return Ok(
                        Step::BuiltinType {
                            class,
                            kind,
                            arguments,
                            finish: Some(NativeSubclassFinish { class, initialize }),
                        },
                    );
                }
            }
        }
        self.call_plain_class(class, constructor, arguments)
    }

    fn call_stored_class(&mut self, class: Value, kind: RuntimeTypeKind, arguments: ExpandedArgs) -> (r:
        Result<Step>)
        requires
            old(self).wf(),
        ensures
            final(self).wf(),
            stored_class_called(old(self)@, final(self)@, r, class, kind, arguments@),
            old(self)@.sound() ==> final(self)@.sound(),
    {
        let ghost before = self@;
        let canonical = self.has_canonical_native_initializer(class, kind)?;
        if !canonical && (kind == RuntimeTypeKind::List || kind == RuntimeTypeKind::Dict) {
            let made = self.instance_over_storage(class, kind);
            assert(over_storage(before, self@, made, class, kind));
            return match made {
                Ok(instance) => Ok(Step::New { class, instance, arguments }),
                Err(error) => Err(error),
            };
        }
        let initialize = if canonical {
            None
        } else {
            Some(arguments.copy())
        };
        Ok(
            Step::BuiltinType {
                class,
                kind,
                arguments,
                finish: Some(NativeSubclassFinish { class, initialize }),
            },
        )
    }

    fn call_plain_class(
        &mut self,
        class: Value,
        constructor: Option<Value>,
        arguments: ExpandedArgs,
    ) -> (r: Result<Step>)
        requires
            old(self).wf(),
            arguments.receiver is None,
        ensures
            final(self).wf(),
            plain_class_called(old(self)@, final(self)@, r, class, constructor, arguments@),
            old(self)@.sound() ==> final(self)@.sound(),
    {
        let ghost before = self@;
        let constructor = match constructor {
            Some(constructor) => constructor,
            None => {
                return Err(Diagnostic::new("TypeError", "class has no __new__"));
            },
        };
        let canonical = match self.builtin_at(constructor) {
            Some(builtin) => builtin == Builtin::ObjectNew,
            None => false,
        };
        if canonical {
            let made = self.instance(class);
            assert(answers(before, self@, made, before.new_instance(class, None)));
            return match made {
                Ok(instance) => Ok(Step::New { class, instance, arguments }),
                Err(error) => Err(error),
            };
        }
        let mut given = arguments.copy();
        given.receiver = Some(class);
        Ok(
            Step::Call {
                callable: constructor,
                arguments: given,
                then: Continuation::New { class, arguments },
            },
        )
    }

    /// Makes an exception whose message is a text.
    pub fn finish_exception(
        &mut self,
        class: Value,
        arguments: ExpandedArgs,
        user: bool,
        message: String,
    ) -> (r: Result<Step>)
        requires
            old(self).wf(),
        ensures
            final(self).wf(),
            exception_made(old(self)@, final(self)@, r, class, arguments@, user, message@),
            old(self)@.sound() && old(self)@.known(class) && arguments_known(old(self)@, arguments@)
                ==> final(self)@.sound(),
    {
        let ghost before = self@;
        let ghost text = message@;
        proof {
            if before.known(class) && arguments_known(before, arguments@) {
                let given = arguments@.positional;
                let edges = new_exception(class, text, given).edges();
                assert(edges =~= seq![class] + given);
                lemma_positional_known(before, arguments@);
                assert forall|e: Value| #[trigger] edges.contains(e) implies before.known(e) by {
                    let i = choose|i: int| 0 <= i < edges.len() && edges[i] == e;
                    if i > 0 {
                        assert(given[i - 1] == e);
                        assert(given.contains(e));
                    }
                }
            }
        }
        let made = self.allocate(
            Object::Exception {
                class,
                message,
                arguments: crate::edges::copy_values(&arguments.positional),
                attributes: Attributes::new(),
                cause: None,
                context: None,
                suppress_context: false,
                traceback: None,
            },
        );
        assert(allocates(
            before,
            self@,
            made,
            new_exception(class, text, arguments@.positional),
        ));
        let instance = match made {
            Ok(instance) => instance,
            Err(error) => {
                return Err(error);
            },
        };
        if !user {
            return Ok(Step::Done(instance));
        }
        let initializer = self.class_lookup(class, "__init__")?;
        let plain = match initializer {
            None => true,
            Some(initializer) => match self.builtin_at(initializer) {
                Some(builtin) => builtin == Builtin::ObjectInit,
                None => false,
            },
        };
        if plain {
            assert(arguments@.keywords.len() == arguments.keywords.len());
            if arguments.keywords.len() != 0 {
                return Err(
                    Diagnostic::new(
                        "TypeError",
                        "exception classes do not accept keyword arguments without __init__",
                    ),
                );
            }
            return Ok(Step::Done(instance));
        }
        Ok(Step::New { class, instance, arguments })
    }
}

} // verus!
