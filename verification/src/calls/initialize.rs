//! Constructor methods and initializers.
use vstd::prelude::*;
use crate::attributes::answers;
use crate::calls::arguments::{ArgsView, ExpandedArgs};
use crate::calls::builtins::dict_begun;
use crate::calls::construct::{
    constructs, empty_storage, new_storage, ClassFacts, FinishView,
};
use crate::calls::state::{
    Continuation, IterableCollectionKind, NativeSubclassFinish, RuntimeTypeKind, Step,
};
use crate::calls::{goes, refuses, value_of};
use crate::dict::DictView;
use crate::diagnostic::{fault, outcome, Diagnostic, Result};
use crate::heap::{Heap, HeapView};
use crate::lookup::Outcome;
use crate::namespaces::allocates;
use crate::object::{Builtin, Object, ObjectView};
use crate::value::Value;

verus! {

impl HeapView {
    /// Whether the constructor method of a builtin type may make an instance
    /// of a class, and whether the class is the type itself.
    pub open spec fn new_class(
        self,
        class: Value,
        exact: Value,
        kind: RuntimeTypeKind,
        facts: ClassFacts,
    ) -> Outcome<bool> {
        match self.class_at(class) {
            Err(error) => Err(error),
            Ok(_) => if class == exact {
                Ok(true)
            } else if facts.builtin is Some || facts.storage != Some(kind) {
                Err(fault("TypeError", "builtin __new__ received an incompatible class"))
            } else {
                Ok(false)
            },
        }
    }

    /// Empties a dictionary.
    pub open spec fn dict_clear(self, owner: Value) -> (HeapView, Outcome<()>) {
        match self.dict(owner) {
            Err(error) => (self, Err(error)),
            Ok(dict) => self.dict_changed(
                owner,
                dict,
                DictView { version: dict.next_version(), ..DictView::empty() },
            ),
        }
    }
}

/// What making empty builtin storage for a class does.
pub open spec fn storage_made(
    before: HeapView,
    after: HeapView,
    made: core::result::Result<Value, Diagnostic>,
    class: Value,
    exact: bool,
    kind: RuntimeTypeKind,
) -> bool {
    if exact {
        allocates(before, after, made, empty_storage(kind))
    } else {
        crate::calls::construct::over_storage(before, after, made, class, kind)
    }
}

/// What the constructor method of a builtin type does.
pub open spec fn native_new_called(
    before: HeapView,
    after: HeapView,
    result: core::result::Result<Step, Diagnostic>,
    kind: RuntimeTypeKind,
    exact: Value,
    arguments: ArgsView,
    facts: ClassFacts,
) -> bool {
    let values = arguments.all();
    if values.len() == 0 {
        after == before && refuses(
            result,
            fault("TypeError", "builtin __new__ expects a class argument"),
        )
    } else {
        match before.new_class(values[0], exact, kind, facts) {
            Err(error) => after == before && refuses(result, error),
            Ok(same) => if arguments.receiver is Some {
                after == before && refuses(
                    result,
                    fault("TypeError", "invalid builtin __new__ call"),
                )
            } else if kind == RuntimeTypeKind::List || kind == RuntimeTypeKind::Dict {
                value_of(result) matches Some(made) && storage_made(
                    before,
                    after,
                    made,
                    values[0],
                    same,
                    kind,
                )
            } else {
                after == before && constructs(
                    result,
                    exact,
                    kind,
                    ArgsView { positional: arguments.positional.skip(1), ..arguments },
                    if same {
                        None
                    } else {
                        Some(FinishView { class: values[0], initialize: None })
                    },
                )
            },
        }
    }
}

/// What initializing a list does.
pub open spec fn list_initialized(
    before: HeapView,
    after: HeapView,
    result: core::result::Result<Step, Diagnostic>,
    arguments: ArgsView,
    value: Value,
) -> bool {
    let values = arguments.all();
    let owner = values[0];
    if arguments.keywords.len() != 0 || values.len() > 2 {
        after == before && refuses(
            result,
            fault("TypeError", "list.__init__ expects at most one argument"),
        )
    } else {
        match before.found(before.native(owner)) {
            Err(error) => after == before && refuses(result, error),
            Ok(ObjectView::List(_)) => after == before.clear_list(owner).0 && goes(
                result,
                if values.len() == 1 {
                    Step::Done(value)
                } else {
                    Step::Collect {
                        kind: IterableCollectionKind::ListInit { owner, result: value },
                        source: values[1],
                    }
                },
            ),
            Ok(_) => after == before && refuses(
                result,
                fault("TypeError", "list.__init__ requires a list instance"),
            ),
        }
    }
}

/// What initializing a dictionary does.
pub open spec fn dict_initialized(
    before: HeapView,
    after: HeapView,
    result: core::result::Result<Step, Diagnostic>,
    arguments: ArgsView,
    value: Value,
) -> bool {
    let values = arguments.all();
    let owner = values[0];
    let native = before.native(owner);
    if values.len() > 2 {
        after == before && refuses(
            result,
            fault("TypeError", "dict.__init__ expects at most one positional argument"),
        )
    } else {
        match before.found(native) {
            Err(error) => after == before && refuses(result, error),
            Ok(ObjectView::Dict(_)) => {
                let itself = values.len() == 2 && before.native(values[1]) == native;
                let change = if itself {
                    (before, Ok(()))
                } else {
                    before.dict_clear(owner)
                };
                match change.1 {
                    Err(error) => after == change.0 && refuses(result, error),
                    Ok(_) => dict_begun(
                        change.0,
                        after,
                        result,
                        native,
                        arguments.keywords,
                        None,
                        Some(value),
                        if values.len() == 2 && !itself {
                            Some(values[1])
                        } else {
                            None
                        },
                    ),
                }
            },
            Ok(_) => after == before && refuses(
                result,
                fault("TypeError", "dict.__init__ requires a dict instance"),
            ),
        }
    }
}

/// What an initializer of builtin storage does.
pub open spec fn native_initialized(
    before: HeapView,
    after: HeapView,
    result: core::result::Result<Step, Diagnostic>,
    builtin: Builtin,
    arguments: ArgsView,
    value: Value,
) -> bool {
    if arguments.all().len() == 0 {
        after == before && refuses(
            result,
            fault("TypeError", "builtin __init__ expects an instance"),
        )
    } else if builtin == Builtin::ListInit {
        list_initialized(before, after, result, arguments, value)
    } else {
        dict_initialized(before, after, result, arguments, value)
    }
}

/// What follows where the class of a new object has no initializer.
pub open spec fn uninitialized(
    heap: HeapView,
    result: core::result::Result<Step, Diagnostic>,
    instance: Value,
    arguments: ArgsView,
) -> bool {
    if !(heap.at(instance) matches Some(ObjectView::Instance { native: Some(_), .. })) && (
    arguments.positional.len() != 0 || arguments.keywords.len() != 0
        || arguments.invalid_keywords.len() != 0) {
        refuses(result, fault("TypeError", "class without __init__ accepts no arguments"))
    } else {
        goes(result, Step::Done(instance))
    }
}

/// What follows once the initializer of a new object was read.
pub open spec fn initialized(
    heap: HeapView,
    result: core::result::Result<Step, Diagnostic>,
    class: Value,
    instance: Value,
    initializer: Value,
    arguments: ArgsView,
) -> bool {
    match heap.initializer_builtin(initializer) {
        Err(error) => refuses(result, error),
        Ok(Some(Builtin::ObjectInit)) => if arguments.positional.len() != 0
            || arguments.keywords.len() != 0 || arguments.invalid_keywords.len() != 0 {
            match heap.class_lookup(class, "__new__"@) {
                Err(error) => refuses(result, error),
                Ok(constructor) => if heap.builtin_of(constructor) == Some(Builtin::ObjectNew) {
                    refuses(result, fault("TypeError", "class accepts no arguments"))
                } else {
                    goes(result, Step::Done(instance))
                },
            }
        } else {
            goes(result, Step::Done(instance))
        },
        Ok(found) => if found == Some(Builtin::ListInit) || found == Some(Builtin::DictInit) {
            result matches Ok(Step::NativeInit { builtin, arguments: given, result: value })
                && Some(builtin) == found && given@ == (ArgsView {
                receiver: Some(instance),
                ..arguments
            }) && value == instance
        } else {
            match heap.at(initializer) {
                Some(ObjectView::Function { .. }) | Some(ObjectView::BoundMethod { .. }) => {
                    result matches Ok(
                        Step::Call {
                            callable,
                            arguments: given,
                            then: Continuation::Initializer(value),
                        },
                    ) && callable == initializer && given@ == arguments && value == instance
                },
                _ => refuses(result, fault("TypeError", "__init__ must be callable")),
            }
        },
    }
}

/// What a new object leads to.
pub open spec fn new_finished(
    before: HeapView,
    after: HeapView,
    result: core::result::Result<Step, Diagnostic>,
    class: Value,
    instance: Value,
    arguments: ArgsView,
    is_instance: bool,
) -> bool {
    if !is_instance {
        after == before && goes(result, Step::Done(instance))
    } else {
        match before.class_lookup(class, "__init__"@) {
            Err(error) => after == before && refuses(result, error),
            Ok(None) => after == before && uninitialized(before, result, instance, arguments),
            Ok(Some(_)) => exists|made: core::result::Result<Value, Diagnostic>|
                #![trigger answers(before, after, made, before.attr(instance, "__init__"@))]
                answers(before, after, made, before.attr(instance, "__init__"@)) && match made {
                    Err(error) => refuses(result, error@),
                    Ok(initializer) => initialized(
                        after,
                        result,
                        class,
                        instance,
                        initializer,
                        arguments,
                    ),
                },
        }
    }
}

impl Heap {
    /// See [`HeapView::new_class`].
    pub fn validate_native_new_class(
        &self,
        class: Value,
        exact: Value,
        kind: RuntimeTypeKind,
        facts: ClassFacts,
    ) -> (r: Result<bool>)
        requires
            self.wf(),
        ensures
            outcome(r) == self@.new_class(class, exact, kind, facts),
    {
        self.class(class)?;
        if class == exact {
            return Ok(true);
        }
        let fits = match facts.storage {
            Some(storage) => storage == kind,
            None => false,
        };
        if facts.builtin.is_some() || !fits {
            return Err(
                Diagnostic::new("TypeError", "builtin __new__ received an incompatible class"),
            );
        }
        Ok(false)
    }

    /// Calls the constructor method of a builtin type, whose class is `exact`;
    /// the facts are those of the class to construct.
    pub fn invoke_native_new(
        &mut self,
        kind: RuntimeTypeKind,
        exact: Value,
        arguments: ExpandedArgs,
        facts: ClassFacts,
    ) -> (r: Result<Step>)
        requires
            old(self).wf(),
        ensures
            final(self).wf(),
            native_new_called(old(self)@, final(self)@, r, kind, exact, arguments@, facts),
            old(self)@.sound() ==> final(self)@.sound(),
    {
        let values = arguments.values();
        if values.len() == 0 {
            return Err(
                Diagnostic::new("TypeError", "builtin __new__ expects a class argument"),
            );
        }
        let class = values[0];
        let same = self.validate_native_new_class(class, exact, kind, facts)?;
        if arguments.receiver.is_some() {
            return Err(Diagnostic::new("TypeError", "invalid builtin __new__ call"));
        }
        assert(arguments@.all() =~= arguments@.positional);
        if kind == RuntimeTypeKind::List || kind == RuntimeTypeKind::Dict {
            let made = if same {
                self.allocate(new_storage(kind))
            } else {
                self.instance_over_storage(class, kind)
            };
            return match made {
                Ok(value) => Ok(Step::Done(value)),
                Err(error) => Err(error),
            };
        }
        let finish = if same {
            None
        } else {
            Some(NativeSubclassFinish { class, initialize: None })
        };
        let ghost held = arguments@;
        let mut arguments = arguments;
        arguments.positional.remove(0);
        assert(arguments@.positional =~= held.positional.skip(1));
        Ok(Step::BuiltinType { class: exact, kind, arguments, finish })
    }

    /// Calls an initializer of builtin storage.
    pub fn invoke_native_initializer(
        &mut self,
        builtin: Builtin,
        arguments: &ExpandedArgs,
        result: Value,
    ) -> (r: Result<Step>)
        requires
            old(self).wf(),
            builtin == Builtin::ListInit || builtin == Builtin::DictInit,
        ensures
            final(self).wf(),
            native_initialized(old(self)@, final(self)@, r, builtin, arguments@, result),
            old(self)@.sound() ==> final(self)@.sound(),
    {
        let values = arguments.values();
        if values.len() == 0 {
            return Err(Diagnostic::new("TypeError", "builtin __init__ expects an instance"));
        }
        if builtin == Builtin::ListInit {
            return self.initialize_list(arguments, result);
        }
        self.initialize_dict(arguments, result)
    }

    fn initialize_list(&mut self, arguments: &ExpandedArgs, result: Value) -> (r: Result<Step>)
        requires
            old(self).wf(),
            arguments@.all().len() > 0,
        ensures
            final(self).wf(),
            list_initialized(old(self)@, final(self)@, r, arguments@, result),
            old(self)@.sound() ==> final(self)@.sound(),
    {
        let values = arguments.values();
        let owner = values[0];
        assert(arguments@.keywords.len() == arguments.keywords.len());
        if arguments.keywords.len() != 0 || values.len() > 2 {
            return Err(Diagnostic::new("TypeError", "list.__init__ expects at most one argument"));
        }
        match self.get(self.native_value(owner))? {
            Object::List(_) => {},
            _ => {
                return Err(Diagnostic::new("TypeError", "list.__init__ requires a list instance"));
            },
        }
        self.clear_list(owner)?;
        if values.len() == 1 {
            return Ok(Step::Done(result));
        }
        Ok(
            Step::Collect {
                kind: IterableCollectionKind::ListInit { owner, result },
                source: values[1],
            },
        )
    }

    fn initialize_dict(&mut self, arguments: &ExpandedArgs, result: Value) -> (r: Result<Step>)
        requires
            old(self).wf(),
            arguments@.all().len() > 0,
        ensures
            final(self).wf(),
            dict_initialized(old(self)@, final(self)@, r, arguments@, result),
            old(self)@.sound() ==> final(self)@.sound(),
    {
        let values = arguments.values();
        let owner = values[0];
        let native = self.native_value(owner);
        if values.len() > 2 {
            return Err(
                Diagnostic::new(
                    "TypeError",
                    "dict.__init__ expects at most one positional argument",
                ),
            );
        }
        match self.get(native)? {
            Object::Dict(_) => {},
            _ => {
                return Err(Diagnostic::new("TypeError", "dict.__init__ requires a dict instance"));
            },
        }
        let itself = values.len() == 2 && self.native_value(values[1]) == native;
        if !itself {
            self.dict_clear(owner)?;
        }
        let source = if values.len() == 2 && !itself {
            Some(values[1])
        } else {
            None
        };
        self.begin_dict(native, &arguments.keywords, None, Some(result), source)
    }

    /// Initializes a new object, if it is an instance of the class.
    pub fn finish_new(
        &mut self,
        class: Value,
        instance: Value,
        arguments: ExpandedArgs,
        is_instance: bool,
    ) -> (r: Result<Step>)
        requires
            old(self).wf(),
        ensures
            final(self).wf(),
            new_finished(
                old(self)@,
                final(self)@,
                r,
                class,
                instance,
                arguments@,
                is_instance,
            ),
            old(self)@.sound() ==> final(self)@.sound(),
    {
        let ghost before = self@;
        if !is_instance {
            return Ok(Step::Done(instance));
        }
        let empty = !arguments.full(1);
        if self.class_lookup(class, "__init__")?.is_none() {
            let native = match self.try_get(instance) {
                Some(Object::Instance { native: Some(_), .. }) => true,
                _ => false,
            };
            if !native && !empty {
                return Err(
                    Diagnostic::new("TypeError", "class without __init__ accepts no arguments"),
                );
            }
            return Ok(Step::Done(instance));
        }
        let made = self.attr(instance, "__init__");
        assert(answers(before, self@, made, before.attr(instance, "__init__"@)));
        match made {
            Err(error) => Err(error),
            Ok(initializer) => self.call_initializer(class, instance, initializer, arguments),
        }
    }

    fn initializer_builtin(&self, initializer: Value) -> (r: Result<Option<Builtin>>)
        requires
            self.wf(),
        ensures
            outcome(r) == self@.initializer_builtin(initializer),
    {
        match self.get(initializer)? {
            Object::Builtin(builtin) => Ok(Some(*builtin)),
            Object::BoundMethod { function, .. } => match self.get(*function)? {
                Object::Builtin(builtin) => Ok(Some(*builtin)),
                _ => Ok(None),
            },
            _ => Ok(None),
        }
    }

    fn call_initializer(
        &self,
        class: Value,
        instance: Value,
        initializer: Value,
        arguments: ExpandedArgs,
    ) -> (r: Result<Step>)
        requires
            self.wf(),
        ensures
            initialized(self@, r, class, instance, initializer, arguments@),
    {
        if let Some(builtin) = self.initializer_builtin(initializer)? {
            if builtin == Builtin::ObjectInit {
                if arguments.full(1) {
                    let constructor = self.class_lookup(class, "__new__")?;
                    let canonical = match self.builtin_of(constructor) {
                        Some(builtin) => builtin == Builtin::ObjectNew,
                        None => false,
                    };
                    if canonical {
                        return Err(Diagnostic::new("TypeError", "class accepts no arguments"));
                    }
                }
                return Ok(Step::Done(instance));
            }
            if builtin == Builtin::ListInit || builtin == Builtin::DictInit {
                let mut arguments = arguments;
                arguments.receiver = Some(instance);
                return Ok(Step::NativeInit { builtin, arguments, result: instance });
            }
        }
        match self.try_get(initializer) {
            Some(Object::Function { .. }) | Some(Object::BoundMethod { .. }) => Ok(
                Step::Call {
                    callable: initializer,
                    arguments,
                    then: Continuation::Initializer(instance),
                },
            ),
            _ => Err(Diagnostic::new("TypeError", "__init__ must be callable")),
        }
    }
}

} // verus!
