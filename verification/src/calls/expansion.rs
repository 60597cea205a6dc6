//! Argument lists that are put together while they are evaluated.
use vstd::prelude::*;
use crate::calls::arguments::{ArgsView, ExpandedArgs};
use crate::calls::state::{ArgumentExpansion, Continuation, Step};
use crate::calls::walk::{opened, walked, Advance, Opened};
use crate::calls::{call_step, calls, goes, refuses};
use crate::diagnostic::{fault, fault_text, outcome, Diagnostic, Fault, Result};
use crate::heap::{Heap, HeapView};
use crate::lookup::Outcome;
use crate::object::{Object, ObjectView};
use crate::sequence::yields;
use crate::text::name_position;
use crate::value::Value;

verus! {

/// What is said of more arguments than there may be.
pub open spec fn over_budget() -> Fault {
    fault("ResourceError", "expanded argument budget exceeded")
}

/// What is said of a keyword that is given twice.
pub open spec fn repeated_keyword(name: Seq<char>) -> Fault {
    fault_text("TypeError", "multiple values for keyword argument '"@ + name + "'"@)
}

impl ArgsView {
    /// How many arguments were collected, the receiver aside.
    pub open spec fn collected(self) -> int {
        (self.positional.len() + self.keywords.len() + self.invalid_keywords.len()) as int
    }

    /// The arguments with a positional one more.
    pub open spec fn with_positional(self, value: Value, limit: usize) -> (ArgsView, Outcome<()>) {
        if self.collected() >= limit {
            (self, Err(over_budget()))
        } else {
            (ArgsView { positional: self.positional.push(value), ..self }, Ok(()))
        }
    }

    /// The arguments with a named one more.
    pub open spec fn with_keyword(self, name: Seq<char>, value: Value, limit: usize) -> (
        ArgsView,
        Outcome<()>,
    ) {
        if self.collected() >= limit {
            (self, Err(over_budget()))
        } else if name_position(self.keywords, name) is Some {
            (self, Err(repeated_keyword(name)))
        } else {
            (ArgsView { keywords: self.keywords.push((name, value)), ..self }, Ok(()))
        }
    }
}

impl ArgsView {
    /// The arguments with the value of a lone star expression kept.
    pub open spec fn with_deferred(self, value: Value) -> (ArgsView, Outcome<()>) {
        if self.deferred_star is Some || self.positional.len() != 0 {
            (self, Err(fault("BytecodeError", "invalid deferred argument state")))
        } else {
            (ArgsView { deferred_star: Some(value), ..self }, Ok(()))
        }
    }
}

impl HeapView {
    /// The arguments with a mapping more.
    pub open spec fn with_mapping(self, args: ArgsView, mapping: Value, limit: usize) -> (
        ArgsView,
        Outcome<()>,
    ) {
        match self.found(mapping) {
            Err(error) => (args, Err(error)),
            Ok(ObjectView::Dict(dict)) => self.with_entries(args, dict.entries, limit),
            Ok(_) => (args, Err(fault("TypeError", "** argument must be a mapping"))),
        }
    }

    /// Whether a key is among keys that are no names, from a position on.
    pub open spec fn key_among(self, keys: Seq<(Value, Value)>, key: Value, from: int) -> Outcome<bool>
        decreases keys.len() - from,
    {
        if from >= keys.len() {
            Ok(false)
        } else {
            match self.keys_equal(keys[from].0, key) {
                Err(error) => Err(error),
                Ok(true) => Ok(true),
                Ok(false) => self.key_among(keys, key, from + 1),
            }
        }
    }

    /// The arguments with the entry of a mapping more.
    pub open spec fn with_entry(self, args: ArgsView, key: Value, value: Value, limit: usize) -> (
        ArgsView,
        Outcome<()>,
    ) {
        if args.collected() >= limit {
            (args, Err(over_budget()))
        } else {
            match self.at(key) {
                Some(ObjectView::Str(name)) => args.with_keyword(name, value, limit),
                _ => match self.key_among(args.invalid_keywords, key, 0) {
                    Err(error) => (args, Err(error)),
                    Ok(true) => (
                        args,
                        Err(fault("TypeError", "multiple values for keyword argument")),
                    ),
                    Ok(false) => (
                        ArgsView {
                            invalid_keywords: args.invalid_keywords.push((key, value)),
                            ..args
                        },
                        Ok(()),
                    ),
                },
            }
        }
    }

    /// The arguments with the entries of a mapping more, up to the first that
    /// cannot be added.
    pub open spec fn with_entries(
        self,
        args: ArgsView,
        entries: Seq<(Value, Value)>,
        limit: usize,
    ) -> (ArgsView, Outcome<()>)
        decreases entries.len(),
    {
        if entries.len() == 0 {
            (args, Ok(()))
        } else {
            let (held, result) = self.with_entries(args, entries.drop_last(), limit);
            match result {
                Err(error) => (held, Err(error)),
                Ok(_) => self.with_entry(held, entries.last().0, entries.last().1, limit),
            }
        }
    }
}

proof fn lemma_entries_fail(
    heap: HeapView,
    args: ArgsView,
    entries: Seq<(Value, Value)>,
    limit: usize,
    i: int,
)
    requires
        0 <= i <= entries.len(),
        heap.with_entries(args, entries.take(i), limit).1 is Err,
    ensures
        heap.with_entries(args, entries, limit) == heap.with_entries(args, entries.take(i), limit),
    decreases entries.len() - i,
{
    if i < entries.len() {
        assert(entries.take(i + 1).drop_last() =~= entries.take(i));
        lemma_entries_fail(heap, args, entries, limit, i + 1);
    } else {
        assert(entries.take(i) =~= entries);
    }
}

impl ExpandedArgs {
    /// Adds a positional argument, if there is room.
    pub fn push_expanded_positional(&mut self, value: Value, limit: usize) -> (r: Result<()>)
        ensures
            (final(self)@, outcome(r)) == old(self)@.with_positional(value, limit),
    {
        if self.full(limit) {
            return Err(Diagnostic::new("ResourceError", "expanded argument budget exceeded"));
        }
        self.positional.push(value);
        Ok(())
    }

    /// Adds a named argument, if there is room.
    pub fn push_named(&mut self, name: String, value: Value, limit: usize) -> (r: Result<()>)
        ensures
            (final(self)@, outcome(r)) == old(self)@.with_keyword(name@, value, limit),
    {
        if self.full(limit) {
            return Err(Diagnostic::new("ResourceError", "expanded argument budget exceeded"));
        }
        self.keyword(name, value)
    }

    /// Keeps the value of a lone star expression until the call, behind the
    /// evaluation of the keywords.
    pub fn defer_star(&mut self, value: Value) -> (r: Result<()>)
        ensures
            (final(self)@, outcome(r)) == old(self)@.with_deferred(value),
    {
        if self.deferred_star.is_some() || self.positional.len() != 0 {
            return Err(Diagnostic::new("BytecodeError", "invalid deferred argument state"));
        }
        self.deferred_star = Some(value);
        Ok(())
    }
}

/// What beginning to expand an iterable does.
pub open spec fn expansion_begun(
    before: HeapView,
    after: HeapView,
    result: core::result::Result<Step, Diagnostic>,
    source: Value,
    resume_pc: Option<usize>,
) -> bool {
    exists|walk: core::result::Result<Opened, Diagnostic>|
        #![trigger opened(before, after, walk, source)]
        opened(before, after, walk, source) && match walk {
            Err(error) => refuses(result, error@),
            Ok(Opened::Iterator(iterator)) => goes(
                result,
                Step::Expand(ArgumentExpansion { iterator, resume_pc: None }),
            ),
            Ok(Opened::Method(call)) => calls(
                result,
                call,
                Seq::empty(),
                Continuation::Expand(resume_pc),
            ),
            Ok(Opened::Nothing) => refuses(result, fault("TypeError", "value is not iterable")),
        }
}

/// What taking the next argument of an expansion does.
pub open spec fn expansion_continued(
    before: HeapView,
    after: HeapView,
    result: core::result::Result<Step, Diagnostic>,
    old_args: ArgsView,
    new_args: ArgsView,
    state: ArgumentExpansion,
    limit: usize,
) -> bool {
    exists|walk: core::result::Result<Advance, Diagnostic>|
        #![trigger walked(before, after, walk, state.iterator)]
        walked(before, after, walk, state.iterator) && match walk {
            Err(error) => new_args == old_args && refuses(result, error@),
            Ok(Advance::Item(item)) => argument_taken(
                result,
                old_args,
                new_args,
                item,
                state,
                limit,
            ),
            Ok(Advance::End) => new_args == old_args && goes(
                result,
                Step::Expanded(state.resume_pc),
            ),
            Ok(Advance::Method(call)) => new_args == old_args && calls(
                result,
                call,
                Seq::empty(),
                Continuation::ExpandItem(state),
            ),
        }
}

/// What taking an argument of an expansion does.
pub open spec fn argument_taken(
    result: core::result::Result<Step, Diagnostic>,
    old_args: ArgsView,
    new_args: ArgsView,
    item: Value,
    state: ArgumentExpansion,
    limit: usize,
) -> bool {
    let change = old_args.with_positional(item, limit);
    &&& new_args == change.0
    &&& match change.1 {
        Ok(_) => goes(result, Step::Expand(state)),
        Err(error) => refuses(result, error),
    }
}

/// The part of a call that an argument stands in.
#[derive(Debug)]
pub enum ArgumentPart {
    Positional,
    /// Behind a star; one that is the only positional part is kept for later.
    Star { lone: bool },
    Named(String),
    /// Behind two stars.
    Mapping,
}

/// Whether a change of the arguments is all that a part does.
pub open spec fn changed_to(
    result: core::result::Result<Step, Diagnostic>,
    args: ArgsView,
    change: (ArgsView, Outcome<()>),
) -> bool {
    args == change.0 && match change.1 {
        Ok(_) => goes(result, Step::Expanded(None)),
        Err(error) => refuses(result, error),
    }
}

/// What a star argument does that is expanded at once.
pub open spec fn star_begun(
    before: HeapView,
    after: HeapView,
    result: core::result::Result<Step, Diagnostic>,
    source: Value,
) -> bool {
    exists|made: core::result::Result<Value, Diagnostic>|
        #![trigger yields(before, after, made, before.iterator(source))]
        yields(before, after, made, before.iterator(source)) && match made {
            Err(error) => refuses(result, error@),
            Ok(iterator) => goes(
                result,
                Step::Expand(ArgumentExpansion { iterator, resume_pc: None }),
            ),
        }
}

/// What an argument of a call does.
pub open spec fn argument_appended(
    before: HeapView,
    after: HeapView,
    result: core::result::Result<Step, Diagnostic>,
    old_args: ArgsView,
    new_args: ArgsView,
    part: ArgumentPart,
    value: Value,
    limit: usize,
) -> bool {
    match part {
        ArgumentPart::Positional => after == before && changed_to(
            result,
            new_args,
            old_args.with_positional(value, limit),
        ),
        ArgumentPart::Star { lone: true } => after == before && changed_to(
            result,
            new_args,
            old_args.with_deferred(value),
        ),
        ArgumentPart::Star { lone: false } => new_args == old_args && star_begun(
            before,
            after,
            result,
            value,
        ),
        ArgumentPart::Named(name) => after == before && changed_to(
            result,
            new_args,
            old_args.with_keyword(name@, value, limit),
        ),
        ArgumentPart::Mapping => after == before && changed_to(
            result,
            new_args,
            before.with_mapping(old_args, value, limit),
        ),
    }
}

/// Takes an argument of an expansion.
pub fn take_argument(
    args: &mut ExpandedArgs,
    item: Value,
    state: ArgumentExpansion,
    limit: usize,
) -> (r: Result<Step>)
    ensures
        argument_taken(r, old(args)@, final(args)@, item, state, limit),
{
    args.push_expanded_positional(item, limit)?;
    Ok(Step::Expand(state))
}

impl Heap {
    fn key_among(&self, keys: &Vec<(Value, Value)>, key: Value) -> (r: Result<bool>)
        requires
            self.wf(),
        ensures
            outcome(r) == self@.key_among(keys@, key, 0),
    {
        let mut i: usize = 0;
        while i < keys.len()
            invariant
                self.wf(),
                i <= keys.len(),
                self@.key_among(keys@, key, 0) == self@.key_among(keys@, key, i as int),
            decreases keys.len() - i,
        {
            if self.dict_keys_equal(keys[i].0, key)? {
                return Ok(true);
            }
            i += 1;
        }
        Ok(false)
    }

    fn push_entry(&self, args: &mut ExpandedArgs, key: Value, value: Value, limit: usize) -> (r: Result<
        (),
    >)
        requires
            self.wf(),
        ensures
            (final(args)@, outcome(r)) == self@.with_entry(old(args)@, key, value, limit),
    {
        if args.full(limit) {
            return Err(Diagnostic::new("ResourceError", "expanded argument budget exceeded"));
        }
        if let Some(Object::Str(name)) = self.try_get(key) {
            return args.push_named(name.clone(), value, limit);
        }
        if self.key_among(&args.invalid_keywords, key)? {
            return Err(Diagnostic::new("TypeError", "multiple values for keyword argument"));
        }
        args.invalid_keywords.push((key, value));
        Ok(())
    }

    /// Adds the entries of a mapping as named arguments.
    pub fn push_mapping(&self, args: &mut ExpandedArgs, mapping: Value, limit: usize) -> (r: Result<()>)
        requires
            self.wf(),
        ensures
            (final(args)@, outcome(r)) == self@.with_mapping(old(args)@, mapping, limit),
    {
        let entries = match self.get(mapping)? {
            Object::Dict(dict) => dict.entries(),
            _ => {
                return Err(Diagnostic::new("TypeError", "** argument must be a mapping"));
            },
        };
        let ghost before = args@;
        let mut i: usize = 0;
        assert(entries@.take(0) =~= Seq::empty());
        while i < entries.len()
            invariant
                self.wf(),
                before == old(args)@,
                i <= entries.len(),
                self@.found(mapping) matches Ok(ObjectView::Dict(dict)) && dict.entries
                    == entries@,
                self@.with_entries(before, entries@.take(i as int), limit) == (
                    args@,
                    Ok::<(), Fault>(()),
                ),
            decreases entries.len() - i,
        {
            assert(entries@.take(i + 1).drop_last() =~= entries@.take(i as int));
            match self.push_entry(args, entries[i].0, entries[i].1, limit) {
                Ok(_) => {},
                Err(error) => {
                    proof {
                        lemma_entries_fail(self@, before, entries@, limit, i + 1);
                    }
                    return Err(error);
                },
            }
            i += 1;
        }
        assert(entries@.take(i as int) =~= entries@);
        Ok(())
    }

    /// Adds an argument to a call whose arguments are evaluated in turn.
    pub fn append_argument(
        &mut self,
        args: &mut ExpandedArgs,
        part: ArgumentPart,
        value: Value,
        limit: usize,
    ) -> (r: Result<Step>)
        requires
            old(self).wf(),
        ensures
            final(self).wf(),
            argument_appended(
                old(self)@,
                final(self)@,
                r,
                old(args)@,
                final(args)@,
                part,
                value,
                limit,
            ),
            old(self)@.sound() ==> final(self)@.sound(),
    {
        let change = match part {
            ArgumentPart::Positional => args.push_expanded_positional(value, limit),
            ArgumentPart::Star { lone } => {
                if !lone {
                    let ghost before = self@;
                    let made = self.iterator(value);
                    assert(yields(before, self@, made, before.iterator(value)));
                    return match made {
                        Ok(iterator) => Ok(
                            Step::Expand(ArgumentExpansion { iterator, resume_pc: None }),
                        ),
                        Err(error) => Err(error),
                    };
                }
                args.defer_star(value)
            },
            ArgumentPart::Named(name) => args.push_named(name, value, limit),
            ArgumentPart::Mapping => self.push_mapping(args, value, limit),
        };
        match change {
            Ok(_) => Ok(Step::Expanded(None)),
            Err(error) => Err(error),
        }
    }

    /// Begins to expand an iterable into positional arguments.
    pub fn expand_star_argument(&mut self, source: Value, resume_pc: Option<usize>) -> (r: Result<Step>)
        requires
            old(self).wf(),
        ensures
            final(self).wf(),
            expansion_begun(old(self)@, final(self)@, r, source, resume_pc),
            old(self)@.sound() ==> final(self)@.sound(),
    {
        match self.open(source)? {
            Opened::Iterator(iterator) => Ok(
                Step::Expand(ArgumentExpansion { iterator, resume_pc: None }),
            ),
            Opened::Method(call) => {
                let none: Vec<Value> = Vec::new();
                assert(none@ =~= Seq::<Value>::empty());
                Ok(call_step(call, none, Continuation::Expand(resume_pc)))
            },
            Opened::Nothing => Err(Diagnostic::new("TypeError", "value is not iterable")),
        }
    }

    /// Takes the next argument of an expansion, or ends it.
    pub fn continue_argument_expansion(
        &mut self,
        args: &mut ExpandedArgs,
        state: ArgumentExpansion,
        limit: usize,
    ) -> (r: Result<Step>)
        requires
            old(self).wf(),
        ensures
            final(self).wf(),
            expansion_continued(
                old(self)@,
                final(self)@,
                r,
                old(args)@,
                final(args)@,
                state,
                limit,
            ),
            old(self)@.sound() ==> final(self)@.sound(),
    {
        match self.advance(state.iterator)? {
            Advance::Item(item) => take_argument(args, item, state, limit),
            Advance::End => Ok(Step::Expanded(state.resume_pc)),
            Advance::Method(call) => {
                let none: Vec<Value> = Vec::new();
                assert(none@ =~= Seq::<Value>::empty());
                Ok(call_step(call, none, Continuation::ExpandItem(state)))
            },
        }
    }
}

} // verus!
