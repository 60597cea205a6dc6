//! Dictionary operations and constructions through protocols.
use vstd::prelude::*;
use crate::calls::known::operation_known;
use crate::calls::state::{
    Continuation, DictConstruction, DictConstructionStart, DictMergeFinish, DictMergeState,
    DictOperation, DictOperationKind, DictOperationStart, DictPairConstruction, EqualityAction,
    Step,
};
use crate::calls::walk::{opened, walked, Advance, Opened};
use crate::calls::{call_step, calls, goes, refuses};
use crate::dict::bucket;
use crate::diagnostic::{fault, fault_text, Diagnostic, Fault, Result};
use crate::heap::{Heap, HeapView};
use crate::lookup::Outcome;
use crate::mapping::entries_known;
use crate::text::{decimal, decimal_usize, join3};
use crate::value::Value;

verus! {

/// How deeply the comparison is nested that an operation is part of.
pub open spec fn operation_depth(kind: DictOperationKind) -> usize {
    match kind {
        DictOperationKind::CompareValue { action, .. } => action.depth_of(),
        _ => 0,
    }
}

/// Whether an operation begins with the entries of the key's hash.
pub open spec fn begins(
    heap: HeapView,
    result: core::result::Result<Step, Diagnostic>,
    start: DictOperationStart,
    hash: i64,
) -> bool {
    match heap.dict(start.owner) {
        Err(error) => refuses(result, error),
        Ok(dict) => result matches Ok(Step::DictCandidates(state)) && state.start == start
            && state.hash == hash && state.version == dict.version && state.candidates@
            == dict.candidates(bucket(hash as int)) && state.next == 0 && state.comparison_depth
            == operation_depth(start.kind),
    }
}

/// What is said of a dictionary that changed under a comparison of keys.
pub open spec fn changed_key() -> Fault {
    fault("RuntimeError", "dictionary changed during key comparison")
}

impl HeapView {
    /// The entry at a position.
    pub open spec fn dict_entry_at(self, owner: Value, index: usize) -> Outcome<(Value, Value)> {
        match self.dict(owner) {
            Err(error) => Err(error),
            Ok(dict) => if index < dict.entries.len() {
                Ok(dict.entries[index as int])
            } else {
                Err(fault("RuntimeError", "stale dictionary candidate"))
            },
        }
    }

    /// Removes the entry at a position.
    pub open spec fn dict_delete_at(self, owner: Value, index: usize) -> (HeapView, Outcome<()>) {
        match self.dict(owner) {
            Err(error) => (self, Err(error)),
            Ok(dict) => if index < dict.entries.len() {
                self.dict_changed(owner, dict, dict.removed(index as int))
            } else {
                (self, Err(fault("RuntimeError", "stale dictionary candidate")))
            },
        }
    }
}

/// Whether a change was made, with a step behind it.
pub open spec fn changes(
    after: HeapView,
    result: core::result::Result<Step, Diagnostic>,
    change: (HeapView, core::result::Result<(), Fault>),
    step: Step,
) -> bool {
    &&& after == change.0
    &&& match change.1 {
        Ok(_) => goes(result, step),
        Err(error) => refuses(result, error),
    }
}

/// What is done with a dictionary once its key was found or not.
pub open spec fn matched_done(
    before: HeapView,
    after: HeapView,
    result: core::result::Result<Step, Diagnostic>,
    state: DictOperation,
    matched: Option<usize>,
) -> bool {
    let owner = state.start.owner;
    let key = state.start.key;
    match state.start.kind {
        DictOperationKind::Get => after == before && match matched {
            None => refuses(result, before.missing_key(key)),
            Some(index) => match before.dict_entry_at(owner, index) {
                Err(error) => refuses(result, error),
                Ok(entry) => goes(result, Step::Done(entry.1)),
            },
        },
        DictOperationKind::Store(value) => changes(
            after,
            result,
            before.dict_set_hashed(owner, key, value, state.hash, matched),
            Step::Done(owner),
        ),
        DictOperationKind::StoreAndContinue { value, state: further } => changes(
            after,
            result,
            before.dict_set_hashed(owner, key, value, state.hash, matched),
            Step::DictItems(*further),
        ),
        DictOperationKind::StoreAndMerge { value, state: further } => changes(
            after,
            result,
            before.dict_set_hashed(owner, key, value, state.hash, matched),
            Step::DictMerge(*further),
        ),
        DictOperationKind::Delete => match matched {
            None => after == before && refuses(result, before.missing_key(key)),
            Some(index) => changes(
                after,
                result,
                before.dict_delete_at(owner, index),
                Step::Done(owner),
            ),
        },
        DictOperationKind::CompareValue { expected, action } => after == before && match matched {
            None => goes(result, Step::CompleteEquality { equal: false, action: *action }),
            Some(index) => match before.dict_entry_at(owner, index) {
                Err(error) => refuses(result, error),
                Ok(entry) => goes(
                    result,
                    Step::Equality { left: entry.1, right: expected, action: *action },
                ),
            },
        },
    }
}

/// What is said of an element of an update sequence that is no sequence.
pub open spec fn no_pair(index: usize) -> Fault {
    fault_text(
        "TypeError",
        "cannot convert dictionary update sequence element #"@ + decimal(index as int)
            + " to a sequence"@,
    )
}

/// What is said of an element of an update sequence of another length than two.
pub open spec fn pair_length(index: usize, len: int) -> Fault {
    fault_text(
        "ValueError",
        "dictionary update sequence element #"@ + decimal(index as int) + " has length"@ + (" "@
            + decimal(len) + "; 2 is required"@),
    )
}

/// What comes next in merging entries into a dictionary.
pub open spec fn merge_continued(state: DictMergeState) -> Step {
    if state.next < state.entries@.len() {
        Step::Dict(
            DictOperationStart {
                owner: state.target,
                key: state.entries@[state.next as int].0,
                kind: DictOperationKind::StoreAndMerge {
                    value: state.entries@[state.next as int].1,
                    state: Box::new((DictMergeState { next: (state.next + 1) as usize, ..state })),
                },
            },
        )
    } else {
        match state.finish {
            DictMergeFinish::Preserve => Step::Done(state.target),
            DictMergeFinish::Construction(start) => Step::DictDone(start),
        }
    }
}

/// Continues a merge with its next entry, or ends it.
pub fn continue_dict_merge(state: DictMergeState) -> (r: Step)
    ensures
        r == merge_continued(state),
{
    if state.next < state.entries.len() {
        let mut state = state;
        let (key, value) = state.entries[state.next];
        state.next = state.next + 1;
        return Step::Dict(
            DictOperationStart {
                owner: state.target,
                key,
                kind: DictOperationKind::StoreAndMerge { value, state: Box::new(state) },
            },
        );
    }
    match state.finish {
        DictMergeFinish::Preserve => Step::Done(state.target),
        DictMergeFinish::Construction(start) => Step::DictDone(start),
    }
}

/// Takes a complete element of an update sequence.
pub fn finish_dict_pair(state: DictPairConstruction) -> (r: Result<Step>)
    requires
        state.outer.index < usize::MAX,
    ensures
        pair_done(r, state),
{
    if state.items.len() != 2 {
        let count = decimal_usize(state.items.len());
        let tail = join3(" ", count.as_str(), "; 2 is required");
        let index = decimal_usize(state.outer.index);
        let mut text = join3(
            "dictionary update sequence element #",
            index.as_str(),
            " has length",
        );
        text.append(tail.as_str());
        assert(text@ =~= pair_length(state.outer.index, state.items@.len() as int).message);
        return Err(Diagnostic::with_text("ValueError", text));
    }
    let (key, value) = (state.items[0], state.items[1]);
    let mut outer = state.outer;
    outer.index = outer.index + 1;
    Ok(
        Step::Dict(
            DictOperationStart {
                owner: outer.start.result,
                key,
                kind: DictOperationKind::StoreAndContinue { value, state: Box::new(outer) },
            },
        ),
    )
}

/// What comes next where candidates are compared with a key.
pub open spec fn operation_continued(
    heap: HeapView,
    result: core::result::Result<Step, Diagnostic>,
    state: DictOperation,
) -> bool {
    match heap.dict(state.start.owner) {
        Err(error) => refuses(result, error),
        Ok(dict) => if dict.version != state.version {
            refuses(result, changed_key())
        } else if state.next < state.candidates@.len() {
            let index = state.candidates@[state.next as int];
            let further = DictOperation { next: (state.next + 1) as usize, ..state };
            match heap.dict_entry_at(state.start.owner, index) {
                Err(error) => refuses(result, error),
                Ok(entry) => if entry.0 == state.start.key {
                    goes(result, Step::DictMatched { state: further, matched: Some(index) })
                } else {
                    goes(
                        result,
                        Step::Equality {
                            left: entry.0,
                            right: state.start.key,
                            action: EqualityAction::DictCandidate {
                                state: Box::new(further),
                                index,
                            },
                        },
                    )
                },
            }
        } else {
            goes(result, Step::DictMatched { state, matched: None })
        },
    }
}

/// What completing a dictionary leads to.
pub open spec fn construction_finished(
    before: HeapView,
    after: HeapView,
    result: core::result::Result<Step, Diagnostic>,
    state: DictConstructionStart,
) -> bool {
    changes(
        after,
        result,
        before.dict_set_all(state.result, state.keywords@),
        match state.return_value {
            Some(value) => Step::Done(value),
            None => Step::BuiltinValue { value: state.result, finish: state.native },
        },
    )
}

impl Heap {
    /// Begins an operation on a dictionary by the hash of its key.
    pub fn begin_dict_operation(&self, start: DictOperationStart, hash: i64) -> (r: Result<Step>)
        requires
            self.wf(),
        ensures
            begins(self@, r, start, hash),
    {
        let version = self.dict_version(start.owner)?;
        let candidates = self.dict_candidates(start.owner, hash)?;
        let comparison_depth = match &start.kind {
            DictOperationKind::CompareValue { action, .. } => action.comparison_depth(),
            _ => 0,
        };
        Ok(
            Step::DictCandidates(
                DictOperation { start, hash, version, candidates, next: 0, comparison_depth },
            ),
        )
    }

    /// Compares the key with the next entry of its hash.
    pub fn continue_dict_operation(&self, state: DictOperation) -> (r: Result<Step>)
        requires
            self.wf(),
        ensures
            operation_continued(self@, r, state),
    {
        if self.dict_version(state.start.owner)? != state.version {
            return Err(
                Diagnostic::new("RuntimeError", "dictionary changed during key comparison"),
            );
        }
        if state.next < state.candidates.len() {
            let mut state = state;
            let index = state.candidates[state.next];
            state.next = state.next + 1;
            let (candidate, _) = self.dict_entry_at(state.start.owner, index)?;
            if candidate == state.start.key {
                return Ok(Step::DictMatched { state, matched: Some(index) });
            }
            return Ok(
                Step::Equality {
                    left: candidate,
                    right: state.start.key,
                    action: EqualityAction::DictCandidate { state: Box::new(state), index },
                },
            );
        }
        Ok(Step::DictMatched { state, matched: None })
    }

    /// Performs an operation once its key was found or not.
    pub fn finish_dict_operation(&mut self, state: DictOperation, matched: Option<usize>) -> (r:
        Result<Step>)
        requires
            old(self).wf(),
        ensures
            final(self).wf(),
            matched_done(old(self)@, final(self)@, r, state, matched),
            old(self)@.sound() && operation_known(old(self)@, state.start) ==> final(self)@.sound(),
    {
        let owner = state.start.owner;
        let key = state.start.key;
        match state.start.kind {
            DictOperationKind::Get => match matched {
                None => Err(self.missing_key(key)),
                Some(index) => {
                    let entry = self.dict_entry_at(owner, index)?;
                    Ok(Step::Done(entry.1))
                },
            },
            DictOperationKind::Store(value) => {
                self.dict_set_hashed(owner, key, value, state.hash, matched)?;
                Ok(Step::Done(owner))
            },
            DictOperationKind::StoreAndContinue { value, state: further } => {
                self.dict_set_hashed(owner, key, value, state.hash, matched)?;
                Ok(Step::DictItems(*further))
            },
            DictOperationKind::StoreAndMerge { value, state: further } => {
                self.dict_set_hashed(owner, key, value, state.hash, matched)?;
                Ok(Step::DictMerge(*further))
            },
            DictOperationKind::Delete => match matched {
                None => Err(self.missing_key(key)),
                Some(index) => {
                    self.dict_delete_at(owner, index)?;
                    Ok(Step::Done(owner))
                },
            },
            DictOperationKind::CompareValue { expected, action } => match matched {
                None => Ok(Step::CompleteEquality { equal: false, action: *action }),
                Some(index) => {
                    let entry = self.dict_entry_at(owner, index)?;
                    Ok(Step::Equality { left: entry.1, right: expected, action: *action })
                },
            },
        }
    }

    /// Begins to copy the entries of a dictionary into another.
    pub fn invoke_dict_merge(&self, target: Value, source: Value, finish: DictMergeFinish) -> (r:
        Result<Step>)
        requires
            self.wf(),
        ensures
            match self@.dict(source) {
                Err(error) => refuses(r, error),
                Ok(dict) => r matches Ok(Step::DictMerge(state)) && state.target == target
                    && state.entries@ == dict.entries && state.next == 0 && state.finish == finish,
            },
    {
        let entries = self.dict_entries(source)?;
        Ok(Step::DictMerge(DictMergeState { target, entries, next: 0, finish }))
    }

    /// Begins to fill a dictionary with the pairs of an iterable.
    pub fn invoke_dict_construction(&mut self, start: DictConstructionStart, source: Value) -> (r:
        Result<Step>)
        requires
            old(self).wf(),
        ensures
            final(self).wf(),
            construction_begun(old(self)@, final(self)@, r, start, source),
            old(self)@.sound() ==> final(self)@.sound(),
    {
        match self.open(source)? {
            Opened::Iterator(iterator) => Ok(
                Step::DictItems(DictConstruction { start, iterator, index: 0 }),
            ),
            Opened::Method(call) => {
                let none: Vec<Value> = Vec::new();
                assert(none@ =~= Seq::<Value>::empty());
                Ok(call_step(call, none, Continuation::DictIterable(start)))
            },
            Opened::Nothing => Err(Diagnostic::new("TypeError", "value is not iterable")),
        }
    }

    /// Takes the next element of an update sequence.
    pub fn continue_dict_construction(&mut self, state: DictConstruction) -> (r: Result<Step>)
        requires
            old(self).wf(),
        ensures
            final(self).wf(),
            construction_continued(old(self)@, final(self)@, r, state),
            old(self)@.sound() ==> final(self)@.sound(),
    {
        match self.advance(state.iterator)? {
            Advance::Item(item) => Ok(Step::DictPair { outer: state, item }),
            Advance::End => Ok(Step::DictDone(state.start)),
            Advance::Method(call) => {
                let none: Vec<Value> = Vec::new();
                assert(none@ =~= Seq::<Value>::empty());
                Ok(call_step(call, none, Continuation::DictItem(state)))
            },
        }
    }

    /// Begins to take apart an element of an update sequence.
    pub fn invoke_dict_pair(&mut self, outer: DictConstruction, item: Value) -> (r: Result<Step>)
        requires
            old(self).wf(),
        ensures
            final(self).wf(),
            pair_begun(old(self)@, final(self)@, r, outer, item),
            old(self)@.sound() ==> final(self)@.sound(),
    {
        match self.open(item)? {
            Opened::Iterator(iterator) => Ok(Step::DictPairIterator { outer, iterator }),
            Opened::Method(call) => {
                let none: Vec<Value> = Vec::new();
                assert(none@ =~= Seq::<Value>::empty());
                Ok(call_step(call, none, Continuation::DictPair(outer)))
            },
            Opened::Nothing => {
                let index = decimal_usize(outer.index);
                let text = join3(
                    "cannot convert dictionary update sequence element #",
                    index.as_str(),
                    " to a sequence",
                );
                assert(text@ == no_pair(outer.index).message);
                Err(Diagnostic::with_text("TypeError", text))
            },
        }
    }

    /// Begins to walk over an element of an update sequence by its iterator.
    pub fn invoke_dict_pair_iterator(&mut self, outer: DictConstruction, iterator: Value) -> (r:
        Result<Step>)
        requires
            old(self).wf(),
        ensures
            final(self).wf(),
            pair_opened(old(self)@, final(self)@, r, outer, iterator),
            old(self)@.sound() ==> final(self)@.sound(),
    {
        match self.open(iterator)? {
            Opened::Iterator(iterator) => Ok(
                Step::DictPairItems(DictPairConstruction { outer, iterator, items: Vec::new() }),
            ),
            Opened::Method(call) => {
                let none: Vec<Value> = Vec::new();
                assert(none@ =~= Seq::<Value>::empty());
                Ok(call_step(call, none, Continuation::DictPairIterator(outer)))
            },
            Opened::Nothing => Err(Diagnostic::new("TypeError", "object is not an iterator")),
        }
    }

    /// Takes the next item of an element of an update sequence.
    pub fn continue_dict_pair(&mut self, state: DictPairConstruction) -> (r: Result<Step>)
        requires
            old(self).wf(),
            state.outer.index < usize::MAX,
        ensures
            final(self).wf(),
            pair_continued(old(self)@, final(self)@, r, state),
            old(self)@.sound() ==> final(self)@.sound(),
    {
        match self.advance(state.iterator)? {
            Advance::Item(item) => {
                let mut state = state;
                state.items.push(item);
                Ok(Step::DictPairItems(state))
            },
            Advance::End => finish_dict_pair(state),
            Advance::Method(call) => {
                let none: Vec<Value> = Vec::new();
                assert(none@ =~= Seq::<Value>::empty());
                Ok(call_step(call, none, Continuation::DictPairItem(state)))
            },
        }
    }

    /// Ends a construction: the keywords follow what was filled in.
    pub fn finish_dict_construction(&mut self, state: DictConstructionStart) -> (r: Result<Step>)
        requires
            old(self).wf(),
        ensures
            final(self).wf(),
            construction_finished(old(self)@, final(self)@, r, state),
            old(self)@.sound() && entries_known(old(self)@, state.keywords@)
                ==> final(self)@.sound(),
    {
        self.dict_set_all(state.result, &state.keywords)?;
        match state.return_value {
            Some(value) => Ok(Step::Done(value)),
            None => Ok(Step::BuiltinValue { value: state.result, finish: state.native }),
        }
    }
}

/// What beginning a construction does.
pub open spec fn construction_begun(
    before: HeapView,
    after: HeapView,
    result: core::result::Result<Step, Diagnostic>,
    start: DictConstructionStart,
    source: Value,
) -> bool {
    exists|walk: core::result::Result<Opened, Diagnostic>|
        #![trigger opened(before, after, walk, source)]
        opened(before, after, walk, source) && match walk {
            Err(error) => refuses(result, error@),
            Ok(Opened::Iterator(iterator)) => goes(
                result,
                Step::DictItems(DictConstruction { start, iterator, index: 0 }),
            ),
            Ok(Opened::Method(call)) => calls(
                result,
                call,
                Seq::empty(),
                Continuation::DictIterable(start),
            ),
            Ok(Opened::Nothing) => refuses(result, fault("TypeError", "value is not iterable")),
        }
}

/// What taking the next element does.
pub open spec fn construction_continued(
    before: HeapView,
    after: HeapView,
    result: core::result::Result<Step, Diagnostic>,
    state: DictConstruction,
) -> bool {
    exists|walk: core::result::Result<Advance, Diagnostic>|
        #![trigger walked(before, after, walk, state.iterator)]
        walked(before, after, walk, state.iterator) && match walk {
            Err(error) => refuses(result, error@),
            Ok(Advance::Item(item)) => goes(result, Step::DictPair { outer: state, item }),
            Ok(Advance::End) => goes(result, Step::DictDone(state.start)),
            Ok(Advance::Method(call)) => calls(
                result,
                call,
                Seq::empty(),
                Continuation::DictItem(state),
            ),
        }
}

/// What beginning with an element does.
pub open spec fn pair_begun(
    before: HeapView,
    after: HeapView,
    result: core::result::Result<Step, Diagnostic>,
    outer: DictConstruction,
    item: Value,
) -> bool {
    exists|walk: core::result::Result<Opened, Diagnostic>|
        #![trigger opened(before, after, walk, item)]
        opened(before, after, walk, item) && match walk {
            Err(error) => refuses(result, error@),
            Ok(Opened::Iterator(iterator)) => goes(
                result,
                Step::DictPairIterator { outer, iterator },
            ),
            Ok(Opened::Method(call)) => calls(
                result,
                call,
                Seq::empty(),
                Continuation::DictPair(outer),
            ),
            Ok(Opened::Nothing) => refuses(result, no_pair(outer.index)),
        }
}

/// What beginning to walk over an element does.
pub open spec fn pair_opened(
    before: HeapView,
    after: HeapView,
    result: core::result::Result<Step, Diagnostic>,
    outer: DictConstruction,
    iterator: Value,
) -> bool {
    exists|walk: core::result::Result<Opened, Diagnostic>|
        #![trigger opened(before, after, walk, iterator)]
        opened(before, after, walk, iterator) && match walk {
            Err(error) => refuses(result, error@),
            Ok(Opened::Iterator(found)) => result matches Ok(Step::DictPairItems(state))
                && state.outer == outer && state.iterator == found && state.items@
                == Seq::<Value>::empty(),
            Ok(Opened::Method(call)) => calls(
                result,
                call,
                Seq::empty(),
                Continuation::DictPairIterator(outer),
            ),
            Ok(Opened::Nothing) => refuses(
                result,
                fault("TypeError", "object is not an iterator"),
            ),
        }
}

/// Whether an item was added to an element.
pub open spec fn pair_item(
    result: core::result::Result<Step, Diagnostic>,
    state: DictPairConstruction,
    item: Value,
) -> bool {
    result matches Ok(Step::DictPairItems(next)) && next.outer == state.outer && next.iterator
        == state.iterator && next.items@ == state.items@.push(item)
}

/// Whether an element was taken as complete.
pub open spec fn pair_done(
    result: core::result::Result<Step, Diagnostic>,
    state: DictPairConstruction,
) -> bool {
    if state.items@.len() != 2 {
        refuses(result, pair_length(state.outer.index, state.items@.len() as int))
    } else {
        goes(
            result,
            Step::Dict(
                DictOperationStart {
                    owner: state.outer.start.result,
                    key: state.items@[0],
                    kind: DictOperationKind::StoreAndContinue {
                        value: state.items@[1],
                        state: Box::new(
                            (DictConstruction {
                                index: (state.outer.index + 1) as usize,
                                ..state.outer
                            }),
                        ),
                    },
                },
            ),
        )
    }
}

/// What taking the next item of an element does.
pub open spec fn pair_continued(
    before: HeapView,
    after: HeapView,
    result: core::result::Result<Step, Diagnostic>,
    state: DictPairConstruction,
) -> bool {
    exists|walk: core::result::Result<Advance, Diagnostic>|
        #![trigger walked(before, after, walk, state.iterator)]
        walked(before, after, walk, state.iterator) && match walk {
            Err(error) => refuses(result, error@),
            Ok(Advance::Item(item)) => pair_item(result, state, item),
            Ok(Advance::End) => pair_done(result, state),
            Ok(Advance::Method(call)) => calls(
                result,
                call,
                Seq::empty(),
                Continuation::DictPairItem(state),
            ),
        }
}

} // verus!
