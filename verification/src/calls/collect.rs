//! Collections of what an iterable yields.
use vstd::prelude::*;
use crate::calls::conversion::builtin_made;
use crate::calls::state::{
    Continuation, IterableCollection, IterableCollectionKind, NativeSubclassFinish, Step,
};
use crate::calls::walk::{opened, walked, Advance, Opened};
use crate::calls::{call_step, calls, goes, refuses};
use crate::diagnostic::{fault, fault_text, Diagnostic, Fault, Result};
use crate::heap::{Heap, HeapView};
use crate::namespaces::{all_known, allocates};
use crate::object::{Object, ObjectView};
use crate::text::{decimal, decimal_usize, join3};
use crate::value::Value;

verus! {

/// Whether a collection goes on, with an item more.
pub open spec fn collects(
    result: core::result::Result<Step, Diagnostic>,
    state: IterableCollection,
    items: Seq<Value>,
) -> bool {
    result matches Ok(Step::CollectItems(next)) && next.kind == state.kind && next.iterator
        == state.iterator && next.items@ == items
}

/// What taking an item into a collection does. The items of a list that is
/// filled again go to the list at once.
pub open spec fn item_taken(
    before: HeapView,
    after: HeapView,
    result: core::result::Result<Step, Diagnostic>,
    state: IterableCollection,
    item: Value,
) -> bool {
    match state.kind {
        IterableCollectionKind::ListInit { owner, .. } => {
            let change = before.append_list(owner, item);
            &&& after == change.0
            &&& match change.1 {
                Ok(_) => collects(result, state, state.items@),
                Err(error) => refuses(result, error),
            }
        },
        _ => after == before && collects(result, state, state.items@.push(item)),
    }
}

/// What beginning a collection does.
pub open spec fn collection_begun(
    before: HeapView,
    after: HeapView,
    result: core::result::Result<Step, Diagnostic>,
    kind: IterableCollectionKind,
    source: Value,
) -> bool {
    exists|walk: core::result::Result<Opened, Diagnostic>|
        #![trigger opened(before, after, walk, source)]
        opened(before, after, walk, source) && match walk {
            Err(error) => refuses(result, error@),
            Ok(Opened::Iterator(iterator)) => result matches Ok(Step::CollectItems(state))
                && state.kind == kind && state.iterator == iterator && state.items@
                == Seq::<Value>::empty(),
            Ok(Opened::Method(call)) => calls(
                result,
                call,
                Seq::empty(),
                Continuation::Collect(kind),
            ),
            Ok(Opened::Nothing) => refuses(result, fault("TypeError", "value is not iterable")),
        }
}

/// What going on with a collection does.
pub open spec fn collection_continued(
    before: HeapView,
    after: HeapView,
    result: core::result::Result<Step, Diagnostic>,
    state: IterableCollection,
) -> bool {
    exists|between: HeapView, walk: core::result::Result<Advance, Diagnostic>|
        #![trigger walked(before, between, walk, state.iterator)]
        walked(before, between, walk, state.iterator) && match walk {
            Err(error) => after == between && refuses(result, error@),
            Ok(Advance::Item(item)) => item_taken(between, after, result, state, item),
            Ok(Advance::End) => after == between && goes(
                result,
                Step::Collected { kind: state.kind, items: state.items },
            ),
            Ok(Advance::Method(call)) => after == between && calls(
                result,
                call,
                Seq::empty(),
                Continuation::CollectItem(state),
            ),
        }
}

/// What is said of too few values to unpack.
pub open spec fn too_few(count: usize, got: int) -> Fault {
    fault_text(
        "ValueError",
        "not enough values to unpack (expected "@ + decimal(count as int) + ", got "@ + (decimal(
            got,
        ) + ")"@),
    )
}

/// What is said of too many values to unpack.
pub open spec fn too_many(count: usize) -> Fault {
    fault_text(
        "ValueError",
        "too many values to unpack (expected "@ + decimal(count as int) + ")"@,
    )
}

/// What making builtin storage does.
pub open spec fn stored(
    before: HeapView,
    after: HeapView,
    result: core::result::Result<Step, Diagnostic>,
    object: ObjectView,
    finish: Option<NativeSubclassFinish>,
) -> bool {
    exists|made: core::result::Result<Value, Diagnostic>|
        #![trigger allocates(before, after, made, object)]
        allocates(before, after, made, object) && builtin_made(result, made, finish)
}

/// What ending a collection does.
pub open spec fn collection_done(
    before: HeapView,
    after: HeapView,
    result: core::result::Result<Step, Diagnostic>,
    kind: IterableCollectionKind,
    items: Seq<Value>,
) -> bool {
    match kind {
        IterableCollectionKind::List => stored(
            before,
            after,
            result,
            ObjectView::List(items),
            None,
        ),
        IterableCollectionKind::Tuple => stored(
            before,
            after,
            result,
            ObjectView::Tuple(items),
            None,
        ),
        IterableCollectionKind::NativeList(finish) => stored(
            before,
            after,
            result,
            ObjectView::List(items),
            Some(finish),
        ),
        IterableCollectionKind::NativeTuple(finish) => stored(
            before,
            after,
            result,
            ObjectView::Tuple(items),
            Some(finish),
        ),
        IterableCollectionKind::ListInit { result: value, .. } => after == before && goes(
            result,
            Step::Done(value),
        ),
        IterableCollectionKind::Unpack { first, count } => after == before && if items.len()
            < count {
            refuses(result, too_few(count, items.len() as int))
        } else if items.len() > count {
            refuses(result, too_many(count))
        } else {
            result matches Ok(Step::Unpack { first: at, items: taken }) && at == first && taken@
                == items
        },
    }
}

impl Heap {
    /// Begins to collect what an iterable yields.
    pub fn invoke_iterable_collection(&mut self, kind: IterableCollectionKind, source: Value) -> (r:
        Result<Step>)
        requires
            old(self).wf(),
        ensures
            final(self).wf(),
            collection_begun(old(self)@, final(self)@, r, kind, source),
            old(self)@.sound() ==> final(self)@.sound(),
    {
        match self.open(source)? {
            Opened::Iterator(iterator) => Ok(
                Step::CollectItems(IterableCollection { kind, iterator, items: Vec::new() }),
            ),
            Opened::Method(call) => {
                let none: Vec<Value> = Vec::new();
                assert(none@ =~= Seq::<Value>::empty());
                Ok(call_step(call, none, Continuation::Collect(kind)))
            },
            Opened::Nothing => Err(Diagnostic::new("TypeError", "value is not iterable")),
        }
    }

    /// Takes the next item into a collection, or ends it.
    pub fn continue_iterable_collection(&mut self, state: IterableCollection) -> (r: Result<Step>)
        requires
            old(self).wf(),
        ensures
            final(self).wf(),
            collection_continued(old(self)@, final(self)@, r, state),
            old(self)@.sound() ==> final(self)@.sound(),
    {
        let ghost before = self@;
        let walk = self.advance(state.iterator);
        assert(walked(before, self@, walk, state.iterator));
        match walk {
            Err(error) => Err(error),
            Ok(Advance::Item(item)) => self.take_item(state, item),
            Ok(Advance::End) => Ok(Step::Collected { kind: state.kind, items: state.items }),
            Ok(Advance::Method(call)) => {
                let none: Vec<Value> = Vec::new();
                assert(none@ =~= Seq::<Value>::empty());
                Ok(call_step(call, none, Continuation::CollectItem(state)))
            },
        }
    }

    /// Takes an item into a collection.
    pub fn take_item(&mut self, state: IterableCollection, item: Value) -> (r: Result<Step>)
        requires
            old(self).wf(),
        ensures
            final(self).wf(),
            item_taken(old(self)@, final(self)@, r, state, item),
            old(self)@.sound() && old(self)@.known(item) ==> final(self)@.sound(),
    {
        let mut state = state;
        match &state.kind {
            IterableCollectionKind::ListInit { owner, .. } => {
                self.append_list(*owner, item)?;
            },
            _ => {
                state.items.push(item);
            },
        }
        Ok(Step::CollectItems(state))
    }

    /// Stores an object that may be builtin storage.
    pub fn store(&mut self, object: Object, finish: Option<NativeSubclassFinish>) -> (r: Result<Step>)
        requires
            old(self).wf(),
            object.wf(&old(self)@.shapes),
        ensures
            final(self).wf(),
            stored(old(self)@, final(self)@, r, object@, finish),
            old(self)@.sound() && all_known(old(self)@, object@.edges()) ==> final(self)@.sound(),
    {
        let ghost before = self@;
        let ghost view = object@;
        let made = self.allocate(object);
        assert(allocates(before, self@, made, view));
        match made {
            Ok(value) => Ok(Step::BuiltinValue { value, finish }),
            Err(error) => Err(error),
        }
    }

    /// Makes what a collection was for.
    pub fn finish_iterable_collection(&mut self, kind: IterableCollectionKind, items: Vec<Value>) -> (r:
        Result<Step>)
        requires
            old(self).wf(),
        ensures
            final(self).wf(),
            collection_done(old(self)@, final(self)@, r, kind, items@),
            old(self)@.sound() && all_known(old(self)@, items@) ==> final(self)@.sound(),
    {
        match kind {
            IterableCollectionKind::List => self.store(Object::List(items), None),
            IterableCollectionKind::Tuple => self.store(Object::Tuple(items), None),
            IterableCollectionKind::NativeList(finish) => self.store(
                Object::List(items),
                Some(finish),
            ),
            IterableCollectionKind::NativeTuple(finish) => self.store(
                Object::Tuple(items),
                Some(finish),
            ),
            IterableCollectionKind::ListInit { result, .. } => Ok(Step::Done(result)),
            IterableCollectionKind::Unpack { first, count } => {
                let expected = decimal_usize(count);
                if items.len() < count {
                    let got = decimal_usize(items.len());
                    let mut text = join3(
                        "not enough values to unpack (expected ",
                        expected.as_str(),
                        ", got ",
                    );
                    text.append(got.as_str());
                    text.append(")");
                    assert(text@ =~= too_few(count, items@.len() as int).message);
                    return Err(Diagnostic::with_text("ValueError", text));
                }
                if items.len() > count {
                    return Err(
                        Diagnostic::with_text(
                            "ValueError",
                            join3(
                                "too many values to unpack (expected ",
                                expected.as_str(),
                                ")",
                            ),
                        ),
                    );
                }
                Ok(Step::Unpack { first, items })
            },
        }
    }
}

} // verus!
