//! Walking over values, by their storage or by their methods.
use vstd::prelude::*;
use crate::diagnostic::{fault, outcome, Diagnostic, Fault, Result};
use crate::heap::{Heap, HeapView};
use crate::iteration::{advanced, iterates};
use crate::lookup::DescriptorCall;
use crate::sequence::{yields, Yield};
use crate::text::same;
use crate::value::Value;

verus! {

/// How a walk over a value begins.
#[derive(Clone, Copy, Debug)]
pub enum Opened {
    /// With an iterator.
    Iterator(Value),
    /// With a method that gives one.
    Method(DescriptorCall),
    /// There is neither.
    Nothing,
}

/// How a walk goes on.
#[derive(Clone, Copy, Debug)]
pub enum Advance {
    Item(Value),
    End,
    /// By a method that gives the next item.
    Method(DescriptorCall),
}

/// Whether a failure is of a kind.
pub open spec fn is_kind(error: Fault, kind: &str) -> bool {
    error.kind == kind@
}

/// What beginning a walk does.
pub open spec fn opened(
    before: HeapView,
    after: HeapView,
    result: core::result::Result<Opened, Diagnostic>,
    source: Value,
) -> bool {
    let yielded = before.iterator(source);
    if yielded matches Yield::Fault(error) && is_kind(error, "TypeError") {
        &&& after == before
        &&& outcome(result) == match before.special_method_call(source, "__iter__"@) {
            Err(error) => Err(error),
            Ok(Some(call)) => Ok(Opened::Method(call)),
            Ok(None) => Ok(Opened::Nothing),
        }
    } else {
        match result {
            Ok(Opened::Iterator(iterator)) => yields(before, after, Ok(iterator), yielded),
            Ok(_) => false,
            Err(error) => yields(before, after, Err(error), yielded),
        }
    }
}

/// What going on with a walk does.
pub open spec fn walked(
    before: HeapView,
    after: HeapView,
    result: core::result::Result<Advance, Diagnostic>,
    iterator: Value,
) -> bool {
    if before.live(iterator) && iterates(before.objects[iterator]) {
        match result {
            Ok(Advance::Item(item)) => advanced(before, after, Ok(Some(item)), iterator),
            Ok(Advance::End) => advanced(before, after, Ok(None), iterator),
            Ok(Advance::Method(_)) => false,
            Err(error) => advanced(before, after, Err(error), iterator),
        }
    } else {
        &&& after == before
        &&& outcome(result) == match before.special_method_call(iterator, "__next__"@) {
            Err(error) => Err(error),
            Ok(Some(call)) => Ok(Advance::Method(call)),
            Ok(None) => Err(fault("TypeError", "object is not an iterator")),
        }
    }
}

impl Heap {
    /// Begins a walk over a value.
    pub fn open(&mut self, source: Value) -> (r: Result<Opened>)
        requires
            old(self).wf(),
        ensures
            final(self).wf(),
            opened(old(self)@, final(self)@, r, source),
            old(self)@.sound() ==> final(self)@.sound(),
    {
        let ghost before = self@;
        match self.iterator(source) {
            Ok(iterator) => Ok(Opened::Iterator(iterator)),
            Err(error) => {
                if !same(error.kind, "TypeError") {
                    return Err(error);
                }
                proof {
                    reveal_strlit("TypeError");
                    reveal_strlit("MemoryError");
                    assert("MemoryError"@.len() != "TypeError"@.len());
                    assert(self@ == before);
                }
                match self.special_method_call(source, "__iter__")? {
                    Some(call) => Ok(Opened::Method(call)),
                    None => Ok(Opened::Nothing),
                }
            },
        }
    }

    /// Goes on with a walk.
    pub fn advance(&mut self, iterator: Value) -> (r: Result<Advance>)
        requires
            old(self).wf(),
        ensures
            final(self).wf(),
            walked(old(self)@, final(self)@, r, iterator),
            old(self)@.sound() ==> final(self)@.sound(),
            old(self)@.sound() ==> (r matches Ok(Advance::Item(item)) ==> final(self)@.known(item)),
    {
        if self.is_iterator(iterator) {
            return match self.next(iterator) {
                Ok(Some(item)) => Ok(Advance::Item(item)),
                Ok(None) => Ok(Advance::End),
                Err(error) => Err(error),
            };
        }
        match self.special_method_call(iterator, "__next__")? {
            Some(call) => Ok(Advance::Method(call)),
            None => Err(Diagnostic::new("TypeError", "object is not an iterator")),
        }
    }
}

} // verus!
