//! Call arguments, and how they are bound to parameters.
use vstd::prelude::*;
use crate::diagnostic::{fault_text, outcome, Diagnostic, Fault, Result};
use crate::edges::{copy_pairs, copy_values, optional, pair_values, visit_optional, visit_pairs};
use crate::shapes::{visit_all, visit_named, AttributesView};
use crate::text::{join3, name_pairs, name_position, position};
use crate::value::Value;

verus! {

/// The arguments of a call.
#[derive(Debug)]
pub struct ExpandedArgs {
    /// What goes before the positional arguments.
    pub receiver: Option<Value>,
    pub positional: Vec<Value>,
    pub keywords: Vec<(String, Value)>,
    pub deferred_star: Option<Value>,
    /// Mapping keys that are no strings. They are diagnosed once all argument
    /// expressions are evaluated, and rooted meanwhile.
    pub invalid_keywords: Vec<(Value, Value)>,
}

/// See [`ExpandedArgs`].
#[verifier::ext_equal]
pub struct ArgsView {
    pub receiver: Option<Value>,
    pub positional: Seq<Value>,
    pub keywords: Seq<(Seq<char>, Value)>,
    pub deferred_star: Option<Value>,
    pub invalid_keywords: Seq<(Value, Value)>,
}

impl View for ExpandedArgs {
    type V = ArgsView;

    open spec fn view(&self) -> ArgsView {
        ArgsView {
            receiver: self.receiver,
            positional: self.positional@,
            keywords: name_pairs(self.keywords@),
            deferred_star: self.deferred_star,
            invalid_keywords: self.invalid_keywords@,
        }
    }
}

impl ArgsView {
    /// The receiver and the positional arguments behind it.
    pub open spec fn all(self) -> Seq<Value> {
        optional(self.receiver) + self.positional
    }

    /// No arguments but a receiver.
    pub open spec fn of(receiver: Option<Value>, positional: Seq<Value>) -> ArgsView {
        ArgsView {
            receiver,
            positional,
            keywords: Seq::empty(),
            deferred_star: None,
            invalid_keywords: Seq::empty(),
        }
    }

    /// Every managed edge.
    pub open spec fn edges(self) -> Seq<Value> {
        optional(self.receiver) + self.positional + AttributesView::Dictionary(
            self.keywords,
        ).edges() + optional(self.deferred_star) + pair_values(self.invalid_keywords)
    }
}

impl ExpandedArgs {
    /// Arguments of a receiver and positional values.
    pub fn inline(receiver: Option<Value>, positional: Vec<Value>) -> (r: ExpandedArgs)
        ensures
            r@ == ArgsView::of(receiver, positional@),
    {
        let r = ExpandedArgs {
            receiver,
            positional,
            keywords: Vec::new(),
            deferred_star: None,
            invalid_keywords: Vec::new(),
        };
        assert(r@.keywords =~= Seq::empty());
        r
    }

    /// How many arguments were collected, the receiver aside.
    pub fn count(&self) -> (r: usize)
        requires
            self.positional.len() + self.keywords.len() + self.invalid_keywords.len()
                <= usize::MAX,
        ensures
            r == self@.positional.len() + self@.keywords.len() + self@.invalid_keywords.len(),
    {
        self.positional.len() + self.keywords.len() + self.invalid_keywords.len()
    }

    /// Whether at least `limit` arguments were collected.
    pub fn full(&self, limit: usize) -> (r: bool)
        ensures
            r == (self@.positional.len() + self@.keywords.len() + self@.invalid_keywords.len()
                >= limit),
    {
        let collected = self.positional.len() as u128 + self.keywords.len() as u128
            + self.invalid_keywords.len() as u128;
        collected >= limit as u128
    }

    /// Adds a keyword argument, unless it is there.
    pub fn keyword(&mut self, name: String, value: Value) -> (r: Result<()>)
        ensures
            match name_position(old(self)@.keywords, name@) {
                Some(_) => outcome(r) == Err::<(), Fault>(
                    fault_text(
                        "TypeError",
                        "multiple values for keyword argument '"@ + name@ + "'"@,
                    ),
                ) && final(self)@ == old(self)@,
                None => r is Ok && final(self)@ == (ArgsView {
                    keywords: old(self)@.keywords.push((name@, value)),
                    ..old(self)@
                }),
            },
    {
        if position(&self.keywords, name.as_str()).is_some() {
            return Err(
                Diagnostic::with_text(
                    "TypeError",
                    join3("multiple values for keyword argument '", name.as_str(), "'"),
                ),
            );
        }
        let ghost before = name_pairs(self.keywords@);
        self.keywords.push((name, value));
        assert(name_pairs(self.keywords@) =~= before.push((name@, value)));
        Ok(())
    }

    /// Appends every managed edge to `visited`.
    pub fn trace(&self, visited: &mut Vec<Value>)
        ensures
            final(visited)@ == old(visited)@ + self@.edges(),
    {
        visit_optional(self.receiver, visited);
        visit_all(&self.positional, visited);
        visit_named(&self.keywords, visited);
        visit_optional(self.deferred_star, visited);
        visit_pairs(&self.invalid_keywords, visited);
        assert(visited@ =~= old(visited)@ + self@.edges());
    }

    /// The same arguments once more.
    pub fn copy(&self) -> (r: ExpandedArgs)
        ensures
            r@ == self@,
    {
        let mut keywords: Vec<(String, Value)> = Vec::new();
        let mut i: usize = 0;
        while i < self.keywords.len()
            invariant
                i <= self.keywords.len(),
                keywords@.len() == i,
                forall|k: int|
                    0 <= k < i ==> (#[trigger] keywords@[k]).0@ == self.keywords@[k].0@
                        && keywords@[k].1 == self.keywords@[k].1,
            decreases self.keywords.len() - i,
        {
            keywords.push((self.keywords[i].0.clone(), self.keywords[i].1));
            i += 1;
        }
        let r = ExpandedArgs {
            receiver: self.receiver,
            positional: copy_values(&self.positional),
            keywords,
            deferred_star: self.deferred_star,
            invalid_keywords: copy_pairs(&self.invalid_keywords),
        };
        assert(r@.keywords =~= self@.keywords);
        r
    }

    /// Puts a receiver before the arguments, unless there is one.
    pub fn bind(&mut self, receiver: Value) -> (r: Result<()>)
        ensures
            final(self)@ == (ArgsView { receiver: Some(receiver), ..old(self)@ }),
            match old(self)@.receiver {
                Some(_) => outcome(r) == Err::<(), Fault>(
                    crate::diagnostic::fault("BytecodeError", "duplicate bound receiver"),
                ),
                None => r is Ok,
            },
    {
        let held = self.receiver;
        self.receiver = Some(receiver);
        if held.is_some() {
            return Err(Diagnostic::new("BytecodeError", "duplicate bound receiver"));
        }
        Ok(())
    }

    /// The receiver and the positional arguments behind it.
    pub fn values(&self) -> (r: Vec<Value>)
        ensures
            r@ == self@.all(),
    {
        let mut values: Vec<Value> = Vec::new();
        visit_optional(self.receiver, &mut values);
        visit_all(&self.positional, &mut values);
        assert(values@ =~= self@.all());
        values
    }
}

} // verus!
