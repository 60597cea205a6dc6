//! What the print builtin writes.
use vstd::prelude::*;
use crate::calls::arguments::ExpandedArgs;
use crate::calls::state::Step;
use crate::calls::{refuses};
use crate::diagnostic::{fault, fault_text, Diagnostic, Fault, Result};
use crate::format::{spelled, Piece};
use crate::heap::{Heap, HeapView};
use crate::lookup::Outcome;
use crate::object::{Object, ObjectView};
use crate::text::{join3, name_pairs, same};
use crate::value::Value;

verus! {

/// What stands between printed values and behind them.
#[verifier::ext_equal]
pub struct Separators {
    pub sep: Seq<char>,
    pub end: Seq<char>,
}

/// What printing writes, and how it fails.
#[verifier::ext_equal]
pub struct Printed {
    pub pieces: Seq<Piece>,
    pub failure: Option<Fault>,
}

impl HeapView {
    /// The text that a separator is given as.
    pub open spec fn separator_text(self, value: Value, default: Seq<char>) -> Outcome<Seq<char>> {
        if value == Value::none() {
            Ok(default)
        } else {
            match self.found(value) {
                Err(error) => Err(error),
                Ok(ObjectView::Str(text)) => Ok(text),
                Ok(_) => Err(fault("TypeError", "print sep/end must be str or None")),
            }
        }
    }

    /// The separators that keywords give.
    pub open spec fn separators(self, keywords: Seq<(Seq<char>, Value)>) -> Outcome<Separators>
        decreases keywords.len(),
    {
        if keywords.len() == 0 {
            Ok(Separators { sep: " "@, end: "\n"@ })
        } else {
            match self.separators(keywords.drop_last()) {
                Err(error) => Err(error),
                Ok(held) => {
                    let (name, value) = keywords.last();
                    if name == "sep"@ {
                        match self.separator_text(value, " "@) {
                            Err(error) => Err(error),
                            Ok(sep) => Ok(Separators { sep, ..held }),
                        }
                    } else if name == "end"@ {
                        match self.separator_text(value, "\n"@) {
                            Err(error) => Err(error),
                            Ok(end) => Ok(Separators { end, ..held }),
                        }
                    } else {
                        Err(fault_text("TypeError", "invalid print keyword '"@ + name + "'"@))
                    }
                },
            }
        }
    }

    /// What printing values writes, up to the first that has no text.
    pub open spec fn printed_values(self, values: Seq<Value>, sep: Seq<char>) -> Printed
        decreases values.len(),
    {
        if values.len() == 0 {
            Printed { pieces: Seq::empty(), failure: None }
        } else {
            let front = self.printed_values(values.drop_last(), sep);
            if front.failure is Some {
                front
            } else {
                let led = if values.len() > 1 {
                    front.pieces + spelled(sep)
                } else {
                    front.pieces
                };
                match self.formatted(values.last(), false) {
                    Err(error) => Printed { pieces: led, failure: Some(error) },
                    Ok(text) => Printed { pieces: led + text, failure: None },
                }
            }
        }
    }

    /// What printing writes.
    pub open spec fn printed(self, values: Seq<Value>, separators: Separators) -> Printed {
        let front = self.printed_values(values, separators.sep);
        if front.failure is Some {
            front
        } else {
            Printed { pieces: front.pieces + spelled(separators.end), failure: None }
        }
    }
}

proof fn lemma_separators_fail(heap: HeapView, keywords: Seq<(Seq<char>, Value)>, i: int)
    requires
        0 <= i <= keywords.len(),
        heap.separators(keywords.take(i)) is Err,
    ensures
        heap.separators(keywords) == heap.separators(keywords.take(i)),
    decreases keywords.len() - i,
{
    if i < keywords.len() {
        assert(keywords.take(i + 1).drop_last() =~= keywords.take(i));
        lemma_separators_fail(heap, keywords, i + 1);
    } else {
        assert(keywords.take(i) =~= keywords);
    }
}

proof fn lemma_printed_fail(heap: HeapView, values: Seq<Value>, sep: Seq<char>, i: int)
    requires
        0 <= i <= values.len(),
        heap.printed_values(values.take(i), sep).failure is Some,
    ensures
        heap.printed_values(values, sep) == heap.printed_values(values.take(i), sep),
    decreases values.len() - i,
{
    if i < values.len() {
        assert(values.take(i + 1).drop_last() =~= values.take(i));
        lemma_printed_fail(heap, values, sep, i + 1);
    } else {
        assert(values.take(i) =~= values);
    }
}

/// The view of a failure that may be none.
pub open spec fn failure_view(failure: Option<Diagnostic>) -> Option<Fault> {
    match failure {
        Some(error) => Some(error@),
        None => None,
    }
}

/// Whether a text is printed next.
pub open spec fn prints(result: core::result::Result<Step, Diagnostic>, printed: Printed) -> bool {
    result matches Ok(Step::Print { pieces, failure }) && pieces@ == printed.pieces && failure_view(
        failure,
    ) == printed.failure
}

impl Heap {
    fn separator_text(&self, value: Value, default: &str) -> (r: Result<String>)
        requires
            self.wf(),
        ensures
            match r {
                Ok(text) => self@.separator_text(value, default@) == Ok::<Seq<char>, Fault>(text@),
                Err(error) => self@.separator_text(value, default@) == Err::<Seq<char>, Fault>(
                    error@,
                ),
            },
    {
        if value == Value::none() {
            return Ok(default.to_owned());
        }
        match self.get(value)? {
            Object::Str(text) => Ok(text.clone()),
            _ => Err(Diagnostic::new("TypeError", "print sep/end must be str or None")),
        }
    }

    fn separators(&self, keywords: &Vec<(String, Value)>) -> (r: Result<(String, String)>)
        requires
            self.wf(),
        ensures
            match r {
                Ok((sep, end)) => self@.separators(name_pairs(keywords@)) == Ok::<
                    Separators,
                    Fault,
                >(Separators { sep: sep@, end: end@ }),
                Err(error) => self@.separators(name_pairs(keywords@)) == Err::<Separators, Fault>(
                    error@,
                ),
            },
    {
        let ghost names = name_pairs(keywords@);
        let mut sep = " ".to_owned();
        let mut end = "\n".to_owned();
        let mut i: usize = 0;
        assert(names.take(0) =~= Seq::empty());
        while i < keywords.len()
            invariant
                self.wf(),
                names == name_pairs(keywords@),
                i <= keywords.len(),
                self@.separators(names.take(i as int)) == Ok::<Separators, Fault>(
                    Separators { sep: sep@, end: end@ },
                ),
            decreases keywords.len() - i,
        {
            let name = keywords[i].0.as_str();
            let value = keywords[i].1;
            assert(names.take(i + 1).drop_last() =~= names.take(i as int));
            assert(names.take(i + 1).last() == (name@, value));
            let is_sep = same(name, "sep");
            if !is_sep && !same(name, "end") {
                proof {
                    lemma_separators_fail(self@, names, i + 1);
                }
                return Err(
                    Diagnostic::with_text(
                        "TypeError",
                        join3("invalid print keyword '", name, "'"),
                    ),
                );
            }
            let default = if is_sep {
                " "
            } else {
                "\n"
            };
            match self.separator_text(value, default) {
                Err(error) => {
                    proof {
                        lemma_separators_fail(self@, names, i + 1);
                    }
                    return Err(error);
                },
                Ok(text) => {
                    if is_sep {
                        sep = text;
                    } else {
                        end = text;
                    }
                },
            }
            i += 1;
        }
        assert(names.take(i as int) =~= names);
        Ok((sep, end))
    }

    /// What printing arguments writes.
    pub fn print(&self, arguments: &ExpandedArgs) -> (r: Result<Step>)
        requires
            self.wf(),
        ensures
            match self@.separators(arguments@.keywords) {
                Err(error) => refuses(r, error),
                Ok(separators) => prints(r, self@.printed(arguments@.all(), separators)),
            },
    {
        let (sep, end) = self.separators(&arguments.keywords)?;
        let values = arguments.values();
        let ghost all = values@;
        let mut pieces: Vec<Piece> = Vec::new();
        let mut i: usize = 0;
        assert(all.take(0) =~= Seq::empty());
        assert(pieces@ =~= Seq::<Piece>::empty());
        while i < values.len()
            invariant
                self.wf(),
                all == values@,
                all == arguments@.all(),
                self@.separators(arguments@.keywords) == Ok::<Separators, Fault>(
                    Separators { sep: sep@, end: end@ },
                ),
                i <= values.len(),
                self@.printed_values(all.take(i as int), sep@) == (Printed {
                    pieces: pieces@,
                    failure: None,
                }),
            decreases values.len() - i,
        {
            assert(all.take(i + 1).drop_last() =~= all.take(i as int));
            assert(all.take(i + 1).last() == values@[i as int]);
            if i > 0 {
                crate::format::push_text(&mut pieces, sep.as_str());
            }
            match self.format(values[i], false) {
                Err(error) => {
                    proof {
                        lemma_printed_fail(self@, all, sep@, i + 1);
                    }
                    return Ok(Step::Print { pieces, failure: Some(error) });
                },
                Ok(text) => {
                    let mut text = text;
                    pieces.append(&mut text);
                },
            }
            i += 1;
        }
        assert(all.take(i as int) =~= all);
        crate::format::push_text(&mut pieces, end.as_str());
        Ok(Step::Print { pieces, failure: None })
    }
}

} // verus!
