//! The text of values. The text of a floating-point number is left open, to
//! be filled in by the embedder.
use vstd::prelude::*;
use vstd::string::StringExecFns;
use crate::class::{Class, ClassDictionaryKey, ClassKey, ClassView};
use crate::diagnostic::{fault, Diagnostic, Fault, Result};
use crate::edges::contains;
use crate::float::{is_nan, nan};
use crate::heap::{Heap, HeapView};
use crate::lookup::Outcome;
use crate::object::{Object, ObjectView};
use crate::text::{decimal, decimal_i64, decimal_u64, decimal_usize, join3};
use crate::value::{Meaning, Value};

verus! {

/// A piece of a text: a character, or the text of a number by its pattern.
#[derive(Clone, Copy, Debug, PartialEq, Eq, Structural)]
pub enum Piece {
    Char(char),
    Float(u64),
}

/// A text in pieces.
pub open spec fn spelled(text: Seq<char>) -> Seq<Piece> {
    Seq::new(text.len(), |i: int| spell(text[i]))
}

/// A character as a piece.
pub open spec fn spell(c: char) -> Piece {
    Piece::Char(c)
}

/// A hexadecimal digit.
pub open spec fn hex_digit(n: int) -> char {
    if n < 10 {
        (48 + n) as char
    } else {
        (87 + n) as char
    }
}

/// Whether a character is a control code.
pub open spec fn is_control(c: char) -> bool {
    c as u32 <= 0x1f || 0x7f <= c as u32 <= 0x9f
}

/// A character inside quotes.
pub open spec fn escaped_char(c: char) -> Seq<char> {
    if c == '\'' {
        seq!['\\', '\'']
    } else if c == '\\' {
        seq!['\\', '\\']
    } else if c == '\n' {
        seq!['\\', 'n']
    } else if c == '\r' {
        seq!['\\', 'r']
    } else if c == '\t' {
        seq!['\\', 't']
    } else if is_control(c) {
        seq!['\\', 'x', hex_digit(c as int / 16), hex_digit(c as int % 16)]
    } else {
        seq![c]
    }
}

/// A text inside quotes, without the quotes.
pub open spec fn escaped(text: Seq<char>) -> Seq<char>
    decreases text.len(),
{
    if text.len() == 0 {
        Seq::empty()
    } else {
        escaped(text.drop_last()) + escaped_char(text.last())
    }
}

/// A text in quotes.
pub open spec fn quoted(text: Seq<char>) -> Seq<char> {
    seq!['\''] + escaped(text) + seq!['\'']
}

/// Numbers with commas between them.
pub open spec fn listed_numbers(numbers: Seq<usize>) -> Seq<char>
    decreases numbers.len(),
{
    if numbers.len() == 0 {
        Seq::empty()
    } else if numbers.len() == 1 {
        decimal(numbers[0] as int)
    } else {
        listed_numbers(numbers.drop_last()) + ", "@ + decimal(numbers.last() as int)
    }
}

/// The entries of a class dictionary up to a position, in order; keys without
/// a value are left out.
pub open spec fn class_entries(class: ClassView, upto: int) -> Seq<(ClassKey, Value)>
    decreases upto,
{
    if upto <= 0 {
        Seq::empty()
    } else {
        match class.entry(upto - 1) {
            Some(entry) => class_entries(class, upto - 1).push(entry),
            None => class_entries(class, upto - 1),
        }
    }
}

/// A result with more in front.
pub open spec fn prefixed(front: Seq<Piece>, rest: Outcome<Seq<Piece>>) -> Outcome<Seq<Piece>> {
    match rest {
        Ok(rest) => Ok(front + rest),
        Err(error) => Err(error),
    }
}

/// A result with more behind.
pub open spec fn suffixed(front: Outcome<Seq<Piece>>, rest: Seq<Piece>) -> Outcome<Seq<Piece>> {
    match front {
        Ok(front) => Ok(front + rest),
        Err(error) => Err(error),
    }
}

/// One result behind another.
pub open spec fn joined(front: Outcome<Seq<Piece>>, rest: Outcome<Seq<Piece>>) -> Outcome<
    Seq<Piece>,
> {
    match front {
        Ok(front) => prefixed(front, rest),
        Err(error) => Err(error),
    }
}

/// What is put before an item that is not the first.
pub open spec fn separator(first: bool) -> Seq<Piece> {
    if first {
        Seq::empty()
    } else {
        spelled(", "@)
    }
}

/// The text of an immediate value.
pub open spec fn immediate_text(value: Value) -> Option<Seq<char>> {
    match value@ {
        Meaning::Int(n) => Some(decimal(n)),
        Meaning::Bool(b) => Some(
            if b {
                "True"@
            } else {
                "False"@
            },
        ),
        _ => if value == Value::none() {
            Some("None"@)
        } else if value == Value::not_implemented() {
            Some("NotImplemented"@)
        } else {
            None
        },
    }
}

/// The text of a range.
pub open spec fn range_text(start: i64, stop: i64, step: i64) -> Seq<char> {
    if step == 1 {
        "range("@ + decimal(start as int) + ", "@ + decimal(stop as int) + ")"@
    } else {
        "range("@ + decimal(start as int) + ", "@ + decimal(stop as int) + ", "@ + decimal(
            step as int,
        ) + ")"@
    }
}

/// The text of an object that holds no other that it shows.
pub open spec fn plain_text(object: ObjectView, repr: bool) -> Option<Seq<char>> {
    match object {
        ObjectView::Class(class) => Some("<class '"@ + class.name + "'>"@),
        ObjectView::Exception { message, .. } => if repr {
            None
        } else {
            Some(message)
        },
        ObjectView::Traceback { .. } => Some("<traceback object>"@),
        ObjectView::BoundMethod { .. } => Some("<bound method>"@),
        ObjectView::StaticMethod(_) => Some("<staticmethod>"@),
        ObjectView::ClassMethod(_) => Some("<classmethod>"@),
        ObjectView::Property { .. } => Some("<property>"@),
        ObjectView::PropertySetter(_) => Some("<property setter>"@),
        ObjectView::PropertyDeleter(_) => Some("<property deleter>"@),
        ObjectView::Super { .. } => Some("<super>"@),
        ObjectView::Buffer(buffer) => Some(
            "<buffer dtype=f64 shape=["@ + listed_numbers(buffer.shape) + "]>"@,
        ),
        ObjectView::Foreign(foreign) => Some(
            "<foreign adapter="@ + decimal(foreign.adapter_id as int) + ">"@,
        ),
        ObjectView::Int(n) => Some(decimal(n)),
        ObjectView::Str(text) => Some(
            if repr {
                quoted(text)
            } else {
                text
            },
        ),
        ObjectView::Function { .. } => Some("<function>"@),
        ObjectView::Builtin(_) => Some("<native function>"@),
        ObjectView::Native(_) => Some("<native function>"@),
        ObjectView::Module(_) => Some("<module>"@),
        ObjectView::Range { start, stop, step } => Some(range_text(start, stop, step)),
        ObjectView::Iterator { .. } => Some("<iterator>"@),
        ObjectView::RangeIterator { .. } => Some("<iterator>"@),
        ObjectView::DictIterator { .. } => Some("<iterator>"@),
        ObjectView::MappingProxyIterator { .. } => Some("<iterator>"@),
        _ => None,
    }
}

/// See [`plain_text`].
fn plain_name(object: &Object, repr: bool) -> (r: Option<String>)
    ensures
        match r {
            Some(text) => plain_text(object@, repr) == Some(text@),
            None => plain_text(object@, repr) is None,
        },
{
    let name = match object {
        Object::Class(class) => {
            return Some(join3("<class '", class.name.as_str(), "'>"));
        },
        Object::Exception { message, .. } => {
            return if repr {
                None
            } else {
                Some(message.clone())
            };
        },
        Object::Buffer(buffer) => {
            let shape = list_numbers(buffer.shape());
            return Some(join3("<buffer dtype=f64 shape=[", shape.as_str(), "]>"));
        },
        Object::Foreign(foreign) => {
            let id = decimal_u64(foreign.adapter_id);
            return Some(join3("<foreign adapter=", id.as_str(), ">"));
        },
        Object::Int(n) => {
            return Some(n.to_decimal());
        },
        Object::Str(text) => {
            return Some(
                if repr {
                    quote(text.as_str())
                } else {
                    text.clone()
                },
            );
        },
        Object::Range { start, stop, step } => {
            return Some(range_name(*start, *stop, *step));
        },
        Object::Traceback { .. } => "<traceback object>",
        Object::BoundMethod { .. } => "<bound method>",
        Object::StaticMethod(_) => "<staticmethod>",
        Object::ClassMethod(_) => "<classmethod>",
        Object::Property { .. } => "<property>",
        Object::PropertySetter(_) => "<property setter>",
        Object::PropertyDeleter(_) => "<property deleter>",
        Object::Super { .. } => "<super>",
        Object::Function { .. } => "<function>",
        Object::Builtin(_) | Object::Native(_) => "<native function>",
        Object::Module(_) => "<module>",
        Object::Iterator { .. }
        | Object::RangeIterator { .. }
        | Object::DictIterator { .. }
        | Object::MappingProxyIterator { .. } => "<iterator>",
        _ => {
            return None;
        },
    };
    Some(name.to_owned())
}

impl HeapView {
    /// The text of a value. Containers that stand on the path are cut short.
    /// `fuel` bounds the nesting, so that a value which leads back to itself
    /// through no container is refused.
    pub open spec fn text(self, value: Value, repr: bool, path: Seq<Value>, fuel: int) -> Outcome<
        Seq<Piece>,
    >
        decreases fuel, 0int, 1int,
    {
        if path.len() > 100 || fuel <= 0 {
            Err(fault("RecursionError", "representation nesting limit"))
        } else {
            match immediate_text(value) {
                Some(text) => Ok(spelled(text)),
                None => match self.found(value) {
                    Err(error) => Err(error),
                    Ok(object) => match plain_text(object, repr) {
                        Some(text) => Ok(spelled(text)),
                        None => self.compound_text(value, object, repr, path, fuel),
                    },
                },
            }
        }
    }

    /// The text of an object that is made of others.
    pub open spec fn compound_text(
        self,
        value: Value,
        object: ObjectView,
        repr: bool,
        path: Seq<Value>,
        fuel: int,
    ) -> Outcome<Seq<Piece>>
        decreases fuel, 0int, 0int,
    {
        if fuel <= 0 {
            Err(fault("RecursionError", "representation nesting limit"))
        } else {
        match object {
            ObjectView::Exception { class, arguments, .. } => match self.class_at(class) {
                Err(error) => Err(error),
                Ok(held) => prefixed(
                    spelled(held.name + "("@),
                    suffixed(self.listed(arguments, path, fuel - 1), spelled(")"@)),
                ),
            },
            ObjectView::MappingProxy { class } => if path.contains(value) {
                Ok(spelled("mappingproxy({...})"@))
            } else {
                match self.class_at(class) {
                    Err(error) => Err(error),
                    Ok(held) => prefixed(
                        spelled("mappingproxy({"@),
                        suffixed(
                            self.listed_attributes(
                                class_entries(held, held.dictionary_order.len() as int),
                                path.push(value),
                                fuel - 1,
                            ),
                            spelled("})"@),
                        ),
                    ),
                }
            },
            ObjectView::Instance { class, native, .. } => match native {
                Some(native) => self.text(native, repr, path, fuel - 1),
                None => match self.class_at(class) {
                    Err(error) => Err(error),
                    Ok(held) => Ok(spelled("<"@ + held.name + " instance>"@)),
                },
            },
            ObjectView::Float(bits) => Ok(
                if is_nan(bits) {
                    spelled("nan"@)
                } else {
                    seq![Piece::Float(bits)]
                },
            ),
            ObjectView::Tuple(values) => if path.contains(value) {
                Ok(spelled("(...)"@))
            } else {
                prefixed(
                    spelled("("@),
                    suffixed(
                        self.listed(values, path.push(value), fuel - 1),
                        spelled(
                            if values.len() == 1 {
                                ",)"@
                            } else {
                                ")"@
                            },
                        ),
                    ),
                )
            },
            ObjectView::List(values) => if path.contains(value) {
                Ok(spelled("[...]"@))
            } else {
                prefixed(
                    spelled("["@),
                    suffixed(
                        self.listed(values, path.push(value), fuel - 1),
                        spelled("]"@),
                    ),
                )
            },
            ObjectView::Slice { start, stop, step } => prefixed(
                spelled("slice("@),
                suffixed(
                    self.listed(seq![start, stop, step], path, fuel - 1),
                    spelled(")"@),
                ),
            ),
            ObjectView::Dict(dict) => if path.contains(value) {
                Ok(spelled("{...}"@))
            } else {
                prefixed(
                    spelled("{"@),
                    suffixed(
                        self.listed_entries(dict.entries, path.push(value), fuel - 1),
                        spelled("}"@),
                    ),
                )
            },
            ObjectView::Namespace(_) => Err(fault("BytecodeError", "class namespace escaped")),
            _ => Err(fault("BytecodeError", "internal closure cell escaped")),
        }
        }
    }

    /// The representations of values, with commas between them.
    pub open spec fn listed(self, values: Seq<Value>, path: Seq<Value>, fuel: int) -> Outcome<
        Seq<Piece>,
    >
        decreases fuel, 1 + values.len(), 0int,
    {
        if values.len() == 0 {
            Ok(Seq::empty())
        } else {
            joined(
                self.listed(values.drop_last(), path, fuel),
                prefixed(
                    separator(values.len() == 1),
                    self.text(values.last(), true, path, fuel),
                ),
            )
        }
    }

    /// The representations of dictionary entries, with commas between them.
    pub open spec fn listed_entries(
        self,
        entries: Seq<(Value, Value)>,
        path: Seq<Value>,
        fuel: int,
    ) -> Outcome<Seq<Piece>>
        decreases fuel, 1 + entries.len(), 0int,
    {
        if entries.len() == 0 {
            Ok(Seq::empty())
        } else {
            joined(
                self.listed_entries(entries.drop_last(), path, fuel),
                prefixed(
                    separator(entries.len() == 1),
                    joined(
                        suffixed(self.text(entries.last().0, true, path, fuel), spelled(": "@)),
                        self.text(entries.last().1, true, path, fuel),
                    ),
                ),
            )
        }
    }

    /// The representations of class attributes, with commas between them.
    pub open spec fn listed_attributes(
        self,
        entries: Seq<(ClassKey, Value)>,
        path: Seq<Value>,
        fuel: int,
    ) -> Outcome<Seq<Piece>>
        decreases fuel, 1 + entries.len(), 0int,
    {
        if entries.len() == 0 {
            Ok(Seq::empty())
        } else {
            let key = match entries.last().0 {
                ClassKey::Text(name) => Ok(spelled(quoted(name))),
                ClassKey::Other(key) => self.text(key, true, path, fuel),
            };
            joined(
                self.listed_attributes(entries.drop_last(), path, fuel),
                prefixed(
                    separator(entries.len() == 1),
                    joined(
                        suffixed(key, spelled(": "@)),
                        self.text(entries.last().1, true, path, fuel),
                    ),
                ),
            )
        }
    }

    /// The nesting that no value without a cycle of its own reaches: a path
    /// of a hundred containers, with every object between two of them.
    pub open spec fn nesting(self) -> int {
        102 * (self.order.len() as int + 1)
    }

    /// The text of a value.
    pub open spec fn formatted(self, value: Value, repr: bool) -> Outcome<Seq<Piece>> {
        self.text(value, repr, Seq::empty(), self.nesting())
    }

    /// The message of an exception by its arguments.
    pub open spec fn exception_message(self, arguments: Seq<Value>) -> Outcome<Seq<Piece>> {
        if arguments.len() == 0 {
            Ok(Seq::empty())
        } else if arguments.len() == 1 {
            self.formatted(arguments[0], false)
        } else {
            prefixed(
                spelled("("@),
                suffixed(self.listed(arguments, Seq::empty(), self.nesting()), spelled(")"@)),
            )
        }
    }
}

pub(crate) fn push_text(out: &mut Vec<Piece>, text: &str)
    ensures
        final(out)@ == old(out)@ + spelled(text@),
{
    let len = text.unicode_len();
    let mut i: usize = 0;
    assert(text@.take(0) =~= Seq::<char>::empty());
    assert(spelled(text@.take(0)) =~= Seq::<Piece>::empty());
    assert(out@ =~= old(out)@ + spelled(text@.take(0)));
    while i < len
        invariant
            i <= len,
            len == text@.len(),
            out@ == old(out)@ + spelled(text@.take(i as int)),
        decreases len - i,
    {
        out.push(Piece::Char(text.get_char(i)));
        i += 1;
        assert(spelled(text@.take(i as int)) =~= spelled(text@.take(i - 1)).push(
            Piece::Char(text@[i - 1]),
        ));
    }
    assert(text@.take(i as int) =~= text@);
}

pub(crate) fn hexadecimal(n: u32) -> (r: char)
    requires
        n < 16,
    ensures
        r == hex_digit(n as int),
{
    if n < 10 {
        (48 + n as u8) as char
    } else {
        (87 + n as u8) as char
    }
}

/// A text in quotes.
pub fn quote(text: &str) -> (r: String)
    ensures
        r@ == quoted(text@),
{
    let mut out = "'".to_owned();
    proof {
        reveal_strlit("'");
        assert(out@ =~= seq!['\''] + escaped(text@.take(0)));
    }
    let len = text.unicode_len();
    let mut i: usize = 0;
    while i < len
        invariant
            i <= len,
            len == text@.len(),
            out@ == seq!['\''] + escaped(text@.take(i as int)),
        decreases len - i,
    {
        let c = text.get_char(i);
        let ghost had = out@;
        if c == '\'' {
            out.push('\\');
            out.push('\'');
        } else if c == '\\' {
            out.push('\\');
            out.push('\\');
        } else if c == '\n' {
            out.push('\\');
            out.push('n');
        } else if c == '\r' {
            out.push('\\');
            out.push('r');
        } else if c == '\t' {
            out.push('\\');
            out.push('t');
        } else if c as u32 <= 0x1f || (0x7f <= c as u32 && c as u32 <= 0x9f) {
            out.push('\\');
            out.push('x');
            out.push(hexadecimal(c as u32 / 16));
            out.push(hexadecimal(c as u32 % 16));
        } else {
            out.push(c);
        }
        i += 1;
        proof {
            assert(text@.take(i as int).drop_last() =~= text@.take(i - 1));
            assert(out@ =~= had + escaped_char(c));
            assert(seq!['\''] + escaped(text@.take(i - 1)) + escaped_char(c) =~= seq!['\'']
                + escaped(text@.take(i as int)));
        }
    }
    out.push('\'');
    assert(text@.take(i as int) =~= text@);
    assert(out@ =~= quoted(text@));
    out
}

fn list_numbers(numbers: &Vec<usize>) -> (r: String)
    ensures
        r@ == listed_numbers(numbers@),
{
    let mut out = "".to_owned();
    proof {
        reveal_strlit("");
    }
    let mut i: usize = 0;
    assert(out@ =~= listed_numbers(numbers@.take(0)));
    while i < numbers.len()
        invariant
            i <= numbers.len(),
            out@ == listed_numbers(numbers@.take(i as int)),
        decreases numbers.len() - i,
    {
        let text = decimal_usize(numbers[i]);
        assert(numbers@.take(i + 1).drop_last() =~= numbers@.take(i as int));
        if i > 0 {
            out.append(", ");
        }
        out.append(text.as_str());
        i += 1;
        proof {
            if i == 1 {
                assert(out@ =~= decimal(numbers@[0] as int));
                assert(numbers@.take(1)[0] == numbers@[0]);
            }
        }
    }
    assert(numbers@.take(i as int) =~= numbers@);
    out
}

fn entries_of(class: &Class) -> (r: Vec<(ClassDictionaryKey, Value)>)
    ensures
        key_entries(r@) == class_entries(class@, class@.dictionary_order.len() as int),
{
    let mut entries: Vec<(ClassDictionaryKey, Value)> = Vec::new();
    let mut i: usize = 0;
    assert(key_entries(entries@) =~= class_entries(class@, 0));
    while i < class.dictionary_len()
        invariant
            i <= class@.dictionary_order.len(),
            key_entries(entries@) == class_entries(class@, i as int),
        decreases class@.dictionary_order.len() - i,
    {
        if let Some(entry) = class.dictionary_entry(i) {
            let ghost had = key_entries(entries@);
            let ghost shown = (entry.0@, entry.1);
            entries.push(entry);
            assert(key_entries(entries@) =~= had.push(shown));
        }
        i += 1;
    }
    entries
}

/// Entries with their keys as text.
pub open spec fn key_entries(entries: Seq<(ClassDictionaryKey, Value)>) -> Seq<(ClassKey, Value)> {
    Seq::new(entries.len(), |i: int| (entries[i].0@, entries[i].1))
}

/// Whether pieces were appended, or a fault was answered.
pub open spec fn appended(
    before: Seq<Piece>,
    after: Seq<Piece>,
    result: core::result::Result<(), Diagnostic>,
    pieces: Outcome<Seq<Piece>>,
) -> bool {
    match pieces {
        Ok(pieces) => result is Ok && after == before + pieces,
        Err(error) => result matches Err(found) && found@ == error,
    }
}

impl Heap {
    fn push_list(&self, values: &Vec<Value>, path: &mut Vec<Value>, fuel: u128, out: &mut Vec<Piece>) -> (r:
        Result<()>)
        requires
            self.wf(),
        ensures
            appended(
                old(out)@,
                final(out)@,
                r,
                self@.listed(values@, old(path)@, fuel as int),
            ),
            r is Ok ==> final(path)@ == old(path)@,
        decreases fuel, 1int, 0int,
    {
        let ghost way = path@;
        let ghost start = out@;
        let mut i: usize = 0;
        assert(start + Seq::<Piece>::empty() =~= start);
        while i < values.len()
            invariant
                self.wf(),
                i <= values.len(),
                way == old(path)@,
                start == old(out)@,
                path@ == way,
                self@.listed(values@.take(i as int), way, fuel as int) matches Ok(done) && out@
                    == start + done,
            decreases values.len() - i,
        {
            let ghost had = out@;
            assert(values@.take(i + 1).drop_last() =~= values@.take(i as int));
            assert(values@.take(i + 1).last() == values@[i as int]);
            if i > 0 {
                push_text(out, ", ");
            }
            assert(out@ =~= had + separator(i == 0));
            let written = self.push_value(values[i], true, path, fuel, out);
            proof {
                let next = self@.listed(values@.take(i + 1), way, fuel as int);
                if let Err(error) = next {
                    lemma_listed_prefix(self@, values@, way, fuel as int, i + 1, error);
                } else {
                    assert(out@ =~= start + next->Ok_0);
                }
            }
            written?;
            i += 1;
        }
        assert(values@.take(i as int) =~= values@);
        Ok(())
    }

    fn push_entries(
        &self,
        entries: &Vec<(Value, Value)>,
        path: &mut Vec<Value>,
        fuel: u128,
        out: &mut Vec<Piece>,
    ) -> (r: Result<()>)
        requires
            self.wf(),
        ensures
            appended(
                old(out)@,
                final(out)@,
                r,
                self@.listed_entries(entries@, old(path)@, fuel as int),
            ),
            r is Ok ==> final(path)@ == old(path)@,
        decreases fuel, 1int, 0int,
    {
        let ghost way = path@;
        let ghost start = out@;
        let mut i: usize = 0;
        assert(start + Seq::<Piece>::empty() =~= start);
        while i < entries.len()
            invariant
                self.wf(),
                i <= entries.len(),
                way == old(path)@,
                start == old(out)@,
                path@ == way,
                self@.listed_entries(entries@.take(i as int), way, fuel as int) matches Ok(done)
                    && out@ == start + done,
            decreases entries.len() - i,
        {
            let ghost had = out@;
            let ghost next = self@.listed_entries(entries@.take(i + 1), way, fuel as int);
            proof {
                assert(entries@.take(i + 1).drop_last() =~= entries@.take(i as int));
                assert(entries@.take(i + 1).last() == entries@[i as int]);
                if let Err(error) = next {
                    lemma_entries_prefix(self@, entries@, way, fuel as int, i + 1, error);
                }
            }
            if i > 0 {
                push_text(out, ", ");
            }
            assert(out@ =~= had + separator(i == 0));
            self.push_value(entries[i].0, true, path, fuel, out)?;
            push_text(out, ": ");
            let ghost keyed = out@;
            self.push_value(entries[i].1, true, path, fuel, out)?;
            assert(out@ =~= start + next->Ok_0);
            i += 1;
        }
        assert(entries@.take(i as int) =~= entries@);
        Ok(())
    }

    fn push_attributes(
        &self,
        entries: &Vec<(ClassDictionaryKey, Value)>,
        path: &mut Vec<Value>,
        fuel: u128,
        out: &mut Vec<Piece>,
    ) -> (r: Result<()>)
        requires
            self.wf(),
        ensures
            appended(
                old(out)@,
                final(out)@,
                r,
                self@.listed_attributes(key_entries(entries@), old(path)@, fuel as int),
            ),
            r is Ok ==> final(path)@ == old(path)@,
        decreases fuel, 1int, 0int,
    {
        let ghost way = path@;
        let ghost start = out@;
        let ghost all = key_entries(entries@);
        let mut i: usize = 0;
        assert(start + Seq::<Piece>::empty() =~= start);
        while i < entries.len()
            invariant
                self.wf(),
                i <= entries.len(),
                way == old(path)@,
                start == old(out)@,
                all == key_entries(entries@),
                path@ == way,
                self@.listed_attributes(all.take(i as int), way, fuel as int) matches Ok(done)
                    && out@ == start + done,
            decreases entries.len() - i,
        {
            let ghost had = out@;
            let ghost next = self@.listed_attributes(all.take(i + 1), way, fuel as int);
            proof {
                assert(all.take(i + 1).drop_last() =~= all.take(i as int));
                assert(all.take(i + 1).last() == all[i as int]);
                if let Err(error) = next {
                    lemma_attributes_prefix(self@, all, way, fuel as int, i + 1, error);
                }
            }
            if i > 0 {
                push_text(out, ", ");
            }
            assert(out@ =~= had + separator(i == 0));
            match &entries[i].0 {
                ClassDictionaryKey::Text(name) => {
                    let text = quote(name.as_str());
                    push_text(out, text.as_str());
                },
                ClassDictionaryKey::Other(key) => {
                    self.push_value(*key, true, path, fuel, out)?;
                },
            }
            push_text(out, ": ");
            self.push_value(entries[i].1, true, path, fuel, out)?;
            assert(out@ =~= start + next->Ok_0);
            i += 1;
        }
        assert(all.take(i as int) =~= all);
        Ok(())
    }

    fn push_value(
        &self,
        value: Value,
        repr: bool,
        path: &mut Vec<Value>,
        fuel: u128,
        out: &mut Vec<Piece>,
    ) -> (r: Result<()>)
        requires
            self.wf(),
        ensures
            appended(
                old(out)@,
                final(out)@,
                r,
                self@.text(value, repr, old(path)@, fuel as int),
            ),
            r is Ok ==> final(path)@ == old(path)@,
        decreases fuel, 0int, 1int,
    {
        if path.len() > 100 || fuel == 0 {
            return Err(Diagnostic::new("RecursionError", "representation nesting limit"));
        }
        if let Some(n) = value.as_int() {
            let text = decimal_i64(n);
            push_text(out, text.as_str());
            return Ok(());
        }
        if let Some(b) = value.as_bool() {
            push_text(
                out,
                if b {
                    "True"
                } else {
                    "False"
                },
            );
            return Ok(());
        }
        if value == Value::none() {
            push_text(out, "None");
            return Ok(());
        }
        if value == Value::not_implemented() {
            push_text(out, "NotImplemented");
            return Ok(());
        }
        let object = self.get(value)?;
        match plain_name(object, repr) {
            Some(text) => {
                push_text(out, text.as_str());
                Ok(())
            },
            None => self.push_compound(value, object, repr, path, fuel, out),
        }
    }

    #[verifier::spinoff_prover]
    #[verifier::rlimit(60)]
    fn push_compound(
        &self,
        value: Value,
        object: &Object,
        repr: bool,
        path: &mut Vec<Value>,
        fuel: u128,
        out: &mut Vec<Piece>,
    ) -> (r: Result<()>)
        requires
            self.wf(),
            fuel > 0,
            plain_text(object@, repr) is None,
        ensures
            appended(
                old(out)@,
                final(out)@,
                r,
                self@.compound_text(value, object@, repr, old(path)@, fuel as int),
            ),
            r is Ok ==> final(path)@ == old(path)@,
        decreases fuel, 0int, 0int,
    {
        let ghost start = out@;
        let ghost whole = self@.compound_text(value, object@, repr, path@, fuel as int);
        match object {
            Object::Exception { class, arguments, .. } => {
                let held = self.class(*class)?;
                let name = join3(held.name.as_str(), "(", "");
                proof {
                    reveal_strlit("");
                    assert(name@ =~= held.name@ + "("@);
                }
                push_text(out, name.as_str());
                self.push_list(arguments, path, fuel - 1, out)?;
                push_text(out, ")");
                assert(out@ =~= start + whole->Ok_0);
            },
            Object::MappingProxy { class } => {
                if contains(path, value) {
                    push_text(out, "mappingproxy({...})");
                } else {
                    let held = self.class(*class)?;
                    let entries = entries_of(held);
                    push_text(out, "mappingproxy({");
                    path.push(value);
                    self.push_attributes(&entries, path, fuel - 1, out)?;
                    path.pop();
                    assert(path@ =~= old(path)@);
                    push_text(out, "})");
                    assert(out@ =~= start + whole->Ok_0);
                }
            },
            Object::Instance { class, native, .. } => match native {
                Some(native) => {
                    self.push_value(*native, repr, path, fuel - 1, out)?;
                },
                None => {
                    let held = self.class(*class)?;
                    let text = join3("<", held.name.as_str(), " instance>");
                    push_text(out, text.as_str());
                },
            },
            Object::Float(bits) => {
                if nan(*bits) {
                    push_text(out, "nan");
                } else {
                    out.push(Piece::Float(*bits));
                    assert(out@ =~= start + seq![Piece::Float(*bits)]);
                }
            },
            Object::Tuple(values) => {
                if contains(path, value) {
                    push_text(out, "(...)");
                } else {
                    push_text(out, "(");
                    path.push(value);
                    self.push_list(values, path, fuel - 1, out)?;
                    path.pop();
                    assert(path@ =~= old(path)@);
                    push_text(
                        out,
                        if values.len() == 1 {
                            ",)"
                        } else {
                            ")"
                        },
                    );
                    assert(out@ =~= start + whole->Ok_0);
                }
            },
            Object::List(values) => {
                if contains(path, value) {
                    push_text(out, "[...]");
                } else {
                    push_text(out, "[");
                    path.push(value);
                    self.push_list(values, path, fuel - 1, out)?;
                    path.pop();
                    assert(path@ =~= old(path)@);
                    push_text(out, "]");
                    assert(out@ =~= start + whole->Ok_0);
                }
            },
            Object::Slice { start: first, stop, step } => {
                let mut parts: Vec<Value> = Vec::new();
                parts.push(*first);
                parts.push(*stop);
                parts.push(*step);
                assert(parts@ =~= seq![*first, *stop, *step]);
                push_text(out, "slice(");
                self.push_list(&parts, path, fuel - 1, out)?;
                push_text(out, ")");
                assert(out@ =~= start + whole->Ok_0);
            },
            Object::Dict(dict) => {
                if contains(path, value) {
                    push_text(out, "{...}");
                } else {
                    push_text(out, "{");
                    path.push(value);
                    self.push_entries(dict.entries(), path, fuel - 1, out)?;
                    path.pop();
                    assert(path@ =~= old(path)@);
                    push_text(out, "}");
                    assert(out@ =~= start + whole->Ok_0);
                }
            },
            Object::Namespace(_) => {
                return Err(Diagnostic::new("BytecodeError", "class namespace escaped"));
            },
            _ => {
                return Err(Diagnostic::new("BytecodeError", "internal closure cell escaped"));
            },
        }
        Ok(())
    }

    /// The text of a value, in pieces.
    pub fn format(&self, value: Value, repr: bool) -> (r: Result<Vec<Piece>>)
        requires
            self.wf(),
        ensures
            match r {
                Ok(pieces) => self@.formatted(value, repr) == Ok::<Seq<Piece>, Fault>(pieces@),
                Err(error) => self@.formatted(value, repr) == Err::<Seq<Piece>, Fault>(error@),
            },
    {
        let mut path: Vec<Value> = Vec::new();
        let mut out: Vec<Piece> = Vec::new();
        let fuel = 102 * (self.live_objects() as u128 + 1);
        assert(path@ =~= Seq::<Value>::empty());
        self.push_value(value, repr, &mut path, fuel, &mut out)?;
        assert(out@ =~= self@.formatted(value, repr)->Ok_0);
        Ok(out)
    }

    /// The message of an exception by its arguments, in pieces.
    pub fn exception_message(&self, arguments: &Vec<Value>) -> (r: Result<Vec<Piece>>)
        requires
            self.wf(),
        ensures
            match r {
                Ok(pieces) => self@.exception_message(arguments@) == Ok::<Seq<Piece>, Fault>(
                    pieces@,
                ),
                Err(error) => self@.exception_message(arguments@) == Err::<Seq<Piece>, Fault>(
                    error@,
                ),
            },
    {
        let mut out: Vec<Piece> = Vec::new();
        if arguments.len() == 0 {
            assert(out@ =~= Seq::<Piece>::empty());
            return Ok(out);
        }
        if arguments.len() == 1 {
            return self.format(arguments[0], false);
        }
        let mut path: Vec<Value> = Vec::new();
        let fuel = 102 * (self.live_objects() as u128 + 1);
        push_text(&mut out, "(");
        assert(path@ =~= Seq::<Value>::empty());
        self.push_list(arguments, &mut path, fuel, &mut out)?;
        push_text(&mut out, ")");
        assert(out@ =~= self@.exception_message(arguments@)->Ok_0);
        Ok(out)
    }
}

fn range_name(start: i64, stop: i64, step: i64) -> (r: String)
    ensures
        r@ == range_text(start, stop, step),
{
    let mut text = "range(".to_owned();
    let first = decimal_i64(start);
    text.append(first.as_str());
    text.append(", ");
    let end = decimal_i64(stop);
    text.append(end.as_str());
    if step != 1 {
        text.append(", ");
        let by = decimal_i64(step);
        text.append(by.as_str());
    }
    text.append(")");
    text
}

/// The first failure among listed values is the failure of the list.
proof fn lemma_listed_prefix(
    heap: HeapView,
    values: Seq<Value>,
    path: Seq<Value>,
    fuel: int,
    upto: int,
    error: Fault,
)
    requires
        0 <= upto <= values.len(),
        heap.listed(values.take(upto), path, fuel) == Err::<Seq<Piece>, Fault>(error),
    ensures
        heap.listed(values, path, fuel) == Err::<Seq<Piece>, Fault>(error),
    decreases values.len() - upto,
{
    if upto < values.len() {
        assert(values.take(upto + 1).drop_last() =~= values.take(upto));
        lemma_listed_prefix(heap, values, path, fuel, upto + 1, error);
    } else {
        assert(values.take(upto) =~= values);
    }
}

proof fn lemma_entries_prefix(
    heap: HeapView,
    entries: Seq<(Value, Value)>,
    path: Seq<Value>,
    fuel: int,
    upto: int,
    error: Fault,
)
    requires
        0 <= upto <= entries.len(),
        heap.listed_entries(entries.take(upto), path, fuel) == Err::<Seq<Piece>, Fault>(error),
    ensures
        heap.listed_entries(entries, path, fuel) == Err::<Seq<Piece>, Fault>(error),
    decreases entries.len() - upto,
{
    if upto < entries.len() {
        assert(entries.take(upto + 1).drop_last() =~= entries.take(upto));
        lemma_entries_prefix(heap, entries, path, fuel, upto + 1, error);
    } else {
        assert(entries.take(upto) =~= entries);
    }
}

proof fn lemma_attributes_prefix(
    heap: HeapView,
    entries: Seq<(ClassKey, Value)>,
    path: Seq<Value>,
    fuel: int,
    upto: int,
    error: Fault,
)
    requires
        0 <= upto <= entries.len(),
        heap.listed_attributes(entries.take(upto), path, fuel) == Err::<Seq<Piece>, Fault>(error),
    ensures
        heap.listed_attributes(entries, path, fuel) == Err::<Seq<Piece>, Fault>(error),
    decreases entries.len() - upto,
{
    if upto < entries.len() {
        assert(entries.take(upto + 1).drop_last() =~= entries.take(upto));
        lemma_attributes_prefix(heap, entries, path, fuel, upto + 1, error);
    } else {
        assert(entries.take(upto) =~= entries);
    }
}

/// The patterns of the numbers in a text, in order.
pub open spec fn patterns(pieces: Seq<Piece>) -> Seq<u64>
    decreases pieces.len(),
{
    if pieces.len() == 0 {
        Seq::empty()
    } else {
        match pieces.last() {
            Piece::Char(_) => patterns(pieces.drop_last()),
            Piece::Float(bits) => patterns(pieces.drop_last()).push(bits),
        }
    }
}

/// A text with the texts of its numbers filled in, in order.
pub open spec fn rendered(pieces: Seq<Piece>, numbers: Seq<Seq<char>>) -> Seq<char>
    decreases pieces.len(),
{
    if pieces.len() == 0 {
        Seq::empty()
    } else {
        let front = pieces.drop_last();
        match pieces.last() {
            Piece::Char(c) => rendered(front, numbers).push(c),
            Piece::Float(_) => rendered(front, numbers) + numbers[patterns(front).len() as int],
        }
    }
}

/// The patterns of the numbers in a text, whose texts [`render`] wants.
pub fn float_patterns(pieces: &Vec<Piece>) -> (r: Vec<u64>)
    ensures
        r@ == patterns(pieces@),
{
    let mut found: Vec<u64> = Vec::new();
    let mut i: usize = 0;
    assert(found@ =~= patterns(pieces@.take(0)));
    while i < pieces.len()
        invariant
            i <= pieces.len(),
            found@ == patterns(pieces@.take(i as int)),
        decreases pieces.len() - i,
    {
        assert(pieces@.take(i + 1).drop_last() =~= pieces@.take(i as int));
        if let Piece::Float(bits) = pieces[i] {
            found.push(bits);
        }
        i += 1;
    }
    assert(pieces@.take(i as int) =~= pieces@);
    found
}

/// The texts of numbers.
pub open spec fn texts(numbers: Seq<String>) -> Seq<Seq<char>> {
    Seq::new(numbers.len(), |i: int| numbers[i]@)
}

/// A text with the texts of its numbers filled in.
pub fn render(pieces: &Vec<Piece>, numbers: &Vec<String>) -> (r: String)
    requires
        numbers@.len() == patterns(pieces@).len(),
    ensures
        r@ == rendered(pieces@, texts(numbers@)),
{
    let mut text = "".to_owned();
    proof {
        reveal_strlit("");
    }
    let ghost all = texts(numbers@);
    let count = numbers.len();
    let mut used: usize = 0;
    let mut i: usize = 0;
    assert(text@ =~= rendered(pieces@.take(0), all));
    proof {
        lemma_patterns_grow(pieces@, 0);
    }
    while i < pieces.len()
        invariant
            i <= pieces.len(),
            all == texts(numbers@),
            numbers@.len() == patterns(pieces@).len(),
            count == numbers@.len(),
            used == patterns(pieces@.take(i as int)).len(),
            text@ == rendered(pieces@.take(i as int), all),
        decreases pieces.len() - i,
    {
        assert(pieces@.take(i + 1).drop_last() =~= pieces@.take(i as int));
        proof {
            lemma_patterns_grow(pieces@, i + 1);
        }
        match pieces[i] {
            Piece::Char(c) => text.push(c),
            Piece::Float(_) => {
                text.append(numbers[used].as_str());
                used += 1;
            },
        }
        i += 1;
    }
    assert(pieces@.take(i as int) =~= pieces@);
    text
}

proof fn lemma_patterns_grow(pieces: Seq<Piece>, upto: int)
    requires
        0 <= upto <= pieces.len(),
    ensures
        patterns(pieces.take(upto)).len() <= patterns(pieces).len(),
    decreases pieces.len() - upto,
{
    if upto < pieces.len() {
        assert(pieces.take(upto + 1).drop_last() =~= pieces.take(upto));
        lemma_patterns_grow(pieces, upto + 1);
    } else {
        assert(pieces.take(upto) =~= pieces);
    }
}

/// Where an exponent begins, from a position on.
pub open spec fn exponent_mark(text: Seq<char>, from: int) -> Option<int>
    decreases text.len() - from,
{
    if from < 0 || from >= text.len() {
        None
    } else if text[from] == 'e' {
        Some(from)
    } else {
        exponent_mark(text, from + 1)
    }
}

/// An exponent with its sign and at least two digits.
pub open spec fn signed_exponent(text: Seq<char>) -> Seq<char> {
    let below = text.len() > 0 && text[0] == '-';
    let digits = if below {
        text.skip(1)
    } else {
        text
    };
    seq![
        if below {
            '-'
        } else {
            '+'
        },
    ] + if digits.len() < 2 {
        seq!['0'] + digits
    } else {
        digits
    }
}

/// A decimal number in scientific notation with a sign and two digits in the
/// exponent; any other text as it is.
pub open spec fn exponent_notation(text: Seq<char>) -> Seq<char> {
    match exponent_mark(text, 0) {
        None => text,
        Some(i) => text.take(i + 1) + signed_exponent(text.skip(i + 1)),
    }
}

/// See [`exponent_notation`].
pub fn with_exponent(text: &str) -> (r: String)
    ensures
        r@ == exponent_notation(text@),
{
    let len = text.unicode_len();
    let mut out = "".to_owned();
    proof {
        reveal_strlit("");
    }
    let mut i: usize = 0;
    assert(out@ =~= text@.take(0));
    while i < len && text.get_char(i) != 'e'
        invariant
            i <= len,
            len == text@.len(),
            out@ == text@.take(i as int),
            exponent_mark(text@, 0) == exponent_mark(text@, i as int),
        decreases len - i,
    {
        out.push(text.get_char(i));
        i += 1;
        assert(text@.take(i as int) =~= text@.take(i - 1).push(text@[i - 1]));
    }
    if i >= len {
        assert(text@.take(i as int) =~= text@);
        return out;
    }
    out.push('e');
    i += 1;
    assert(text@.take(i as int) =~= text@.take(i - 1).push('e'));
    let ghost front = out@;
    let ghost exponent = text@.skip(i as int);
    let below = i < len && text.get_char(i) == '-';
    let first = if below {
        i + 1
    } else {
        i
    };
    out.push(
        if below {
            '-'
        } else {
            '+'
        },
    );
    let ghost digits = text@.skip(first as int);
    assert(below ==> exponent.skip(1) =~= digits);
    assert(!below ==> exponent =~= digits);
    assert(exponent.len() > 0 ==> exponent[0] == text@[i as int]);
    if len - first < 2 {
        out.push('0');
    }
    let ghost padded = out@;
    let mut j = first;
    assert(padded + digits.take(0) =~= padded);
    while j < len
        invariant
            first <= j <= len,
            len == text@.len(),
            digits == text@.skip(first as int),
            out@ == padded + digits.take(j - first),
        decreases len - j,
    {
        out.push(text.get_char(j));
        j += 1;
        assert(digits.take(j - first) =~= digits.take(j - 1 - first).push(text@[j - 1]));
    }
    assert(digits.take(j - first) =~= digits);
    assert(out@ =~= front + signed_exponent(exponent));
    out
}

/// As many empty texts.
pub open spec fn blanks(count: nat) -> Seq<Seq<char>> {
    Seq::new(count, |i: int| Seq::<char>::empty())
}

/// The fault of a kind with a text in pieces.
pub open spec fn fault_pieces(kind: &str, pieces: Seq<Piece>) -> Fault {
    let count = patterns(pieces).len();
    Fault {
        kind: kind@,
        message: rendered(pieces, blanks(count)),
        pieces: if count == 0 {
            None
        } else {
            Some(pieces)
        },
    }
}

impl Fault {
    /// The text of a fault, in pieces.
    pub open spec fn text(self) -> Seq<Piece> {
        match self.pieces {
            Some(pieces) => pieces,
            None => spelled(self.message),
        }
    }
}

/// A text without numbers is its own characters.
proof fn lemma_spelled_out(pieces: Seq<Piece>, numbers: Seq<Seq<char>>)
    requires
        patterns(pieces).len() == 0,
    ensures
        spelled(rendered(pieces, numbers)) == pieces,
    decreases pieces.len(),
{
    if pieces.len() > 0 {
        let front = pieces.drop_last();
        assert(pieces.last() is Char);
        lemma_spelled_out(front, numbers);
        assert(spelled(rendered(pieces, numbers)) =~= spelled(rendered(front, numbers)).push(
            pieces.last(),
        ));
        assert(pieces =~= front.push(pieces.last()));
    } else {
        assert(spelled(rendered(pieces, numbers)) =~= pieces);
    }
}

/// A fault that was given a text in pieces says exactly that text; where the
/// text shows no number, its message spells it out.
pub proof fn faults_keep_their_text(kind: &str, pieces: Seq<Piece>)
    ensures
        fault_pieces(kind, pieces).text() == pieces,
        patterns(pieces).len() == 0 ==> spelled(fault_pieces(kind, pieces).message) == pieces,
{
    if patterns(pieces).len() == 0 {
        lemma_spelled_out(pieces, blanks(0));
    }
}

impl Diagnostic {
    /// A diagnostic with a text in pieces.
    pub fn with_pieces(kind: &'static str, pieces: Vec<Piece>) -> (error: Diagnostic)
        ensures
            error@ == fault_pieces(kind, pieces@),
    {
        let count = float_patterns(&pieces).len();
        let mut numbers: Vec<String> = Vec::new();
        while numbers.len() < count
            invariant
                numbers.len() <= count,
                texts(numbers@) == blanks(numbers@.len()),
            decreases count - numbers.len(),
        {
            proof {
                reveal_strlit("");
            }
            let ghost had = texts(numbers@);
            numbers.push("".to_owned());
            proof {
                assert(numbers@.last()@ =~= Seq::<char>::empty());
                assert(texts(numbers@) =~= had.push(Seq::empty()));
                assert(blanks(numbers@.len()) =~= had.push(Seq::empty()));
            }
        }
        let message = render(&pieces, &numbers);
        Diagnostic {
            kind,
            message,
            pieces: if count == 0 {
                None
            } else {
                Some(pieces)
            },
        }
    }

    /// The text of a diagnostic, in pieces.
    pub fn text(&self) -> (r: Vec<Piece>)
        ensures
            r@ == self@.text(),
    {
        let mut out: Vec<Piece> = Vec::new();
        match &self.pieces {
            Some(pieces) => {
                let mut i: usize = 0;
                assert(out@ =~= pieces@.take(0));
                while i < pieces.len()
                    invariant
                        i <= pieces.len(),
                        out@ == pieces@.take(i as int),
                    decreases pieces.len() - i,
                {
                    out.push(pieces[i]);
                    i += 1;
                    assert(out@ =~= pieces@.take(i as int));
                }
                assert(pieces@.take(i as int) =~= pieces@);
            },
            None => {
                push_text(&mut out, self.message.as_str());
                assert(out@ =~= spelled(self.message@));
            },
        }
        out
    }
}

impl HeapView {
    /// The fault of a key that a mapping lacks: its text shows the key, where
    /// it can be shown.
    pub open spec fn missing_key(self, key: Value) -> Fault {
        match self.formatted(key, true) {
            Ok(pieces) => fault_pieces("KeyError", pieces),
            Err(_) => fault("KeyError", "missing key"),
        }
    }
}

impl Heap {
    /// The complaint about a key that a mapping lacks.
    pub fn missing_key(&self, key: Value) -> (error: Diagnostic)
        requires
            self.wf(),
        ensures
            error@ == self@.missing_key(key),
    {
        match self.format(key, true) {
            Ok(pieces) => Diagnostic::with_pieces("KeyError", pieces),
            Err(_) => Diagnostic::new("KeyError", "missing key"),
        }
    }
}

} // verus!
