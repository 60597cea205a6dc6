//! Lengths, items, slices and iteration.
use vstd::prelude::*;
use vstd::string::StringExecFns;
use crate::arithmetic::{failed, type_error, unsupported};
use crate::diagnostic::{fault, outcome, Diagnostic, Fault, Result};
use crate::hashing::{range_count, range_count_counts, range_length};
use crate::heap::{counts_one, Heap, HeapView};
use crate::integer::Integer;
use crate::lookup::Outcome;
use crate::namespaces::allocates;
use crate::object::{Object, ObjectView};
use crate::shapes::Shapes;
use crate::soundness::reading::{items_keep_sound, lengths_keep_sound};
use crate::storage::integer_made;
use crate::text::lookup;
use crate::value::Value;

verus! {

/// What an operation yields: a value that is there, an integer, a new object,
/// or a failure.
#[verifier::ext_equal]
pub enum Yield {
    Value(Value),
    Integer(int),
    New(ObjectView),
    Fault(Fault),
}

/// What yielding does.
pub open spec fn yields(
    before: HeapView,
    after: HeapView,
    result: core::result::Result<Value, Diagnostic>,
    yielded: Yield,
) -> bool {
    match yielded {
        Yield::Value(value) => outcome(result) == Ok::<Value, Fault>(value) && after == before,
        Yield::Integer(n) => integer_made(before, after, n, result),
        Yield::New(object) => allocates(before, after, result, object),
        Yield::Fault(error) => failed(before, after, result, error),
    }
}

/// See [`Yield`].
#[derive(Debug)]
pub enum Product {
    Value(Value),
    Integer(Integer),
    New(Object),
    Fault(Diagnostic),
}

impl View for Product {
    type V = Yield;

    open spec fn view(&self) -> Yield {
        match self {
            Product::Value(value) => Yield::Value(*value),
            Product::Integer(n) => Yield::Integer(n@),
            Product::New(object) => Yield::New(object@),
            Product::Fault(error) => Yield::Fault(error@),
        }
    }
}

impl Product {
    /// Whether a new object is consistent.
    pub open spec fn wf(&self, shapes: &Shapes) -> bool {
        self matches Product::New(object) ==> object.wf(shapes)
    }
}

/// What is said of an index outside a sequence.
pub open spec fn out_of_range() -> Fault {
    fault("IndexError", "index out of range")
}

/// What is said of an object without items.
pub open spec fn not_subscriptable() -> Fault {
    fault("TypeError", "object is not subscriptable")
}

/// The nearest `i128`.
pub open spec fn clamped(n: int) -> int {
    if n < i128::MIN {
        i128::MIN as int
    } else if n > i128::MAX {
        i128::MAX as int
    } else {
        n
    }
}

/// A slice bound counted from the start and held between two limits.
pub open spec fn normalized_bound(bound: int, len: int, least: int, greatest: int) -> int {
    let counted = if bound < 0 {
        bound + len
    } else {
        bound
    };
    if counted < least {
        least
    } else if counted > greatest {
        greatest
    } else {
        counted
    }
}

/// The first index of a slice.
pub open spec fn slice_first(len: int, start: Option<int>, step: int) -> int {
    if step > 0 {
        match start {
            Some(start) => normalized_bound(start, len, 0, len),
            None => 0,
        }
    } else {
        match start {
            Some(start) => normalized_bound(start, len, -1, len - 1),
            None => len - 1,
        }
    }
}

/// The index that a slice ends before. An omitted bound of a backward slice
/// lies before the first item; an explicit one counts from the end.
pub open spec fn slice_end(len: int, stop: Option<int>, step: int) -> int {
    if step > 0 {
        match stop {
            Some(stop) => normalized_bound(stop, len, 0, len),
            None => len,
        }
    } else {
        match stop {
            Some(stop) => normalized_bound(stop, len, -1, len - 1),
            None => -1,
        }
    }
}

/// The indices of a slice: every `step`th from the first to before the end.
pub open spec fn slice_indices(len: int, start: Option<int>, stop: Option<int>, step: int) -> Seq<
    int,
> {
    let first = slice_first(len, start, step);
    Seq::new(
        range_count(first, slice_end(len, stop, step), step) as nat,
        |k: int| first + k * step,
    )
}

/// The items at some indices.
pub open spec fn picked<T>(items: Seq<T>, indices: Seq<int>) -> Seq<T> {
    Seq::new(indices.len(), |k: int| items[indices[k]])
}

impl HeapView {
    /// The length of a value.
    pub open spec fn length(self, value: Value) -> Yield {
        match self.found(self.native(value)) {
            Err(error) => Yield::Fault(error),
            Ok(object) => match object {
                ObjectView::Str(text) => Yield::Integer(text.len() as int),
                ObjectView::Tuple(values) => Yield::Integer(values.len() as int),
                ObjectView::List(values) => Yield::Integer(values.len() as int),
                ObjectView::Buffer(buffer) => Yield::Integer(buffer.data.len() as int),
                ObjectView::Dict(dict) => Yield::Integer(dict.entries.len() as int),
                ObjectView::MappingProxy { class } => match self.class_at(class) {
                    Err(error) => Yield::Fault(error),
                    Ok(held) => Yield::Integer(held.dictionary_order.len() as int),
                },
                ObjectView::Range { start, stop, step } => Yield::Integer(
                    range_count(start as int, stop as int, step as int),
                ),
                _ => Yield::Fault(fault("TypeError", "object has no len()")),
            },
        }
    }

    /// The value among extra class attributes whose key equals an index, from
    /// a position on.
    pub open spec fn extra_item(
        self,
        extras: Seq<(Value, Value)>,
        index: Value,
        from: int,
    ) -> Outcome<Option<Value>>
        decreases extras.len() - from,
    {
        if from < 0 || from >= extras.len() {
            Ok(None)
        } else {
            match self.dict_key(extras[from].0, 0) {
                Err(error) => Err(error),
                Ok(x) => match self.dict_key(index, 0) {
                    Err(error) => Err(error),
                    Ok(y) => if x == y {
                        Ok(Some(extras[from].1))
                    } else {
                        self.extra_item(extras, index, from + 1)
                    },
                },
            }
        }
    }

    /// What a class dictionary holds under an index.
    pub open spec fn proxy_item(self, class: Value, index: Value) -> Yield {
        match self.class_at(class) {
            Err(error) => Yield::Fault(error),
            Ok(held) => {
                let own = match self.at(index) {
                    Some(ObjectView::Str(name)) => held.own(name),
                    _ => None,
                };
                match own {
                    Some(value) => Yield::Value(value),
                    None => match self.extra_item(held.extra_attributes, index, 0) {
                        Err(error) => Yield::Fault(error),
                        Ok(Some(value)) => Yield::Value(value),
                        Ok(None) => Yield::Fault(self.missing_key(index)),
                    },
                }
            },
        }
    }

    /// A bound or step of a slice.
    pub open spec fn slice_component(self, value: Value) -> Outcome<Option<int>> {
        if value == Value::none() {
            Ok(None)
        } else {
            match self.integer(value) {
                Ok(n) => Ok(Some(clamped(n))),
                Err(_) => Err(fault("TypeError", "slice indices must be integers or None")),
            }
        }
    }

    /// The items of a sequence that a slice picks.
    pub open spec fn sliced(self, source: Value, start: Value, stop: Value, step: Value) -> Yield {
        match self.slice_component(start) {
            Err(error) => Yield::Fault(error),
            Ok(first) => match self.slice_component(stop) {
                Err(error) => Yield::Fault(error),
                Ok(end) => match self.slice_component(step) {
                    Err(error) => Yield::Fault(error),
                    Ok(stride) => {
                        let by = match stride {
                            Some(n) => n,
                            None => 1,
                        };
                        if by == 0 {
                            Yield::Fault(fault("ValueError", "slice step cannot be zero"))
                        } else {
                            match self.found(source) {
                                Err(error) => Yield::Fault(error),
                                Ok(ObjectView::List(items)) => Yield::New(
                                    ObjectView::List(
                                        picked(
                                            items,
                                            slice_indices(items.len() as int, first, end, by),
                                        ),
                                    ),
                                ),
                                Ok(ObjectView::Tuple(items)) => Yield::New(
                                    ObjectView::Tuple(
                                        picked(
                                            items,
                                            slice_indices(items.len() as int, first, end, by),
                                        ),
                                    ),
                                ),
                                Ok(ObjectView::Str(text)) => Yield::New(
                                    ObjectView::Str(
                                        picked(
                                            text,
                                            slice_indices(text.len() as int, first, end, by),
                                        ),
                                    ),
                                ),
                                Ok(_) => Yield::Fault(not_subscriptable()),
                            }
                        }
                    },
                },
            },
        }
    }

    /// The length of what an integer may index.
    pub open spec fn indexed_length(self, source: Value) -> Outcome<int> {
        match self.found(source) {
            Err(error) => Err(error),
            Ok(ObjectView::Tuple(items)) => Ok(items.len() as int),
            Ok(ObjectView::List(items)) => Ok(items.len() as int),
            Ok(ObjectView::Str(text)) => Ok(text.len() as int),
            Ok(ObjectView::Range { start, stop, step }) => Ok(
                range_count(start as int, stop as int, step as int),
            ),
            Ok(_) => Err(not_subscriptable()),
        }
    }

    /// The item at a position.
    pub open spec fn item_at(self, source: Value, i: int) -> Yield {
        match self.objects[source] {
            ObjectView::Tuple(items) => Yield::Value(items[i]),
            ObjectView::List(items) => Yield::Value(items[i]),
            ObjectView::Str(text) => Yield::New(ObjectView::Str(seq![text[i]])),
            ObjectView::Range { start, step, .. } => Yield::Integer(start + i * step),
            _ => Yield::Fault(unsupported()),
        }
    }

    /// The item under an integer index, counted from the end if negative.
    pub open spec fn indexed(self, source: Value, index: Value) -> Yield {
        match self.integer(index) {
            Err(error) => Yield::Fault(error),
            Ok(n) => if n != clamped(n) {
                Yield::Fault(out_of_range())
            } else {
                match self.indexed_length(source) {
                    Err(error) => Yield::Fault(error),
                    Ok(len) => {
                        let i = if n < 0 {
                            len + n
                        } else {
                            n
                        };
                        if i < 0 || i >= len {
                            Yield::Fault(out_of_range())
                        } else {
                            self.item_at(source, i)
                        }
                    },
                }
            },
        }
    }

    /// What a subscript gives.
    pub open spec fn item(self, owner: Value, index: Value) -> Yield {
        let v = self.native(owner);
        match self.at(v) {
            Some(ObjectView::Dict(_)) => match self.dict_get(v, index) {
                Err(error) => Yield::Fault(error),
                Ok(Some(value)) => Yield::Value(value),
                Ok(None) => Yield::Fault(self.missing_key(index)),
            },
            Some(ObjectView::MappingProxy { class }) => self.proxy_item(class, index),
            _ => match self.at(index) {
                Some(ObjectView::Slice { start, stop, step }) => self.sliced(
                    self.native(v),
                    start,
                    stop,
                    step,
                ),
                _ => self.indexed(v, index),
            },
        }
    }
}

impl Heap {
    /// Yields a value, allocating what is new.
    pub(crate) fn produce(&mut self, product: Product) -> (r: Result<Value>)
        requires
            old(self).wf(),
            product.wf(&old(self)@.shapes),
        ensures
            final(self).wf(),
            counts_one(*old(self), *final(self)),
            yields(old(self)@, final(self)@, r, product@),
    {
        match product {
            Product::Value(value) => Ok(value),
            Product::Integer(n) => self.int_value(n),
            Product::New(object) => self.allocate(object),
            Product::Fault(error) => Err(error),
        }
    }

    fn length_of(&self, value: Value) -> (r: Product)
        requires
            self.wf(),
        ensures
            r@ == self@.length(value),
            r.wf(&self@.shapes),
    {
        let v = self.native_value(value);
        let object = match self.get(v) {
            Ok(object) => object,
            Err(error) => {
                return Product::Fault(error);
            },
        };
        let n: usize = match object {
            Object::Str(text) => text.as_str().unicode_len(),
            Object::Tuple(values) => values.len(),
            Object::List(values) => values.len(),
            Object::Buffer(buffer) => buffer.len(),
            Object::Dict(dict) => dict.len(),
            Object::MappingProxy { class } => match self.class(*class) {
                Ok(class) => class.dictionary_len(),
                Err(error) => {
                    return Product::Fault(error);
                },
            },
            Object::Range { start, stop, step } => {
                return Product::Integer(Integer::from_i128(range_length(*start, *stop, *step)));
            },
            _ => {
                return Product::Fault(Diagnostic::new("TypeError", "object has no len()"));
            },
        };
        Product::Integer(Integer::from_i128(n as i128))
    }

    /// The length of a value.
    pub fn length(&mut self, value: Value) -> (r: Result<Value>)
        requires
            old(self).wf(),
        ensures
            final(self).wf(),
            counts_one(*old(self), *final(self)),
            yields(old(self)@, final(self)@, r, old(self)@.length(value)),
            old(self)@.sound() ==> final(self)@.sound(),
    {
        proof {
            self.lemma_view();
        }
        let product = self.length_of(value);
        let result = self.produce(product);
        proof {
            if old(self)@.sound() {
                lengths_keep_sound(old(self)@, self@, result, value);
            }
        }
        result
    }

    fn extra_item(&self, extras: &Vec<(Value, Value)>, index: Value) -> (r: Result<Option<Value>>)
        requires
            self.wf(),
        ensures
            outcome(r) == self@.extra_item(extras@, index, 0),
    {
        let mut i: usize = 0;
        while i < extras.len()
            invariant
                self.wf(),
                i <= extras.len(),
                self@.extra_item(extras@, index, 0) == self@.extra_item(extras@, index, i as int),
            decreases extras.len() - i,
        {
            let (key, value) = extras[i];
            match self.dict_keys_equal(key, index) {
                Err(error) => {
                    return Err(error);
                },
                Ok(equal) => if equal {
                    return Ok(Some(value));
                },
            }
            i += 1;
        }
        Ok(None)
    }

    fn proxy_item(&self, class: Value, index: Value) -> (r: Product)
        requires
            self.wf(),
        ensures
            r@ == self@.proxy_item(class, index),
            r.wf(&self@.shapes),
    {
        let held = match self.class(class) {
            Ok(held) => held,
            Err(error) => {
                return Product::Fault(error);
            },
        };
        if let Some(Object::Str(name)) = self.try_get(index) {
            if let Some(value) = lookup(&held.attributes, name.as_str()) {
                return Product::Value(value);
            }
        }
        match self.extra_item(&held.extra_attributes, index) {
            Err(error) => Product::Fault(error),
            Ok(Some(value)) => Product::Value(value),
            Ok(None) => Product::Fault(self.missing_key(index)),
        }
    }

    fn slice_component(&self, value: Value) -> (r: Result<Option<i128>>)
        requires
            self.wf(),
        ensures
            match r {
                Ok(Some(n)) => self@.slice_component(value) == Ok::<Option<int>, Fault>(
                    Some(n as int),
                ),
                Ok(None) => self@.slice_component(value) == Ok::<Option<int>, Fault>(None),
                Err(error) => self@.slice_component(value) == Err::<Option<int>, Fault>(error@),
            },
    {
        if value == Value::none() {
            return Ok(None);
        }
        match self.integer(value) {
            Err(_) => Err(Diagnostic::new("TypeError", "slice indices must be integers or None")),
            Ok(n) => match n.to_i128() {
                Some(n) => Ok(Some(n)),
                None => if n.is_negative() {
                    Ok(Some(i128::MIN))
                } else {
                    Ok(Some(i128::MAX))
                },
            },
        }
    }

    fn slice(&self, source: Value, start: Value, stop: Value, step: Value) -> (r: Product)
        requires
            self.wf(),
        ensures
            r@ == self@.sliced(source, start, stop, step),
            r.wf(&self@.shapes),
    {
        let first = match self.slice_component(start) {
            Ok(first) => first,
            Err(error) => {
                return Product::Fault(error);
            },
        };
        let end = match self.slice_component(stop) {
            Ok(end) => end,
            Err(error) => {
                return Product::Fault(error);
            },
        };
        let by: i128 = match self.slice_component(step) {
            Ok(Some(n)) => n,
            Ok(None) => 1,
            Err(error) => {
                return Product::Fault(error);
            },
        };
        if by == 0 {
            return Product::Fault(Diagnostic::new("ValueError", "slice step cannot be zero"));
        }
        let object = match self.get(source) {
            Ok(object) => object,
            Err(error) => {
                return Product::Fault(error);
            },
        };
        match object {
            Object::List(items) => {
                let indices = slice_positions(items.len(), first, end, by);
                Product::New(Object::List(pick(items, &indices)))
            },
            Object::Tuple(items) => {
                let indices = slice_positions(items.len(), first, end, by);
                Product::New(Object::Tuple(pick(items, &indices)))
            },
            Object::Str(text) => {
                let indices = slice_positions(text.as_str().unicode_len(), first, end, by);
                Product::New(Object::Str(pick_text(text.as_str(), &indices)))
            },
            _ => Product::Fault(Diagnostic::new("TypeError", "object is not subscriptable")),
        }
    }

    fn indexed(&self, source: Value, index: Value) -> (r: Product)
        requires
            self.wf(),
        ensures
            r@ == self@.indexed(source, index),
            r.wf(&self@.shapes),
    {
        let n = match self.integer(index) {
            Ok(n) => n,
            Err(error) => {
                return Product::Fault(error);
            },
        };
        let n = match n.to_i128() {
            Some(n) => n,
            None => {
                return Product::Fault(Diagnostic::new("IndexError", "index out of range"));
            },
        };
        let object = match self.get(source) {
            Ok(object) => object,
            Err(error) => {
                return Product::Fault(error);
            },
        };
        let len: i128 = match object {
            Object::Tuple(items) => items.len() as i128,
            Object::List(items) => items.len() as i128,
            Object::Str(text) => text.as_str().unicode_len() as i128,
            Object::Range { start, stop, step } => range_length(*start, *stop, *step),
            _ => {
                return Product::Fault(Diagnostic::new("TypeError", "object is not subscriptable"));
            },
        };
        let i = if n < 0 {
            len + n
        } else {
            n
        };
        if i < 0 || i >= len {
            return Product::Fault(Diagnostic::new("IndexError", "index out of range"));
        }
        match object {
            Object::Tuple(items) => Product::Value(items[i as usize]),
            Object::List(items) => Product::Value(items[i as usize]),
            Object::Str(text) => Product::New(
                Object::Str(single(text.as_str().get_char(i as usize))),
            ),
            Object::Range { start, step, .. } => {
                let offset = Integer::from_i128(i).times(&Integer::from_i64(*step));
                Product::Integer(Integer::from_i64(*start).plus(&offset))
            },
            _ => Product::Fault(type_error()),
        }
    }

    fn item_of(&self, owner: Value, index: Value) -> (r: Product)
        requires
            self.wf(),
        ensures
            r@ == self@.item(owner, index),
            r.wf(&self@.shapes),
    {
        let v = self.native_value(owner);
        match self.try_get(v) {
            Some(Object::Dict(_)) => match self.dict_get(v, index) {
                Err(error) => Product::Fault(error),
                Ok(Some(value)) => Product::Value(value),
                Ok(None) => Product::Fault(self.missing_key(index)),
            },
            Some(Object::MappingProxy { class }) => self.proxy_item(*class, index),
            _ => match self.try_get(index) {
                Some(Object::Slice { start, stop, step }) => {
                    let source = self.native_value(v);
                    self.slice(source, *start, *stop, *step)
                },
                _ => self.indexed(v, index),
            },
        }
    }

    /// Subscripts a value.
    pub fn item(&mut self, owner: Value, index: Value) -> (r: Result<Value>)
        requires
            old(self).wf(),
        ensures
            final(self).wf(),
            counts_one(*old(self), *final(self)),
            yields(old(self)@, final(self)@, r, old(self)@.item(owner, index)),
            old(self)@.sound() ==> final(self)@.sound(),
    {
        proof {
            self.lemma_view();
        }
        let product = self.item_of(owner, index);
        let result = self.produce(product);
        proof {
            if old(self)@.sound() {
                items_keep_sound(old(self)@, self@, result, owner, index);
            }
        }
        result
    }
}

/// A text of one character.
pub(crate) fn single(c: char) -> (r: String)
    ensures
        r@ == seq![c],
{
    let mut text = "".to_owned();
    proof {
        reveal_strlit("");
    }
    text.push(c);
    assert(text@ =~= seq![c]);
    text
}

fn bound(value: i128, len: i128, least: i128, greatest: i128) -> (r: i128)
    requires
        0 <= len <= 0xffff_ffff_ffff_ffff,
        least <= greatest,
    ensures
        r == normalized_bound(value as int, len as int, least as int, greatest as int),
        least <= r <= greatest,
{
    let counted = if value < 0 {
        value + len
    } else {
        value
    };
    if counted < least {
        least
    } else if counted > greatest {
        greatest
    } else {
        counted
    }
}

/// The positions that a slice picks.
pub fn slice_positions(length: usize, start: Option<i128>, stop: Option<i128>, step: i128) -> (r: Vec<
    usize,
>)
    requires
        step != 0,
    ensures
        forall|k: int|
            0 <= k < r@.len() ==> #[trigger] r@[k] as int == slice_indices(
                length as int,
                as_ints(start),
                as_ints(stop),
                step as int,
            )[k] && r@[k] < length,
        r@.len() == slice_indices(
            length as int,
            as_ints(start),
            as_ints(stop),
            step as int,
        ).len(),
{
    let len = length as i128;
    let (least, greatest, open_first, open_end) = if step > 0 {
        (0i128, len, 0i128, len)
    } else {
        (-1i128, len - 1, len - 1, -1i128)
    };
    let first = match start {
        Some(n) => bound(n, len, least, greatest),
        None => open_first,
    };
    let end = match stop {
        Some(n) => bound(n, len, least, greatest),
        None => open_end,
    };
    let ghost all = slice_indices(length as int, as_ints(start), as_ints(stop), step as int);
    let ghost count = range_count(first as int, end as int, step as int);
    let mut positions: Vec<usize> = Vec::new();
    let mut current = first;
    let mut going = true;
    proof {
        assert(first as int == slice_first(length as int, as_ints(start), step as int));
        assert(end as int == slice_end(length as int, as_ints(stop), step as int));
        crate::hashing::range_count_counts(first as int, end as int, step as int, 0);
        lemma_count_at_least_zero(first as int, end as int, step as int);
        assert(0 * (step as int) == 0);
    }
    while going && ((step > 0 && current < end) || (step < 0 && current > end))
        invariant
            step != 0,
            len == length,
            -1 <= first <= len,
            -1 <= end <= len,
            step > 0 ==> first >= 0,
            step < 0 ==> first < len,
            all == slice_indices(length as int, as_ints(start), as_ints(stop), step as int),
            first as int == slice_first(length as int, as_ints(start), step as int),
            end as int == slice_end(length as int, as_ints(stop), step as int),
            count == range_count(first as int, end as int, step as int),
            count >= 0,
            positions@.len() <= count,
            going ==> current as int == first + positions@.len() * step,
            !going ==> positions@.len() == count,
            going ==> (positions@.len() < count <==> (step > 0 && current < end) || (step < 0
                && current > end)),
            forall|k: int|
                0 <= k < positions@.len() ==> #[trigger] positions@[k] as int == all[k]
                    && positions@[k] < length,
        decreases count - positions@.len(),
    {
        let ghost k = positions@.len() as int;
        proof {
            crate::hashing::range_count_counts(first as int, end as int, step as int, k);
            lemma_between(first as int, end as int, step as int, k, len as int);
        }
        positions.push(current as usize);
        proof {
            crate::hashing::range_count_counts(first as int, end as int, step as int, k + 1);
            assert((k + 1) * (step as int) == k * step + step) by (nonlinear_arith);
        }
        match current.checked_add(step) {
            Some(next) => {
                current = next;
            },
            None => {
                going = false;
            },
        }
    }
    positions
}

/// Optional machine integers as integers.
pub open spec fn as_ints(n: Option<i128>) -> Option<int> {
    match n {
        Some(n) => Some(n as int),
        None => None,
    }
}

proof fn lemma_count_at_least_zero(first: int, end: int, step: int)
    requires
        step != 0,
    ensures
        range_count(first, end, step) >= 0,
{
    if step > 0 {
        if first < end {
            assert((end - 1 - first) / step >= 0) by (nonlinear_arith)
                requires
                    step > 0,
                    first < end,
            ;
        }
    } else if first > end {
        assert((first - 1 - end) / (-step) >= 0) by (nonlinear_arith)
            requires
                step < 0,
                first > end,
        ;
    }
}

/// Every index of a slice is a position of the sequence.
pub proof fn slices_pick_positions(
    len: int,
    start: Option<int>,
    stop: Option<int>,
    step: int,
    k: int,
)
    requires
        len >= 0,
        step != 0,
        0 <= k < slice_indices(len, start, stop, step).len(),
    ensures
        0 <= slice_indices(len, start, stop, step)[k] < len,
{
    let (first, end) = (slice_first(len, start, step), slice_end(len, stop, step));
    lemma_count_at_least_zero(first, end, step);
    range_count_counts(first, end, step, k);
    lemma_between(first, end, step, k, len);
}

/// An index that a slice has not passed its end with is a position.
proof fn lemma_between(first: int, end: int, step: int, k: int, len: int)
    requires
        step != 0,
        k >= 0,
        -1 <= first <= len,
        -1 <= end <= len,
        step > 0 ==> first >= 0,
        step < 0 ==> first < len,
        step > 0 ==> first + k * step < end,
        step < 0 ==> first + k * step > end,
    ensures
        0 <= first + k * step < len,
{
    if step > 0 {
        assert(k * step >= 0) by (nonlinear_arith)
            requires
                k >= 0,
                step > 0,
        ;
    } else {
        assert(k * step <= 0) by (nonlinear_arith)
            requires
                k >= 0,
                step < 0,
        ;
    }
}

fn pick(items: &Vec<Value>, positions: &Vec<usize>) -> (r: Vec<Value>)
    requires
        forall|k: int| 0 <= k < positions@.len() ==> #[trigger] positions@[k] < items@.len(),
    ensures
        r@.len() == positions@.len(),
        forall|k: int| 0 <= k < r@.len() ==> #[trigger] r@[k] == items@[positions@[k] as int],
{
    let mut picked: Vec<Value> = Vec::new();
    let mut i: usize = 0;
    while i < positions.len()
        invariant
            i <= positions.len(),
            picked@.len() == i,
            forall|k: int| 0 <= k < positions@.len() ==> #[trigger] positions@[k] < items@.len(),
            forall|k: int| 0 <= k < i ==> #[trigger] picked@[k] == items@[positions@[k] as int],
        decreases positions.len() - i,
    {
        picked.push(items[positions[i]]);
        i += 1;
    }
    picked
}

fn pick_text(text: &str, positions: &Vec<usize>) -> (r: String)
    requires
        forall|k: int| 0 <= k < positions@.len() ==> #[trigger] positions@[k] < text@.len(),
    ensures
        r@.len() == positions@.len(),
        forall|k: int| 0 <= k < r@.len() ==> #[trigger] r@[k] == text@[positions@[k] as int],
{
    let mut picked = "".to_owned();
    proof {
        reveal_strlit("");
    }
    let mut i: usize = 0;
    while i < positions.len()
        invariant
            i <= positions.len(),
            picked@.len() == i,
            forall|k: int| 0 <= k < positions@.len() ==> #[trigger] positions@[k] < text@.len(),
            forall|k: int| 0 <= k < i ==> #[trigger] picked@[k] == text@[positions@[k] as int],
        decreases positions.len() - i,
    {
        picked.push(text.get_char(positions[i]));
        i += 1;
    }
    picked
}

} // verus!
