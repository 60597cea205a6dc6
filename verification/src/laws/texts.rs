//! The text of values, and hashes.
use vstd::prelude::*;
use crate::calls::arguments::ExpandedArgs;
use crate::calls::state::{HashAction, Step, PROTOCOL_NESTING_LIMIT};
use crate::diagnostic::{Fault, Result};
use crate::dict::DictView;
use crate::float::{fixed, is_finite, is_nan, one};
use crate::format::{
    escaped, escaped_char, float_patterns, patterns, quote, render, rendered, spelled, texts,
    with_exponent, Piece,
};
use crate::heap::{Heap, HeapView};
use crate::laws::{is_number, is_object, lemma_object_word};
use crate::object::ObjectView;
use crate::text::{decimal, decimal_i64, decimal_u64};
use crate::value::{Meaning, Value};

verus! {

/// One digit is written as itself, and a number with a digit more as the
/// number before it and the digit; a minus sign comes first.
pub proof fn decimals_are_written_digit_by_digit(
    n: u64,
    d: u64,
    m: u64,
    below: i64,
    digit: String,
    front: String,
    whole: String,
    turned: String,
    plain: String,
)
    requires
        d < 10,
        n > 0,
        m == 10 * n + d,
        below < 0,
        call_ensures(decimal_u64, (d,), digit),
        call_ensures(decimal_u64, (n,), front),
        call_ensures(decimal_u64, (m,), whole),
        call_ensures(decimal_i64, (below,), turned),
        call_ensures(decimal_u64, ((-below) as u64,), plain),
    ensures
        digit@.len() == 1 && digit@[0] as int == '0' as int + d,
        whole@ == front@ + digit@,
        turned@ == seq!['-'] + plain@,
{
    assert(m / 10 == n && m % 10 == d);
    assert(whole@ =~= front@ + digit@);
}

/// What one character becomes inside quotes.
pub open spec fn is_escaped(c: char, written: Seq<char>) -> bool {
    &&& c == '\'' ==> written == seq!['\\', '\'']
    &&& c == '\\' ==> written == seq!['\\', '\\']
    &&& c == '\n' ==> written == seq!['\\', 'n']
    &&& c == '\r' ==> written == seq!['\\', 'r']
    &&& c == '\t' ==> written == seq!['\\', 't']
    &&& ' ' <= c <= '~' && c != '\'' && c != '\\' ==> written == seq![c]
    &&& c as u32 >= 0xa0 ==> written == seq![c]
    &&& (c as u32 == 0 || c as u32 == 0x1b || c as u32 == 0x7f) ==> written.len() == 4 && written[0]
        == '\\' && written[1] == 'x'
    &&& c as u32 == 0x1b ==> written == seq!['\\', 'x', '1', 'b']
}

/// A text in quotes stands between two quotes, and a character more comes
/// before the last quote, escaped where it must be.
pub proof fn quotes_escape_each_character(
    empty: &str,
    text: &str,
    longer: &str,
    c: char,
    none: String,
    r: String,
    s: String,
)
    requires
        empty@.len() == 0,
        longer@ == text@.push(c),
        call_ensures(quote, (empty,), none),
        call_ensures(quote, (text,), r),
        call_ensures(quote, (longer,), s),
    ensures
        none@ == seq!['\'', '\''],
        r@.len() >= 2 && r@[0] == '\'' && r@.last() == '\'',
        exists|written: Seq<char>| #[trigger]
            is_escaped(c, written) && s@ == r@.drop_last() + written + seq!['\''],
{
    assert(escaped(empty@) =~= Seq::<char>::empty());
    assert(none@ =~= seq!['\'', '\'']);
    assert(longer@.drop_last() =~= text@);
    let written = escaped_char(c);
    assert(r@.drop_last() =~= seq!['\''] + escaped(text@));
    assert(s@ =~= r@.drop_last() + written + seq!['\'']);
    assert(is_escaped(c, written));
}

/// Texts joined with commas between them.
pub open spec fn with_commas(parts: Seq<Seq<Piece>>) -> Seq<Piece>
    decreases parts.len(),
{
    if parts.len() == 0 {
        Seq::empty()
    } else if parts.len() == 1 {
        parts[0]
    } else {
        with_commas(parts.drop_last()) + seq![Piece::Char(','), Piece::Char(' ')] + parts.last()
    }
}

/// A character of a text.
pub open spec fn letter(c: char) -> Piece {
    Piece::Char(c)
}

/// A text in pieces.
pub open spec fn letters(text: Seq<char>) -> Seq<Piece> {
    Seq::new(text.len(), |i: int| letter(text[i]))
}

proof fn lemma_letters(text: Seq<char>)
    ensures
        spelled(text) == letters(text),
{
    assert forall|i: int| 0 <= i < text.len() implies #[trigger] spelled(text)[i] == letters(
        text,
    )[i] by {
        assert(spelled(text)[i] == crate::format::spell(text[i]));
        assert(letters(text)[i] == letter(text[i]));
    }
    assert(spelled(text) =~= letters(text));
}

/// Whether a value shows no other.
pub open spec fn is_simple(heap: HeapView, value: Value) -> bool {
    ||| value@ is Int
    ||| value@ is Bool
    ||| value@ is Nothing
    ||| heap.objects.dom().contains(value) && (heap.objects[value] is Str
        || heap.objects[value] is Int)
}

proof fn lemma_simple(heap: HeapView, value: Value, repr: bool, path: Seq<Value>, fuel: int)
    requires
        heap.wf(),
        is_simple(heap, value),
        path.len() <= 100,
        fuel > 0,
    ensures
        heap.text(value, repr, path, fuel) == heap.formatted(value, repr),
        heap.formatted(value, repr) is Ok,
{
    crate::laws::subscripts::lemma_none_word();
    assert(heap.nesting() > 0);
    if heap.objects.dom().contains(value) {
        lemma_object_word(heap, value);
    }
}

proof fn lemma_listed(
    heap: HeapView,
    values: Seq<Value>,
    path: Seq<Value>,
    fuel: int,
    parts: Seq<Seq<Piece>>,
)
    requires
        heap.wf(),
        path.len() <= 100,
        fuel > 0,
        parts.len() == values.len(),
        forall|i: int|
            0 <= i < values.len() ==> is_simple(heap, #[trigger] values[i]) && heap.formatted(
                values[i],
                true,
            ) == Ok::<Seq<Piece>, Fault>(parts[i]),
    ensures
        heap.listed(values, path, fuel) == Ok::<Seq<Piece>, Fault>(with_commas(parts)),
    decreases values.len(),
{
    reveal_strlit(", ");
    if values.len() > 0 {
        let front = values.drop_last();
        assert forall|i: int| 0 <= i < front.len() implies is_simple(heap, #[trigger] front[i])
            && heap.formatted(front[i], true) == Ok::<Seq<Piece>, Fault>(
            parts.drop_last()[i],
        ) by {
            assert(front[i] == values[i]);
        }
        lemma_listed(heap, front, path, fuel, parts.drop_last());
        let last = values[values.len() - 1];
        assert(last == values.last());
        lemma_simple(heap, last, true, path, fuel);
        if values.len() == 1 {
            assert(with_commas(parts.drop_last()) =~= Seq::<Piece>::empty());
            assert(heap.listed(values, path, fuel)->Ok_0 =~= parts[0]);
        } else {
            assert(spelled(", "@) =~= seq![Piece::Char(','), Piece::Char(' ')]);
            assert(heap.listed(values, path, fuel)->Ok_0 =~= with_commas(parts));
        }
    }
}

/// Whether texts are the representations of values that show no others.
pub open spec fn are_texts(heap: Heap, values: Seq<Value>, parts: Seq<Vec<Piece>>) -> bool {
    values.len() == parts.len() && forall|i: int|
        0 <= i < values.len() ==> is_simple(heap@, #[trigger] values[i]) && call_ensures(
            Heap::format,
            (&heap, values[i], true),
            Ok::<Vec<Piece>, crate::diagnostic::Diagnostic>(parts[i]),
        )
}

/// The texts behind pieces.
pub open spec fn pieces_of(parts: Seq<Vec<Piece>>) -> Seq<Seq<Piece>> {
    parts.map_values(|part: Vec<Piece>| part@)
}

/// A list is shown as its items between square brackets, a tuple between round
/// ones, with a comma behind a lone item.
pub proof fn sequences_show_their_items(
    heap: Heap,
    value: Value,
    items: Seq<Value>,
    parts: Seq<Vec<Piece>>,
    repr: bool,
    r: Result<Vec<Piece>>,
)
    requires
        heap.wf(),
        are_texts(heap, items, parts),
        call_ensures(Heap::format, (&heap, value, repr), r),
    ensures
        is_object(heap@, value, ObjectView::List(items)) ==> (r matches Ok(pieces) && pieces@
            == seq![Piece::Char('[')] + with_commas(pieces_of(parts)) + seq![Piece::Char(']')]),
        is_object(heap@, value, ObjectView::Tuple(items)) && items.len() != 1 ==> (r matches Ok(
            pieces,
        ) && pieces@ == seq![Piece::Char('(')] + with_commas(pieces_of(parts))
            + seq![Piece::Char(')')]),
        is_object(heap@, value, ObjectView::Tuple(items)) && items.len() == 1 ==> (r matches Ok(
            pieces,
        ) && pieces@ == seq![Piece::Char('(')] + parts[0]@
            + seq![Piece::Char(','), Piece::Char(')')]),
{
    heap.lemma_view();
    let view = heap@;
    let texts = pieces_of(parts);
    if is_object(view, value, ObjectView::List(items)) || is_object(
        view,
        value,
        ObjectView::Tuple(items),
    ) {
        lemma_object_word(view, value);
        crate::laws::subscripts::lemma_none_word();
        let path = Seq::<Value>::empty().push(value);
        assert forall|i: int| 0 <= i < items.len() implies is_simple(view, #[trigger] items[i])
            && view.formatted(items[i], true) == Ok::<Seq<Piece>, Fault>(texts[i]) by {
            assert(call_ensures(
                Heap::format,
                (&heap, items[i], true),
                Ok::<Vec<Piece>, crate::diagnostic::Diagnostic>(parts[i]),
            ));
        }
        lemma_listed(view, items, path, view.nesting() - 1, texts);
        reveal_strlit("[");
        reveal_strlit("]");
        reveal_strlit("(");
        reveal_strlit(")");
        reveal_strlit(",)");
        assert(spelled("["@) =~= seq![Piece::Char('[')]);
        assert(spelled("]"@) =~= seq![Piece::Char(']')]);
        assert(spelled("("@) =~= seq![Piece::Char('(')]);
        assert(spelled(")"@) =~= seq![Piece::Char(')')]);
        assert(spelled(",)"@) =~= seq![Piece::Char(','), Piece::Char(')')]);
        let inner = with_commas(texts);
        assert(!Seq::<Value>::empty().contains(value));
        assert(seq![Piece::Char('[')] + (inner + seq![Piece::Char(']')]) =~= seq![Piece::Char('[')]
            + inner + seq![Piece::Char(']')]);
        assert(seq![Piece::Char('(')] + (inner + seq![Piece::Char(')')]) =~= seq![Piece::Char('(')]
            + inner + seq![Piece::Char(')')]);
        if items.len() == 1 {
            assert(inner == parts[0]@);
            assert(seq![Piece::Char('(')] + (inner + seq![Piece::Char(','), Piece::Char(')')])
                =~= seq![Piece::Char('(')] + parts[0]@ + seq![Piece::Char(','), Piece::Char(')')]);
        }
    }
}

/// A text is shown as it is, and represented in quotes; numbers, truth values
/// and nothing are shown by their names.
pub proof fn simple_values_show_themselves(
    heap: Heap,
    value: Value,
    text: &str,
    inside: String,
    repr: bool,
    r: Result<Vec<Piece>>,
)
    requires
        heap.wf(),
        call_ensures(quote, (text,), inside),
        call_ensures(Heap::format, (&heap, value, repr), r),
    ensures
        is_object(heap@, value, ObjectView::Str(text@)) ==> (r matches Ok(pieces) && pieces@
            == letters(
            if repr {
                inside@
            } else {
                text@
            },
        )),
        forall|n: int| #[trigger]
            is_number(heap@, value, n) && !(value@ is Bool) ==> (r matches Ok(pieces) && pieces@
                == letters(decimal(n))),
        value@ == Meaning::Bool(true) ==> (r matches Ok(pieces) && pieces@ == letters("True"@)),
        value@ == Meaning::Bool(false) ==> (r matches Ok(pieces) && pieces@ == letters("False"@)),
        value@ is Nothing ==> (r matches Ok(pieces) && pieces@ == letters("None"@)),
        forall|x: u64| #[trigger]
            is_object(heap@, value, ObjectView::Float(x)) ==> (r matches Ok(pieces) && if is_nan(x) {
                pieces@ == letters("nan"@)
            } else {
                pieces@ == seq![Piece::Float(x)]
            }),
{
    heap.lemma_view();
    crate::laws::subscripts::lemma_none_word();
    assert(heap@.nesting() > 1);
    if heap@.objects.dom().contains(value) {
        lemma_object_word(heap@, value);
    }
    lemma_letters(text@);
    lemma_letters(inside@);
    lemma_letters("True"@);
    lemma_letters("False"@);
    lemma_letters("None"@);
    lemma_letters("nan"@);
    assert forall|n: int| #[trigger] is_number(heap@, value, n) && !(value@ is Bool) implies (
    r matches Ok(pieces) && pieces@ == letters(decimal(n))) by {
        lemma_letters(decimal(n));
    }
}

/// A text without numbers left open is what its characters spell, and a
/// number left open is filled in at its place.
pub proof fn rendering_fills_in_numbers(
    pieces: Vec<Piece>,
    longer: Vec<Piece>,
    piece: Piece,
    numbers: Vec<String>,
    more: Vec<String>,
    number: String,
    r: String,
    s: String,
)
    requires
        patterns(pieces@).len() == numbers@.len(),
        longer@ == pieces@.push(piece),
        more@ == if piece is Float {
            numbers@.push(number)
        } else {
            numbers@
        },
        call_ensures(render, (&pieces, &numbers), r),
        call_ensures(render, (&longer, &more), s),
    ensures
        pieces@.len() == 0 ==> r@.len() == 0,
        piece matches Piece::Char(c) ==> s@ == r@.push(c),
        piece is Float ==> s@ == r@ + number@,
{
    assert(longer@.drop_last() =~= pieces@);
    let (all, further) = (texts(numbers@), texts(more@));
    if piece is Float {
        lemma_prefix(pieces@, all, further);
        assert(further[numbers@.len() as int] == number@);
    } else {
        assert(further =~= all);
    }
}

proof fn lemma_prefix(pieces: Seq<Piece>, a: Seq<Seq<char>>, b: Seq<Seq<char>>)
    requires
        patterns(pieces).len() <= a.len() <= b.len(),
        forall|i: int| 0 <= i < a.len() ==> #[trigger] a[i] == b[i],
    ensures
        rendered(pieces, a) == rendered(pieces, b),
    decreases pieces.len(),
{
    if pieces.len() > 0 {
        lemma_prefix(pieces.drop_last(), a, b);
        if pieces.last() is Float {
            let i = patterns(pieces.drop_last()).len() as int;
            assert(a[i] == b[i]);
        }
    }
}

/// The numbers that a text leaves open are asked for in their order.
pub proof fn open_numbers_are_listed(
    pieces: Vec<Piece>,
    longer: Vec<Piece>,
    piece: Piece,
    r: Vec<u64>,
    s: Vec<u64>,
)
    requires
        longer@ == pieces@.push(piece),
        call_ensures(float_patterns, (&pieces,), r),
        call_ensures(float_patterns, (&longer,), s),
    ensures
        pieces@.len() == 0 ==> r@.len() == 0,
        piece is Char ==> s@ == r@,
        piece matches Piece::Float(bits) ==> s@ == r@.push(bits),
{
    assert(longer@.drop_last() =~= pieces@);
}

/// An exponent is written with a sign and at least two digits.
pub proof fn exponents_have_signs_and_two_digits(text: &str, front: Seq<char>, digits: Seq<char>, r: String)
    requires
        forall|i: int| 0 <= i < front.len() ==> #[trigger] front[i] != 'e',
        digits.len() > 0,
        digits[0] != '-',
        text@ == front + seq!['e'] + digits || text@ == front + seq!['e', '-'] + digits || text@
            == front,
        call_ensures(with_exponent, (text,), r),
    ensures
        text@ == front ==> r@ == text@,
        text@ == front + seq!['e'] + digits && digits.len() == 1 ==> r@ == front + seq!['e', '+', '0']
            + digits,
        text@ == front + seq!['e'] + digits && digits.len() >= 2 ==> r@ == front + seq!['e', '+']
            + digits,
        text@ == front + seq!['e', '-'] + digits && digits.len() == 1 ==> r@ == front
            + seq!['e', '-', '0'] + digits,
        text@ == front + seq!['e', '-'] + digits && digits.len() >= 2 ==> r@ == text@,
{
    let n = front.len() as int;
    if text@ == front {
        lemma_no_mark(text@, 0);
    } else {
        assert(text@[n] == 'e');
        assert forall|i: int| 0 <= i < n implies #[trigger] text@[i] != 'e' by {
            assert(text@[i] == front[i]);
        }
        lemma_mark(text@, n, 0);
        let rest = text@.skip(n + 1);
        assert(text@.take(n + 1) =~= front + seq!['e']);
        if text@ == front + seq!['e'] + digits {
            assert(rest =~= digits);
            if digits.len() == 1 {
                assert(r@ =~= front + seq!['e', '+', '0'] + digits);
            } else {
                assert(r@ =~= front + seq!['e', '+'] + digits);
            }
        }
        if text@ == front + seq!['e', '-'] + digits {
            assert(rest =~= seq!['-'] + digits);
            assert(rest.skip(1) =~= digits);
            if digits.len() == 1 {
                assert(r@ =~= front + seq!['e', '-', '0'] + digits);
            } else {
                assert(r@ =~= text@);
            }
        }
    }
}

proof fn lemma_no_mark(text: Seq<char>, from: int)
    requires
        0 <= from,
        forall|i: int| 0 <= i < text.len() ==> #[trigger] text[i] != 'e',
    ensures
        crate::format::exponent_mark(text, from) is None,
    decreases text.len() - from,
{
    if from < text.len() {
        lemma_no_mark(text, from + 1);
    }
}

proof fn lemma_mark(text: Seq<char>, at: int, from: int)
    requires
        0 <= from <= at < text.len(),
        text[at] == 'e',
        forall|i: int| 0 <= i < at ==> #[trigger] text[i] != 'e',
    ensures
        crate::format::exponent_mark(text, from) == Some(at),
    decreases at - from,
{
    if from < at {
        lemma_mark(text, at, from + 1);
    }
}

/// What is printed: the texts of the values with the separator between them,
/// and the end behind.
pub open spec fn with_separator(parts: Seq<Seq<Piece>>, sep: Seq<char>) -> Seq<Piece>
    decreases parts.len(),
{
    if parts.len() == 0 {
        Seq::empty()
    } else if parts.len() == 1 {
        parts[0]
    } else {
        with_separator(parts.drop_last(), sep) + letters(sep) + parts.last()
    }
}

proof fn lemma_printed(heap: HeapView, values: Seq<Value>, sep: Seq<char>, parts: Seq<Seq<Piece>>)
    requires
        parts.len() == values.len(),
        forall|i: int|
            0 <= i < values.len() ==> heap.formatted(#[trigger] values[i], false) == Ok::<
                Seq<Piece>,
                Fault,
            >(parts[i]),
    ensures
        heap.printed_values(values, sep).failure is None,
        heap.printed_values(values, sep).pieces == with_separator(parts, sep),
    decreases values.len(),
{
    lemma_letters(sep);
    if values.len() > 0 {
        let front = values.drop_last();
        assert forall|i: int| 0 <= i < front.len() implies heap.formatted(#[trigger] front[i], false)
            == Ok::<Seq<Piece>, Fault>(parts.drop_last()[i]) by {
            assert(front[i] == values[i]);
        }
        lemma_printed(heap, front, sep, parts.drop_last());
        let last = values[values.len() - 1];
        assert(last == values.last());
        if values.len() == 1 {
            assert(heap.printed_values(values, sep).pieces =~= parts[0]);
        }
    }
}

/// Printing writes the texts of the values with a blank between them and a new
/// line behind, or with the separator and the end that are asked for.
pub proof fn printing_joins_texts(
    heap: Heap,
    arguments: ExpandedArgs,
    parts: Seq<Vec<Piece>>,
    sep: Seq<char>,
    end: Seq<char>,
    r: Result<Step>,
)
    requires
        heap.wf(),
        arguments@.receiver is None,
        parts.len() == arguments@.positional.len(),
        forall|i: int|
            0 <= i < parts.len() ==> call_ensures(
                Heap::format,
                (&heap, #[trigger] arguments@.positional[i], false),
                Ok::<Vec<Piece>, crate::diagnostic::Diagnostic>(parts[i]),
            ),
        arguments@.keywords.len() == 0 && sep == seq![' '] && end == seq!['\n'] || (
        arguments@.keywords.len() == 2 && arguments@.keywords[0].0 == "sep"@
            && arguments@.keywords[1].0 == "end"@ && is_object(
            heap@,
            arguments@.keywords[0].1,
            ObjectView::Str(sep),
        ) && is_object(heap@, arguments@.keywords[1].1, ObjectView::Str(end))),
        call_ensures(Heap::print, (&heap, &arguments), r),
    ensures
        r matches Ok(Step::Print { pieces, failure }) && failure is None && pieces@
            == with_separator(pieces_of(parts), sep) + letters(end),
{
    heap.lemma_view();
    let keywords = arguments@.keywords;
    let texts = pieces_of(parts);
    assert(arguments@.all() =~= arguments@.positional);
    assert forall|i: int| 0 <= i < parts.len() implies heap@.formatted(
        #[trigger] arguments@.positional[i],
        false,
    ) == Ok::<Seq<Piece>, Fault>(texts[i]) by {
        assert(call_ensures(
            Heap::format,
            (&heap, arguments@.positional[i], false),
            Ok::<Vec<Piece>, crate::diagnostic::Diagnostic>(parts[i]),
        ));
    }
    reveal_strlit(" ");
    reveal_strlit("\n");
    reveal_strlit("sep");
    reveal_strlit("end");
    assert(" "@ =~= seq![' ']);
    assert("\n"@ =~= seq!['\n']);
    assert("sep"@[0] == 's' && "end"@[0] == 'e');
    reveal_with_fuel(HeapView::separators, 3);
    if keywords.len() == 2 {
        lemma_object_word(heap@, keywords[0].1);
        lemma_object_word(heap@, keywords[1].1);
        assert(keywords.drop_last().last() == keywords[0]);
        assert(keywords.drop_last().drop_last().len() == 0);
    }
    lemma_printed(heap@, arguments@.positional, sep, texts);
    lemma_letters(end);
}

/// Equal numbers hash alike, whatever they are held in, and no hash is minus
/// one.
pub proof fn equal_numbers_hash_alike(
    heap: Heap,
    a: Value,
    b: Value,
    n: int,
    x: u64,
    depth: usize,
    action: HashAction,
    r: Result<Step>,
    s: Result<Step>,
)
    requires
        heap.wf(),
        depth <= PROTOCOL_NESTING_LIMIT,
        is_number(heap@, a, n),
        is_number(heap@, b, n) || is_object(heap@, b, ObjectView::Float(x)) && is_finite(x) && fixed(
            x,
        ) == n * one(),
        call_ensures(Heap::invoke_native_hash, (&heap, a, depth, action), r),
        call_ensures(Heap::invoke_native_hash, (&heap, b, depth, action), s),
    ensures
        r matches Ok(Step::CompleteHash { hash, action: then }) && then == action && hash != -1 && (
        s matches Ok(Step::CompleteHash { hash: other, .. }) && other == hash) && (i64::MIN <= n
            <= i64::MAX && n != -1 ==> hash == n),
{
    heap.lemma_view();
    crate::value::lemma_not_heap();
    assert(4u64 & 7 == 4 && 5u64 & 7 == 5 && 6u64 & 7 == 6) by (bit_vector);
    if is_object(heap@, b, ObjectView::Float(x)) {
        lemma_object_word(heap@, b);
        crate::laws::dicts::lemma_whole(x, n);
    }
    let modulus = crate::hashing::HASH_MODULUS as int;
    let m = crate::integer::magnitude(n);
    assert(0 <= m % (modulus as nat) < modulus);
}

/// Texts of the same characters hash alike; a list or dictionary has no hash;
/// a tuple is hashed by its items, the first one first.
pub proof fn containers_hash_by_their_items(
    heap: Heap,
    a: Value,
    object: ObjectView,
    depth: usize,
    action: HashAction,
    r: Result<Step>,
)
    requires
        heap.wf(),
        depth < PROTOCOL_NESTING_LIMIT,
        is_object(heap@, a, object),
        call_ensures(Heap::invoke_native_hash, (&heap, a, depth, action), r),
    ensures
        match object {
            ObjectView::List(_) => r is Err && r->Err_0@.kind == "TypeError"@,
            ObjectView::Dict(_) => r is Err && r->Err_0@.kind == "TypeError"@,
            ObjectView::Tuple(items) => items.len() > 0 ==> (r matches Ok(
                Step::Hash { value, depth: deeper, action: then },
            ) && value == items[0] && deeper == depth + 1 && (then matches HashAction::Sequence {
                values,
                next,
                outer,
                ..
            } && values@ == items && next == 1 && *outer == action)),
            _ => true,
        },
{
    heap.lemma_view();
    lemma_object_word(heap@, a);
}

/// The items of a tuple are hashed in turn.
pub proof fn item_hashes_go_in_turn(
    heap: &mut Heap,
    hash: i64,
    action: HashAction,
    r: Result<Step>,
)
    requires
        old(heap).wf(),
        call_ensures(Heap::complete_hash, (heap, hash, action), r),
    ensures
        action is Return ==> match r {
            Ok(Step::Done(value)) => is_number(final(heap)@, value, hash as int),
            Ok(_) => false,
            Err(_) => old(heap)@.room == 0,
        },
        action matches HashAction::Sequence { values, next, outer, depth, .. } ==> {
            &&& next < values@.len() && next < usize::MAX ==> (r matches Ok(
                Step::Hash { value, depth: deeper, action: then },
            ) && value == values@[next as int] && deeper == depth && (
            then matches HashAction::Sequence { values: v, next: n, outer: o, .. } && v == values
                && n == next + 1 && o == outer))
            &&& next >= values@.len() ==> (r matches Ok(Step::CompleteHash { action: then, .. })
                && then == *outer)
        },
{
    old(heap).lemma_view();
}

/// The text of an entry: its key, a colon and its value.
pub open spec fn entry_text(key: Vec<Piece>, value: Vec<Piece>) -> Seq<Piece> {
    key@ + seq![Piece::Char(':'), Piece::Char(' ')] + value@
}

proof fn lemma_entries_listed(
    heap: HeapView,
    entries: Seq<(Value, Value)>,
    path: Seq<Value>,
    fuel: int,
    parts: Seq<Seq<Piece>>,
)
    requires
        heap.wf(),
        path.len() <= 100,
        fuel > 0,
        parts.len() == entries.len(),
        forall|i: int|
            0 <= i < entries.len() ==> is_simple(heap, (#[trigger] entries[i]).0) && is_simple(
                heap,
                entries[i].1,
            ) && parts[i] == heap.formatted(entries[i].0, true)->Ok_0 + seq![
                Piece::Char(':'),
                Piece::Char(' '),
            ] + heap.formatted(entries[i].1, true)->Ok_0,
    ensures
        heap.listed_entries(entries, path, fuel) == Ok::<Seq<Piece>, Fault>(with_commas(parts)),
    decreases entries.len(),
{
    reveal_strlit(", ");
    reveal_strlit(": ");
    if entries.len() > 0 {
        let front = entries.drop_last();
        assert forall|i: int| 0 <= i < front.len() implies is_simple(heap, (
        #[trigger] front[i]).0) && is_simple(heap, front[i].1) && parts.drop_last()[i]
            == heap.formatted(front[i].0, true)->Ok_0 + seq![Piece::Char(':'), Piece::Char(' ')]
            + heap.formatted(front[i].1, true)->Ok_0 by {
            assert(front[i] == entries[i]);
        }
        lemma_entries_listed(heap, front, path, fuel, parts.drop_last());
        let last = entries[entries.len() - 1];
        assert(last == entries.last());
        lemma_simple(heap, last.0, true, path, fuel);
        lemma_simple(heap, last.1, true, path, fuel);
        assert(spelled(": "@) =~= seq![Piece::Char(':'), Piece::Char(' ')]);
        let key = heap.formatted(last.0, true)->Ok_0;
        let value = heap.formatted(last.1, true)->Ok_0;
        assert(key + spelled(": "@) + value =~= parts.last());
        if entries.len() == 1 {
            assert(with_commas(parts.drop_last()) =~= Seq::<Piece>::empty());
            assert(heap.listed_entries(entries, path, fuel)->Ok_0 =~= parts[0]);
        } else {
            assert(spelled(", "@) =~= seq![Piece::Char(','), Piece::Char(' ')]);
            assert(heap.listed_entries(entries, path, fuel)->Ok_0 =~= with_commas(parts));
        }
    }
}

/// A dictionary is shown as its entries between braces, each as its key, a
/// colon and its value.
pub proof fn dictionaries_show_their_entries(
    heap: Heap,
    value: Value,
    dict: DictView,
    keys: Seq<Vec<Piece>>,
    values: Seq<Vec<Piece>>,
    repr: bool,
    r: Result<Vec<Piece>>,
)
    requires
        heap.wf(),
        is_object(heap@, value, ObjectView::Dict(dict)),
        keys.len() == dict.entries.len(),
        values.len() == dict.entries.len(),
        forall|i: int|
            0 <= i < dict.entries.len() ==> is_simple(heap@, (#[trigger] dict.entries[i]).0)
                && is_simple(heap@, dict.entries[i].1) && call_ensures(
                Heap::format,
                (&heap, dict.entries[i].0, true),
                Ok::<Vec<Piece>, crate::diagnostic::Diagnostic>(keys[i]),
            ) && call_ensures(
                Heap::format,
                (&heap, dict.entries[i].1, true),
                Ok::<Vec<Piece>, crate::diagnostic::Diagnostic>(values[i]),
            ),
        call_ensures(Heap::format, (&heap, value, repr), r),
    ensures
        r matches Ok(pieces) && pieces@ == seq![Piece::Char('{')] + with_commas(
            Seq::new(dict.entries.len(), |i: int| entry_text(keys[i], values[i])),
        ) + seq![Piece::Char('}')],
{
    heap.lemma_view();
    let view = heap@;
    lemma_object_word(view, value);
    crate::laws::subscripts::lemma_none_word();
    let parts = Seq::new(dict.entries.len(), |i: int| entry_text(keys[i], values[i]));
    let path = Seq::<Value>::empty().push(value);
    assert forall|i: int| 0 <= i < dict.entries.len() implies is_simple(view, (
    #[trigger] dict.entries[i]).0) && is_simple(view, dict.entries[i].1) && parts[i]
        == view.formatted(dict.entries[i].0, true)->Ok_0 + seq![Piece::Char(':'), Piece::Char(' ')]
        + view.formatted(dict.entries[i].1, true)->Ok_0 by {
        assert(parts[i] == entry_text(keys[i], values[i]));
    }
    lemma_entries_listed(view, dict.entries, path, view.nesting() - 1, parts);
    reveal_strlit("{");
    reveal_strlit("}");
    assert(spelled("{"@) =~= seq![Piece::Char('{')]);
    assert(spelled("}"@) =~= seq![Piece::Char('}')]);
    assert(!Seq::<Value>::empty().contains(value));
    let inner = with_commas(parts);
    assert(seq![Piece::Char('{')] + (inner + seq![Piece::Char('}')]) =~= seq![Piece::Char('{')]
        + inner + seq![Piece::Char('}')]);
}

/// An exception without arguments has no message, one with a single argument
/// shows it, and one with more shows them in brackets; the exception itself is
/// represented by its class and its arguments.
pub proof fn exceptions_show_their_arguments(
    heap: Heap,
    arguments: Vec<Value>,
    parts: Seq<Vec<Piece>>,
    value: Value,
    class: Value,
    message: Result<Vec<Piece>>,
    text: Result<Vec<Piece>>,
    shown: Result<Vec<Piece>>,
)
    requires
        heap.wf(),
        are_texts(heap, arguments@, parts),
        call_ensures(Heap::exception_message, (&heap, &arguments), message),
        heap@.objects.dom().contains(value),
        heap@.objects[value] is Exception,
        heap@.objects[value]->Exception_arguments == arguments@,
        heap@.objects[value]->Exception_class == class,
        heap@.objects.dom().contains(class),
        heap@.objects[class] is Class,
        call_ensures(Heap::format, (&heap, value, true), shown),
        call_ensures(Heap::format, (&heap, value, false), text),
    ensures
        text matches Ok(pieces) && pieces@ == letters(heap@.objects[value]->Exception_message),
        shown matches Ok(pieces) && pieces@ == letters(heap@.objects[class]->Class_0.name)
            + seq![Piece::Char('(')] + with_commas(pieces_of(parts)) + seq![Piece::Char(')')],
        arguments@.len() == 0 ==> (message matches Ok(pieces) && pieces@.len() == 0),
        arguments@.len() > 1 ==> (message matches Ok(pieces) && pieces@ == seq![Piece::Char('(')]
            + with_commas(pieces_of(parts)) + seq![Piece::Char(')')]),
{
    heap.lemma_view();
    let view = heap@;
    lemma_object_word(view, value);
    lemma_object_word(view, class);
    crate::laws::subscripts::lemma_none_word();
    let items = arguments@;
    let texts = pieces_of(parts);
    assert forall|i: int| 0 <= i < items.len() implies is_simple(view, #[trigger] items[i])
        && view.formatted(items[i], true) == Ok::<Seq<Piece>, Fault>(texts[i]) by {
        assert(call_ensures(
            Heap::format,
            (&heap, items[i], true),
            Ok::<Vec<Piece>, crate::diagnostic::Diagnostic>(parts[i]),
        ));
    }
    lemma_listed(view, items, Seq::empty(), view.nesting(), texts);
    lemma_listed(view, items, Seq::empty(), view.nesting() - 1, texts);
    reveal_strlit("(");
    reveal_strlit(")");
    assert(spelled("("@) =~= seq![Piece::Char('(')]);
    assert(spelled(")"@) =~= seq![Piece::Char(')')]);
    let inner = with_commas(texts);
    assert(seq![Piece::Char('(')] + (inner + seq![Piece::Char(')')]) =~= seq![Piece::Char('(')]
        + inner + seq![Piece::Char(')')]);
    let name = view.objects[class]->Class_0.name;
    lemma_letters(name);
    lemma_letters(view.objects[value]->Exception_message);
    lemma_letters(name + "("@);
    assert(letters(name + "("@) =~= letters(name) + seq![Piece::Char('(')]) by {
        assert forall|i: int| 0 <= i < name.len() + 1 implies #[trigger] letters(name + "("@)[i] == (
        letters(name) + seq![Piece::Char('(')])[i] by {
            if i < name.len() {
                assert(letters(name + "("@)[i] == letter(name[i]));
                assert(letters(name)[i] == letter(name[i]));
            } else {
                assert(letters(name + "("@)[i] == letter('('));
            }
        }
    }
    let head = letters(name) + seq![Piece::Char('(')];
    assert(head + (inner + seq![Piece::Char(')')]) =~= head + inner + seq![Piece::Char(')')]);
}

/// A list that holds itself is shown as such, once.
pub proof fn cycles_are_cut(heap: Heap, value: Value, repr: bool, r: Result<Vec<Piece>>)
    requires
        heap.wf(),
        is_object(heap@, value, ObjectView::List(seq![value])),
        call_ensures(Heap::format, (&heap, value, repr), r),
    ensures
        r matches Ok(pieces) && pieces@ == letters("[[...]]"@),
{
    heap.lemma_view();
    let view = heap@;
    lemma_object_word(view, value);
    crate::laws::subscripts::lemma_none_word();
    let items = seq![value];
    let path = Seq::<Value>::empty().push(value);
    let fuel = view.nesting() - 1;
    reveal_strlit("[");
    reveal_strlit("]");
    reveal_strlit("[...]");
    reveal_strlit("[[...]]");
    lemma_letters("[[...]]"@);
    assert(!Seq::<Value>::empty().contains(value));
    assert(path[0] == value);
    assert(path.contains(value));
    assert(items.drop_last() =~= Seq::<Value>::empty());
    assert(view.listed(items.drop_last(), path, fuel) == Ok::<Seq<Piece>, Fault>(Seq::empty()));
    assert(view.text(value, true, path, fuel) == Ok::<Seq<Piece>, Fault>(spelled("[...]"@)));
    assert(items.last() == value);
    assert(view.listed(items, path, fuel)->Ok_0 =~= spelled("[...]"@));
    assert(spelled("["@) + (spelled("[...]"@) + spelled("]"@)) =~= spelled("[[...]]"@));
}

/// A range is shown by its bounds, and by its step where that is not one.
pub proof fn ranges_show_their_bounds(
    heap: Heap,
    value: Value,
    start: i64,
    stop: i64,
    step: i64,
    repr: bool,
    r: Result<Vec<Piece>>,
)
    requires
        heap.wf(),
        is_object(heap@, value, ObjectView::Range { start, stop, step }),
        call_ensures(Heap::format, (&heap, value, repr), r),
    ensures
        r matches Ok(pieces) && pieces@ == letters(
            if step == 1 {
                "range("@ + decimal(start as int) + ", "@ + decimal(stop as int) + ")"@
            } else {
                "range("@ + decimal(start as int) + ", "@ + decimal(stop as int) + ", "@ + decimal(
                    step as int,
                ) + ")"@
            },
        ),
{
    heap.lemma_view();
    lemma_object_word(heap@, value);
    crate::laws::subscripts::lemma_none_word();
    lemma_letters(crate::format::range_text(start, stop, step));
}

} // verus!
