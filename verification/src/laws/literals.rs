//! Integers as texts spell them.
use vstd::prelude::*;
use crate::calls::literal::{
    behind_prefix, is_white, leading_zero, literal_value, parse_int_literal, prefix_base, trimmed,
    trimmed_end, trimmed_start, underscores_fit, validate_int_base, without_underscores,
};
use crate::diagnostic::Result;
use crate::integer::{all_digits, digit_value, digits_value, numeral, Integer};

verus! {

/// The value of a digit, whose letters count on from nine.
pub open spec fn digit(c: char) -> int {
    if '0' <= c <= '9' {
        c as int - '0' as int
    } else if 'a' <= c <= 'z' {
        c as int - 'a' as int + 10
    } else if 'A' <= c <= 'Z' {
        c as int - 'A' as int + 10
    } else {
        36
    }
}

/// Whether a text is made of digits of a base and begins with none that is
/// zero.
pub open spec fn is_spelled(text: Seq<char>, base: int) -> bool {
    &&& text.len() > 0
    &&& text[0] != '0'
    &&& forall|i: int| 0 <= i < text.len() ==> digit(#[trigger] text[i]) < base
}

proof fn lemma_plain(text: Seq<char>)
    requires
        forall|i: int| 0 <= i < text.len() ==> #[trigger] text[i] != '_',
    ensures
        without_underscores(text) == text,
    decreases text.len(),
{
    if text.len() > 0 {
        assert(text.last() != '_');
        lemma_plain(text.drop_last());
        assert(text.drop_last().push(text.last()) =~= text);
    } else {
        assert(text =~= Seq::empty());
    }
}

proof fn lemma_tight(text: Seq<char>)
    requires
        text.len() > 0,
        !is_white(text[0]),
        !is_white(text.last()),
    ensures
        trimmed(text) == text,
{
}

proof fn lemma_spelled(text: Seq<char>, base: int)
    requires
        is_spelled(text, base),
        2 <= base <= 36,
    ensures
        trimmed(text) == text,
        without_underscores(text) == text,
        underscores_fit(text),
        all_digits(text, base),
        text[0] != '-',
        text[0] != '+',
        text[0] != '_',
        !leading_zero(text),
        prefix_base(text) == 0,
        numeral(text, base) == Some(digits_value(text, base)),
        literal_value(text, base) == Some(digits_value(text, base)),
        base == 10 ==> literal_value(text, 0) == Some(digits_value(text, base)),
{
    assert(digit(text[0]) < base);
    assert(digit(text.last()) < base);
    assert(text.last() == text[text.len() - 1]);
    lemma_tight(text);
    assert forall|i: int| 0 <= i < text.len() implies #[trigger] text[i] != '_' by {
        assert(digit(text[i]) < base);
    }
    lemma_plain(text);
    assert forall|i: int| 0 <= i < text.len() implies (#[trigger] text[i] == '_' || (digit_value(
        text[i],
    ) matches Some(d) && d < base)) by {
        assert(digit(text[i]) < base);
    }
}

/// One digit is its value, and a digit more is the base times what stands
/// before it, and the digit.
pub proof fn digits_count_by_the_base(
    text: &str,
    longer: &str,
    c: char,
    base: u32,
    r: Option<Integer>,
    s: Option<Integer>,
)
    requires
        2 <= base <= 36,
        is_spelled(text@, base as int),
        digit(c) < base,
        longer@ == text@.push(c),
        call_ensures(parse_int_literal, (text, base), r),
        call_ensures(parse_int_literal, (longer, base), s),
    ensures
        r is Some && s is Some,
        text@.len() == 1 ==> r->0@ == digit(text@[0]),
        s->0@ == r->0@ * base + digit(c),
{
    lemma_spelled(text@, base as int);
    assert(is_spelled(longer@, base as int)) by {
        assert forall|i: int| 0 <= i < longer@.len() implies digit(#[trigger] longer@[i]) < base by {
            if i < text@.len() {
                assert(longer@[i] == text@[i]);
            }
        }
    }
    lemma_spelled(longer@, base as int);
    assert(longer@.drop_last() =~= text@);
    assert(longer@.last() == c);
    if text@.len() == 1 {
        assert(text@.last() == text@[0]);
        assert(text@.drop_last().len() == 0);
        assert(digits_value(text@.drop_last(), base as int) == 0);
        assert(0 * base == 0);
    }
}

/// A minus sign turns the number round, and a plus sign leaves it.
pub proof fn signs_stand_before_digits(
    text: &str,
    minus: &str,
    plus: &str,
    base: u32,
    r: Option<Integer>,
    s: Option<Integer>,
    t: Option<Integer>,
)
    requires
        2 <= base <= 36,
        is_spelled(text@, base as int),
        minus@ == seq!['-'] + text@,
        plus@ == seq!['+'] + text@,
        call_ensures(parse_int_literal, (text, base), r),
        call_ensures(parse_int_literal, (minus, base), s),
        call_ensures(parse_int_literal, (plus, base), t),
    ensures
        r is Some && s is Some && t is Some,
        s->0@ == -r->0@,
        t->0@ == r->0@,
{
    lemma_spelled(text@, base as int);
    assert(digit(text@[text@.len() - 1]) < base);
    assert(minus@.last() == text@[text@.len() - 1] && plus@.last() == text@[text@.len() - 1]);
    lemma_tight(minus@);
    lemma_tight(plus@);
    assert(minus@.skip(1) =~= text@ && plus@.skip(1) =~= text@);
}

/// White space around a number does not count.
pub proof fn white_space_around_does_not_count(
    text: &str,
    padded: &str,
    c: char,
    base: u32,
    r: Option<Integer>,
    s: Option<Integer>,
)
    requires
        c == ' ' || c == '\t' || c == '\n' || c == '\r',
        padded@ == seq![c] + text@ || padded@ == text@.push(c),
        text@.len() > 0,
        !is_white(text@[0]),
        !is_white(text@.last()),
        base == 0 || 2 <= base <= 36,
        call_ensures(parse_int_literal, (text, base), r),
        call_ensures(parse_int_literal, (padded, base), s),
    ensures
        r is Some <==> s is Some,
        r is Some ==> s->0@ == r->0@,
{
    lemma_tight(text@);
    assert(is_white(c));
    if padded@ == seq![c] + text@ {
        assert(padded@[0] == c);
        assert(padded@.skip(1) =~= text@);
        reveal_with_fuel(trimmed_start, 2);
    } else {
        assert(padded@[0] == text@[0]);
        assert(padded@.drop_last() =~= text@);
        assert(padded@.last() == c);
        reveal_with_fuel(trimmed_end, 2);
        assert(trimmed_start(padded@) == padded@);
    }
}

/// Whether two letters announce a base.
pub open spec fn announces(a: char, base: int) -> bool {
    ||| base == 16 && (a == 'x' || a == 'X')
    ||| base == 8 && (a == 'o' || a == 'O')
    ||| base == 2 && (a == 'b' || a == 'B')
}

/// A prefix announces the base: what stands behind it is read in that base,
/// where the base is that one or left open.
pub proof fn prefixes_announce_the_base(
    text: &str,
    prefixed: &str,
    a: char,
    base: u32,
    requested: u32,
    r: Option<Integer>,
    s: Option<Integer>,
)
    requires
        announces(a, base as int),
        is_spelled(text@, base as int),
        prefixed@ == seq!['0', a] + text@,
        requested == 0 || requested == base,
        call_ensures(parse_int_literal, (text, base), r),
        call_ensures(parse_int_literal, (prefixed, requested), s),
    ensures
        r is Some && s is Some,
        s->0@ == r->0@,
{
    lemma_spelled(text@, base as int);
    assert(digit(text@[text@.len() - 1]) < base);
    assert(prefixed@.last() == text@[text@.len() - 1]);
    lemma_tight(prefixed@);
    assert(prefixed@[0] == '0' && prefixed@[1] == a && prefixed@[2] == text@[0]);
    assert(behind_prefix(prefixed@) =~= text@);
}

/// With the base left open and no prefix, a number is read in base ten, and
/// may not begin with a zero before other digits.
pub proof fn open_bases_read_decimals(
    text: &str,
    zeroed: &str,
    r: Option<Integer>,
    s: Option<Integer>,
    t: Option<Integer>,
)
    requires
        is_spelled(text@, 10),
        zeroed@ == seq!['0'] + text@,
        call_ensures(parse_int_literal, (text, 10), r),
        call_ensures(parse_int_literal, (text, 0), s),
        call_ensures(parse_int_literal, (zeroed, 0), t),
    ensures
        r is Some && s is Some && s->0@ == r->0@,
        t is None,
{
    lemma_spelled(text@, 10);
    assert(digit(text@[text@.len() - 1]) < 10);
    assert(digit(text@[0]) < 10);
    assert(zeroed@.last() == text@[text@.len() - 1]);
    lemma_tight(zeroed@);
    assert(zeroed@[0] == '0' && zeroed@[1] == text@[0]);
    assert forall|i: int| 0 <= i < zeroed@.len() implies #[trigger] zeroed@[i] != '_' by {
        if i > 0 {
            assert(zeroed@[i] == text@[i - 1]);
            assert(digit(text@[i - 1]) < 10);
        }
    }
    lemma_plain(zeroed@);
}

/// An underscore between digits does not count; one at an end, or two in a
/// row, is refused. So is a character that is no digit of the base.
pub proof fn underscores_separate_digits(
    text: &str,
    split: &str,
    trailing: &str,
    doubled: &str,
    at: int,
    base: u32,
    r: Option<Integer>,
    s: Option<Integer>,
    t: Option<Integer>,
    u: Option<Integer>,
)
    requires
        2 <= base <= 36,
        is_spelled(text@, base as int),
        0 < at < text@.len(),
        split@ == text@.take(at) + seq!['_'] + text@.skip(at),
        trailing@ == text@.push('_'),
        doubled@ == text@.take(at) + seq!['_', '_'] + text@.skip(at),
        call_ensures(parse_int_literal, (text, base), r),
        call_ensures(parse_int_literal, (split, base), s),
        call_ensures(parse_int_literal, (trailing, base), t),
        call_ensures(parse_int_literal, (doubled, base), u),
    ensures
        r is Some && s is Some && s->0@ == r->0@,
        t is None,
        u is None,
{
    lemma_spelled(text@, base as int);
    assert forall|i: int| 0 <= i < text@.len() implies #[trigger] text@[i] != '_' by {
        assert(digit(text@[i]) < base);
    }
    assert(digit(text@[0]) < base);
    let last = text@[text@.len() - 1];
    assert(digit(last) < base);
    assert(split@[0] == text@[0] && trailing@[0] == text@[0] && doubled@[0] == text@[0]);
    assert(split@.last() == last && doubled@.last() == last && trailing@.last() == '_');
    lemma_tight(split@);
    lemma_tight(trailing@);
    lemma_tight(doubled@);
    lemma_dropped(text@, at, text@.len() as int);
    assert(text@.take(text@.len() as int) =~= text@);
    assert(text@.subrange(at, text@.len() as int) =~= text@.skip(at));
    assert forall|i: int| 0 <= i < split@.len() - 1 implies !(#[trigger] split@[i] == '_' && split@[i
        + 1] == '_') by {
        if i < at {
            assert(split@[i] == text@[i]);
        } else if i == at {
            assert(split@[i + 1] == text@[i]);
        } else {
            assert(split@[i] == text@[i - 1]);
        }
    }
    assert(doubled@[at] == '_' && doubled@[at + 1] == '_');
}

proof fn lemma_dropped(text: Seq<char>, at: int, end: int)
    requires
        0 <= at <= end <= text.len(),
        forall|i: int| 0 <= i < text.len() ==> #[trigger] text[i] != '_',
    ensures
        without_underscores(text.take(at) + seq!['_'] + text.subrange(at, end)) == text.take(end),
    decreases end,
{
    let whole = text.take(at) + seq!['_'] + text.subrange(at, end);
    if at == end {
        assert(whole.last() == '_');
        assert(whole.drop_last() =~= text.take(at));
        lemma_plain(text.take(at));
    } else {
        assert(whole.last() == text[end - 1]);
        assert(whole.drop_last() =~= text.take(at) + seq!['_'] + text.subrange(at, end - 1));
        lemma_dropped(text, at, end - 1);
        assert(text.take(end - 1).push(text[end - 1]) =~= text.take(end));
    }
}

/// A text with a character that is no digit of the base spells no number.
pub proof fn other_characters_are_refused(text: &str, i: int, base: u32, r: Option<Integer>)
    requires
        2 <= base <= 36,
        0 < i < text@.len(),
        text@[0] != '0',
        text@[0] != '+',
        text@[0] != '-',
        !is_white(text@[0]),
        !is_white(text@.last()),
        text@[i] != '_',
        digit(text@[i]) >= base,
        call_ensures(parse_int_literal, (text, base), r),
    ensures
        r is None,
{
    lemma_tight(text@);
    if underscores_fit(text@) {
        let plain = without_underscores(text@);
        lemma_stays(text@, i);
        let k = choose|k: int| 0 <= k < plain.len() && #[trigger] plain[k] == text@[i];
        lemma_first_stays(text@);
        assert(!all_digits(plain, base as int)) by {
            if all_digits(plain, base as int) {
                assert(plain[k] == '_' || (digit_value(plain[k]) matches Some(d) && d < base));
            }
        }
    }
}

proof fn lemma_stays(text: Seq<char>, i: int)
    requires
        0 <= i < text.len(),
        text[i] != '_',
    ensures
        exists|k: int|
            0 <= k < without_underscores(text).len() && #[trigger] without_underscores(text)[k]
                == text[i],
    decreases text.len(),
{
    let plain = without_underscores(text);
    if i == text.len() - 1 {
        assert(plain[plain.len() - 1] == text[i]);
    } else {
        let front = without_underscores(text.drop_last());
        lemma_stays(text.drop_last(), i);
        let k = choose|k: int| 0 <= k < front.len() && #[trigger] front[k] == text[i];
        assert(plain[k] == text[i]);
    }
}

proof fn lemma_first_stays(text: Seq<char>)
    requires
        text.len() > 0,
        text[0] != '_',
    ensures
        without_underscores(text).len() > 0,
        without_underscores(text)[0] == text[0],
    decreases text.len(),
{
    if text.len() > 1 {
        lemma_first_stays(text.drop_last());
        assert(text.drop_last()[0] == text[0]);
    } else {
        assert(text.drop_last().len() == 0);
        assert(without_underscores(text.drop_last()) == Seq::<char>::empty());
        assert(text.last() == text[0]);
    }
}

/// The bases there are: from two to thirty-six, and zero for an open one.
pub proof fn bases_are_between_two_and_thirty_six(base: i64, r: Result<u32>)
    requires
        call_ensures(validate_int_base, (base,), r),
    ensures
        base == 0 || (base >= 2 && base <= 36) ==> (r matches Ok(n) && n == base),
        base < 0 || base == 1 || base > 36 ==> r is Err && r->Err_0@.kind == "ValueError"@,
{
}

} // verus!
