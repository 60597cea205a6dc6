//! Integer literals as texts spell them.
use vstd::prelude::*;
use vstd::string::StringExecFns;
use crate::diagnostic::{fault, Diagnostic, Fault, Result};
use crate::integer::{numeral, Integer};

verus! {

/// Whether a character is white space.
pub open spec fn is_white(c: char) -> bool {
    let n = c as u32;
    0x9 <= n <= 0xd || n == 0x20 || n == 0x85 || n == 0xa0 || n == 0x1680 || 0x2000 <= n <= 0x200a
        || n == 0x2028 || n == 0x2029 || n == 0x202f || n == 0x205f || n == 0x3000
}

/// See [`is_white`].
pub fn white(c: char) -> (r: bool)
    ensures
        r == is_white(c),
{
    let n: u32 = c as u32;
    (0x9 <= n && n <= 0xd) || n == 0x20 || n == 0x85 || n == 0xa0 || n == 0x1680 || (0x2000 <= n
        && n <= 0x200a) || n == 0x2028 || n == 0x2029 || n == 0x202f || n == 0x205f || n == 0x3000
}

/// A text without white space at its start.
pub open spec fn trimmed_start(text: Seq<char>) -> Seq<char>
    decreases text.len(),
{
    if text.len() > 0 && is_white(text[0]) {
        trimmed_start(text.skip(1))
    } else {
        text
    }
}

/// A text without white space at its end.
pub open spec fn trimmed_end(text: Seq<char>) -> Seq<char>
    decreases text.len(),
{
    if text.len() > 0 && is_white(text.last()) {
        trimmed_end(text.drop_last())
    } else {
        text
    }
}

/// A text without white space around it.
pub open spec fn trimmed(text: Seq<char>) -> Seq<char> {
    trimmed_end(trimmed_start(text))
}

/// The base that a prefix announces, zero where there is none.
pub open spec fn prefix_base(digits: Seq<char>) -> int {
    if digits.len() >= 2 && digits[0] == '0' {
        match digits[1] {
            'x' => 16,
            'X' => 16,
            'o' => 8,
            'O' => 8,
            'b' => 2,
            'B' => 2,
            _ => 0,
        }
    } else {
        0
    }
}

/// A text without its underscores.
pub open spec fn without_underscores(text: Seq<char>) -> Seq<char>
    decreases text.len(),
{
    if text.len() == 0 {
        Seq::empty()
    } else if text.last() == '_' {
        without_underscores(text.drop_last())
    } else {
        without_underscores(text.drop_last()).push(text.last())
    }
}

/// Whether underscores stand only between single digits.
pub open spec fn underscores_fit(text: Seq<char>) -> bool {
    text.len() > 0 && text[0] != '_' && text.last() != '_' && forall|i: int|
        0 <= i < text.len() - 1 ==> !(#[trigger] text[i] == '_' && text[i + 1] == '_')
}

/// Whether a text begins with a zero that is not its only character, and not
/// all its characters are zeros.
pub open spec fn leading_zero(text: Seq<char>) -> bool {
    text.len() > 1 && text[0] == '0' && exists|i: int|
        0 <= i < text.len() && #[trigger] text[i] != '0'
}

/// The digits behind a prefix, and an underscore behind it.
pub open spec fn behind_prefix(digits: Seq<char>) -> Seq<char> {
    if digits.len() > 2 && digits[2] == '_' {
        digits.skip(3)
    } else {
        digits.skip(2)
    }
}

/// The integer that digits without a sign spell in a base; base zero goes by
/// the prefix.
pub open spec fn literal_value(digits: Seq<char>, requested: int) -> Option<int> {
    let prefix = prefix_base(digits);
    let prefixed = prefix != 0 && (requested == 0 || requested == prefix);
    let base = if prefixed {
        prefix
    } else if requested == 0 {
        10
    } else {
        requested
    };
    let body = if prefixed {
        behind_prefix(digits)
    } else {
        digits
    };
    let plain = without_underscores(body);
    if digits.len() == 0 || !underscores_fit(body) || (requested == 0 && prefix == 0
        && leading_zero(plain)) {
        None
    } else {
        numeral(plain, base)
    }
}

/// The integer that a text spells in a base.
pub open spec fn int_literal(text: Seq<char>, requested: int) -> Option<int> {
    let core = trimmed(text);
    if core.len() > 0 && core[0] == '-' {
        match literal_value(core.skip(1), requested) {
            Some(n) => Some(-n),
            None => None,
        }
    } else if core.len() > 0 && core[0] == '+' {
        literal_value(core.skip(1), requested)
    } else {
        literal_value(core, requested)
    }
}

/// What is said of a base that there is not.
pub open spec fn invalid_base() -> Fault {
    fault("ValueError", "int base must be 0 or between 2 and 36")
}

pub fn invalid_int_base() -> (r: Diagnostic)
    ensures
        r@ == invalid_base(),
{
    Diagnostic::new("ValueError", "int base must be 0 or between 2 and 36")
}

/// A base that literals may have.
pub fn validate_int_base(base: i64) -> (r: Result<u32>)
    ensures
        if base == 0 || 2 <= base <= 36 {
            r matches Ok(n) && n == base
        } else {
            r matches Err(error) && error@ == invalid_base()
        },
{
    if base == 0 || (2 <= base && base <= 36) {
        Ok(base as u32)
    } else {
        Err(invalid_int_base())
    }
}

/// Where a text stands that has white space around it.
fn trim_bounds(text: &str) -> (r: (usize, usize))
    ensures
        r.0 <= r.1 <= text@.len(),
        text@.subrange(r.0 as int, r.1 as int) == trimmed(text@),
{
    let len = text.unicode_len();
    let mut start: usize = 0;
    assert(text@.skip(0) =~= text@);
    while start < len && white(text.get_char(start))
        invariant
            len == text@.len(),
            start <= len,
            trimmed_start(text@) == trimmed_start(text@.skip(start as int)),
        decreases len - start,
    {
        assert(text@.skip(start as int).skip(1) =~= text@.skip(start + 1));
        start += 1;
    }
    let ghost core = trimmed_start(text@);
    assert(core =~= text@.skip(start as int));
    let mut end: usize = len;
    assert(text@.subrange(start as int, len as int) =~= core);
    while end > start && white(text.get_char(end - 1))
        invariant
            len == text@.len(),
            start <= end <= len,
            trimmed_end(core) == trimmed_end(text@.subrange(start as int, end as int)),
        decreases end,
    {
        assert(text@.subrange(start as int, end as int).drop_last() =~= text@.subrange(
            start as int,
            end - 1,
        ));
        end -= 1;
    }
    assert(trimmed_end(text@.subrange(start as int, end as int)) == text@.subrange(
        start as int,
        end as int,
    ));
    (start, end)
}

/// The characters between two positions without underscores, where the
/// underscores stand between single digits.
fn plain_digits(text: &str, start: usize, end: usize) -> (r: Option<String>)
    requires
        start <= end <= text@.len(),
    ensures
        ({
            let body = text@.subrange(start as int, end as int);
            match r {
                Some(plain) => underscores_fit(body) && plain@ == without_underscores(body),
                None => !underscores_fit(body),
            }
        }),
{
    let ghost body = text@.subrange(start as int, end as int);
    if start == end {
        return None;
    }
    if text.get_char(start) == '_' || text.get_char(end - 1) == '_' {
        return None;
    }
    let mut plain = "".to_owned();
    proof {
        reveal_strlit("");
    }
    let mut i: usize = start;
    let mut behind = false;
    assert(body.take(0) =~= Seq::<char>::empty());
    assert(plain@ =~= Seq::<char>::empty());
    while i < end
        invariant
            start <= i <= end <= text@.len(),
            body == text@.subrange(start as int, end as int),
            plain@ == without_underscores(body.take(i - start)),
            behind == (i > start && body[i - start - 1] == '_'),
            forall|k: int|
                0 <= k < i - start - 1 ==> !(#[trigger] body[k] == '_' && body[k + 1] == '_'),
        decreases end - i,
    {
        let c = text.get_char(i);
        assert(c == body[i - start]);
        assert(body.take(i - start + 1).drop_last() =~= body.take(i - start));
        if c == '_' {
            if behind {
                assert(body[i - start - 1] == '_' && body[i - start - 1 + 1] == '_');
                return None;
            }
            behind = true;
        } else {
            plain.push(c);
            behind = false;
        }
        i += 1;
    }
    assert(body.take(i - start) =~= body);
    Some(plain)
}

/// Whether a text has a leading zero without being zero.
fn has_leading_zero(text: &str) -> (r: bool)
    ensures
        r == leading_zero(text@),
{
    let len = text.unicode_len();
    if len <= 1 {
        return false;
    }
    if text.get_char(0) != '0' {
        return false;
    }
    let mut i: usize = 0;
    while i < len
        invariant
            len == text@.len(),
            len > 1,
            i <= len,
            text@[0] == '0',
            forall|k: int| 0 <= k < i ==> #[trigger] text@[k] == '0',
        decreases len - i,
    {
        if text.get_char(i) != '0' {
            assert(text@[i as int] != '0');
            return true;
        }
        i += 1;
    }
    false
}

/// Reads an integer as a text spells it in a base.
pub fn parse_int_literal(text: &str, requested: u32) -> (r: Option<Integer>)
    requires
        requested == 0 || 2 <= requested <= 36,
    ensures
        match r {
            Some(n) => int_literal(text@, requested as int) == Some(n@),
            None => int_literal(text@, requested as int) is None,
        },
{
    let (begin, end) = trim_bounds(text);
    let ghost core = trimmed(text@);
    let mut negative = false;
    let mut start: usize = begin;
    if begin < end {
        let sign = text.get_char(begin);
        assert(sign == core[0]);
        if sign == '-' {
            negative = true;
            start = begin + 1;
        } else if sign == '+' {
            start = begin + 1;
        }
    }
    let ghost digits = text@.subrange(start as int, end as int);
    assert(start > begin ==> digits =~= core.skip(1));
    assert(start == begin ==> digits =~= core);
    if start == end {
        return None;
    }
    let mut prefix: u32 = 0;
    if end - start >= 2 && text.get_char(start) == '0' {
        assert(text@[start + 1] == digits[1]);
        prefix = match text.get_char(start + 1) {
            'x' | 'X' => 16,
            'o' | 'O' => 8,
            'b' | 'B' => 2,
            _ => 0,
        };
    }
    assert(prefix == prefix_base(digits));
    let mut base = requested;
    let mut body = start;
    if prefix != 0 && (requested == 0 || requested == prefix) {
        base = prefix;
        body = start + 2;
        if body < end && text.get_char(body) == '_' {
            assert(text@[body as int] == digits[2]);
            body = body + 1;
        }
        assert(text@.subrange(body as int, end as int) =~= behind_prefix(digits));
    } else if requested == 0 {
        base = 10;
    }
    let plain = plain_digits(text, body, end)?;
    if requested == 0 && prefix == 0 && has_leading_zero(plain.as_str()) {
        return None;
    }
    let n = Integer::parse(plain.as_str(), base)?;
    if negative {
        Some(n.negated())
    } else {
        Some(n)
    }
}

} // verus!
