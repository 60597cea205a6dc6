//! Text helpers over character sequences.
use vstd::prelude::*;
use vstd::string::StringExecFns;

verus! {

/// `String::push` appends one character.
pub assume_specification[ String::push ](text: &mut String, c: char)
    ensures
        final(text)@ == old(text)@.push(c),
;

/// Whether two texts hold the same characters.
pub fn same(a: &str, b: &str) -> (r: bool)
    ensures
        r == (a@ == b@),
{
    a.to_owned() == b.to_owned()
}

/// The concatenation of three texts.
pub fn join3(a: &str, b: &str, c: &str) -> (r: String)
    ensures
        r@ == a@ + b@ + c@,
{
    let mut text = a.to_owned();
    text.append(b);
    text.append(c);
    text
}

/// The first position of `name` among the names of `entries`.
pub open spec fn name_position<T>(entries: Seq<(Seq<char>, T)>, name: Seq<char>) -> Option<int>
    decreases entries.len(),
{
    if entries.len() == 0 {
        None
    } else if entries[0].0 == name {
        Some(0)
    } else {
        match name_position(entries.drop_first(), name) {
            Some(i) => Some(i + 1),
            None => None,
        }
    }
}

/// What `entries` holds under `name`.
pub open spec fn named<T>(entries: Seq<(Seq<char>, T)>, name: Seq<char>) -> Option<T> {
    match name_position(entries, name) {
        Some(i) => Some(entries[i].1),
        None => None,
    }
}

/// A named list as its names and values.
pub open spec fn name_pairs<T>(entries: Seq<(String, T)>) -> Seq<(Seq<char>, T)> {
    Seq::new(entries.len(), |i: int| (entries[i].0@, entries[i].1))
}

/// [`name_position`] is the least index that carries the name.
pub proof fn lemma_name_position<T>(entries: Seq<(Seq<char>, T)>, name: Seq<char>)
    ensures
        name_position(entries, name) matches Some(i) ==> 0 <= i < entries.len() && entries[i].0
            == name && forall|j: int| 0 <= j < i ==> (#[trigger] entries[j]).0 != name,
        name_position(entries, name) is None ==> forall|j: int|
            0 <= j < entries.len() ==> (#[trigger] entries[j]).0 != name,
    decreases entries.len(),
{
    if entries.len() > 0 && entries[0].0 != name {
        let rest = entries.drop_first();
        lemma_name_position(rest, name);
        assert forall|j: int| 1 <= j < entries.len() implies #[trigger] entries[j] == rest[j
            - 1] by {}
    }
}

/// An index that carries the name, with none before it, is its position.
pub proof fn lemma_name_position_is<T>(entries: Seq<(Seq<char>, T)>, name: Seq<char>, i: int)
    requires
        0 <= i < entries.len(),
        entries[i].0 == name,
        forall|j: int| 0 <= j < i ==> (#[trigger] entries[j]).0 != name,
    ensures
        name_position(entries, name) == Some(i),
{
    lemma_name_position(entries, name);
    if let Some(k) = name_position(entries, name) {
        if k < i {
            assert(entries[k].0 != name);
        } else if k > i {
            assert(entries[i].0 != name);
        }
    } else {
        assert(entries[i].0 != name);
    }
}

/// A name that no entry carries has no position.
pub proof fn lemma_name_absent<T>(entries: Seq<(Seq<char>, T)>, name: Seq<char>)
    requires
        forall|j: int| 0 <= j < entries.len() ==> (#[trigger] entries[j]).0 != name,
    ensures
        name_position(entries, name) is None,
{
    lemma_name_position(entries, name);
    if let Some(k) = name_position(entries, name) {
        assert(entries[k].0 != name);
    }
}

/// Finds `name` in a named list.
pub fn position<T>(entries: &Vec<(String, T)>, name: &str) -> (r: Option<usize>)
    ensures
        r matches Some(i) ==> name_position(name_pairs(entries@), name@) == Some(i as int) && i
            < entries.len(),
        r is None ==> name_position(name_pairs(entries@), name@) is None,
{
    let ghost pairs = name_pairs(entries@);
    let mut i: usize = 0;
    while i < entries.len()
        invariant
            i <= entries.len(),
            pairs == name_pairs(entries@),
            forall|j: int| 0 <= j < i ==> (#[trigger] pairs[j]).0 != name@,
        decreases entries.len() - i,
    {
        if same(entries[i].0.as_str(), name) {
            proof {
                lemma_name_position_is(pairs, name@, i as int);
            }
            return Some(i);
        }
        i += 1;
    }
    proof {
        lemma_name_absent(pairs, name@);
    }
    None
}

/// The value a named list holds under `name`.
pub fn lookup<T: Copy>(entries: &Vec<(String, T)>, name: &str) -> (r: Option<T>)
    ensures
        r == named(name_pairs(entries@), name@),
{
    match position(entries, name) {
        Some(i) => {
            proof {
                lemma_name_position(name_pairs(entries@), name@);
            }
            Some(entries[i].1)
        },
        None => None,
    }
}

/// The decimal digits of a natural number, most significant first.
pub open spec fn digits(n: nat) -> Seq<char>
    decreases n,
{
    if n < 10 {
        seq![(48 + n) as char]
    } else {
        digits(n / 10).push((48 + n % 10) as char)
    }
}

/// The decimal notation of an integer.
pub open spec fn decimal(n: int) -> Seq<char> {
    if n < 0 {
        seq!['-'] + digits((-n) as nat)
    } else {
        digits(n as nat)
    }
}

/// The decimal notation of an unsigned machine integer.
pub fn decimal_u64(n: u64) -> (r: String)
    ensures
        r@ == decimal(n as int),
    decreases n,
{
    if n < 10 {
        let mut text = "".to_owned();
        proof {
            reveal_strlit("");
        }
        text.push((48 + n as u8) as char);
        assert(text@ =~= digits(n as nat));
        text
    } else {
        let mut text = decimal_u64(n / 10);
        text.push((48 + (n % 10) as u8) as char);
        text
    }
}

/// See [`decimal_u64`].
pub fn decimal_usize(n: usize) -> (r: String)
    ensures
        r@ == decimal(n as int),
{
    decimal_u64(n as u64)
}

/// The decimal notation of a machine integer.
pub fn decimal_i64(n: i64) -> (r: String)
    ensures
        r@ == decimal(n as int),
{
    if n < 0 {
        let rest = decimal_u64((-(n as i128)) as u64);
        proof {
            reveal_strlit("-");
            reveal_strlit("");
        }
        let text = join3("-", rest.as_str(), "");
        assert(text@ =~= decimal(n as int));
        text
    } else {
        decimal_u64(n as u64)
    }
}

} // verus!
