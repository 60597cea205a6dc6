//! One-word tagged values.
//!
//! The low three bits are the tag: `000` is a heap handle (index above the tag,
//! generation above the index), `001` a small integer; the words two to six
//! are the singletons.
use vstd::prelude::*;

verus! {

/// Internal representation, deliberately not the public native ABI.
#[derive(Clone, Copy, Debug, PartialEq, Eq, Structural)]
pub struct Value(pub u64);

/// What a word stands for.
pub enum Meaning {
    Int(int),
    Bool(bool),
    Nothing,
    Unbound,
    NotImplemented,
    Heap { index: int, generation: int },
    /// No value of the language has this word.
    Reserved,
}

impl View for Value {
    type V = Meaning;

    open spec fn view(&self) -> Meaning {
        if self.0 & 7 == 0 {
            Meaning::Heap { index: self.spec_index(), generation: self.spec_generation() }
        } else if self.0 & 7 == 1 {
            Meaning::Int(((self.0 as i64) >> 3) as int)
        } else if self.0 == 2 {
            Meaning::Bool(false)
        } else if self.0 == 3 {
            Meaning::Bool(true)
        } else if self.0 == 4 {
            Meaning::Nothing
        } else if self.0 == 5 {
            Meaning::Unbound
        } else if self.0 == 6 {
            Meaning::NotImplemented
        } else {
            Meaning::Reserved
        }
    }
}

impl Value {
    pub const MIN_INT: i64 = -0x1000_0000_0000_0000;

    pub const MAX_INT: i64 = 0x0fff_ffff_ffff_ffff;

    pub const MAX_GENERATION: u32 = 0x1fff_ffff;

    /// The slot index a heap word carries.
    pub open spec fn spec_index(self) -> int {
        ((self.0 >> 3) as u32) as int
    }

    /// The slot generation a heap word carries.
    pub open spec fn spec_generation(self) -> int {
        ((self.0 >> 35) as u32) as int
    }

    /// Whether the word is a heap handle.
    pub open spec fn is_heap(self) -> bool {
        self.0 & 7 == 0
    }

    /// The integer a small integer or a boolean stands for.
    pub open spec fn as_number(self) -> Option<int> {
        match self@ {
            Meaning::Int(n) => Some(n),
            Meaning::Bool(b) => Some(
                if b {
                    1int
                } else {
                    0int
                },
            ),
            _ => None,
        }
    }

    /// The heap word of a slot in a generation.
    pub open spec fn handle(index: u32, generation: u32) -> Value {
        Value(((generation as u64) << 35) | ((index as u64) << 3))
    }

    /// The word of a truth value.
    pub open spec fn of_bool(b: bool) -> Value {
        if b {
            Value(3u64)
        } else {
            Value(2u64)
        }
    }

    #[verifier::allow_in_spec]
    pub fn none() -> Value
        returns
            Value(4u64),
    {
        Value(4)
    }

    #[verifier::allow_in_spec]
    pub fn unbound() -> Value
        returns
            Value(5u64),
    {
        Value(5)
    }

    #[verifier::allow_in_spec]
    pub fn not_implemented() -> Value
        returns
            Value(6u64),
    {
        Value(6)
    }

    /// The small integer zero.
    #[verifier::allow_in_spec]
    pub fn zero() -> Value
        returns
            Value(1u64),
    {
        Value(1)
    }

    /// The small integer one.
    #[verifier::allow_in_spec]
    pub fn one() -> Value
        returns
            Value(9u64),
    {
        Value(9)
    }

    pub fn raw(self) -> (word: u64)
        ensures
            word == self.0,
    {
        self.0
    }

    pub fn from_jit(raw: u64) -> (value: Value)
        ensures
            value.0 == raw,
    {
        Value(raw)
    }

    /// The immediate integer, if `n` fits the payload.
    pub fn small_int(n: i64) -> (r: Option<Value>)
        ensures
            r is Some <==> Value::MIN_INT <= n <= Value::MAX_INT,
            r matches Some(v) ==> v@ == Meaning::Int(n as int) && !v.is_heap(),
    {
        if Value::MIN_INT <= n && n <= Value::MAX_INT {
            proof {
                let word = ((n as u64) << 3) | 1u64;
                assert(word & 7 == 1 && ((word as i64) >> 3) == n) by (bit_vector)
                    requires
                        word == ((n as u64) << 3) | 1u64,
                        -0x1000_0000_0000_0000i64 <= n <= 0x0fff_ffff_ffff_ffffi64,
                ;
            }
            Some(Value(((n as u64) << 3) | 1))
        } else {
            None
        }
    }

    pub fn as_int(self) -> (r: Option<i64>)
        ensures
            r is Some <==> self@ is Int,
            r matches Some(n) ==> self@ == Meaning::Int(n as int) && Value::MIN_INT <= n
                <= Value::MAX_INT,
    {
        if self.0 & 7 == 1 {
            proof {
                let word = self.0;
                assert(-0x1000_0000_0000_0000i64 <= (word as i64) >> 3
                    && (word as i64) >> 3 <= 0x0fff_ffff_ffff_ffffi64) by (bit_vector);
            }
            Some((self.0 as i64) >> 3)
        } else {
            None
        }
    }

    pub fn bool(b: bool) -> (v: Value)
        ensures
            v@ == Meaning::Bool(b),
            v.0 == (if b {
                3u64
            } else {
                2u64
            }),
    {
        assert(2u64 & 7 == 2 && 3u64 & 7 == 3) by (bit_vector);
        Value(
            if b {
                3
            } else {
                2
            },
        )
    }

    pub fn as_bool(self) -> (r: Option<bool>)
        ensures
            r is Some <==> self@ is Bool,
            r matches Some(b) ==> self@ == Meaning::Bool(b),
    {
        assert(2u64 & 7 == 2 && 3u64 & 7 == 3) by (bit_vector);
        if self.0 == 2 {
            Some(false)
        } else if self.0 == 3 {
            Some(true)
        } else {
            None
        }
    }

    /// A handle on slot `index` in its `generation`.
    pub fn heap(index: u32, generation: u32) -> (v: Value)
        requires
            0 < generation <= Value::MAX_GENERATION,
        ensures
            v == Value::handle(index, generation),
            v.is_heap(),
            v.spec_index() == index,
            v.spec_generation() == generation,
    {
        proof {
            lemma_heap_word(index, generation);
        }
        Value(((generation as u64) << 35) | ((index as u64) << 3))
    }

    pub fn heap_index(self) -> (r: Option<usize>)
        ensures
            r is Some <==> self.is_heap(),
            r matches Some(index) ==> index == self.spec_index(),
    {
        if self.0 & 7 == 0 {
            Some(((self.0 >> 3) as u32) as usize)
        } else {
            None
        }
    }

    pub fn generation(self) -> (r: u32)
        ensures
            r == self.spec_generation(),
    {
        (self.0 >> 35) as u32
    }

    /// The integer behind an immediate integer or boolean.
    pub fn integer(self) -> (r: Option<i64>)
        ensures
            r is Some <==> self.as_number() is Some,
            r matches Some(n) ==> self.as_number() == Some(n as int) && Value::MIN_INT <= n
                <= Value::MAX_INT && !self.is_heap(),
    {
        assert(2u64 & 7 == 2 && 3u64 & 7 == 3) by (bit_vector);
        match self.as_int() {
            Some(n) => Some(n),
            None => match self.as_bool() {
                Some(b) => Some(
                    if b {
                        1
                    } else {
                        0
                    },
                ),
                None => None,
            },
        }
    }
}

/// The heap word of a slot in a generation carries just these.
pub proof fn lemma_handle(index: u32, generation: u32)
    requires
        generation <= Value::MAX_GENERATION,
    ensures
        Value::handle(index, generation).is_heap(),
        Value::handle(index, generation).spec_index() == index,
        Value::handle(index, generation).spec_generation() == generation,
{
    lemma_heap_word(index, generation);
}

/// No singleton, integer or boolean is a heap word.
pub proof fn lemma_not_heap()
    ensures
        !Value::none().is_heap(),
        !Value::unbound().is_heap(),
        !Value::not_implemented().is_heap(),
        forall|flag: bool| !(#[trigger] Value::of_bool(flag)).is_heap(),
        !Value::zero().is_heap(),
        !Value::one().is_heap(),
        Value::none().as_number() is None,
        Value::not_implemented().as_number() is None,
        forall|v: Value| #[trigger] v.as_number() is Some ==> !v.is_heap(),
{
    assert(1u64 & 7 == 1 && 9u64 & 7 == 1) by (bit_vector);
    assert(2u64 & 7 == 2 && 3u64 & 7 == 3 && 4u64 & 7 == 4 && 5u64 & 7 == 5 && 6u64 & 7 == 6)
        by (bit_vector);
}

proof fn lemma_heap_word(index: u32, generation: u32)
    requires
        generation <= 0x1fff_ffff,
    ensures
        (((generation as u64) << 35) | ((index as u64) << 3)) & 7 == 0,
        ((((generation as u64) << 35) | ((index as u64) << 3)) >> 3) as u32 == index,
        ((((generation as u64) << 35) | ((index as u64) << 3)) >> 35) as u32 == generation,
{
    assert((((generation as u64) << 35) | ((index as u64) << 3)) & 7 == 0
        && ((((generation as u64) << 35) | ((index as u64) << 3)) >> 3) as u32 == index
        && ((((generation as u64) << 35) | ((index as u64) << 3)) >> 35) as u32 == generation)
        by (bit_vector)
        requires
            generation <= 0x1fff_ffff,
    ;
}

/// A heap word is determined by its index and generation.
pub proof fn heap_words_are_distinct(a: Value, b: Value)
    requires
        a.is_heap(),
        b.is_heap(),
        a.spec_index() == b.spec_index(),
        a.spec_generation() == b.spec_generation(),
    ensures
        a == b,
{
    let (x, y) = (a.0, b.0);
    assert(x == y) by (bit_vector)
        requires
            x & 7 == 0,
            y & 7 == 0,
            ((x >> 3) as u32) == ((y >> 3) as u32),
            ((x >> 35) as u32) == ((y >> 35) as u32),
    ;
}

/// Distinct small integers and booleans have distinct words: a word that
/// stands for an integer, a boolean or a singleton stands for nothing else.
pub proof fn immediate_words_are_distinct(a: Value, b: Value)
    requires
        a@ == b@,
        !(a@ is Reserved),
    ensures
        a == b,
{
    let (x, y) = (a.0, b.0);
    assert(2u64 & 7 == 2 && 3u64 & 7 == 3 && 4u64 & 7 == 4 && 5u64 & 7 == 5 && 6u64 & 7 == 6)
        by (bit_vector);
    if a.is_heap() {
        heap_words_are_distinct(a, b);
    } else if a@ is Int {
        assert(x == y) by (bit_vector)
            requires
                x & 7 == 1,
                y & 7 == 1,
                ((x as i64) >> 3) == ((y as i64) >> 3),
        ;
    }
}

} // verus!
