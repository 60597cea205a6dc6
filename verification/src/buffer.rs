//! Contiguous numeric buffers. Elements are binary64 bit patterns.
use vstd::prelude::*;
use crate::diagnostic::{fault, fault_text, Diagnostic, Fault, Result};
use crate::text::{decimal, decimal_usize};

verus! {

/// The element type of a buffer, as a stable code.
#[derive(Clone, Copy, Debug, PartialEq, Eq, Structural)]
pub struct DType(pub u32);

impl DType {
    #[verifier::allow_in_spec]
    pub fn int8() -> DType
        returns
            DType(1u32),
    {
        DType(1)
    }

    #[verifier::allow_in_spec]
    pub fn uint8() -> DType
        returns
            DType(2u32),
    {
        DType(2)
    }

    #[verifier::allow_in_spec]
    pub fn int16() -> DType
        returns
            DType(3u32),
    {
        DType(3)
    }

    #[verifier::allow_in_spec]
    pub fn uint16() -> DType
        returns
            DType(4u32),
    {
        DType(4)
    }

    #[verifier::allow_in_spec]
    pub fn int32() -> DType
        returns
            DType(5u32),
    {
        DType(5)
    }

    #[verifier::allow_in_spec]
    pub fn uint32() -> DType
        returns
            DType(6u32),
    {
        DType(6)
    }

    #[verifier::allow_in_spec]
    pub fn int64() -> DType
        returns
            DType(7u32),
    {
        DType(7)
    }

    #[verifier::allow_in_spec]
    pub fn uint64() -> DType
        returns
            DType(8u32),
    {
        DType(8)
    }

    #[verifier::allow_in_spec]
    pub fn float16() -> DType
        returns
            DType(9u32),
    {
        DType(9)
    }

    #[verifier::allow_in_spec]
    pub fn float32() -> DType
        returns
            DType(10u32),
    {
        DType(10)
    }

    #[verifier::allow_in_spec]
    pub fn float64() -> DType
        returns
            DType(11u32),
    {
        DType(11)
    }

    #[verifier::allow_in_spec]
    pub fn boolean() -> DType
        returns
            DType(12u32),
    {
        DType(12)
    }

    #[verifier::allow_in_spec]
    pub fn complex64() -> DType
        returns
            DType(13u32),
    {
        DType(13)
    }

    #[verifier::allow_in_spec]
    pub fn complex128() -> DType
        returns
            DType(14u32),
    {
        DType(14)
    }
}

pub const BUFFER_WRITABLE: u64 = 1;

pub const BUFFER_C_CONTIGUOUS: u64 = 2;

/// The bytes of one element.
pub const ELEMENT_BYTES: usize = 8;

/// A row-major buffer of binary64 elements.
#[derive(Debug)]
pub struct Buffer {
    data: Vec<u64>,
    shape: Vec<usize>,
    strides: Vec<isize>,
    writable: bool,
}

/// See [`Buffer`].
#[verifier::ext_equal]
pub struct BufferView {
    pub data: Seq<u64>,
    pub shape: Seq<usize>,
    pub strides: Seq<isize>,
    pub writable: bool,
}

/// The number of elements of a shape.
pub open spec fn element_count(shape: Seq<usize>) -> int
    decreases shape.len(),
{
    if shape.len() == 0 {
        1
    } else {
        element_count(shape.drop_last()) * shape.last()
    }
}

/// Whether the running element count of a shape fits a `usize` all along.
pub open spec fn countable(shape: Seq<usize>) -> bool
    decreases shape.len(),
{
    shape.len() == 0 || (countable(shape.drop_last()) && element_count(shape) <= usize::MAX)
}

/// The row-major byte strides of a shape and its byte length.
pub open spec fn row_major(shape: Seq<usize>) -> core::result::Result<(Seq<isize>, int), Fault>
    decreases shape.len(),
{
    if shape.len() == 0 {
        Ok((Seq::empty(), ELEMENT_BYTES as int))
    } else {
        match row_major(shape.drop_first()) {
            Err(error) => Err(error),
            Ok((strides, stride)) => if stride > isize::MAX {
                Err(fault("BufferError", "buffer stride does not fit isize"))
            } else if stride * shape[0] > usize::MAX {
                Err(fault("BufferError", "buffer byte length overflows usize"))
            } else {
                Ok((seq![stride as isize] + strides, stride * shape[0]))
            },
        }
    }
}

/// The text of the complaint about a shape of another size than its data.
pub open spec fn size_mismatch(elements: int, given: int) -> Seq<char> {
    "buffer shape describes "@ + decimal(elements) + " elements, got "@ + decimal(given)
}

/// The buffer over `values` in row-major order.
pub open spec fn laid_in_rows(
    values: Seq<u64>,
    shape: Seq<usize>,
    writable: bool,
) -> core::result::Result<BufferView, Fault> {
    if shape.len() > u32::MAX {
        Err(fault("BufferError", "buffer rank exceeds u32"))
    } else if !countable(shape) {
        Err(fault("BufferError", "buffer shape element count overflows usize"))
    } else if element_count(shape) != values.len() {
        Err(
            fault_text(
                "BufferError",
                size_mismatch(element_count(shape), values.len() as int),
            ),
        )
    } else {
        match row_major(shape) {
            Err(error) => Err(error),
            Ok((strides, _)) => Ok(BufferView { data: values, shape, strides, writable }),
        }
    }
}

/// What a buffer hands out besides its storage.
#[derive(Clone, Copy, Debug, PartialEq, Eq, Structural)]
pub struct ExportParts {
    pub byte_len: usize,
    pub ndim: u32,
    pub writable: bool,
}

impl View for Buffer {
    type V = BufferView;

    closed spec fn view(&self) -> BufferView {
        BufferView {
            data: self.data@,
            shape: self.shape@,
            strides: self.strides@,
            writable: self.writable,
        }
    }
}

impl BufferView {
    /// Whether the strides are those of the shape, and the shape that of the
    /// data.
    pub open spec fn wf(self) -> bool {
        laid_in_rows(self.data, self.shape, self.writable) == Ok::<BufferView, Fault>(self)
    }
}

/// In row-major order the byte length is that of all elements.
pub proof fn lemma_row_major(shape: Seq<usize>)
    ensures
        row_major(shape) matches Ok((strides, bytes)) ==> bytes == ELEMENT_BYTES * element_count(
            shape,
        ) && strides.len() == shape.len() && 0 <= bytes <= usize::MAX,
    decreases shape.len(),
{
    if shape.len() > 0 {
        lemma_row_major(shape.drop_first());
        if let Ok((strides, bytes)) = row_major(shape.drop_first()) {
            lemma_count_front(shape);
            let (rest, first) = (element_count(shape.drop_first()), shape[0] as int);
            assert((ELEMENT_BYTES * rest) * first == ELEMENT_BYTES * (first * rest))
                by (nonlinear_arith);
            assert(bytes * first >= 0) by (nonlinear_arith)
                requires
                    bytes >= 0,
                    first >= 0,
            ;
        }
    }
}

pub proof fn lemma_count_front(shape: Seq<usize>)
    requires
        shape.len() > 0,
    ensures
        element_count(shape) == shape[0] * element_count(shape.drop_first()),
    decreases shape.len(),
{
    if shape.len() == 1 {
        assert(shape.drop_last() =~= Seq::empty());
        assert(shape.drop_first() =~= Seq::empty());
        assert(element_count(shape.drop_last()) == 1);
        assert(element_count(shape.drop_first()) == 1);
    } else {
        let inner = shape.drop_first();
        lemma_count_front(shape.drop_last());
        assert(shape.drop_last().drop_first() =~= inner.drop_last());
        assert(inner.last() == shape.last());
        let (a, b, c) = (shape[0] as int, element_count(inner.drop_last()), shape.last() as int);
        assert((a * b) * c == a * (b * c)) by (nonlinear_arith);
    }
}

/// The byte offset of an element of a well-formed buffer follows its strides:
/// stepping one place along a dimension moves by the bytes of everything
/// inside it.
pub proof fn strides_cover_inner_dimensions(shape: Seq<usize>, i: int)
    requires
        row_major(shape) is Ok,
        0 <= i < shape.len(),
    ensures
        row_major(shape)->Ok_0.0[i] == ELEMENT_BYTES * element_count(shape.skip(i + 1)),
    decreases shape.len(),
{
    let inner = shape.drop_first();
    lemma_row_major(inner);
    if i == 0 {
        assert(shape.skip(1) =~= inner);
    } else {
        strides_cover_inner_dimensions(inner, i - 1);
        assert(inner.skip(i) =~= shape.skip(i + 1));
    }
}

impl Buffer {
    /// A row-major buffer over a copy of `values`.
    pub fn from_bits(values: &Vec<u64>, shape: &Vec<usize>, writable: bool) -> (r: Result<Buffer>)
        ensures
            match r {
                Ok(buffer) => laid_in_rows(values@, shape@, writable) == Ok::<BufferView, Fault>(
                    buffer@,
                ) && buffer@.wf(),
                Err(error) => laid_in_rows(values@, shape@, writable) == Err::<BufferView, Fault>(
                    error@,
                ),
            },
    {
        if shape.len() as u64 > u32::MAX as u64 {
            return Err(Diagnostic::new("BufferError", "buffer rank exceeds u32"));
        }
        let mut elements: usize = 1;
        let mut i: usize = 0;
        assert(shape@.take(0) =~= Seq::empty());
        while i < shape.len()
            invariant
                i <= shape.len(),
                shape@.len() <= u32::MAX,
                elements == element_count(shape@.take(i as int)),
                countable(shape@.take(i as int)),
            decreases shape.len() - i,
        {
            assert(shape@.take(i + 1).drop_last() =~= shape@.take(i as int));
            match elements.checked_mul(shape[i]) {
                Some(product) => {
                    elements = product;
                },
                None => {
                    proof {
                        lemma_uncountable(shape@, i + 1);
                    }
                    return Err(
                        Diagnostic::new(
                            "BufferError",
                            "buffer shape element count overflows usize",
                        ),
                    );
                },
            }
            i += 1;
        }
        assert(shape@.take(shape@.len() as int) =~= shape@);
        if elements != values.len() {
            let mut text = "buffer shape describes ".to_owned();
            text = crate::text::join3(
                text.as_str(),
                decimal_usize(elements).as_str(),
                " elements, got ",
            );
            text = crate::text::join3(text.as_str(), decimal_usize(values.len()).as_str(), "");
            proof {
                reveal_strlit("");
            }
            assert(text@ =~= size_mismatch(elements as int, values@.len() as int));
            return Err(Diagnostic::with_text("BufferError", text));
        }
        let mut stride: usize = ELEMENT_BYTES;
        let mut reversed: Vec<isize> = Vec::new();
        let mut left: usize = shape.len();
        assert(shape@.skip(shape@.len() as int) =~= Seq::empty());
        assert(reversed@.reverse() =~= Seq::<isize>::empty());
        while left > 0
            invariant
                left <= shape.len(),
                shape@.len() <= u32::MAX,
                countable(shape@),
                element_count(shape@) == values@.len(),
                row_major(shape@.skip(left as int)) == Ok::<(Seq<isize>, int), Fault>(
                    (reversed@.reverse(), stride as int),
                ),
            decreases left,
        {
            let ghost inner = shape@.skip(left as int);
            let ghost placed = reversed@.reverse();
            let ghost step = stride;
            let dimension = shape[left - 1];
            assert(shape@.skip(left - 1).drop_first() =~= inner);
            if stride > isize::MAX as usize {
                proof {
                    lemma_row_fault(shape@, left - 1);
                }
                return Err(Diagnostic::new("BufferError", "buffer stride does not fit isize"));
            }
            reversed.push(stride as isize);
            match stride.checked_mul(dimension) {
                Some(product) => {
                    stride = product;
                },
                None => {
                    proof {
                        lemma_row_fault(shape@, left - 1);
                    }
                    return Err(
                        Diagnostic::new("BufferError", "buffer byte length overflows usize"),
                    );
                },
            }
            left -= 1;
            assert(reversed@.reverse() =~= seq![step as isize] + placed);
            assert(shape@.skip(left as int)[0] == dimension);
        }
        assert(shape@.skip(0) =~= shape@);
        let mut strides: Vec<isize> = Vec::new();
        let mut k: usize = reversed.len();
        while k > 0
            invariant
                k <= reversed.len(),
                strides@ == reversed@.reverse().take(reversed.len() - k),
            decreases k,
        {
            k -= 1;
            strides.push(reversed[k]);
            assert(strides@ =~= reversed@.reverse().take(reversed.len() - k));
        }
        assert(strides@ =~= reversed@.reverse());
        let data = values.clone();
        let extents = shape.clone();
        assert(data@ =~= values@);
        assert(extents@ =~= shape@);
        Ok(Buffer { data, shape: extents, strides, writable })
    }

    /// The elements, as bit patterns.
    pub fn as_slice(&self) -> (r: &Vec<u64>)
        ensures
            r@ == self@.data,
    {
        &self.data
    }

    pub fn shape(&self) -> (r: &Vec<usize>)
        ensures
            r@ == self@.shape,
    {
        &self.shape
    }

    pub fn strides(&self) -> (r: &Vec<isize>)
        ensures
            r@ == self@.strides,
    {
        &self.strides
    }

    pub fn is_writable(&self) -> (r: bool)
        ensures
            r == self@.writable,
    {
        self.writable
    }

    pub fn export(&self) -> (r: ExportParts)
        requires
            self@.wf(),
        ensures
            r.byte_len == ELEMENT_BYTES * self@.data.len(),
            r.ndim == self@.shape.len(),
            r.writable == self@.writable,
    {
        proof {
            lemma_row_major(self@.shape);
        }
        ExportParts {
            byte_len: self.data.len() * ELEMENT_BYTES,
            ndim: self.shape.len() as u32,
            writable: self.writable,
        }
    }

    pub fn len(&self) -> (r: usize)
        ensures
            r == self@.data.len(),
    {
        self.data.len()
    }

    pub fn estimated_bytes(&self) -> (r: usize)
        ensures
            r == crate::measure::saturate(
                self@.data.len() * ELEMENT_BYTES + self@.shape.len() * ELEMENT_BYTES
                    + self@.strides.len() * ELEMENT_BYTES,
            ),
    {
        crate::measure::area(self.data.len(), ELEMENT_BYTES).saturating_add(
            crate::measure::area(self.shape.len(), ELEMENT_BYTES),
        ).saturating_add(crate::measure::area(self.strides.len(), ELEMENT_BYTES))
    }
}

/// What a reader of a buffer sees.
#[derive(Clone, Copy, Debug)]
pub struct F64BufferView<'a> {
    buffer: &'a Buffer,
}

impl F64BufferView<'_> {
    pub closed spec fn behind(&self) -> BufferView {
        self.buffer@
    }

    pub fn as_slice(&self) -> (r: &Vec<u64>)
        ensures
            r@ == self.behind().data,
    {
        self.buffer.as_slice()
    }

    pub fn shape(&self) -> (r: &Vec<usize>)
        ensures
            r@ == self.behind().shape,
    {
        self.buffer.shape()
    }

    pub fn strides(&self) -> (r: &Vec<isize>)
        ensures
            r@ == self.behind().strides,
    {
        self.buffer.strides()
    }

    pub fn is_writable(&self) -> (r: bool)
        ensures
            r == self.behind().writable,
    {
        self.buffer.is_writable()
    }
}

impl Buffer {
    pub fn reader(&self) -> (r: F64BufferView<'_>)
        ensures
            r.behind() == self@,
    {
        F64BufferView { buffer: self }
    }
}

proof fn lemma_uncountable(shape: Seq<usize>, i: int)
    requires
        0 <= i <= shape.len(),
        !countable(shape.take(i)),
    ensures
        !countable(shape),
    decreases shape.len() - i,
{
    if i < shape.len() {
        assert(shape.take(i + 1).drop_last() =~= shape.take(i));
        lemma_uncountable(shape, i + 1);
    } else {
        assert(shape.take(i) =~= shape);
    }
}

proof fn lemma_row_fault(shape: Seq<usize>, i: int)
    requires
        0 <= i <= shape.len(),
        row_major(shape.skip(i)) is Err,
    ensures
        row_major(shape) == row_major(shape.skip(i)),
    decreases i,
{
    if i > 0 {
        assert(shape.skip(i - 1).drop_first() =~= shape.skip(i));
        lemma_row_fault(shape, i - 1);
    } else {
        assert(shape.skip(0) =~= shape);
    }
}

} // verus!
