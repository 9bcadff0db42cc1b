//! Bytes and bits as arrow holds them.
use vstd::prelude::*;
use arrow_buffer::{BooleanBuffer, Buffer as ArrowBuffer, NullBuffer};
use crate::buffer::{bits_of, unset, Bitmap, Buffer};
use crate::le::copy_bytes;

verus! {

/// `arrow_buffer::Buffer`: immutable bytes.
#[verifier::external_type_specification]
#[verifier::external_body]
pub struct ExArrowBuffer(ArrowBuffer);

/// `arrow_buffer::BooleanBuffer`: immutable bits in a window of bytes.
#[verifier::external_type_specification]
#[verifier::external_body]
pub struct ExBooleanBuffer(arrow_buffer::BooleanBuffer);

/// `arrow_buffer::NullBuffer`: the bits that say which slots are not null.
#[verifier::external_type_specification]
#[verifier::external_body]
pub struct ExNullBuffer(arrow_buffer::NullBuffer);

/// The bytes that an `arrow_buffer::Buffer` holds.
pub uninterp spec fn arrow_bytes(b: ArrowBuffer) -> Seq<u8>;

/// The bits that an `arrow_buffer::BooleanBuffer` holds.
pub uninterp spec fn boolean_bits(b: arrow_buffer::BooleanBuffer) -> Seq<bool>;

/// How many bits the bytes under an `arrow_buffer::BooleanBuffer` have.
pub uninterp spec fn boolean_span(b: arrow_buffer::BooleanBuffer) -> nat;

/// How many bits the bytes under an `arrow_buffer::NullBuffer` have.
pub uninterp spec fn null_span(n: arrow_buffer::NullBuffer) -> nat;

/// The bits that an `arrow_buffer::NullBuffer` holds, set where a slot is not
/// null.
pub uninterp spec fn null_bits(n: arrow_buffer::NullBuffer) -> Seq<bool>;

/// `arrow_buffer::Buffer::from_vec` on bytes: the buffer holds the bytes.
#[verifier::external_body]
fn buffer_from_vec(bytes: Vec<u8>) -> (r: ArrowBuffer)
    ensures
        arrow_bytes(r) == bytes@,
{
    ArrowBuffer::from_vec(bytes)
}

/// `arrow_buffer::Buffer::as_slice`: the bytes that the buffer holds.
pub assume_specification[ ArrowBuffer::as_slice ](b: &ArrowBuffer) -> (r: &[u8])
    ensures
        r@ == arrow_bytes(*b),
;

/// `arrow_buffer::BooleanBuffer::new`: the bits of the bytes from `bit_offset`
/// on, the least significant of a byte first, over all of the bytes. It panics
/// where the bytes have fewer.
pub assume_specification[ arrow_buffer::BooleanBuffer::new ](
    buffer: ArrowBuffer,
    bit_offset: usize,
    bit_len: usize,
) -> (r: arrow_buffer::BooleanBuffer)
    requires
        bit_offset + bit_len <= 8 * arrow_bytes(buffer).len(),
        bit_offset + bit_len <= usize::MAX,
    ensures
        boolean_bits(r) == bits_of(arrow_bytes(buffer), bit_offset as int, bit_len as int),
        boolean_span(r) == 8 * arrow_bytes(buffer).len(),
;

/// `arrow_buffer::BooleanBuffer::len`: how many bits there are.
pub assume_specification[ arrow_buffer::BooleanBuffer::len ](b: &arrow_buffer::BooleanBuffer) -> (r: usize)
    ensures
        r == boolean_bits(*b).len(),
;

/// `arrow_buffer::BooleanBuffer::value`: one of the bits. It panics past the
/// last.
pub assume_specification[ arrow_buffer::BooleanBuffer::value ](b: &arrow_buffer::BooleanBuffer, idx: usize) -> (r: bool)
    requires
        idx < boolean_bits(*b).len(),
    ensures
        r == boolean_bits(*b)[idx as int],
;

/// `arrow_buffer::NullBuffer::new`: it holds the bits, over the same bytes.
pub assume_specification[ arrow_buffer::NullBuffer::new ](buffer: arrow_buffer::BooleanBuffer) -> (r:
    arrow_buffer::NullBuffer)
    ensures
        null_bits(r) == boolean_bits(buffer),
        null_span(r) == boolean_span(buffer),
;

/// `arrow_buffer::NullBuffer::validity`: the bytes under the bits.
pub assume_specification[ arrow_buffer::NullBuffer::validity ](n: &arrow_buffer::NullBuffer) -> (r: &[u8])
    ensures
        8 * r@.len() == null_span(*n),
;

/// `arrow_buffer::NullBuffer::inner`: the bits that it holds.
pub assume_specification[ arrow_buffer::NullBuffer::inner ](n: &arrow_buffer::NullBuffer) -> (r:
    &arrow_buffer::BooleanBuffer)
    ensures
        boolean_bits(*r) == null_bits(*n),
;

/// `arrow_buffer::NullBuffer::null_count`: how many bits are unset, as counted
/// when the buffer was made.
pub assume_specification[ arrow_buffer::NullBuffer::null_count ](n: &arrow_buffer::NullBuffer) -> (r: usize)
    ensures
        r == unset(null_bits(*n)),
;

/// The bytes as arrow holds them.
#[must_use]
pub fn to_arrow_buffer(buffer: &Buffer) -> (r: ArrowBuffer)
    ensures
        arrow_bytes(r) == buffer@,
        arrow_bytes(r).len() <= usize::MAX,
{
    let bytes = copy_bytes(buffer.as_slice());
    assert(bytes@.len() == bytes.len());
    buffer_from_vec(bytes)
}

/// The bytes that arrow holds.
#[must_use]
pub fn from_arrow_buffer(buffer: &ArrowBuffer) -> (r: Buffer)
    ensures
        r@ == arrow_bytes(*buffer),
{
    Buffer::from_slice(buffer.as_slice())
}

/// The bits as arrow holds them.
#[must_use]
pub fn to_arrow_boolean_buffer(bitmap: &Bitmap) -> (r: BooleanBuffer)
    ensures
        boolean_bits(r) == bitmap@,
        boolean_span(r) >= bitmap@.len(),
{
    let n: usize = bitmap.len();
    match bitmap.bit_offset().checked_add(n) {
        Some(_) => BooleanBuffer::new(to_arrow_buffer(bitmap.buffer()), bitmap.bit_offset(), n),
        None => {
            let packed = bitmap.to_canonical();
            BooleanBuffer::new(to_arrow_buffer(packed.buffer()), 0, n)
        },
    }
}

/// The bits that arrow holds.
#[must_use]
pub fn from_arrow_boolean_buffer(buffer: &BooleanBuffer) -> (r: Bitmap)
    ensures
        r@ == boolean_bits(*buffer),
{
    let n: usize = buffer.len();
    let mut bits: Vec<bool> = Vec::with_capacity(n);
    let mut i: usize = 0;
    while i < n
        invariant
            0 <= i <= n == boolean_bits(*buffer).len(),
            bits@.len() == i,
            forall|k: int| #![trigger bits@[k]] 0 <= k < i ==> bits@[k] == boolean_bits(*buffer)[k],
        decreases n - i,
    {
        bits.push(buffer.value(i));
        i = i + 1;
    }
    assert(bits@ =~= boolean_bits(*buffer));
    Bitmap::from_bools(bits.as_slice())
}

/// Validity as arrow holds it.
#[must_use]
pub fn to_arrow_nulls(bitmap: &Bitmap) -> (r: NullBuffer)
    ensures
        null_bits(r) == bitmap@,
        null_span(r) >= bitmap@.len(),
{
    NullBuffer::new(to_arrow_boolean_buffer(bitmap))
}

/// What an optional null buffer holds.
pub open spec fn nulls_model(nulls: Option<arrow_buffer::NullBuffer>) -> Option<Seq<bool>> {
    match nulls {
        Some(n) => Some(null_bits(n)),
        None => None,
    }
}

/// How many bits the bytes under validity that marks a null have.
pub open spec fn nulls_span(nulls: Option<arrow_buffer::NullBuffer>) -> nat {
    match nulls {
        Some(n) => if unset(null_bits(n)) == 0 {
            0
        } else {
            null_span(n)
        },
        None => 0,
    }
}

/// Validity that marks no null is none.
pub open spec fn marked(validity: Option<Seq<bool>>) -> Option<Seq<bool>> {
    match validity {
        Some(v) => if unset(v) == 0 {
            None
        } else {
            Some(v)
        },
        None => None,
    }
}

/// The validity that arrow holds: none where no slot is null.
#[must_use]
pub fn from_arrow_nulls(nulls: Option<&NullBuffer>) -> (r: Option<Bitmap>)
    ensures
        match nulls {
            Some(n) => crate::array::column::bits_model(r) == marked(Some(null_bits(*n))),
            None => r is None,
        },
{
    match nulls {
        Some(n) => if n.null_count() == 0 {
            None
        } else {
            Some(from_arrow_boolean_buffer(n.inner()))
        },
        None => None,
    }
}

} // verus!
