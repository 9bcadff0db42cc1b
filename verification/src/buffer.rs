//! Byte windows, bitmaps and offsets over shared allocations.
//!
//! A window is a shared allocation, a start and a length. Narrowing one shares
//! the allocation; no bytes move.
use vstd::prelude::*;
use vstd::slice::slice_subrange;
use std::sync::Arc;
use crate::error::{DataError, DataErrorModel};
use crate::ipc::layout::bytes_for_bits;

verus! {

/// Another handle to a shared value.
pub(crate) fn share<T>(value: &Arc<T>) -> (r: Arc<T>)
    ensures
        r == *value,
{
    value.clone()
}

/// std's `Arc::strong_count`: how many handles to the value there are. The one
/// handed in is among them, so there is at least one. The exact number is left
/// unsaid: it depends on the handles that other code holds.
#[verifier::external_body]
fn handle_count<T>(value: &Arc<T>) -> (r: usize)
    ensures
        r >= 1,
{
    Arc::strong_count(value)
}

/// The window of a length that an offset and a length ask for: both cut to what
/// there is.
pub open spec fn window(total: int, offset: int, len: int) -> (int, int) {
    let start = if offset > total {
        total
    } else {
        offset
    };
    let rest = total - start;
    (
        start,
        if len > rest {
            rest
        } else {
            len
        },
    )
}

/// The part of a sequence that an offset and a length ask for.
pub open spec fn windowed<T>(s: Seq<T>, offset: int, len: int) -> Seq<T> {
    let (start, count) = window(s.len() as int, offset, len);
    s.subrange(start, start + count)
}

/// Cuts an offset and a length to what there is.
pub fn clamp_window(total: usize, offset: usize, len: usize) -> (r: (usize, usize))
    ensures
        (r.0 as int, r.1 as int) == window(total as int, offset as int, len as int),
        r.0 + r.1 <= total,
{
    let start: usize = if offset > total {
        total
    } else {
        offset
    };
    let rest: usize = total - start;
    let count: usize = if len > rest {
        rest
    } else {
        len
    };
    (start, count)
}

/// A window of bytes.
#[derive(Debug)]
pub struct Buffer {
    data: Arc<Vec<u8>>,
    start: usize,
    len: usize,
}

impl View for Buffer {
    type V = Seq<u8>;

    closed spec fn view(&self) -> Seq<u8> {
        self.data@.subrange(self.start as int, self.start + self.len)
    }
}

impl Buffer {
    #[verifier::type_invariant]
    closed spec fn inside(self) -> bool {
        self.start + self.len <= self.data@.len()
    }

    /// No bytes.
    pub fn new() -> (r: Buffer)
        ensures
            r@ == Seq::<u8>::empty(),
    {
        let r = Buffer { data: Arc::new(Vec::new()), start: 0, len: 0 };
        assert(r@ =~= Seq::<u8>::empty());
        r
    }

    /// The bytes of a vector, taken over.
    pub fn from_vec(bytes: Vec<u8>) -> (r: Buffer)
        ensures
            r@ == bytes@,
    {
        let len: usize = bytes.len();
        let r = Buffer { data: Arc::new(bytes), start: 0, len };
        assert(r@ =~= bytes@);
        r
    }

    /// A copy of bytes.
    pub fn from_slice(bytes: &[u8]) -> (r: Buffer)
        ensures
            r@ == bytes@,
    {
        Buffer::from_vec(crate::le::copy_bytes(bytes))
    }

    /// Number of bytes.
    pub fn len(&self) -> (r: usize)
        ensures
            r == self@.len(),
    {
        proof {
            use_type_invariant(self);
        }
        self.len
    }

    /// Whether there are no bytes.
    pub fn is_empty(&self) -> (r: bool)
        ensures
            r == (self@.len() == 0),
    {
        self.len() == 0
    }

    /// The bytes.
    pub fn as_slice(&self) -> (r: &[u8])
        ensures
            r@ == self@,
    {
        proof {
            use_type_invariant(self);
        }
        assert(self.data.len() == self.data@.len());
        slice_subrange(self.data.as_slice(), self.start, self.start + self.len)
    }

    /// The window of `len` bytes at `offset`, both cut to what there is.
    pub fn slice(&self, offset: usize, len: usize) -> (r: Buffer)
        ensures
            r@ == windowed(self@, offset as int, len as int),
    {
        proof {
            use_type_invariant(self);
        }
        let (start, count) = clamp_window(self.len, offset, len);
        assert(self.data.len() == self.data@.len());
        let r = Buffer { data: share(&self.data), start: self.start + start, len: count };
        assert(r@ =~= windowed(self@, offset as int, len as int));
        r
    }

    /// How many windows share this one's allocation, itself among them. What
    /// other windows there are is not fixed by this one, so the number is left
    /// open above one.
    pub fn share_count(&self) -> (r: usize)
        ensures
            r >= 1,
    {
        handle_count(&self.data)
    }

    /// Another handle to the window.
    pub fn share(&self) -> (r: Buffer)
        ensures
            r@ == self@,
    {
        proof {
            use_type_invariant(self);
        }
        Buffer { data: share(&self.data), start: self.start, len: self.len }
    }
}

impl Clone for Buffer {
    fn clone(&self) -> (r: Self)
        ensures
            r@ == self@,
    {
        self.share()
    }
}

/// Bit `k` of a byte, the least significant first.
pub open spec fn bit_of(byte: u8, k: int) -> bool {
    (byte >> (k as u8)) & 1u8 == 1u8
}

/// The `len` bits of `bytes` from bit `offset` on.
pub open spec fn bits_of(bytes: Seq<u8>, offset: int, len: int) -> Seq<bool> {
    Seq::new(len as nat, |i: int| bit_of(bytes[(offset + i) / 8], (offset + i) % 8))
}

/// The byte whose lowest `count` bits are those of `bits` from `start` on, the
/// rest zero.
pub open spec fn packed_byte(bits: Seq<bool>, start: int, count: nat) -> u8
    decreases count,
{
    if count == 0 {
        0
    } else {
        let before = packed_byte(bits, start, (count - 1) as nat);
        if bits[start + count - 1] {
            before | (1u8 << ((count - 1) as u8))
        } else {
            before
        }
    }
}

/// How many bits the byte at `index` of a packed list of `len` bits holds.
pub open spec fn bits_in_byte(len: int, index: int) -> nat {
    if len - 8 * index >= 8 {
        8
    } else {
        (len - 8 * index) as nat
    }
}

/// Bits packed eight to a byte, the last byte filled with zeros.
pub open spec fn packed(bits: Seq<bool>) -> Seq<u8> {
    Seq::new(
        bytes_for_bits(bits.len() as int) as nat,
        |i: int| packed_byte(bits, 8 * i, bits_in_byte(bits.len() as int, i)),
    )
}

proof fn lemma_set_bit(byte: u8, k: u8, j: u8)
    requires
        k < 8,
        j < 8,
    ensures
        ((byte | (1u8 << k)) >> j) & 1u8 == 1u8 <==> (j == k || (byte >> j) & 1u8 == 1u8),
{
    assert(((byte | (1u8 << k)) >> j) & 1u8 == 1u8 <==> (j == k || (byte >> j) & 1u8 == 1u8)) by (bit_vector)
        requires
            k < 8,
            j < 8,
    ;
}

proof fn lemma_packed_byte(bits: Seq<bool>, start: int, count: nat, j: int)
    requires
        count <= 8,
        0 <= j < 8,
    ensures
        bit_of(packed_byte(bits, start, count), j) == (j < count && bits[start + j]),
    decreases count,
{
    if count == 0 {
        let k = j as u8;
        assert((0u8 >> k) & 1u8 == 0u8) by (bit_vector)
            requires
                k < 8,
        ;
    } else {
        lemma_packed_byte(bits, start, (count - 1) as nat, j);
        let before = packed_byte(bits, start, (count - 1) as nat);
        lemma_set_bit(before, (count - 1) as u8, j as u8);
    }
}

/// Reading packed bits gives the bits back.
pub proof fn law_packed_bits_read_back(bits: Seq<bool>)
    ensures
        packed(bits).len() == bytes_for_bits(bits.len() as int),
        bits_of(packed(bits), 0, bits.len() as int) == bits,
{
    let bytes = packed(bits);
    let read = bits_of(bytes, 0, bits.len() as int);
    assert forall|i: int| 0 <= i < bits.len() implies read[i] == bits[i] by {
        let index = i / 8;
        let count = bits_in_byte(bits.len() as int, index);
        lemma_packed_byte(bits, 8 * index, count, i % 8);
        assert(8 * index + i % 8 == i);
        assert(bytes[(0 + i) / 8] == packed_byte(bits, 8 * index, count));
    }
    assert(read =~= bits);
}

/// A run of bits in a window of bytes.
#[derive(Debug)]
pub struct Bitmap {
    buffer: Buffer,
    offset: usize,
    len: usize,
}

impl View for Bitmap {
    type V = Seq<bool>;

    closed spec fn view(&self) -> Seq<bool> {
        bits_of(self.buffer@, self.offset as int, self.len as int)
    }
}

/// How many of a list of bits are unset.
pub open spec fn unset(bits: Seq<bool>) -> nat
    decreases bits.len(),
{
    if bits.len() == 0 {
        0
    } else if bits.last() {
        unset(bits.drop_last())
    } else {
        unset(bits.drop_last()) + 1
    }
}

/// There are no more unset bits than bits.
pub proof fn lemma_unset(bits: Seq<bool>)
    ensures
        unset(bits) <= bits.len(),
        unset(bits) == 0 <==> (forall|i: int| 0 <= i < bits.len() ==> bits[i]),
    decreases bits.len(),
{
    if bits.len() > 0 {
        let rest = bits.drop_last();
        lemma_unset(rest);
        if unset(bits) == 0 {
            assert forall|i: int| 0 <= i < bits.len() implies bits[i] by {
                if i < rest.len() {
                    assert(rest[i] == bits[i]);
                }
            }
        }
        if forall|i: int| 0 <= i < bits.len() ==> bits[i] {
            assert(bits[bits.len() - 1]);
            assert forall|i: int| 0 <= i < rest.len() implies rest[i] by {
                assert(bits[i]);
            }
        }
    }
}

impl Bitmap {
    #[verifier::type_invariant]
    closed spec fn inside(self) -> bool {
        self.offset + self.len <= 8 * self.buffer@.len()
    }

    /// The `len` bits of `buffer` from bit `offset` on.
    pub fn try_new(buffer: Buffer, offset: usize, len: usize) -> (r: Result<Bitmap, DataError>)
        ensures
            match r {
                Ok(b) => offset + len <= 8 * buffer@.len() && b@ == bits_of(buffer@, offset as int, len as int),
                Err(e) => offset + len > 8 * buffer@.len() && e@ == (DataErrorModel::BitmapOutOfBounds {
                    offset,
                    len,
                    available: buffer@.len() as usize,
                }),
            },
    {
        let available: usize = buffer.len();
        if offset as u128 + len as u128 > available as u128 * 8 {
            return Err(DataError::BitmapOutOfBounds { offset, len, available });
        }
        Ok(Bitmap { buffer, offset, len })
    }

    /// Packs a list of bits.
    pub fn from_bools(bits: &[bool]) -> (r: Bitmap)
        ensures
            r@ == bits@,
            r.byte_view() == packed(bits@),
            r.bit_start() == 0,
    {
        let count: usize = crate::ipc::layout::validity_byte_len(bits.len());
        let mut bytes: Vec<u8> = Vec::with_capacity(count);
        let mut i: usize = 0;
        while i < count
            invariant
                0 <= i <= count,
                count == bytes_for_bits(bits@.len() as int),
                bytes@.len() == i,
                forall|k: int| 0 <= k < i ==> bytes@[k] == packed(bits@)[k],
            decreases count - i,
        {
            assert(bits.len() == bits@.len());
            let left: usize = bits.len() - 8 * i;
            let n: usize = if left >= 8 {
                8
            } else {
                left
            };
            let mut byte: u8 = 0;
            let mut j: usize = 0;
            while j < n
                invariant
                    0 <= j <= n <= 8,
                    n == bits_in_byte(bits@.len() as int, i as int),
                    8 * i + n <= bits@.len(),
                    byte == packed_byte(bits@, 8 * i, j as nat),
                decreases n - j,
            {
                assert(bits.len() == bits@.len());
                if bits[8 * i + j] {
                    byte = byte | (1u8 << (j as u8));
                }
                j = j + 1;
            }
            bytes.push(byte);
            i = i + 1;
        }
        proof {
            law_packed_bits_read_back(bits@);
            assert(bytes@ =~= packed(bits@));
        }
        let r = Bitmap { buffer: Buffer::from_vec(bytes), offset: 0, len: bits.len() };
        assert(r.byte_view() =~= packed(bits@));
        r
    }

    /// The bytes the bits lie in.
    pub closed spec fn byte_view(&self) -> Seq<u8> {
        self.buffer@
    }

    /// The bit at which the run starts.
    pub closed spec fn bit_start(&self) -> nat {
        self.offset as nat
    }

    /// The bits are those of the bytes, from the start on.
    pub fn buffer(&self) -> (r: &Buffer)
        ensures
            r@ == self.byte_view(),
            self@ == bits_of(r@, self.bit_start() as int, self@.len() as int),
            self.bit_start() + self@.len() <= 8 * r@.len(),
    {
        proof {
            use_type_invariant(self);
        }
        &self.buffer
    }

    /// The bit of the buffer at which the run starts.
    pub fn bit_offset(&self) -> (r: usize)
        ensures
            r == self.bit_start(),
    {
        self.offset
    }

    /// Number of bits.
    pub fn len(&self) -> (r: usize)
        ensures
            r == self@.len(),
    {
        self.len
    }

    /// Whether there are no bits.
    pub fn is_empty(&self) -> (r: bool)
        ensures
            r == (self@.len() == 0),
    {
        self.len == 0
    }

    /// The bit at `index`.
    pub fn bit(&self, index: usize) -> (r: bool)
        requires
            index < self@.len(),
        ensures
            r == self@[index as int],
    {
        proof {
            use_type_invariant(self);
        }
        let bytes = self.buffer.as_slice();
        let (byte, shift) = split_index(self.offset, index);
        assert(bytes.len() == bytes@.len());
        (bytes[byte] >> shift) & 1u8 == 1u8
    }

    /// The bit at `index`, or `None` past the end.
    pub fn get(&self, index: usize) -> (r: Option<bool>)
        ensures
            r == if index < self@.len() {
                Some(self@[index as int])
            } else {
                None
            },
    {
        if index < self.len {
            Some(self.bit(index))
        } else {
            None
        }
    }

    /// How many bits are unset.
    pub fn count_unset(&self) -> (r: usize)
        ensures
            r == unset(self@),
    {
        let mut count: usize = 0;
        let mut i: usize = 0;
        while i < self.len
            invariant
                0 <= i <= self.len == self@.len(),
                count == unset(self@.take(i as int)),
                count <= i,
            decreases self.len - i,
        {
            assert(self@.take(i + 1).drop_last() =~= self@.take(i as int));
            if !self.bit(i) {
                count = count + 1;
            }
            i = i + 1;
        }
        assert(self@.take(i as int) =~= self@);
        count
    }

    /// The run of `len` bits at `offset`, both cut to what there is.
    pub fn slice(&self, offset: usize, len: usize) -> (r: Bitmap)
        ensures
            r@ == windowed(self@, offset as int, len as int),
    {
        proof {
            use_type_invariant(self);
        }
        let (start, count) = clamp_window(self.len, offset, len);
        // A start that no `usize` holds is brought down by whole bytes first.
        let skip: usize = self.offset / 8;
        let inner: usize = self.offset % 8;
        let tail: usize = self.buffer.len() - skip;
        let buffer = self.buffer.slice(skip, tail);
        proof {
            let b = self.buffer@;
            assert(buffer@ =~= b.subrange(skip as int, b.len() as int));
        }
        let more: usize = start / 8;
        let rest: usize = start % 8;
        let at: usize = inner + rest;
        let len_now: usize = buffer.len();
        let narrowed = buffer.slice(more, len_now);
        proof {
            assert(narrowed@ =~= buffer@.subrange(more as int, buffer@.len() as int));
        }
        let r = Bitmap { buffer: narrowed, offset: at, len: count };
        proof {
            let want = windowed(self@, offset as int, len as int);
            assert forall|i: int| 0 <= i < count implies r@[i] == want[i] by {
                let p = self.offset + start + i;
                let q = at + i;
                assert(p == 8 * (skip + more) + q);
                assert(p / 8 == skip + more + q / 8);
                assert(p % 8 == q % 8);
                assert(narrowed@[q / 8] == self.buffer@[p / 8]);
                assert(want[i] == self@[start + i]);
            }
            assert(r@ =~= want);
        }
        r
    }

    /// The bits as a list.
    pub fn to_vec(&self) -> (r: Vec<bool>)
        ensures
            r@ == self@,
    {
        let mut out: Vec<bool> = Vec::with_capacity(self.len);
        let mut i: usize = 0;
        while i < self.len
            invariant
                0 <= i <= self.len == self@.len(),
                out@.len() == i,
                forall|k: int| 0 <= k < i ==> out@[k] == self@[k],
            decreases self.len - i,
        {
            out.push(self.bit(i));
            i = i + 1;
        }
        assert(out@ =~= self@);
        out
    }

    /// The same bits, packed from the first bit of the first byte on, the last
    /// byte filled with zeros.
    pub fn to_canonical(&self) -> (r: Bitmap)
        ensures
            r@ == self@,
            r.byte_view() == packed(self@),
            r.bit_start() == 0,
    {
        let bits = self.to_vec();
        Bitmap::from_bools(bits.as_slice())
    }

    /// Another handle to the run.
    pub fn share(&self) -> (r: Bitmap)
        ensures
            r@ == self@,
            r.byte_view() == self.byte_view(),
            r.bit_start() == self.bit_start(),
    {
        proof {
            use_type_invariant(self);
        }
        Bitmap { buffer: self.buffer.share(), offset: self.offset, len: self.len }
    }
}

impl Clone for Bitmap {
    fn clone(&self) -> (r: Self)
        ensures
            r@ == self@,
    {
        self.share()
    }
}

/// The byte and the bit within it that a start and an index lead to.
fn split_index(offset: usize, index: usize) -> (r: (usize, u8))
    ensures
        r.0 == (offset + index) / 8,
        r.1 == (offset + index) % 8,
        r.1 < 8,
{
    let low: usize = offset % 8 + index % 8;
    (offset / 8 + index / 8 + low / 8, (low % 8) as u8)
}

/// A window of offsets.
#[derive(Debug)]
pub struct Offsets {
    data: Arc<Vec<i64>>,
    start: usize,
    len: usize,
}

impl View for Offsets {
    type V = Seq<i64>;

    closed spec fn view(&self) -> Seq<i64> {
        self.data@.subrange(self.start as int, self.start + self.len)
    }
}

impl Offsets {
    #[verifier::type_invariant]
    closed spec fn inside(self) -> bool {
        self.start + self.len <= self.data@.len()
    }

    /// The offsets of a vector, taken over.
    pub fn from_vec(offsets: Vec<i64>) -> (r: Offsets)
        ensures
            r@ == offsets@,
    {
        let len: usize = offsets.len();
        let r = Offsets { data: Arc::new(offsets), start: 0, len };
        assert(r@ =~= offsets@);
        r
    }

    /// Number of entries.
    pub fn len(&self) -> (r: usize)
        ensures
            r == self@.len(),
    {
        proof {
            use_type_invariant(self);
        }
        self.len
    }

    /// The entry at `index`.
    pub fn at(&self, index: usize) -> (r: i64)
        requires
            index < self@.len(),
        ensures
            r == self@[index as int],
    {
        proof {
            use_type_invariant(self);
        }
        assert(self.data.len() == self.data@.len());
        self.data[self.start + index]
    }

    /// The window of `len` entries at `offset`.
    pub fn slice(&self, offset: usize, len: usize) -> (r: Offsets)
        requires
            offset + len <= self@.len(),
        ensures
            r@ == self@.subrange(offset as int, offset + len),
    {
        proof {
            use_type_invariant(self);
        }
        assert(self.data.len() == self.data@.len());
        let r = Offsets { data: share(&self.data), start: self.start + offset, len };
        assert(r@ =~= self@.subrange(offset as int, offset + len));
        r
    }

    /// Another handle to the window.
    pub fn share(&self) -> (r: Offsets)
        ensures
            r@ == self@,
    {
        proof {
            use_type_invariant(self);
        }
        Offsets { data: share(&self.data), start: self.start, len: self.len }
    }
}

impl Clone for Offsets {
    fn clone(&self) -> (r: Self)
        ensures
            r@ == self@,
    {
        self.share()
    }
}

} // verus!
