//! Little-endian integers: what bytes they are, and which integer bytes are.
use vstd::prelude::*;
use vstd::bytes::*;
use vstd::slice::slice_subrange;

verus! {

pub open spec fn le_u16(x: u16) -> Seq<u8> {
    spec_u16_to_le_bytes(x)
}

pub open spec fn le_u32(x: u32) -> Seq<u8> {
    spec_u32_to_le_bytes(x)
}

pub open spec fn le_u64(x: u64) -> Seq<u8> {
    spec_u64_to_le_bytes(x)
}

pub open spec fn le_i16(x: i16) -> Seq<u8> {
    spec_u16_to_le_bytes(x as u16)
}

pub open spec fn le_i32(x: i32) -> Seq<u8> {
    spec_u32_to_le_bytes(x as u32)
}

pub open spec fn le_i64(x: i64) -> Seq<u8> {
    spec_u64_to_le_bytes(x as u64)
}

pub open spec fn of_u16(s: Seq<u8>) -> u16 {
    spec_u16_from_le_bytes(s)
}

pub open spec fn of_u32(s: Seq<u8>) -> u32 {
    spec_u32_from_le_bytes(s)
}

pub open spec fn of_u64(s: Seq<u8>) -> u64 {
    spec_u64_from_le_bytes(s)
}

pub open spec fn of_i16(s: Seq<u8>) -> i16 {
    spec_u16_from_le_bytes(s) as i16
}

pub open spec fn of_i32(s: Seq<u8>) -> i32 {
    spec_u32_from_le_bytes(s) as i32
}

pub open spec fn of_i64(s: Seq<u8>) -> i64 {
    spec_u64_from_le_bytes(s) as i64
}

/// Reading the bytes of a 16-bit integer gives it back.
pub broadcast proof fn lemma_le_u16(x: u16)
    ensures
        (#[trigger] le_u16(x)).len() == 2,
        of_u16(le_u16(x)) == x,
{
    lemma_auto_spec_u16_to_from_le_bytes();
    assert(spec_u16_to_le_bytes(x).len() == 2);
}

/// Reading the bytes of a 32-bit integer gives it back.
pub broadcast proof fn lemma_le_u32(x: u32)
    ensures
        (#[trigger] le_u32(x)).len() == 4,
        of_u32(le_u32(x)) == x,
{
    lemma_auto_spec_u32_to_from_le_bytes();
    assert(spec_u32_to_le_bytes(x).len() == 4);
}

/// Reading the bytes of a 64-bit integer gives it back.
pub broadcast proof fn lemma_le_u64(x: u64)
    ensures
        (#[trigger] le_u64(x)).len() == 8,
        of_u64(le_u64(x)) == x,
{
    lemma_auto_spec_u64_to_from_le_bytes();
}

/// Reading the bytes of a signed 16-bit integer gives it back.
pub broadcast proof fn lemma_le_i16(x: i16)
    ensures
        (#[trigger] le_i16(x)).len() == 2,
        of_i16(le_i16(x)) == x,
{
    lemma_auto_spec_u16_to_from_le_bytes();
    assert(spec_u16_to_le_bytes(x as u16).len() == 2);
    assert((x as u16) as i16 == x) by (bit_vector);
}

/// Reading the bytes of a signed 32-bit integer gives it back.
pub broadcast proof fn lemma_le_i32(x: i32)
    ensures
        (#[trigger] le_i32(x)).len() == 4,
        of_i32(le_i32(x)) == x,
{
    lemma_auto_spec_u32_to_from_le_bytes();
    assert(spec_u32_to_le_bytes(x as u32).len() == 4);
    assert((x as u32) as i32 == x) by (bit_vector);
}

/// Reading the bytes of a signed 64-bit integer gives it back.
pub broadcast proof fn lemma_le_i64(x: i64)
    ensures
        (#[trigger] le_i64(x)).len() == 8,
        of_i64(le_i64(x)) == x,
{
    lemma_auto_spec_u64_to_from_le_bytes();
    assert((x as u64) as i64 == x) by (bit_vector);
}

pub broadcast group group_le {
    lemma_le_u16,
    lemma_le_u32,
    lemma_le_u64,
    lemma_le_i16,
    lemma_le_i32,
    lemma_le_i64,
}

/// The 16-bit integer at `at`.
pub fn get_u16(bytes: &[u8], at: usize) -> (r: u16)
    requires
        at + 2 <= bytes@.len(),
    ensures
        r == of_u16(bytes@.subrange(at as int, at + 2)),
{
    assert(bytes.len() == bytes@.len());
    u16_from_le_bytes(slice_subrange(bytes, at, at + 2))
}

/// The 32-bit integer at `at`.
pub fn get_u32(bytes: &[u8], at: usize) -> (r: u32)
    requires
        at + 4 <= bytes@.len(),
    ensures
        r == of_u32(bytes@.subrange(at as int, at + 4)),
{
    assert(bytes.len() == bytes@.len());
    u32_from_le_bytes(slice_subrange(bytes, at, at + 4))
}

/// The 64-bit integer at `at`.
pub fn get_u64(bytes: &[u8], at: usize) -> (r: u64)
    requires
        at + 8 <= bytes@.len(),
    ensures
        r == of_u64(bytes@.subrange(at as int, at + 8)),
{
    assert(bytes.len() == bytes@.len());
    u64_from_le_bytes(slice_subrange(bytes, at, at + 8))
}

/// Appends bytes.
pub fn extend(out: &mut Vec<u8>, bytes: &[u8])
    ensures
        final(out)@ == old(out)@ + bytes@,
{
    out.extend_from_slice(bytes);
    assert(out@ =~= old(out)@ + bytes@);
}

/// The bytes, as a vector of their own.
pub fn copy_bytes(bytes: &[u8]) -> (r: Vec<u8>)
    ensures
        r@ == bytes@,
{
    let mut out: Vec<u8> = Vec::with_capacity(bytes.len());
    out.extend_from_slice(bytes);
    assert(out@ =~= bytes@);
    out
}

/// `count` zero bytes.
pub open spec fn zeros(count: nat) -> Seq<u8> {
    Seq::new(count, |i: int| 0u8)
}

/// Appends `count` zero bytes.
pub fn extend_zeros(out: &mut Vec<u8>, count: usize)
    ensures
        final(out)@ == old(out)@ + zeros(count as nat),
{
    let mut i: usize = 0;
    while i < count
        invariant
            0 <= i <= count,
            out@ == old(out)@ + zeros(i as nat),
        decreases count - i,
    {
        out.push(0u8);
        i = i + 1;
        assert(out@ =~= old(out)@ + zeros(i as nat));
    }
    assert(out@ =~= old(out)@ + zeros(count as nat));
}

/// How many bytes bring `n` up to a multiple of `alignment`.
pub open spec fn pad_to(n: int, alignment: int) -> int {
    if n % alignment == 0 {
        0
    } else {
        alignment - n % alignment
    }
}

/// `n` brought up to a multiple of `alignment`.
pub open spec fn padded(n: int, alignment: int) -> int {
    n + pad_to(n, alignment)
}

/// The padded length is the next multiple.
pub proof fn lemma_padded(n: int, alignment: int)
    requires
        0 <= n,
        0 < alignment,
    ensures
        0 <= pad_to(n, alignment) < alignment,
        padded(n, alignment) % alignment == 0,
        n <= padded(n, alignment) < n + alignment,
{
    vstd::arithmetic::div_mod::lemma_mod_bound(n, alignment);
    let q = n / alignment;
    vstd::arithmetic::div_mod::lemma_fundamental_div_mod(n, alignment);
    if n % alignment != 0 {
        assert(padded(n, alignment) == alignment * (q + 1)) by (nonlinear_arith)
            requires
                padded(n, alignment) == n + alignment - n % alignment,
                n == alignment * q + n % alignment,
        ;
        vstd::arithmetic::div_mod::lemma_mod_multiples_basic(q + 1, alignment);
        assert((q + 1) * alignment == alignment * (q + 1)) by (nonlinear_arith);
    }
}

} // verus!
