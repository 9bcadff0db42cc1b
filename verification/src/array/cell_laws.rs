//! What columns hold, said of their buffers byte by byte and bit by bit.
use vstd::prelude::*;
use vstd::bytes::{spec_u16_to_le_bytes, spec_u32_to_le_bytes, spec_u64_to_le_bytes};
use crate::array::model::{ArrayV, BodyV, Cell};
use crate::array::native::{ArrowNativeType, F16, F32, F64};
use crate::buffer::{bit_of, bits_of, packed, unset, windowed};
use crate::datatype::TypeModel;

verus! {

/// Bit `k` of a byte, counted from the least significant.
pub open spec fn bit(byte: u8, k: int) -> bool {
    if k == 0 {
        byte % 2 == 1
    } else if k == 1 {
        byte / 2 % 2 == 1
    } else if k == 2 {
        byte / 4 % 2 == 1
    } else if k == 3 {
        byte / 8 % 2 == 1
    } else if k == 4 {
        byte / 16 % 2 == 1
    } else if k == 5 {
        byte / 32 % 2 == 1
    } else if k == 6 {
        byte / 64 % 2 == 1
    } else {
        byte / 128 == 1
    }
}

/// Bits are counted from the least significant.
proof fn lemma_bit(byte: u8, k: int)
    requires
        0 <= k < 8,
    ensures
        bit_of(byte, k) == bit(byte, k),
{
    assert(((byte >> 0u8) & 1u8 == 1u8 <==> byte % 2u8 == 1u8) && ((byte >> 1u8) & 1u8 == 1u8 <==> byte / 2u8 % 2u8 == 1u8)
        && ((byte >> 2u8) & 1u8 == 1u8 <==> byte / 4u8 % 2u8 == 1u8) && ((byte >> 3u8) & 1u8 == 1u8 <==> byte / 8u8 % 2u8
        == 1u8) && ((byte >> 4u8) & 1u8 == 1u8 <==> byte / 16u8 % 2u8 == 1u8) && ((byte >> 5u8) & 1u8 == 1u8 <==> byte
        / 32u8 % 2u8 == 1u8) && ((byte >> 6u8) & 1u8 == 1u8 <==> byte / 64u8 % 2u8 == 1u8) && ((byte >> 7u8) & 1u8 == 1u8
        <==> byte / 128u8 == 1u8)) by (bit_vector);
}

/// Bit `i` of bytes is bit `i % 8` of byte `i / 8`, the least significant first,
/// counted from the offset.
pub proof fn law_bits_are_read_in_order(bytes: Seq<u8>, offset: int, len: int, i: int)
    requires
        0 <= offset,
        0 <= i < len,
    ensures
        bits_of(bytes, offset, len).len() == len,
        bits_of(bytes, offset, len)[i] == bit(bytes[(offset + i) / 8], (offset + i) % 8),
{
    lemma_bit(bytes[(offset + i) / 8], (offset + i) % 8);
}

/// Packed bits stand in order, eight to a byte, the least significant first.
pub proof fn law_bits_are_packed_in_order(bits: Seq<bool>, i: int)
    requires
        0 <= i < bits.len(),
    ensures
        packed(bits).len() == (bits.len() + 7) / 8,
        bit(packed(bits)[i / 8], i % 8) == bits[i],
{
    crate::buffer::law_packed_bits_read_back(bits);
    law_bits_are_read_in_order(packed(bits), 0, bits.len() as int, i);
}

/// What is counted as unset are the bits that are not set.
pub proof fn law_unset_bits_are_counted(bits: Seq<bool>)
    ensures
        unset(bits) == bits.filter(|b: bool| !b).len(),
    decreases bits.len(),
{
    reveal(Seq::filter);
    if bits.len() > 0 {
        law_unset_bits_are_counted(bits.drop_last());
    }
}

/// A window starts where it is asked to and holds what it is asked for, as far as
/// there is anything.
pub proof fn law_windows_are_cut<T>(s: Seq<T>, offset: int, len: int, i: int)
    requires
        0 <= offset,
        0 <= i < len,
    ensures
        offset + i < s.len() ==> i < windowed(s, offset, len).len() && windowed(s, offset, len)[i] == s[offset + i],
        i < windowed(s, offset, len).len() ==> offset + i < s.len(),
{
}

/// The values of `i8` are those of Int8: 1 byte each, the least significant first.
pub proof fn law_i8_bytes(v: i8)
    ensures
        <i8 as ArrowNativeType>::type_model() == TypeModel::Int8,
        <i8 as ArrowNativeType>::width() == 1,
        v.le_bytes() == seq![v as u8],
        <i8 as ArrowNativeType>::of_le_bytes(seq![v as u8]) == v,
{
    i8::lemma_native(v);
}

/// The values of `i16` are those of Int16: 2 bytes each, the least significant first.
pub proof fn law_i16_bytes(v: i16)
    ensures
        <i16 as ArrowNativeType>::type_model() == TypeModel::Int16,
        <i16 as ArrowNativeType>::width() == 2,
        v.le_bytes() == spec_u16_to_le_bytes(v as u16),
        <i16 as ArrowNativeType>::of_le_bytes(spec_u16_to_le_bytes(v as u16)) == v,
{
    i16::lemma_native(v);
}

/// The values of `i32` are those of Int32: 4 bytes each, the least significant first.
pub proof fn law_i32_bytes(v: i32)
    ensures
        <i32 as ArrowNativeType>::type_model() == TypeModel::Int32,
        <i32 as ArrowNativeType>::width() == 4,
        v.le_bytes() == spec_u32_to_le_bytes(v as u32),
        <i32 as ArrowNativeType>::of_le_bytes(spec_u32_to_le_bytes(v as u32)) == v,
{
    i32::lemma_native(v);
}

/// The values of `i64` are those of Int64: 8 bytes each, the least significant first.
pub proof fn law_i64_bytes(v: i64)
    ensures
        <i64 as ArrowNativeType>::type_model() == TypeModel::Int64,
        <i64 as ArrowNativeType>::width() == 8,
        v.le_bytes() == spec_u64_to_le_bytes(v as u64),
        <i64 as ArrowNativeType>::of_le_bytes(spec_u64_to_le_bytes(v as u64)) == v,
{
    i64::lemma_native(v);
}

/// The values of `u8` are those of UInt8: 1 byte each, the least significant first.
pub proof fn law_u8_bytes(v: u8)
    ensures
        <u8 as ArrowNativeType>::type_model() == TypeModel::UInt8,
        <u8 as ArrowNativeType>::width() == 1,
        v.le_bytes() == seq![v],
        <u8 as ArrowNativeType>::of_le_bytes(seq![v]) == v,
{
    u8::lemma_native(v);
}

/// The values of `u16` are those of UInt16: 2 bytes each, the least significant first.
pub proof fn law_u16_bytes(v: u16)
    ensures
        <u16 as ArrowNativeType>::type_model() == TypeModel::UInt16,
        <u16 as ArrowNativeType>::width() == 2,
        v.le_bytes() == spec_u16_to_le_bytes(v),
        <u16 as ArrowNativeType>::of_le_bytes(spec_u16_to_le_bytes(v)) == v,
{
    u16::lemma_native(v);
}

/// The values of `u32` are those of UInt32: 4 bytes each, the least significant first.
pub proof fn law_u32_bytes(v: u32)
    ensures
        <u32 as ArrowNativeType>::type_model() == TypeModel::UInt32,
        <u32 as ArrowNativeType>::width() == 4,
        v.le_bytes() == spec_u32_to_le_bytes(v),
        <u32 as ArrowNativeType>::of_le_bytes(spec_u32_to_le_bytes(v)) == v,
{
    u32::lemma_native(v);
}

/// The values of `u64` are those of UInt64: 8 bytes each, the least significant first.
pub proof fn law_u64_bytes(v: u64)
    ensures
        <u64 as ArrowNativeType>::type_model() == TypeModel::UInt64,
        <u64 as ArrowNativeType>::width() == 8,
        v.le_bytes() == spec_u64_to_le_bytes(v),
        <u64 as ArrowNativeType>::of_le_bytes(spec_u64_to_le_bytes(v)) == v,
{
    u64::lemma_native(v);
}

/// The values of `F16` are those of Float16: 2 bytes each, the least significant first.
pub proof fn law_f16_bytes(v: F16)
    ensures
        <F16 as ArrowNativeType>::type_model() == TypeModel::Float16,
        <F16 as ArrowNativeType>::width() == 2,
        v.le_bytes() == spec_u16_to_le_bytes(v.bits),
        <F16 as ArrowNativeType>::of_le_bytes(spec_u16_to_le_bytes(v.bits)) == v,
{
    F16::lemma_native(v);
}

/// The values of `F32` are those of Float32: 4 bytes each, the least significant first.
pub proof fn law_f32_bytes(v: F32)
    ensures
        <F32 as ArrowNativeType>::type_model() == TypeModel::Float32,
        <F32 as ArrowNativeType>::width() == 4,
        v.le_bytes() == spec_u32_to_le_bytes(v.bits),
        <F32 as ArrowNativeType>::of_le_bytes(spec_u32_to_le_bytes(v.bits)) == v,
{
    F32::lemma_native(v);
}

/// The values of `F64` are those of Float64: 8 bytes each, the least significant first.
pub proof fn law_f64_bytes(v: F64)
    ensures
        <F64 as ArrowNativeType>::type_model() == TypeModel::Float64,
        <F64 as ArrowNativeType>::width() == 8,
        v.le_bytes() == spec_u64_to_le_bytes(v.bits),
        <F64 as ArrowNativeType>::of_le_bytes(spec_u64_to_le_bytes(v.bits)) == v,
{
    F64::lemma_native(v);
}

/// The bytes of a slot of a type whose slots all have as many.
pub open spec fn slot_bytes(t: TypeModel) -> int {
    match t {
        TypeModel::Int8 | TypeModel::UInt8 => 1,
        TypeModel::Int16 | TypeModel::UInt16 | TypeModel::Float16 => 2,
        TypeModel::Int32 | TypeModel::UInt32 | TypeModel::Float32 => 4,
        TypeModel::Int64 | TypeModel::UInt64 | TypeModel::Float64 | TypeModel::Timestamp | TypeModel::Duration => 8,
        TypeModel::FixedSizeBinary(w) => w as int,
        _ => 0,
    }
}

/// Whether a slot is marked null, or its type holds nothing.
pub open spec fn is_nothing(a: ArrayV, i: int) -> bool {
    a.ty is Null || (a.validity matches Some(v) && !v[i])
}

/// Whether a cell is what slot `i` of a column's buffers holds.
pub open spec fn held(cell: Cell, a: ArrayV, i: int) -> bool {
    if is_nothing(a, i) {
        cell is Null
    } else {
        match a.body {
            BodyV::Null => false,
            BodyV::Bits(bits) => a.ty is Bool && cell == Cell::Bool(bits[i]),
            BodyV::Fixed(bytes) => {
                let w = slot_bytes(a.ty);
                &&& w > 0
                &&& cell == Cell::Bytes(bytes.subrange(i * w, i * w + w))
            },
            BodyV::Var { offsets, values } => cell == Cell::Bytes(
                values.subrange(offsets[i] as int, offsets[i + 1] as int),
            ),
            BodyV::List { offsets, child } => cell matches Cell::Nested(items) && items.len() == offsets[i + 1]
                - offsets[i] && forall|j: int|
                #![trigger items[j]]
                0 <= j < items.len() ==> items[j] == child.cell(offsets[i] + j),
            BodyV::FixedList(child) => a.ty matches TypeModel::FixedSizeList(_, n) && cell matches Cell::Nested(items)
                && items.len() == n && forall|j: int|
                #![trigger items[j]]
                0 <= j < items.len() ==> items[j] == child.cell(i * n + j),
            BodyV::Struct(columns) => cell matches Cell::Nested(items) && items.len() == columns.len() && forall|k: int|
                #![trigger items[k]]
                0 <= k < items.len() ==> items[k] == columns[k].cell(i),
        }
    }
}

/// A cell is what its slot holds: a bit, as many bytes as the type says, the bytes
/// or the child's slots between two offsets, a run of the child's slots, or a slot
/// of each column; nothing where the slot is null.
pub proof fn law_cells_are_held(a: ArrayV, i: int)
    requires
        a.wf(),
        0 <= i < a.len,
    ensures
        held(a.cell(i), a, i),
{
}

/// Whether the slots that hold nothing are counted.
pub proof fn law_nulls_are_counted(a: ArrayV)
    requires
        a.wf(),
    ensures
        a.nulls() == Seq::new(a.len, |i: int| is_nothing(a, i)).filter(|b: bool| b).len(),
{
    let marks = Seq::new(a.len, |i: int| is_nothing(a, i));
    if a.ty is Null {
        lemma_all_counted(marks);
    } else {
        match a.validity {
            None => {
                lemma_none_counted(marks);
            },
            Some(v) => {
                lemma_flipped(v, marks);
            },
        }
    }
}

proof fn lemma_all_counted(marks: Seq<bool>)
    requires
        forall|i: int| #![trigger marks[i]] 0 <= i < marks.len() ==> marks[i],
    ensures
        marks.filter(|b: bool| b).len() == marks.len(),
    decreases marks.len(),
{
    reveal(Seq::filter);
    if marks.len() > 0 {
        assert(marks.last());
        lemma_all_counted(marks.drop_last());
    }
}

proof fn lemma_none_counted(marks: Seq<bool>)
    requires
        forall|i: int| #![trigger marks[i]] 0 <= i < marks.len() ==> !marks[i],
    ensures
        marks.filter(|b: bool| b).len() == 0,
    decreases marks.len(),
{
    reveal(Seq::filter);
    if marks.len() > 0 {
        assert(!marks.last());
        lemma_none_counted(marks.drop_last());
    }
}

proof fn lemma_flipped(bits: Seq<bool>, marks: Seq<bool>)
    requires
        bits.len() == marks.len(),
        forall|i: int| #![trigger marks[i]] 0 <= i < marks.len() ==> marks[i] == !bits[i],
    ensures
        unset(bits) == marks.filter(|b: bool| b).len(),
    decreases marks.len(),
{
    reveal(Seq::filter);
    if marks.len() > 0 {
        assert(marks.last() == !bits.last());
        assert forall|i: int| #![trigger marks.drop_last()[i]] 0 <= i < marks.len() - 1 implies marks.drop_last()[i]
            == !bits.drop_last()[i] by {
            assert(marks[i] == !bits[i]);
        }
        lemma_flipped(bits.drop_last(), marks.drop_last());
    }
}

} // verus!
