//! The values of primitive columns, and the bytes they are.
use vstd::prelude::*;
use vstd::bytes::{u16_to_le_bytes, u32_to_le_bytes, u64_to_le_bytes};
use crate::datatype::{primitive_width_model, DataType, TypeModel};
use crate::le::{
    extend, get_u16, get_u32, get_u64, le_i16, le_i32, le_i64, le_u16, le_u32, le_u64, of_i16, of_i32, of_i64, of_u16,
    of_u32, of_u64,
};
use crate::sealed::Sealed;

verus! {

broadcast use crate::le::group_le;

/// A half-precision floating-point number, as its bits.
#[derive(Debug, Clone, Copy, PartialEq, Eq, Structural)]
pub struct F16 {
    /// The bits.
    pub bits: u16,
}

/// A single-precision floating-point number, as its bits.
#[derive(Debug, Clone, Copy, PartialEq, Eq, Structural)]
pub struct F32 {
    /// The bits.
    pub bits: u32,
}

/// A double-precision floating-point number, as its bits.
#[derive(Debug, Clone, Copy, PartialEq, Eq, Structural)]
pub struct F64 {
    /// The bits.
    pub bits: u64,
}

impl View for F16 {
    type V = u16;

    /// The bits.
    open spec fn view(&self) -> u16 {
        self.bits
    }
}

impl F16 {
    /// The number that bits are.
    #[must_use]
    pub fn from_bits(bits: u16) -> (r: F16)
        ensures
            r@ == bits,
    {
        F16 { bits }
    }

    /// The bits.
    #[must_use]
    pub fn to_bits(self) -> (r: u16)
        ensures
            r == self@,
    {
        self.bits
    }
}

impl View for F32 {
    type V = u32;

    /// The bits.
    open spec fn view(&self) -> u32 {
        self.bits
    }
}

impl F32 {
    /// The number that bits are.
    #[must_use]
    pub fn from_bits(bits: u32) -> (r: F32)
        ensures
            r@ == bits,
    {
        F32 { bits }
    }

    /// The bits.
    #[must_use]
    pub fn to_bits(self) -> (r: u32)
        ensures
            r == self@,
    {
        self.bits
    }
}

impl View for F64 {
    type V = u64;

    /// The bits.
    open spec fn view(&self) -> u64 {
        self.bits
    }
}

impl F64 {
    /// The number that bits are.
    #[must_use]
    pub fn from_bits(bits: u64) -> (r: F64)
        ensures
            r@ == bits,
    {
        F64 { bits }
    }

    /// The bits.
    #[must_use]
    pub fn to_bits(self) -> (r: u64)
        ensures
            r == self@,
    {
        self.bits
    }
}

/// A value of a primitive column: a type, and a byte form of that type's width.
pub trait ArrowNativeType: Sized + Copy + Sealed {
    /// The column type.
    spec fn type_model() -> TypeModel;

    /// The value's bytes.
    spec fn le_bytes(self) -> Seq<u8>;

    /// The value that bytes are.
    spec fn of_le_bytes(bytes: Seq<u8>) -> Self;

    /// The width of the bytes.
    spec fn width() -> nat;

    /// The type is primitive, of the width; a value's bytes are that value.
    proof fn lemma_native(v: Self)
        ensures
            primitive_width_model(Self::type_model()) == Some(Self::width()),
            0 < Self::width() <= 8,
            v.le_bytes().len() == Self::width(),
            Self::of_le_bytes(v.le_bytes()) == v,
    ;

    /// The column type.
    fn data_type() -> (r: DataType)
        ensures
            r@ == Self::type_model(),
    ;

    /// Appends the value's bytes.
    fn append_le(self, out: &mut Vec<u8>)
        ensures
            final(out)@ == old(out)@ + self.le_bytes(),
    ;

    /// The value whose bytes start at `at`.
    fn read_le(bytes: &[u8], at: usize) -> (r: Self)
        requires
            at + Self::width() <= bytes@.len(),
        ensures
            r == Self::of_le_bytes(bytes@.subrange(at as int, at + Self::width())),
    ;

    /// Zero, which stands under a null.
    spec fn zero_model() -> Self;

    /// Zero.
    fn zero() -> (r: Self)
        ensures
            r == Self::zero_model(),
    ;

    /// The byte width.
    fn byte_width() -> (r: usize)
        ensures
            r == Self::width(),
    ;
}

impl Sealed for i8 {

}

impl ArrowNativeType for i8 {
    open spec fn type_model() -> TypeModel {
        TypeModel::Int8
    }

    open spec fn le_bytes(self) -> Seq<u8> {
        seq![self as u8]
    }

    open spec fn of_le_bytes(bytes: Seq<u8>) -> Self {
        bytes[0] as i8
    }

    open spec fn zero_model() -> Self {
        0
    }

    open spec fn width() -> nat {
        1
    }

    proof fn lemma_native(v: Self) {
        assert((v as u8) as i8 == v) by (bit_vector);
    }

    fn data_type() -> (r: DataType) {
        DataType::Int8
    }

    fn append_le(self, out: &mut Vec<u8>) {
        out.push(self as u8);
        assert(out@ =~= old(out)@ + self.le_bytes());
    }

    fn read_le(bytes: &[u8], at: usize) -> (r: Self) {
        assert(bytes@.subrange(at as int, at + 1)[0] == bytes@[at as int]);
        bytes[at] as i8
    }

    fn zero() -> (r: Self) {
        0
    }

    fn byte_width() -> (r: usize) {
        1
    }
}

impl Sealed for i16 {

}

impl ArrowNativeType for i16 {
    open spec fn type_model() -> TypeModel {
        TypeModel::Int16
    }

    open spec fn le_bytes(self) -> Seq<u8> {
        le_i16(self)
    }

    open spec fn of_le_bytes(bytes: Seq<u8>) -> Self {
        of_i16(bytes)
    }

    open spec fn zero_model() -> Self {
        0
    }

    open spec fn width() -> nat {
        2
    }

    proof fn lemma_native(v: Self) {
    }

    fn data_type() -> (r: DataType) {
        DataType::Int16
    }

    fn append_le(self, out: &mut Vec<u8>) {
        let bytes = u16_to_le_bytes(self as u16);
        extend(out, bytes.as_slice());
    }

    fn read_le(bytes: &[u8], at: usize) -> (r: Self) {
        get_u16(bytes, at) as i16
    }

    fn zero() -> (r: Self) {
        0
    }

    fn byte_width() -> (r: usize) {
        2
    }
}

impl Sealed for i32 {

}

impl ArrowNativeType for i32 {
    open spec fn type_model() -> TypeModel {
        TypeModel::Int32
    }

    open spec fn le_bytes(self) -> Seq<u8> {
        le_i32(self)
    }

    open spec fn of_le_bytes(bytes: Seq<u8>) -> Self {
        of_i32(bytes)
    }

    open spec fn zero_model() -> Self {
        0
    }

    open spec fn width() -> nat {
        4
    }

    proof fn lemma_native(v: Self) {
    }

    fn data_type() -> (r: DataType) {
        DataType::Int32
    }

    fn append_le(self, out: &mut Vec<u8>) {
        let bytes = u32_to_le_bytes(self as u32);
        extend(out, bytes.as_slice());
    }

    fn read_le(bytes: &[u8], at: usize) -> (r: Self) {
        get_u32(bytes, at) as i32
    }

    fn zero() -> (r: Self) {
        0
    }

    fn byte_width() -> (r: usize) {
        4
    }
}

impl Sealed for i64 {

}

impl ArrowNativeType for i64 {
    open spec fn type_model() -> TypeModel {
        TypeModel::Int64
    }

    open spec fn le_bytes(self) -> Seq<u8> {
        le_i64(self)
    }

    open spec fn of_le_bytes(bytes: Seq<u8>) -> Self {
        of_i64(bytes)
    }

    open spec fn zero_model() -> Self {
        0
    }

    open spec fn width() -> nat {
        8
    }

    proof fn lemma_native(v: Self) {
    }

    fn data_type() -> (r: DataType) {
        DataType::Int64
    }

    fn append_le(self, out: &mut Vec<u8>) {
        let bytes = u64_to_le_bytes(self as u64);
        extend(out, bytes.as_slice());
    }

    fn read_le(bytes: &[u8], at: usize) -> (r: Self) {
        get_u64(bytes, at) as i64
    }

    fn zero() -> (r: Self) {
        0
    }

    fn byte_width() -> (r: usize) {
        8
    }
}

impl Sealed for u8 {

}

impl ArrowNativeType for u8 {
    open spec fn type_model() -> TypeModel {
        TypeModel::UInt8
    }

    open spec fn le_bytes(self) -> Seq<u8> {
        seq![self]
    }

    open spec fn of_le_bytes(bytes: Seq<u8>) -> Self {
        bytes[0]
    }

    open spec fn zero_model() -> Self {
        0
    }

    open spec fn width() -> nat {
        1
    }

    proof fn lemma_native(v: Self) {
    }

    fn data_type() -> (r: DataType) {
        DataType::UInt8
    }

    fn append_le(self, out: &mut Vec<u8>) {
        out.push(self);
        assert(out@ =~= old(out)@ + self.le_bytes());
    }

    fn read_le(bytes: &[u8], at: usize) -> (r: Self) {
        assert(bytes@.subrange(at as int, at + 1)[0] == bytes@[at as int]);
        bytes[at]
    }

    fn zero() -> (r: Self) {
        0
    }

    fn byte_width() -> (r: usize) {
        1
    }
}

impl Sealed for u16 {

}

impl ArrowNativeType for u16 {
    open spec fn type_model() -> TypeModel {
        TypeModel::UInt16
    }

    open spec fn le_bytes(self) -> Seq<u8> {
        le_u16(self)
    }

    open spec fn of_le_bytes(bytes: Seq<u8>) -> Self {
        of_u16(bytes)
    }

    open spec fn zero_model() -> Self {
        0
    }

    open spec fn width() -> nat {
        2
    }

    proof fn lemma_native(v: Self) {
    }

    fn data_type() -> (r: DataType) {
        DataType::UInt16
    }

    fn append_le(self, out: &mut Vec<u8>) {
        let bytes = u16_to_le_bytes(self);
        extend(out, bytes.as_slice());
    }

    fn read_le(bytes: &[u8], at: usize) -> (r: Self) {
        get_u16(bytes, at)
    }

    fn zero() -> (r: Self) {
        0
    }

    fn byte_width() -> (r: usize) {
        2
    }
}

impl Sealed for u32 {

}

impl ArrowNativeType for u32 {
    open spec fn type_model() -> TypeModel {
        TypeModel::UInt32
    }

    open spec fn le_bytes(self) -> Seq<u8> {
        le_u32(self)
    }

    open spec fn of_le_bytes(bytes: Seq<u8>) -> Self {
        of_u32(bytes)
    }

    open spec fn zero_model() -> Self {
        0
    }

    open spec fn width() -> nat {
        4
    }

    proof fn lemma_native(v: Self) {
    }

    fn data_type() -> (r: DataType) {
        DataType::UInt32
    }

    fn append_le(self, out: &mut Vec<u8>) {
        let bytes = u32_to_le_bytes(self);
        extend(out, bytes.as_slice());
    }

    fn read_le(bytes: &[u8], at: usize) -> (r: Self) {
        get_u32(bytes, at)
    }

    fn zero() -> (r: Self) {
        0
    }

    fn byte_width() -> (r: usize) {
        4
    }
}

impl Sealed for u64 {

}

impl ArrowNativeType for u64 {
    open spec fn type_model() -> TypeModel {
        TypeModel::UInt64
    }

    open spec fn le_bytes(self) -> Seq<u8> {
        le_u64(self)
    }

    open spec fn of_le_bytes(bytes: Seq<u8>) -> Self {
        of_u64(bytes)
    }

    open spec fn zero_model() -> Self {
        0
    }

    open spec fn width() -> nat {
        8
    }

    proof fn lemma_native(v: Self) {
    }

    fn data_type() -> (r: DataType) {
        DataType::UInt64
    }

    fn append_le(self, out: &mut Vec<u8>) {
        let bytes = u64_to_le_bytes(self);
        extend(out, bytes.as_slice());
    }

    fn read_le(bytes: &[u8], at: usize) -> (r: Self) {
        get_u64(bytes, at)
    }

    fn zero() -> (r: Self) {
        0
    }

    fn byte_width() -> (r: usize) {
        8
    }
}

impl Sealed for F16 {

}

impl ArrowNativeType for F16 {
    open spec fn type_model() -> TypeModel {
        TypeModel::Float16
    }

    open spec fn le_bytes(self) -> Seq<u8> {
        le_u16(self.bits)
    }

    open spec fn of_le_bytes(bytes: Seq<u8>) -> Self {
        F16 { bits: of_u16(bytes) }
    }

    open spec fn zero_model() -> Self {
        F16 { bits: 0 }
    }

    open spec fn width() -> nat {
        2
    }

    proof fn lemma_native(v: Self) {
    }

    fn data_type() -> (r: DataType) {
        DataType::Float16
    }

    fn append_le(self, out: &mut Vec<u8>) {
        let bytes = u16_to_le_bytes(self.bits);
        extend(out, bytes.as_slice());
    }

    fn read_le(bytes: &[u8], at: usize) -> (r: Self) {
        F16 { bits: get_u16(bytes, at) }
    }

    fn zero() -> (r: Self) {
        F16 { bits: 0 }
    }

    fn byte_width() -> (r: usize) {
        2
    }
}

impl Sealed for F32 {

}

impl ArrowNativeType for F32 {
    open spec fn type_model() -> TypeModel {
        TypeModel::Float32
    }

    open spec fn le_bytes(self) -> Seq<u8> {
        le_u32(self.bits)
    }

    open spec fn of_le_bytes(bytes: Seq<u8>) -> Self {
        F32 { bits: of_u32(bytes) }
    }

    open spec fn zero_model() -> Self {
        F32 { bits: 0 }
    }

    open spec fn width() -> nat {
        4
    }

    proof fn lemma_native(v: Self) {
    }

    fn data_type() -> (r: DataType) {
        DataType::Float32
    }

    fn append_le(self, out: &mut Vec<u8>) {
        let bytes = u32_to_le_bytes(self.bits);
        extend(out, bytes.as_slice());
    }

    fn read_le(bytes: &[u8], at: usize) -> (r: Self) {
        F32 { bits: get_u32(bytes, at) }
    }

    fn zero() -> (r: Self) {
        F32 { bits: 0 }
    }

    fn byte_width() -> (r: usize) {
        4
    }
}

impl Sealed for F64 {

}

impl ArrowNativeType for F64 {
    open spec fn type_model() -> TypeModel {
        TypeModel::Float64
    }

    open spec fn le_bytes(self) -> Seq<u8> {
        le_u64(self.bits)
    }

    open spec fn of_le_bytes(bytes: Seq<u8>) -> Self {
        F64 { bits: of_u64(bytes) }
    }

    open spec fn zero_model() -> Self {
        F64 { bits: 0 }
    }

    open spec fn width() -> nat {
        8
    }

    proof fn lemma_native(v: Self) {
    }

    fn data_type() -> (r: DataType) {
        DataType::Float64
    }

    fn append_le(self, out: &mut Vec<u8>) {
        let bytes = u64_to_le_bytes(self.bits);
        extend(out, bytes.as_slice());
    }

    fn read_le(bytes: &[u8], at: usize) -> (r: Self) {
        F64 { bits: get_u64(bytes, at) }
    }

    fn zero() -> (r: Self) {
        F64 { bits: 0 }
    }

    fn byte_width() -> (r: usize) {
        8
    }
}

} // verus!
