//! Columns to arrow and back.
//!
//! A column goes as a type, a length, validity, buffers and children, the
//! buffers narrowed to the column's slots; only the bits of booleans may start
//! at an offset. What comes may start at any offset.
use vstd::prelude::*;
use std::sync::Arc;
use arrow_buffer::{Buffer as ArrowBuffer, NullBuffer};
use arrow_data::{ArrayData, ArrayDataBuilder};
use arrow_schema::{ArrowError, DataType as ArrowDataType};
use crate::array::column::{arrays_model, bits_model, Array, ArrayRef, Body};
use crate::array::model::{ArrayV, BodyV};
use crate::array::native::ArrowNativeType;
use crate::array::nested::{make_rows, StructArray};
use crate::array::parts::{make_boolean, make_fixed, make_fixed_list, make_list, make_var, null_array};
use crate::array::primitive::{bytes_of, values_of, PrimitiveArray};
use crate::buffer::{bits_of, Bitmap, Buffer, Offsets};
use crate::datatype::{clone_field, DataType, TypeModel};
use crate::flat::lemma_even_starts;
use crate::error::{DataError, DataErrorModel};
use crate::interop::buffer::{
    arrow_bytes, from_arrow_buffer, from_arrow_nulls, marked, nulls_model, nulls_span, to_arrow_buffer,
    to_arrow_nulls,
};
use crate::interop::datatype::{arrow_of, from_arrow_data_type, to_arrow_data_type, type_of_arrow};
use crate::interop::error::{InteropError, InteropErrorModel};
use crate::interop::outside::{type_view, ArrowTypeV};
use crate::interop::sound::{held, lemma_sound, sound, taken};
use crate::ipc::layout::{value_byte_width, value_width};

verus! {

/// `arrow_data::ArrayData`: a column.
#[verifier::external_type_specification]
#[verifier::external_body]
pub struct ExArrayData(ArrayData);

/// What an arrow column is made of.
pub struct PartsV {
    /// The type.
    pub ty: ArrowTypeV,
    /// How many slots there are.
    pub len: nat,
    /// The slot at which buffers and children start.
    pub offset: nat,
    /// Which slots are not null.
    pub nulls: Option<Seq<bool>>,
    /// How many bits the bytes under the validity have.
    pub span: nat,
    /// The buffers.
    pub buffers: Seq<Seq<u8>>,
    /// The children.
    pub children: Seq<PartsV>,
}

/// What an `arrow_data::ArrayData` is made of.
pub uninterp spec fn data_parts(d: ArrayData) -> PartsV;

/// What buffers hold.
pub open spec fn all_bytes(buffers: Seq<ArrowBuffer>) -> Seq<Seq<u8>> {
    Seq::new(buffers.len(), |i: int| arrow_bytes(buffers[i]))
}

/// What columns are made of.
pub open spec fn all_parts(columns: Seq<ArrayData>) -> Seq<PartsV> {
    Seq::new(columns.len(), |i: int| data_parts(columns[i]))
}

/// Whether parts can be looked into: a type of the closed set, no negative
/// width, no count past `usize`, offsets of whole numbers.
pub open spec fn readable(p: PartsV) -> bool
    decreases p,
{
    &&& match p.ty {
        ArrowTypeV::Other { .. } | ArrowTypeV::OtherTime { .. } => false,
        ArrowTypeV::FixedSizeBinary(n) => n >= 0,
        ArrowTypeV::FixedSizeList(_, n) => n >= 0 && p.len * n <= usize::MAX,
        ArrowTypeV::Binary | ArrowTypeV::Utf8 | ArrowTypeV::List(_) => p.buffers.len() > 0 ==> p.buffers[0].len()
            % 4 == 0,
        ArrowTypeV::LargeBinary | ArrowTypeV::LargeUtf8 => p.buffers.len() > 0 ==> p.buffers[0].len() % 8 == 0,
        _ => true,
    }
    &&& forall|k: int| #![trigger p.children[k]] 0 <= k < p.children.len() ==> readable(p.children[k])
}

/// The parts of a column in the making. Validity that marks no null is left
/// out.
pub open spec fn new_parts(
    data_type: ArrowDataType,
    len: usize,
    offset: usize,
    nulls: Option<NullBuffer>,
    buffers: Seq<ArrowBuffer>,
    children: Seq<ArrayData>,
) -> PartsV {
    PartsV {
        ty: type_view(data_type),
        len: len as nat,
        offset: offset as nat,
        nulls: marked(nulls_model(nulls)),
        span: nulls_span(nulls),
        buffers: all_bytes(buffers),
        children: all_parts(children),
    }
}

/// `arrow_data::ArrayDataBuilder`: `new`, its setters with `align_buffers` set,
/// then `build`. The column is made of the parts, validity that marks no null
/// left out, or they are refused; sound parts are taken, on a machine that
/// stores the low byte of a number first. Which other parts are refused, and
/// the text of a refusal, are left open. It panics on a negative width, where
/// the slots of a list of one size are more than `usize` counts, and on offsets
/// cut short.
#[verifier::external_body]
fn build_data(
    data_type: ArrowDataType,
    len: usize,
    offset: usize,
    nulls: Option<NullBuffer>,
    buffers: Vec<ArrowBuffer>,
    children: Vec<ArrayData>,
) -> (r: Result<ArrayData, ArrowError>)
    requires
        readable(new_parts(data_type, len, offset, nulls, buffers@, children@)),
    ensures
        match r {
            Ok(d) => data_parts(d) == new_parts(data_type, len, offset, nulls, buffers@, children@),
            Err(_) => !sound(new_parts(data_type, len, offset, nulls, buffers@, children@)),
        },
{
    let builder = ArrayDataBuilder::new(data_type).len(len).offset(offset).nulls(nulls);
    builder.align_buffers(true).buffers(buffers).child_data(children).build()
}

/// `arrow_data::ArrayData::data_type`: the column's type.
#[verifier::external_body]
fn data_type_of(data: &ArrayData) -> (r: &ArrowDataType)
    ensures
        type_view(*r) == data_parts(*data).ty,
{
    data.data_type()
}

/// `arrow_data::ArrayData::len`: how many slots the column has.
pub assume_specification[ ArrayData::len ](d: &ArrayData) -> (r: usize)
    ensures
        r == data_parts(*d).len,
;

/// `arrow_data::ArrayData::offset`: the slot at which buffers and children
/// start.
pub assume_specification[ ArrayData::offset ](d: &ArrayData) -> (r: usize)
    ensures
        r == data_parts(*d).offset,
;

/// `arrow_data::ArrayData::nulls`: the column's validity.
pub assume_specification[ ArrayData::nulls ](d: &ArrayData) -> (r: Option<&NullBuffer>)
    ensures
        match r {
            Some(n) => data_parts(*d).nulls == Some(crate::interop::buffer::null_bits(*n)),
            None => data_parts(*d).nulls is None,
        },
;

/// `arrow_data::ArrayData::buffers`: the column's buffers.
pub assume_specification[ ArrayData::buffers ](d: &ArrayData) -> (r: &[ArrowBuffer])
    ensures
        all_bytes(r@) == data_parts(*d).buffers,
;

/// `arrow_data::ArrayData::child_data`: the column's children.
pub assume_specification[ ArrayData::child_data ](d: &ArrayData) -> (r: &[ArrayData])
    ensures
        all_parts(r@) == data_parts(*d).children,
;

/// The bytes of offsets, in the width of the type's offsets.
pub open spec fn offset_bytes(offsets: Seq<i64>, wide: bool) -> Seq<u8> {
    if wide {
        bytes_of(offsets)
    } else {
        bytes_of(Seq::new(offsets.len(), |i: int| offsets[i] as i32))
    }
}

/// Whether the type's offsets are 64 bits wide.
pub open spec fn has_wide_offsets(t: TypeModel) -> bool {
    t is LargeBinary || t is LargeUtf8
}

/// The offsets that bytes are, or why they are none.
pub open spec fn offsets_in(bytes: Seq<u8>, wide: bool) -> Result<Seq<i64>, DataErrorModel> {
    if wide {
        match make_fixed(TypeModel::Int64, bytes, None) {
            Ok(a) => Ok(values_of::<i64>(a)),
            Err(e) => Err(e),
        }
    } else {
        match make_fixed(TypeModel::Int32, bytes, None) {
            Ok(a) => Ok(Seq::new(a.len, |i: int| values_of::<i32>(a)[i] as i64)),
            Err(e) => Err(e),
        }
    }
}

/// Whether parts are a column's: its type and length, its validity, the buffers
/// of its layout, its children.
pub open spec fn describes(p: PartsV, a: ArrayV) -> bool
    decreases a,
{
    &&& p.ty == arrow_of(a.ty)
    &&& p.len == a.len
    &&& p.nulls == marked(a.validity)
    &&& !(a.body is Bits) ==> p.offset == 0
    &&& match a.body {
        BodyV::Null => p.buffers.len() == 0 && p.children.len() == 0,
        BodyV::Bits(bits) => p.buffers.len() == 1 && p.children.len() == 0 && p.offset + a.len <= 8
            * p.buffers[0].len() && bits_of(p.buffers[0], p.offset as int, a.len as int) == bits,
        BodyV::Fixed(bytes) => p.buffers == seq![bytes] && p.children.len() == 0,
        BodyV::Var { offsets, values } => p.buffers == seq![offset_bytes(offsets, has_wide_offsets(a.ty)), values]
            && p.children.len() == 0,
        BodyV::List { offsets, child } => p.buffers == seq![offset_bytes(offsets, false)] && p.children.len() == 1
            && describes(p.children[0], *child),
        BodyV::FixedList(child) => p.buffers.len() == 0 && p.children.len() == 1 && describes(
            p.children[0],
            *child,
        ),
        BodyV::Struct(columns) => p.buffers.len() == 0 && p.children.len() == columns.len() && forall|k: int|
            #![trigger p.children[k]]
            0 <= k < columns.len() ==> describes(p.children[k], columns[k]),
    }
}

/// What a refused column becomes.
pub open spec fn refused(r: Result<ArrayV, DataErrorModel>) -> Result<ArrayV, InteropErrorModel> {
    match r {
        Ok(a) => Ok(a),
        Err(e) => Err(InteropErrorModel::Data(e)),
    }
}

/// The error of parts that are not those of their type.
pub open spec fn misfit<T>(p: PartsV) -> Result<T, InteropErrorModel> {
    Err(InteropErrorModel::ArrowDowncastFailed { data_type: p.ty })
}

/// The bytes of some values from a value on, if there are as many.
pub open spec fn window_bytes(bytes: Seq<u8>, width: int, at: int, count: int) -> Option<Seq<u8>> {
    if (at + count) * width <= bytes.len() {
        Some(bytes.subrange(at * width, (at + count) * width))
    } else {
        None
    }
}

/// The offsets of a column of parts. An empty column may have none.
pub open spec fn parts_offsets(p: PartsV, wide: bool) -> Result<Seq<i64>, InteropErrorModel> {
    let width: int = if wide {
        8
    } else {
        4
    };
    if p.len == 0 && p.buffers[0].len() == 0 {
        Ok(seq![0i64])
    } else {
        match window_bytes(p.buffers[0], width, p.offset as int, p.len as int + 1) {
            None => misfit(p),
            Some(bytes) => match offsets_in(bytes, wide) {
                Ok(offsets) => Ok(offsets),
                Err(e) => Err(InteropErrorModel::Data(e)),
            },
        }
    }
}

/// A child narrowed to some slots, if it has as many.
pub open spec fn narrowed_child(child: ArrayV, at: int, count: int) -> Option<ArrayV> {
    if at + count > child.len {
        None
    } else if at == 0 && count == child.len {
        Some(child)
    } else {
        Some(child.sliced(at, count))
    }
}

/// Children narrowed to some slots, if each has as many.
pub open spec fn narrowed_children(columns: Seq<ArrayV>, at: int, count: int) -> Option<Seq<ArrayV>> {
    if forall|k: int| #![trigger columns[k]] 0 <= k < columns.len() ==> at + count <= columns[k].len {
        Some(Seq::new(columns.len(), |k: int| narrowed_child(columns[k], at, count).unwrap()))
    } else {
        None
    }
}

/// The column that parts are, or why they are none.
pub open spec fn array_of_parts(p: PartsV) -> Result<ArrayV, InteropErrorModel>
    decreases p, 0int,
{
    let validity = marked(p.nulls);
    match type_of_arrow(p.ty) {
        Err(e) => Err(e),
        Ok(t) => match t {
            TypeModel::Null => Ok(null_array(p.len)),
            TypeModel::Bool => if p.buffers.len() != 1 || p.offset + p.len > 8 * p.buffers[0].len() {
                misfit(p)
            } else {
                refused(make_boolean(bits_of(p.buffers[0], p.offset as int, p.len as int), validity))
            },
            TypeModel::Binary | TypeModel::LargeBinary | TypeModel::Utf8 | TypeModel::LargeUtf8 =>
                if p.buffers.len() != 2 {
                    misfit(p)
                } else {
                    match parts_offsets(p, has_wide_offsets(t)) {
                        Ok(offsets) => refused(make_var(t, offsets, p.buffers[1], validity)),
                        Err(e) => Err(e),
                    }
                },
            TypeModel::List(f) => if p.buffers.len() != 1 || p.children.len() != 1 {
                misfit(p)
            } else {
                match parts_offsets(p, false) {
                    Err(e) => Err(e),
                    Ok(offsets) => match array_of_parts(p.children[0]) {
                        Ok(child) => refused(make_list(*f, offsets, child, validity)),
                        Err(e) => Err(e),
                    },
                }
            },
            TypeModel::FixedSizeList(f, n) => if p.children.len() != 1 {
                misfit(p)
            } else {
                match array_of_parts(p.children[0]) {
                    Ok(child) => if n <= 0 {
                        Err(InteropErrorModel::Data(DataErrorModel::InvalidFixedSize { size: n }))
                    } else {
                        match narrowed_child(child, p.offset * n, p.len * n) {
                            Some(c) => refused(make_fixed_list(*f, n, c, validity)),
                            None => misfit(p),
                        }
                    },
                    Err(e) => Err(e),
                }
            },
            TypeModel::Struct(fs) => match arrays_of_parts(p.children) {
                Ok(columns) => match narrowed_children(columns, p.offset as int, p.len as int) {
                    Some(cs) => refused(make_rows(fs, cs, validity)),
                    None => misfit(p),
                },
                Err(e) => Err(e),
            },
            TypeModel::FixedSizeBinary(n) if n <= 0 => Err(
                InteropErrorModel::Data(DataErrorModel::InvalidFixedSize { size: n }),
            ),
            _ => if p.buffers.len() != 1 {
                misfit(p)
            } else {
                match window_bytes(p.buffers[0], value_width(t).unwrap() as int, p.offset as int, p.len as int) {
                    Some(bytes) => refused(make_fixed(t, bytes, validity)),
                    None => misfit(p),
                }
            },
        },
    }
}

/// The columns that parts are, or why the first that are none are none.
pub open spec fn arrays_of_parts(ps: Seq<PartsV>) -> Result<Seq<ArrayV>, InteropErrorModel>
    decreases ps, 1int,
{
    if ps.len() == 0 {
        Ok(Seq::empty())
    } else {
        match arrays_of_parts(ps.drop_last()) {
            Err(e) => Err(e),
            Ok(done) => match array_of_parts(ps.last()) {
                Ok(a) => Ok(done.push(a)),
                Err(e) => Err(e),
            },
        }
    }
}

/// The bytes of offsets, as arrow holds them.
fn encode_offsets(offsets: &Offsets, wide: bool) -> (r: ArrowBuffer)
    ensures
        arrow_bytes(r) == offset_bytes(offsets@, wide),
        arrow_bytes(r).len() <= usize::MAX,
{
    let n: usize = offsets.len();
    if wide {
        let mut values: Vec<i64> = Vec::with_capacity(n);
        let mut i: usize = 0;
        while i < n
            invariant
                0 <= i <= n == offsets@.len(),
                values@ == offsets@.take(i as int),
            decreases n - i,
        {
            values.push(offsets.at(i));
            assert(offsets@.take(i + 1) =~= offsets@.take(i as int).push(offsets@[i as int]));
            i = i + 1;
        }
        assert(offsets@.take(i as int) =~= offsets@);
        column_buffer(&PrimitiveArray::<i64>::from_values(values).into_array_ref())
    } else {
        let ghost want = Seq::new(offsets@.len(), |i: int| offsets@[i] as i32);
        let mut values: Vec<i32> = Vec::with_capacity(n);
        let mut i: usize = 0;
        while i < n
            invariant
                0 <= i <= n == offsets@.len(),
                want == Seq::new(offsets@.len(), |i: int| offsets@[i] as i32),
                values@ == want.take(i as int),
            decreases n - i,
        {
            values.push(#[verifier::truncate] (offsets.at(i) as i32));
            assert(want.take(i + 1) =~= want.take(i as int).push(want[i as int]));
            i = i + 1;
        }
        assert(want.take(i as int) =~= want);
        column_buffer(&PrimitiveArray::<i32>::from_values(values).into_array_ref())
    }
}

/// The bytes of a fixed-width column, as arrow holds them.
fn column_buffer(array: &ArrayRef) -> (r: ArrowBuffer)
    requires
        array@.body is Fixed,
    ensures
        arrow_bytes(r) == array@.body->Fixed_0,
        arrow_bytes(r).len() <= usize::MAX,
{
    let n: usize = array.len();
    match array.body() {
        Body::Fixed(bytes) => to_arrow_buffer(bytes),
        _ => to_arrow_buffer(&Buffer::new()),
    }
}

/// The parts of a column can be looked into.
proof fn lemma_readable(p: PartsV, a: ArrayV)
    requires
        a.wf(),
        describes(p, a),
    ensures
        readable(p),
    decreases a,
{
    match a.body {
        BodyV::Var { offsets, values } => {
            lemma_offset_bytes(offsets, has_wide_offsets(a.ty));
        },
        BodyV::List { offsets, child } => {
            lemma_offset_bytes(offsets, false);
            lemma_readable(p.children[0], *child);
        },
        BodyV::FixedList(child) => {
            let n = a.ty->FixedSizeList_1;
            assert(p.ty->FixedSizeList_1 == n);
            assert(p.len * n == child.len);
            assert(child.wf());
            lemma_readable(p.children[0], *child);
        },
        BodyV::Struct(columns) => {
            crate::interop::datatype::lemma_arrow_of_struct(a.ty->Struct_0);
            assert forall|k: int| #![trigger p.children[k]] 0 <= k < p.children.len() implies readable(
                p.children[k],
            ) by {
                assert(describes(p.children[k], columns[k]));
                assert(columns[k].wf());
                lemma_readable(p.children[k], columns[k]);
            }
        },
        _ => {},
    }
}

/// Offsets take four or eight bytes each.
pub proof fn lemma_offset_bytes(offsets: Seq<i64>, wide: bool)
    ensures
        offset_bytes(offsets, wide).len() == offsets.len() * (if wide {
            8nat
        } else {
            4nat
        }),
        wide ==> offset_bytes(offsets, wide).len() % 8 == 0,
        !wide ==> offset_bytes(offsets, wide).len() % 4 == 0,
{
    if wide {
        lemma_column_bytes(offsets);
    } else {
        lemma_column_bytes(Seq::new(offsets.len(), |i: int| offsets[i] as i32));
    }
}

/// Values take the width of their type each.
proof fn lemma_column_bytes<T: ArrowNativeType>(values: Seq<T>)
    ensures
        bytes_of(values).len() == values.len() * T::width(),
{
    let lists = Seq::new(values.len(), |i: int| values[i].le_bytes());
    assert forall|i: int| #![trigger lists[i]] 0 <= i < lists.len() implies lists[i].len() == T::width() by {
        T::lemma_native(values[i]);
    }
    T::lemma_native(T::zero_model());
    lemma_even_starts(lists, T::width() as int, 0);
}

/// Whether as many bits are in so many bytes.
fn bits_fit(bits: usize, bytes: usize) -> (r: bool)
    ensures
        r == (bits <= 8 * bytes),
{
    bits / 8 < bytes || (bits / 8 == bytes && bits % 8 == 0)
}

/// The bits of a boolean column, and the bit at which they start. They start
/// where they did, unless the bytes under the validity end before them.
fn boolean_parts(bits: &Bitmap, nulls: &Option<NullBuffer>) -> (r: (usize, ArrowBuffer))
    ensures
        r.0 + bits@.len() <= 8 * arrow_bytes(r.1).len(),
        bits_of(arrow_bytes(r.1), r.0 as int, bits@.len() as int) == bits@,
        r.0 + bits@.len() <= usize::MAX,
        arrow_bytes(r.1).len() <= usize::MAX,
        r.0 == 0 || marked(nulls_model(*nulls)) is None || r.0 + bits@.len() <= nulls_span(*nulls),
{
    let at: usize = bits.bit_offset();
    let under = match at.checked_add(bits.len()) {
        Some(end) => match nulls {
            Some(n) => n.null_count() == 0 || bits_fit(end, n.validity().len()),
            None => true,
        },
        None => false,
    };
    if under {
        (at, to_arrow_buffer(bits.buffer()))
    } else {
        let packed = bits.to_canonical();
        (0, to_arrow_buffer(packed.buffer()))
    }
}

/// Converts a column to the one arrow has. Arrow has all but columns whose text
/// is parted inside a character, or with nulls under a field that allows none;
/// where it refuses one, the error is arrow's.
pub fn to_array_data(array: &ArrayRef) -> (r: Result<ArrayData, InteropError>)
    ensures
        match r {
            Ok(d) => describes(data_parts(d), array@) && held(data_parts(d)) && (taken(array@) ==> sound(
                data_parts(d),
            )),
            Err(e) => e is Arrow && !taken(array@),
        },
    decreases array,
{
    let ghost a = array@;
    let len: usize = array.len();
    let data_type = match to_arrow_data_type(array.data_type()) {
        Ok(t) => t,
        Err(e) => return Err(e),
    };
    let nulls = match array.validity() {
        Some(bits) => Some(to_arrow_nulls(bits)),
        None => None,
    };
    let mut offset: usize = 0;
    let mut buffers: Vec<ArrowBuffer> = Vec::new();
    let mut children: Vec<ArrayData> = Vec::new();
    let body = array.body();
    match body {
        Body::Null => {},
        Body::Bits(bits) => {
            let (at, bytes) = boolean_parts(bits, &nulls);
            offset = at;
            buffers.push(bytes);
        },
        Body::Fixed(bytes) => {
            buffers.push(to_arrow_buffer(bytes));
        },
        Body::Var { offsets, values } => {
            let wide = match array.data_type() {
                DataType::LargeBinary | DataType::LargeUtf8 => true,
                _ => false,
            };
            buffers.push(encode_offsets(offsets, wide));
            buffers.push(to_arrow_buffer(values));
        },
        Body::List { offsets, child } => {
            buffers.push(encode_offsets(offsets, false));
            match to_array_data(child) {
                Ok(c) => {
                    children.push(c);
                },
                Err(e) => return Err(e),
            }
        },
        Body::FixedList { child } => match to_array_data(child) {
            Ok(c) => {
                children.push(c);
            },
            Err(e) => return Err(e),
        },
        Body::Struct { columns } => {
            proof {
                crate::array::column::lemma_struct_body(*body);
            }
            match columns_to_data(columns) {
                Ok(cs) => {
                    children = cs;
                },
                Err(e) => {
                    proof {
                        let k = choose|k: int|
                            #![trigger columns@[k]]
                            0 <= k < columns@.len() && !taken(columns@[k]@);
                        assert(a.body->Struct_0[k] == columns@[k]@);
                    }
                    return Err(e);
                },
            }
        },
    }
    let ghost p = new_parts(data_type, len, offset, nulls, buffers@, children@);
    proof {
        match a.body {
            BodyV::Fixed(b) => {
                assert(p.buffers =~= seq![b]);
            },
            BodyV::Var { offsets, values } => {
                assert(p.buffers =~= seq![offset_bytes(offsets, has_wide_offsets(a.ty)), values]);
            },
            BodyV::List { offsets, child } => {
                assert(p.buffers =~= seq![offset_bytes(offsets, false)]);
            },
            _ => {},
        }
        assert(describes(p, a));
        lemma_readable(p, a);
        assert(held(p));
        if taken(a) {
            lemma_sound(p, a);
        }
    }
    match build_data(data_type, len, offset, nulls, buffers, children) {
        Ok(d) => Ok(d),
        Err(e) => Err(InteropError::arrow(e)),
    }
}

/// Converts columns to those arrow has.
fn columns_to_data(columns: &Vec<ArrayRef>) -> (r: Result<Vec<ArrayData>, InteropError>)
    ensures
        match r {
            Ok(ds) => ds@.len() == columns@.len() && forall|k: int|
                #![trigger ds@[k]]
                0 <= k < ds@.len() ==> describes(data_parts(ds@[k]), columns@[k]@) && held(data_parts(ds@[k])) && (
                taken(columns@[k]@) ==> sound(data_parts(ds@[k]))),
            Err(e) => e is Arrow && exists|k: int|
                #![trigger columns@[k]]
                0 <= k < columns@.len() && !taken(columns@[k]@),
        },
    decreases columns,
{
    let mut out: Vec<ArrayData> = Vec::with_capacity(columns.len());
    let mut i: usize = 0;
    while i < columns.len()
        invariant
            0 <= i <= columns@.len(),
            out@.len() == i,
            forall|k: int|
                #![trigger out@[k]]
                0 <= k < i ==> describes(data_parts(out@[k]), columns@[k]@) && held(data_parts(out@[k])) && (taken(
                    columns@[k]@,
                ) ==> sound(data_parts(out@[k]))),
        decreases columns@.len() - i,
    {
        match to_array_data(&columns[i]) {
            Ok(d) => {
                out.push(d);
            },
            Err(e) => return Err(e),
        }
        i = i + 1;
    }
    Ok(out)
}

/// The offsets that bytes are.
fn decode_offsets(bytes: Buffer, wide: bool) -> (r: Result<Offsets, DataError>)
    ensures
        match r {
            Ok(o) => offsets_in(bytes@, wide) == Ok::<Seq<i64>, DataErrorModel>(o@),
            Err(e) => offsets_in(bytes@, wide) == Err::<Seq<i64>, DataErrorModel>(e@),
        },
{
    if wide {
        let array = match Array::fixed(DataType::Int64, bytes, None) {
            Ok(a) => Arc::new(a),
            Err(e) => return Err(e),
        };
        match PrimitiveArray::<i64>::try_from_array(&array) {
            Ok(typed) => Ok(Offsets::from_vec(typed.values())),
            Err(e) => Err(e),
        }
    } else {
        let array = match Array::fixed(DataType::Int32, bytes, None) {
            Ok(a) => Arc::new(a),
            Err(e) => return Err(e),
        };
        match PrimitiveArray::<i32>::try_from_array(&array) {
            Ok(typed) => {
                let ghost values = values_of::<i32>(array@);
                let n: usize = typed.len();
                let mut out: Vec<i64> = Vec::with_capacity(n);
                let mut i: usize = 0;
                while i < n
                    invariant
                        0 <= i <= n == array@.len,
                        typed@ == array@,
                        values == values_of::<i32>(array@),
                        out@.len() == i,
                        forall|k: int| #![trigger out@[k]] 0 <= k < i ==> out@[k] == values[k] as i64,
                    decreases n - i,
                {
                    out.push(typed.value(i) as i64);
                    i = i + 1;
                }
                assert(out@ =~= Seq::new(array@.len, |i: int| values[i] as i64));
                Ok(Offsets::from_vec(out))
            },
            Err(e) => Err(e),
        }
    }
}

/// A made column, or what its refusal becomes.
fn finish(made: Result<Array, DataError>) -> (r: Result<ArrayRef, InteropError>)
    ensures
        match made {
            Ok(a) => r matches Ok(b) && b@ == a@,
            Err(e) => r matches Err(f) && f@ == InteropErrorModel::Data(e@),
        },
{
    match made {
        Ok(a) => Ok(Arc::new(a)),
        Err(e) => Err(InteropError::Data(e)),
    }
}

/// What parts become that are not those of their type.
fn misfitting<T>(data: &ArrayData) -> (r: Result<T, InteropError>)
    ensures
        r matches Err(e) && e@ == (InteropErrorModel::ArrowDowncastFailed { data_type: data_parts(*data).ty }),
{
    Err(InteropError::ArrowDowncastFailed { data_type: data_type_of(data).clone() })
}

/// The bytes of some values from a value on, if there are as many.
fn read_window(buffer: &ArrowBuffer, width: usize, at: usize, count: usize) -> (r: Option<Buffer>)
    requires
        width > 0,
    ensures
        match r {
            Some(b) => window_bytes(arrow_bytes(*buffer), width as int, at as int, count as int) == Some(b@),
            None => window_bytes(arrow_bytes(*buffer), width as int, at as int, count as int) is None,
        },
{
    let bytes = from_arrow_buffer(buffer);
    let n: usize = bytes.len();
    let ghost w = width as int;
    let ghost a = at as int;
    let ghost c = count as int;
    assert((a + c) * w == a * w + c * w) by (nonlinear_arith);
    assert(0 <= a * w) by (nonlinear_arith)
        requires
            a >= 0,
            w > 0,
    ;
    assert(0 <= c * w) by (nonlinear_arith)
        requires
            c >= 0,
            w > 0,
    ;
    let start: usize = match at.checked_mul(width) {
        Some(s) => s,
        None => return None,
    };
    let size: usize = match count.checked_mul(width) {
        Some(s) => s,
        None => return None,
    };
    match start.checked_add(size) {
        Some(end) => if end <= n {
            let part = bytes.slice(start, size);
            assert(part@ =~= arrow_bytes(*buffer).subrange(a * w, (a + c) * w));
            Some(part)
        } else {
            None
        },
        None => None,
    }
}

/// The offsets of a column's first buffer.
fn read_offsets(data: &ArrayData, wide: bool) -> (r: Result<Offsets, InteropError>)
    requires
        data_parts(*data).buffers.len() > 0,
    ensures
        match r {
            Ok(o) => parts_offsets(data_parts(*data), wide) == Ok::<Seq<i64>, InteropErrorModel>(o@),
            Err(e) => parts_offsets(data_parts(*data), wide) == Err::<Seq<i64>, InteropErrorModel>(e@),
        },
{
    let ghost p = data_parts(*data);
    let buffer = &data.buffers()[0];
    assert(arrow_bytes(*buffer) == p.buffers[0]);
    let len: usize = data.len();
    let held: usize = buffer.as_slice().len();
    if len == 0 && held == 0 {
        let mut zero: Vec<i64> = Vec::new();
        zero.push(0);
        assert(zero@ =~= seq![0i64]);
        return Ok(Offsets::from_vec(zero));
    }
    let width: usize = if wide {
        8
    } else {
        4
    };
    let count: usize = match len.checked_add(1) {
        Some(c) => c,
        None => {
            assert((p.offset + p.len + 1) * width > held) by (nonlinear_arith)
                requires
                    p.len == usize::MAX,
                    held <= usize::MAX,
                    width >= 4,
            ;
            return misfitting(data);
        },
    };
    match read_window(buffer, width, data.offset(), count) {
        Some(bytes) => match decode_offsets(bytes, wide) {
            Ok(o) => Ok(o),
            Err(e) => Err(InteropError::Data(e)),
        },
        None => misfitting(data),
    }
}

/// A child narrowed to some slots, if it has as many.
fn narrow_child(child: ArrayRef, at: usize, count: usize) -> (r: Option<ArrayRef>)
    ensures
        match r {
            Some(c) => narrowed_child(child@, at as int, count as int) == Some(c@),
            None => narrowed_child(child@, at as int, count as int) is None,
        },
{
    let n: usize = child.len();
    if at == 0 && count == n {
        return Some(child);
    }
    match child.try_slice(at, count) {
        Ok(c) => Some(c),
        Err(_) => None,
    }
}

/// Children narrowed to some slots, if each has as many.
fn narrow_children(columns: Vec<ArrayRef>, at: usize, count: usize) -> (r: Option<Vec<ArrayRef>>)
    ensures
        match r {
            Some(cs) => narrowed_children(arrays_model(columns@), at as int, count as int) == Some(
                arrays_model(cs@),
            ),
            None => narrowed_children(arrays_model(columns@), at as int, count as int) is None,
        },
{
    let ghost all = arrays_model(columns@);
    let mut out: Vec<ArrayRef> = Vec::with_capacity(columns.len());
    let mut i: usize = 0;
    while i < columns.len()
        invariant
            0 <= i <= columns@.len(),
            all == arrays_model(columns@),
            out@.len() == i,
            forall|k: int|
                #![trigger out@[k]]
                0 <= k < i ==> narrowed_child(all[k], at as int, count as int) == Some(out@[k]@),
        decreases columns@.len() - i,
    {
        assert(all[i as int] == columns@[i as int]@);
        match narrow_child(columns[i].clone(), at, count) {
            Some(c) => {
                out.push(c);
            },
            None => return None,
        }
        i = i + 1;
    }
    proof {
        assert forall|k: int| #![trigger all[k]] 0 <= k < all.len() implies at + count <= all[k].len by {
            assert(narrowed_child(all[k], at as int, count as int) == Some(out@[k]@));
        }
        assert(arrays_model(out@) =~= narrowed_children(all, at as int, count as int).unwrap());
    }
    Some(out)
}

/// Converts a column without children.
fn flat_from_arrow(data: &ArrayData, data_type: DataType, validity: Option<Bitmap>) -> (r: Result<
    ArrayRef,
    InteropError,
>)
    requires
        type_of_arrow(data_parts(*data).ty) == Ok::<TypeModel, InteropErrorModel>(data_type@),
        bits_model(validity) == marked(data_parts(*data).nulls),
        !(data_type@ is List || data_type@ is FixedSizeList || data_type@ is Struct),
    ensures
        match r {
            Ok(a) => array_of_parts(data_parts(*data)) == Ok::<ArrayV, InteropErrorModel>(a@),
            Err(e) => array_of_parts(data_parts(*data)) == Err::<ArrayV, InteropErrorModel>(e@),
        },
{
    let ghost p = data_parts(*data);
    let len: usize = data.len();
    let offset: usize = data.offset();
    let buffers = data.buffers();
    assert(p.buffers.len() == buffers@.len());
    match &data_type {
        DataType::Null => Ok(Arc::new(Array::null(len))),
        DataType::Bool => {
            if buffers.len() != 1 {
                return misfitting(data);
            }
            assert(arrow_bytes(buffers@[0]) == p.buffers[0]);
            match Bitmap::try_new(from_arrow_buffer(&buffers[0]), offset, len) {
                Ok(bits) => finish(Array::boolean(bits, validity)),
                Err(_) => misfitting(data),
            }
        },
        DataType::Binary | DataType::LargeBinary | DataType::Utf8 | DataType::LargeUtf8 => {
            let wide = match &data_type {
                DataType::LargeBinary | DataType::LargeUtf8 => true,
                _ => false,
            };
            if buffers.len() != 2 {
                return misfitting(data);
            }
            match read_offsets(data, wide) {
                Ok(offsets) => {
                    assert(arrow_bytes(buffers@[1]) == p.buffers[1]);
                    let values = from_arrow_buffer(&buffers[1]);
                    finish(Array::var(data_type, offsets, values, validity))
                },
                Err(e) => Err(e),
            }
        },
        DataType::FixedSizeBinary(size) if *size <= 0 => Err(
            InteropError::Data(DataError::InvalidFixedSize { size: *size }),
        ),
        _ => {
            if buffers.len() != 1 {
                return misfitting(data);
            }
            assert(arrow_bytes(buffers@[0]) == p.buffers[0]);
            let width: usize = match value_byte_width(&data_type) {
                Some(w) => w,
                None => 1,
            };
            match read_window(&buffers[0], width, offset, len) {
                Some(bytes) => finish(Array::fixed(data_type, bytes, validity)),
                None => misfitting(data),
            }
        },
    }
}

/// A child narrowed to the slots of lists of one size, if it has as many.
fn narrow_items(child: ArrayRef, size: i32, at: usize, count: usize) -> (r: Option<ArrayRef>)
    requires
        size > 0,
    ensures
        match r {
            Some(c) => narrowed_child(child@, at * size, count * size) == Some(c@),
            None => narrowed_child(child@, at * size, count * size) is None,
        },
{
    let n: usize = size as usize;
    let limit: usize = child.len();
    assert(0 <= at * size) by (nonlinear_arith)
        requires
            size > 0,
    ;
    assert(0 <= count * size) by (nonlinear_arith)
        requires
            size > 0,
    ;
    let start: usize = match at.checked_mul(n) {
        Some(v) => v,
        None => return None,
    };
    let items: usize = match count.checked_mul(n) {
        Some(v) => v,
        None => return None,
    };
    narrow_child(child, start, items)
}

/// Converts a column that arrow has to its counterpart.
pub fn from_arrow_array(data: &ArrayData) -> (r: Result<ArrayRef, InteropError>)
    ensures
        match r {
            Ok(a) => array_of_parts(data_parts(*data)) == Ok::<ArrayV, InteropErrorModel>(a@),
            Err(e) => array_of_parts(data_parts(*data)) == Err::<ArrayV, InteropErrorModel>(e@),
        },
    decreases data_parts(*data), 0int,
{
    broadcast use crate::datatype::lemma_struct_model;

    let ghost p = data_parts(*data);
    let data_type = match from_arrow_data_type(data_type_of(data)) {
        Ok(t) => t,
        Err(e) => return Err(e),
    };
    let validity = from_arrow_nulls(data.nulls());
    let children = data.child_data();
    assert(p.children.len() == children@.len());
    match &data_type {
        DataType::List(field) => {
            let buffers = data.buffers();
            assert(p.buffers.len() == buffers@.len());
            if buffers.len() != 1 || children.len() != 1 {
                return misfitting(data);
            }
            let offsets = match read_offsets(data, false) {
                Ok(o) => o,
                Err(e) => return Err(e),
            };
            assert(data_parts(children@[0]) == p.children[0]);
            match from_arrow_array(&children[0]) {
                Ok(child) => finish(Array::list(clone_field(field), offsets, child, validity)),
                Err(e) => Err(e),
            }
        },
        DataType::FixedSizeList(field, size) => {
            if children.len() != 1 {
                return misfitting(data);
            }
            assert(data_parts(children@[0]) == p.children[0]);
            match from_arrow_array(&children[0]) {
                Ok(child) => {
                    if *size <= 0 {
                        return Err(InteropError::Data(DataError::InvalidFixedSize { size: *size }));
                    }
                    match narrow_items(child, *size, data.offset(), data.len()) {
                        Some(c) => finish(Array::fixed_list(clone_field(field), *size, c, validity)),
                        None => misfitting(data),
                    }
                },
                Err(e) => Err(e),
            }
        },
        DataType::Struct(fields) => match columns_from_data(children) {
            Ok(columns) => match narrow_children(columns, data.offset(), data.len()) {
                Some(cs) => {
                    let bits = match &validity {
                        Some(v) => Some(v.to_vec()),
                        None => None,
                    };
                    match StructArray::try_new(crate::datatype::clone_fields(fields), cs, bits) {
                        Ok(a) => Ok(a.into_array_ref()),
                        Err(e) => Err(InteropError::Data(e)),
                    }
                },
                None => misfitting(data),
            },
            Err(e) => Err(e),
        },
        _ => flat_from_arrow(data, data_type, validity),
    }
}

proof fn lemma_parts_error_stays(ps: Seq<PartsV>, count: int)
    requires
        0 <= count <= ps.len(),
        arrays_of_parts(ps.take(count)) is Err,
    ensures
        arrays_of_parts(ps) == arrays_of_parts(ps.take(count)),
    decreases ps.len(),
{
    if count < ps.len() {
        assert(ps.drop_last().take(count) =~= ps.take(count));
        lemma_parts_error_stays(ps.drop_last(), count);
    } else {
        assert(ps.take(count) =~= ps);
    }
}

/// Converts columns that arrow has to their counterparts.
pub fn columns_from_data(data: &[ArrayData]) -> (r: Result<Vec<ArrayRef>, InteropError>)
    ensures
        match r {
            Ok(cs) => arrays_of_parts(all_parts(data@)) == Ok::<Seq<ArrayV>, InteropErrorModel>(arrays_model(cs@)),
            Err(e) => arrays_of_parts(all_parts(data@)) == Err::<Seq<ArrayV>, InteropErrorModel>(e@),
        },
    decreases all_parts(data@), 1int,
{
    let ghost all = all_parts(data@);
    let n: usize = data.len();
    let mut out: Vec<ArrayRef> = Vec::with_capacity(n);
    let mut i: usize = 0;
    proof {
        assert(all.take(0) =~= Seq::empty());
        assert(arrays_model(out@) =~= Seq::empty());
    }
    while i < n
        invariant
            0 <= i <= n == data@.len(),
            all == all_parts(data@),
            arrays_of_parts(all.take(i as int)) == Ok::<Seq<ArrayV>, InteropErrorModel>(arrays_model(out@)),
        decreases n - i,
    {
        proof {
            assert(all.take(i + 1).drop_last() =~= all.take(i as int));
            assert(all.take(i + 1).last() == all[i as int]);
        }
        match from_arrow_array(&data[i]) {
            Ok(a) => {
                let ghost before = arrays_model(out@);
                out.push(a);
                assert(arrays_model(out@) =~= before.push(a@));
            },
            Err(e) => {
                proof {
                    lemma_parts_error_stays(all, i + 1);
                }
                return Err(e);
            },
        }
        i = i + 1;
    }
    assert(all.take(i as int) =~= all);
    Ok(out)
}

} // verus!
