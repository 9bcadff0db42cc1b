//! Arrays made from a type alone: empty ones and all-null ones.
use vstd::prelude::*;
use std::sync::Arc;
use crate::array::column::{arrays_model, Array, ArrayRef};
use crate::array::model::{max_offset, var_slot, ArrayV, BodyV, Cell};
use crate::array::parts::{lemma_all_text, lemma_columns_fit, lemma_offsets_ok_no_error, offsets_error};
use crate::buffer::{Bitmap, Buffer, Offsets};
use crate::datatype::{clone_field, clone_fields, clone_type, fields_model, DataType, Field, FieldModel, TypeModel};
use crate::error::{DataError, DataErrorModel};
use crate::ipc::layout::{value_byte_width, value_width};
use crate::le::zeros;

verus! {

/// Why a type has no array of nulls: a fixed size in it is not positive. The
/// first such size, parents before children, fields in order.
pub open spec fn size_error(t: TypeModel) -> Option<DataErrorModel>
    decreases t, 0int,
{
    match t {
        TypeModel::FixedSizeBinary(w) => if w <= 0 {
            Some(DataErrorModel::InvalidFixedSize { size: w })
        } else {
            None
        },
        TypeModel::FixedSizeList(f, n) => if n <= 0 {
            Some(DataErrorModel::InvalidFixedSize { size: n })
        } else {
            size_error(f.data_type)
        },
        TypeModel::List(f) => size_error(f.data_type),
        TypeModel::Struct(fs) => sizes_error(fs),
        _ => None,
    }
}

/// The first size error of a list of fields.
pub open spec fn sizes_error(fs: Seq<FieldModel>) -> Option<DataErrorModel>
    decreases fs, 1int,
{
    if fs.len() == 0 {
        None
    } else {
        match sizes_error(fs.drop_last()) {
            Some(e) => Some(e),
            None => size_error(fs.last().data_type),
        }
    }
}

/// All-false validity of `len` slots, except for the type that has none.
pub open spec fn null_bits(len: nat) -> Seq<bool> {
    Seq::new(len, |i: int| false)
}

/// `count` zero offsets.
pub open spec fn zero_offsets(count: nat) -> Seq<i64> {
    Seq::new(count, |i: int| 0i64)
}

/// The array of `len` nulls of a type: no bytes, no list elements, zeros where
/// the width is fixed, nulls in fixed-size children and columns.
pub open spec fn nulls_of(t: TypeModel, len: nat) -> ArrayV
    decreases t,
{
    let body = match t {
        TypeModel::Null => BodyV::Null,
        TypeModel::Bool => BodyV::Bits(null_bits(len)),
        TypeModel::Binary | TypeModel::LargeBinary | TypeModel::Utf8 | TypeModel::LargeUtf8 => BodyV::Var {
            offsets: zero_offsets(len + 1),
            values: Seq::empty(),
        },
        TypeModel::List(f) => BodyV::List {
            offsets: zero_offsets(len + 1),
            child: Box::new(nulls_of(f.data_type, 0)),
        },
        TypeModel::FixedSizeList(f, n) => BodyV::FixedList(
            Box::new(nulls_of(f.data_type, (len * n) as nat)),
        ),
        TypeModel::Struct(fs) => BodyV::Struct(
            Seq::new(
                fs.len(),
                |k: int|
                    if 0 <= k < fs.len() {
                        nulls_of(fs[k].data_type, len)
                    } else {
                        arbitrary()
                    },
            ),
        ),
        TypeModel::FixedSizeBinary(w) => BodyV::Fixed(zeros((len * w) as nat)),
        _ => BodyV::Fixed(zeros(len * value_width(t).unwrap())),
    };
    ArrayV {
        ty: t,
        len,
        validity: if t is Null {
            None
        } else {
            Some(null_bits(len))
        },
        body,
    }
}

/// Whether the lengths of an array of `len` nulls fit a `usize`.
pub open spec fn nulls_fit(t: TypeModel, len: nat) -> bool
    decreases t,
{
    &&& len < usize::MAX
    &&& match t {
        TypeModel::List(f) => nulls_fit(f.data_type, 0),
        TypeModel::FixedSizeList(f, n) => n > 0 ==> nulls_fit(f.data_type, (len * n) as nat),
        TypeModel::Struct(fs) => forall|k: int|
            #![trigger fs[k]]
            0 <= k < fs.len() ==> nulls_fit(fs[k].data_type, len),
        TypeModel::FixedSizeBinary(w) => w > 0 ==> len * w <= usize::MAX,
        _ => match value_width(t) {
            Some(w) => len * w <= usize::MAX,
            None => true,
        },
    }
}

/// An array of no slots always fits.
pub proof fn lemma_empty_fits(t: TypeModel)
    ensures
        nulls_fit(t, 0),
    decreases t,
{
    match t {
        TypeModel::List(f) => {
            lemma_empty_fits(f.data_type);
        },
        TypeModel::FixedSizeList(f, n) => {
            assert(0 * n == 0);
            lemma_empty_fits(f.data_type);
        },
        TypeModel::Struct(fs) => {
            assert forall|k: int| #![trigger fs[k]] 0 <= k < fs.len() implies nulls_fit(fs[k].data_type, 0) by {
                lemma_empty_fits(fs[k].data_type);
            }
        },
        _ => {},
    }
}

/// Every slot of an array of nulls is null.
pub proof fn lemma_nulls_cells(t: TypeModel, len: nat)
    ensures
        nulls_of(t, len).ty == t,
        nulls_of(t, len).len == len,
        nulls_of(t, len).cells() == Seq::new(len, |i: int| Cell::Null),
{
    let a = nulls_of(t, len);
    assert(a.cells() =~= Seq::new(len, |i: int| Cell::Null));
}

/// The first size error of a prefix is the whole list's.
proof fn lemma_sizes_error_stays(fs: Seq<FieldModel>, n: int)
    requires
        0 <= n <= fs.len(),
        sizes_error(fs.take(n)) is Some,
    ensures
        sizes_error(fs) == sizes_error(fs.take(n)),
    decreases fs.len(),
{
    if n == fs.len() {
        assert(fs.take(n) =~= fs);
    } else {
        assert(fs.drop_last().take(n) =~= fs.take(n));
        lemma_sizes_error_stays(fs.drop_last(), n);
    }
}

/// All-false bits.
fn false_bits(len: usize) -> (r: Bitmap)
    ensures
        r@ == null_bits(len as nat),
{
    let mut bits: Vec<bool> = Vec::with_capacity(len);
    let mut i: usize = 0;
    while i < len
        invariant
            0 <= i <= len,
            bits@ == null_bits(i as nat),
        decreases len - i,
    {
        bits.push(false);
        i = i + 1;
        assert(bits@ =~= null_bits(i as nat));
    }
    Bitmap::from_bools(bits.as_slice())
}

/// Zero offsets.
fn zeroed_offsets(count: usize) -> (r: Offsets)
    ensures
        r@ == zero_offsets(count as nat),
{
    let mut offsets: Vec<i64> = Vec::with_capacity(count);
    let mut i: usize = 0;
    while i < count
        invariant
            0 <= i <= count,
            offsets@ == zero_offsets(i as nat),
        decreases count - i,
    {
        offsets.push(0);
        i = i + 1;
        assert(offsets@ =~= zero_offsets(i as nat));
    }
    Offsets::from_vec(offsets)
}

proof fn lemma_zero_offsets_ok(len: nat, max: int)
    requires
        0 <= max,
    ensures
        offsets_error(zero_offsets(len + 1), 0, max) is None,
{
    lemma_offsets_ok_no_error(zero_offsets(len + 1), len, 0, max);
}

/// What making an array of nulls gives.
pub open spec fn fresh(t: TypeModel, len: nat) -> Result<ArrayV, DataErrorModel> {
    match size_error(t) {
        Some(e) => Err(e),
        None => Ok(nulls_of(t, len)),
    }
}

/// An array of `len` nulls of a type.
pub fn new_null_array(data_type: &DataType, len: usize) -> (r: Result<ArrayRef, DataError>)
    requires
        nulls_fit(data_type@, len as nat),
    ensures
        match r {
            Ok(a) => fresh(data_type@, len as nat) == Ok::<ArrayV, DataErrorModel>(a@),
            Err(e) => fresh(data_type@, len as nat) == Err::<ArrayV, DataErrorModel>(e@),
        },
    decreases data_type,
{
    broadcast use crate::datatype::lemma_struct_model;
    let ghost t = data_type@;
    let ghost want = nulls_of(t, len as nat);
    match data_type {
        DataType::Null => Ok(Arc::new(Array::null(len))),
        DataType::Bool => made(Array::boolean(false_bits(len), Some(false_bits(len)))),
        DataType::Binary | DataType::LargeBinary | DataType::Utf8 | DataType::LargeUtf8 => {
            proof {
                lemma_zero_offsets_ok(len as nat, max_offset(t));
                let offsets = zero_offsets((len + 1) as nat);
                let values = Seq::<u8>::empty();
                assert forall|i: int| 0 <= i < len implies vstd::utf8::valid_utf8(
                    #[trigger] var_slot(offsets, values, i),
                ) by {
                    assert(var_slot(offsets, values, i) =~= Seq::<u8>::empty());
                }
                lemma_all_text(offsets, values, len as nat);
            }
            made(
                Array::var(
                    clone_type(data_type),
                    zeroed_offsets(len + 1),
                    Buffer::new(),
                    Some(false_bits(len)),
                ),
            )
        },
        DataType::List(f) => {
            proof {
                lemma_zero_offsets_ok(len as nat, max_offset(t));
                lemma_nulls_cells(f@.data_type, 0);
            }
            match new_null_array(f.data_type(), 0) {
                Ok(child) => made(
                    Array::list(clone_field(f), zeroed_offsets(len + 1), child, Some(false_bits(len))),
                ),
                Err(e) => Err(e),
            }
        },
        DataType::FixedSizeList(f, n) => {
            if *n <= 0 {
                return Err(DataError::InvalidFixedSize { size: *n });
            }
            let size: usize = *n as usize;
            proof {
                let total = (len * size) as nat;
                assert(nulls_fit(f@.data_type, total));
                lemma_nulls_cells(f@.data_type, total);
                vstd::arithmetic::div_mod::lemma_div_multiples_vanish(len as int, size as int);
                vstd::arithmetic::div_mod::lemma_mod_multiples_basic(len as int, size as int);
                assert(size * len == len * size) by (nonlinear_arith);
                assert(0 <= len * size) by (nonlinear_arith)
                    requires
                        0 <= len,
                        0 <= size,
                ;
            }
            match new_null_array(f.data_type(), len * size) {
                Ok(child) => made(Array::fixed_list(clone_field(f), *n, child, Some(false_bits(len)))),
                Err(e) => Err(e),
            }
        },
        DataType::Struct(fs) => {
            match null_columns(fs, len) {
                Ok(columns) => {
                    proof {
                        let cs = arrays_model(columns@);
                        let fm = fields_model(fs@);
                        assert forall|k: int| #![trigger cs[k]] 0 <= k < cs.len() implies cs[k].len == len
                            && cs[k].ty == fm[k].data_type by {
                            lemma_nulls_cells(fm[k].data_type, len as nat);
                        }
                        lemma_columns_fit(fm, cs, cs.len(), len as nat);
                        assert(want.body->Struct_0 =~= cs);
                    }
                    made(Array::strukt(clone_fields(fs), columns, len, Some(false_bits(len))))
                },
                Err(e) => Err(e),
            }
        },
        _ => {
            if let DataType::FixedSizeBinary(w) = data_type {
                if *w <= 0 {
                    return Err(DataError::InvalidFixedSize { size: *w });
                }
            }
            let width: usize = match value_byte_width(data_type) {
                Some(w) => w,
                None => 1,
            };
            proof {
                assert(value_width(t) == Some(width as nat));
                vstd::arithmetic::div_mod::lemma_div_multiples_vanish(len as int, width as int);
                vstd::arithmetic::div_mod::lemma_mod_multiples_basic(len as int, width as int);
                assert(width * len == len * width) by (nonlinear_arith);
                assert(0 <= len * width) by (nonlinear_arith)
                    requires
                        0 <= len,
                        0 <= width,
                ;
            }
            let mut bytes: Vec<u8> = Vec::new();
            crate::le::extend_zeros(&mut bytes, len * width);
            assert(bytes@ =~= zeros((len * width) as nat));
            made(Array::fixed(clone_type(data_type), Buffer::from_vec(bytes), Some(false_bits(len))))
        },
    }
}

/// Shares an array that was made.
fn made(r: Result<Array, DataError>) -> (out: Result<ArrayRef, DataError>)
    ensures
        match (r, out) {
            (Ok(a), Ok(b)) => b@ == a@,
            (Err(e), Err(f)) => f@ == e@,
            _ => false,
        },
{
    match r {
        Ok(a) => Ok(Arc::new(a)),
        Err(e) => Err(e),
    }
}

/// One array of nulls per field.
fn null_columns(fields: &Vec<Field>, len: usize) -> (r: Result<Vec<ArrayRef>, DataError>)
    requires
        forall|k: int|
            #![trigger fields_model(fields@)[k]]
            0 <= k < fields@.len() ==> nulls_fit(fields_model(fields@)[k].data_type, len as nat),
    ensures
        match r {
            Ok(cs) => {
                &&& sizes_error(fields_model(fields@)) is None
                &&& cs@.len() == fields@.len()
                &&& forall|k: int|
                    #![trigger cs@[k]]
                    0 <= k < cs@.len() ==> cs@[k]@ == nulls_of(fields_model(fields@)[k].data_type, len as nat)
            },
            Err(e) => sizes_error(fields_model(fields@)) == Some(e@),
        },
    decreases fields,
{
    let ghost fm = fields_model(fields@);
    let mut out: Vec<ArrayRef> = Vec::new();
    let mut i: usize = 0;
    assert(fm.take(0) =~= Seq::<FieldModel>::empty());
    while i < fields.len()
        invariant
            0 <= i <= fields@.len(),
            fm == fields_model(fields@),
            out@.len() == i,
            sizes_error(fm.take(i as int)) is None,
            forall|k: int|
                #![trigger fm[k]]
                0 <= k < fields@.len() ==> nulls_fit(fm[k].data_type, len as nat),
            forall|k: int|
                #![trigger out@[k]]
                0 <= k < out@.len() ==> out@[k]@ == nulls_of(fm[k].data_type, len as nat),
        decreases fields@.len() - i,
    {
        proof {
            assert(fm[i as int] == fields@[i as int]@);
            assert(fm.take(i + 1).drop_last() =~= fm.take(i as int));
            assert(fm.take(i + 1).last() == fm[i as int]);
        }
        match new_null_array(fields[i].data_type(), len) {
            Ok(a) => {
                out.push(a);
            },
            Err(e) => {
                proof {
                    lemma_sizes_error_stays(fm, i + 1);
                }
                return Err(e);
            },
        }
        i = i + 1;
    }
    assert(fm.take(i as int) =~= fm);
    Ok(out)
}

/// An array of no slots of a type.
pub fn new_empty_array(data_type: &DataType) -> (r: Result<ArrayRef, DataError>)
    ensures
        match r {
            Ok(a) => fresh(data_type@, 0) == Ok::<ArrayV, DataErrorModel>(a@),
            Err(e) => fresh(data_type@, 0) == Err::<ArrayV, DataErrorModel>(e@),
        },
{
    proof {
        lemma_empty_fits(data_type@);
    }
    new_null_array(data_type, 0)
}

} // verus!
