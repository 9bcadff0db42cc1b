//! Which array a set of parts makes, or why it makes none.
use vstd::prelude::*;
use vstd::utf8::valid_utf8;
use crate::array::model::{
    all_text, is_text, is_var, lemma_fixed_width, max_offset, offsets_ok, var_slot, ArrayV, BodyV,
};
use crate::datatype::{primitive_width_model, FieldModel, TypeModel};
use crate::error::DataErrorModel;
use crate::ipc::layout::value_width;

verus! {

/// Whether every slot of the type has one width in bytes.
pub open spec fn is_fixed(t: TypeModel) -> bool {
    t is FixedSizeBinary || primitive_width_model(t) is Some
}

/// A validity bitmap for `len` slots, where there is one.
pub open spec fn validity_fits(validity: Option<Seq<bool>>, len: nat) -> bool {
    validity matches Some(v) ==> v.len() == len
}

/// The error of a validity bitmap for another number of slots.
pub open spec fn bad_validity(validity: Option<Seq<bool>>, len: nat) -> DataErrorModel {
    DataErrorModel::ValidityLengthMismatch { expected: len as usize, actual: validity->0.len() as usize }
}

/// The array that parts make once everything but the validity fits.
pub open spec fn with_validity(ty: TypeModel, len: nat, validity: Option<Seq<bool>>, body: BodyV) -> Result<
    ArrayV,
    DataErrorModel,
> {
    if validity_fits(validity, len) {
        Ok(ArrayV { ty, len, validity, body })
    } else {
        Err(bad_validity(validity, len))
    }
}

/// The array of `len` nulls.
pub open spec fn null_array(len: nat) -> ArrayV {
    ArrayV { ty: TypeModel::Null, len, validity: None, body: BodyV::Null }
}

/// The array of bits.
pub open spec fn make_boolean(bits: Seq<bool>, validity: Option<Seq<bool>>) -> Result<ArrayV, DataErrorModel> {
    with_validity(TypeModel::Bool, bits.len(), validity, BodyV::Bits(bits))
}

/// The array of fixed-width values: a positive width, and a whole number of
/// values.
pub open spec fn make_fixed(ty: TypeModel, bytes: Seq<u8>, validity: Option<Seq<bool>>) -> Result<
    ArrayV,
    DataErrorModel,
> {
    if ty matches TypeModel::FixedSizeBinary(w) && w <= 0 {
        Err(DataErrorModel::InvalidFixedSize { size: ty->FixedSizeBinary_0 })
    } else {
        let width = value_width(ty).unwrap() as int;
        let len = bytes.len() as int / width;
        if bytes.len() as int % width != 0 {
            Err(
                DataErrorModel::ValueLengthMismatch {
                    expected: (len * width) as usize,
                    actual: bytes.len() as usize,
                },
            )
        } else {
            with_validity(ty, len as nat, validity, BodyV::Fixed(bytes))
        }
    }
}

/// Whether the offset at `i` is in order and inside.
pub open spec fn offset_fits(offsets: Seq<i64>, i: int, limit: int) -> bool {
    &&& offsets[i] >= (if i == 0 {
        0i64
    } else {
        offsets[i - 1]
    })
    &&& offsets[i] <= limit
}

/// The first of the first `count` offsets that does not fit.
pub open spec fn first_bad_offset(offsets: Seq<i64>, count: nat, limit: int) -> Option<nat>
    decreases count,
{
    if count == 0 {
        None
    } else {
        match first_bad_offset(offsets, (count - 1) as nat, limit) {
            Some(i) => Some(i),
            None => if offset_fits(offsets, count - 1, limit) {
                None
            } else {
                Some((count - 1) as nat)
            },
        }
    }
}

/// Why offsets do not address `limit` things, or nothing when they do.
pub open spec fn offsets_error(offsets: Seq<i64>, limit: int, max: int) -> Option<DataErrorModel> {
    if offsets.len() == 0 {
        Some(DataErrorModel::InvalidOffset { index: 0 })
    } else {
        match first_bad_offset(offsets, offsets.len(), limit) {
            Some(i) => Some(DataErrorModel::InvalidOffset { index: i as usize }),
            None => if offsets.last() > max {
                Some(
                    DataErrorModel::OffsetWidthOverflow {
                        total: offsets.last() as usize,
                        max: max as usize,
                    },
                )
            } else {
                None
            },
        }
    }
}

/// The first of the first `count` slots that is not text.
pub open spec fn first_bad_text(offsets: Seq<i64>, values: Seq<u8>, count: nat) -> Option<nat>
    decreases count,
{
    if count == 0 {
        None
    } else {
        match first_bad_text(offsets, values, (count - 1) as nat) {
            Some(i) => Some(i),
            None => if valid_utf8(var_slot(offsets, values, count - 1)) {
                None
            } else {
                Some((count - 1) as nat)
            },
        }
    }
}

/// The array of byte strings: offsets in order, text where the type says text.
pub open spec fn make_var(
    ty: TypeModel,
    offsets: Seq<i64>,
    values: Seq<u8>,
    validity: Option<Seq<bool>>,
) -> Result<ArrayV, DataErrorModel> {
    match offsets_error(offsets, values.len() as int, max_offset(ty)) {
        Some(e) => Err(e),
        None => {
            let len = (offsets.len() - 1) as nat;
            if is_text(ty) && first_bad_text(offsets, values, len) is Some {
                Err(DataErrorModel::InvalidUtf8 { index: first_bad_text(offsets, values, len)->0 as usize })
            } else {
                with_validity(ty, len, validity, BodyV::Var { offsets, values })
            }
        },
    }
}

/// The array of lists: a child of the declared type, offsets in order.
pub open spec fn make_list(
    field: FieldModel,
    offsets: Seq<i64>,
    child: ArrayV,
    validity: Option<Seq<bool>>,
) -> Result<ArrayV, DataErrorModel> {
    let ty = TypeModel::List(Box::new(field));
    if child.ty != field.data_type {
        Err(DataErrorModel::TypeMismatch { expected: field.data_type, actual: child.ty })
    } else {
        match offsets_error(offsets, child.len as int, max_offset(ty)) {
            Some(e) => Err(e),
            None => with_validity(
                ty,
                (offsets.len() - 1) as nat,
                validity,
                BodyV::List { offsets, child: Box::new(child) },
            ),
        }
    }
}

/// The array of lists of one size: a positive size, a child of the declared
/// type, a whole number of lists.
pub open spec fn make_fixed_list(
    field: FieldModel,
    size: i32,
    child: ArrayV,
    validity: Option<Seq<bool>>,
) -> Result<ArrayV, DataErrorModel> {
    if size <= 0 {
        Err(DataErrorModel::InvalidFixedSize { size })
    } else if child.ty != field.data_type {
        Err(DataErrorModel::TypeMismatch { expected: field.data_type, actual: child.ty })
    } else {
        let len = child.len as int / size as int;
        if child.len as int % size as int != 0 {
            Err(
                DataErrorModel::ValueLengthMismatch {
                    expected: (len * size) as usize,
                    actual: child.len as usize,
                },
            )
        } else {
            with_validity(
                TypeModel::FixedSizeList(Box::new(field), size),
                len as nat,
                validity,
                BodyV::FixedList(Box::new(child)),
            )
        }
    }
}

/// Why the column at `i` does not fit its field, or nothing when it does.
pub open spec fn column_error(field: FieldModel, column: ArrayV, i: int, len: nat) -> Option<DataErrorModel> {
    if column.len != len {
        Some(
            DataErrorModel::ColumnLengthMismatch {
                index: i as usize,
                name: field.name,
                expected: len as usize,
                actual: column.len as usize,
            },
        )
    } else if column.ty != field.data_type {
        Some(DataErrorModel::TypeMismatch { expected: field.data_type, actual: column.ty })
    } else {
        None
    }
}

/// The first error of the first `count` columns.
pub open spec fn columns_error(fields: Seq<FieldModel>, columns: Seq<ArrayV>, count: nat, len: nat) -> Option<
    DataErrorModel,
>
    decreases count,
{
    if count == 0 {
        None
    } else {
        match columns_error(fields, columns, (count - 1) as nat, len) {
            Some(e) => Some(e),
            None => column_error(fields[count - 1], columns[count - 1], count - 1, len),
        }
    }
}

/// The array of structs: one column per field, each of the declared type and
/// of `len` slots.
pub open spec fn make_struct(
    fields: Seq<FieldModel>,
    columns: Seq<ArrayV>,
    len: nat,
    validity: Option<Seq<bool>>,
) -> Result<ArrayV, DataErrorModel> {
    if fields.len() != columns.len() {
        Err(
            DataErrorModel::ColumnCountMismatch {
                fields: fields.len() as usize,
                columns: columns.len() as usize,
            },
        )
    } else {
        match columns_error(fields, columns, columns.len(), len) {
            Some(e) => Err(e),
            None => with_validity(TypeModel::Struct(fields), len, validity, BodyV::Struct(columns)),
        }
    }
}

/// Offsets without an error address their things.
pub proof fn lemma_offsets_fit(offsets: Seq<i64>, limit: int, max: int)
    requires
        offsets_error(offsets, limit, max) is None,
        0 <= limit,
    ensures
        offsets_ok(offsets, (offsets.len() - 1) as nat, limit, max),
{
    lemma_first_bad_offset(offsets, offsets.len(), limit);
}

proof fn lemma_first_bad_offset(offsets: Seq<i64>, count: nat, limit: int)
    requires
        count <= offsets.len(),
    ensures
        first_bad_offset(offsets, count, limit) is None ==> {
            &&& forall|i: int| #![trigger offsets[i]] 0 <= i < count ==> 0 <= offsets[i] <= limit
            &&& forall|i: int, j: int|
                #![trigger offsets[i], offsets[j]]
                0 <= i <= j < count ==> offsets[i] <= offsets[j]
        },
    decreases count,
{
    if count > 0 {
        lemma_first_bad_offset(offsets, (count - 1) as nat, limit);
        if first_bad_offset(offsets, count, limit) is None {
            assert(offset_fits(offsets, count - 1, limit));
            assert forall|i: int, j: int|
                #![trigger offsets[i], offsets[j]]
                0 <= i <= j < count implies offsets[i] <= offsets[j] by {
                if j == count - 1 && i < j {
                    assert(offsets[i] <= offsets[count - 2]);
                }
            }
        }
    }
}

/// Offsets that address their things have no error.
pub proof fn lemma_offsets_ok_no_error(offsets: Seq<i64>, len: nat, limit: int, max: int)
    requires
        offsets_ok(offsets, len, limit, max),
    ensures
        offsets_error(offsets, limit, max) is None,
{
    lemma_no_bad_offset(offsets, offsets.len(), len, limit, max);
}

proof fn lemma_no_bad_offset(offsets: Seq<i64>, count: nat, len: nat, limit: int, max: int)
    requires
        offsets_ok(offsets, len, limit, max),
        count <= offsets.len(),
    ensures
        first_bad_offset(offsets, count, limit) is None,
    decreases count,
{
    if count > 0 {
        lemma_no_bad_offset(offsets, (count - 1) as nat, len, limit, max);
        let i = count - 1;
        assert(offsets[0] <= offsets[i]);
        assert(offsets[i] <= offsets[len as int]);
        if i > 0 {
            assert(offsets[i - 1] <= offsets[i]);
        }
    }
}

/// An error at some offset is the first one, whatever comes after.
pub proof fn lemma_first_bad_offset_stays(offsets: Seq<i64>, count: nat, all: nat, limit: int)
    requires
        count <= all,
        first_bad_offset(offsets, count, limit) is Some,
    ensures
        first_bad_offset(offsets, all, limit) == first_bad_offset(offsets, count, limit),
    decreases all,
{
    if count < all {
        lemma_first_bad_offset_stays(offsets, count, (all - 1) as nat, limit);
    }
}

/// Without a bad slot, every slot is text.
pub proof fn lemma_all_text(offsets: Seq<i64>, values: Seq<u8>, count: nat)
    ensures
        first_bad_text(offsets, values, count) is None <==> all_text(offsets, values, count),
    decreases count,
{
    if count > 0 {
        lemma_all_text(offsets, values, (count - 1) as nat);
        if all_text(offsets, values, count) {
            assert(valid_utf8(var_slot(offsets, values, count - 1)));
            assert(all_text(offsets, values, (count - 1) as nat));
        }
    }
}

/// A bad slot is the first one, whatever comes after.
pub proof fn lemma_first_bad_text_stays(offsets: Seq<i64>, values: Seq<u8>, count: nat, all: nat)
    requires
        count <= all,
        first_bad_text(offsets, values, count) is Some,
    ensures
        first_bad_text(offsets, values, all) == first_bad_text(offsets, values, count),
    decreases all,
{
    if count < all {
        lemma_first_bad_text_stays(offsets, values, count, (all - 1) as nat);
    }
}

/// An error at some column is the first one, whatever comes after.
pub proof fn lemma_columns_error_stays(
    fields: Seq<FieldModel>,
    columns: Seq<ArrayV>,
    count: nat,
    all: nat,
    len: nat,
)
    requires
        count <= all,
        columns_error(fields, columns, count, len) is Some,
    ensures
        columns_error(fields, columns, all, len) == columns_error(fields, columns, count, len),
    decreases all,
{
    if count < all {
        lemma_columns_error_stays(fields, columns, count, (all - 1) as nat, len);
    }
}

/// Without an error, every column fits.
pub proof fn lemma_columns_fit(fields: Seq<FieldModel>, columns: Seq<ArrayV>, count: nat, len: nat)
    ensures
        columns_error(fields, columns, count, len) is None <==> (forall|k: int|
            #![trigger columns[k]]
            0 <= k < count ==> columns[k].len == len && columns[k].ty == fields[k].data_type),
    decreases count,
{
    if count > 0 {
        lemma_columns_fit(fields, columns, (count - 1) as nat, len);
        if forall|k: int|
            #![trigger columns[k]]
            0 <= k < count ==> columns[k].len == len && columns[k].ty == fields[k].data_type {
            assert(columns[count - 1].len == len);
        }
    }
}

/// The parts of an array make it again.
pub proof fn lemma_remade(a: ArrayV)
    requires
        a.wf(),
    ensures
        match a.body {
            BodyV::Null => a == null_array(a.len),
            BodyV::Bits(bits) => make_boolean(bits, a.validity) == Ok::<ArrayV, DataErrorModel>(a),
            BodyV::Fixed(bytes) => is_fixed(a.ty) && make_fixed(a.ty, bytes, a.validity) == Ok::<
                ArrayV,
                DataErrorModel,
            >(a),
            BodyV::Var { offsets, values } => is_var(a.ty) && make_var(a.ty, offsets, values, a.validity)
                == Ok::<ArrayV, DataErrorModel>(a),
            BodyV::List { offsets, child } => a.ty is List && make_list(
                *a.ty->List_0,
                offsets,
                *child,
                a.validity,
            ) == Ok::<ArrayV, DataErrorModel>(a),
            BodyV::FixedList(child) => a.ty is FixedSizeList && make_fixed_list(
                *a.ty->FixedSizeList_0,
                a.ty->FixedSizeList_1,
                *child,
                a.validity,
            ) == Ok::<ArrayV, DataErrorModel>(a),
            BodyV::Struct(columns) => a.ty is Struct && make_struct(a.ty->Struct_0, columns, a.len, a.validity)
                == Ok::<ArrayV, DataErrorModel>(a),
        },
{
    match a.body {
        BodyV::Fixed(bytes) => {
            lemma_fixed_width(a);
            let w = a.width() as int;
            vstd::arithmetic::div_mod::lemma_div_multiples_vanish(a.len as int, w);
            vstd::arithmetic::div_mod::lemma_mod_multiples_basic(a.len as int, w);
            assert(w * a.len == a.len * w) by (nonlinear_arith);
        },
        BodyV::Var { offsets, values } => {
            lemma_offsets_ok_no_error(offsets, a.len, values.len() as int, max_offset(a.ty));
            lemma_all_text(offsets, values, a.len);
        },
        BodyV::List { offsets, child } => {
            lemma_offsets_ok_no_error(offsets, a.len, child.len as int, max_offset(a.ty));
        },
        BodyV::FixedList(child) => {
            let n = a.ty->FixedSizeList_1 as int;
            vstd::arithmetic::div_mod::lemma_div_multiples_vanish(a.len as int, n);
            vstd::arithmetic::div_mod::lemma_mod_multiples_basic(a.len as int, n);
            assert(n * a.len == a.len * n) by (nonlinear_arith);
        },
        BodyV::Struct(columns) => {
            lemma_columns_fit(a.ty->Struct_0, columns, columns.len(), a.len);
        },
        _ => {},
    }
}

} // verus!
