//! Which parts make a column, and which column they make.
use vstd::prelude::*;
use vstd::utf8::valid_utf8;
use crate::array::cell_laws::slot_bytes;
use crate::array::model::{ArrayV, BodyV};
use crate::array::nested::make_rows;
use crate::array::parts::{
    first_bad_text, lemma_columns_fit, lemma_offsets_fit, lemma_offsets_ok_no_error, make_boolean, make_fixed,
    make_fixed_list, make_list, make_struct, make_var, offsets_error,
};
use crate::datatype::{FieldModel, TypeModel};

verus! {

/// Whether validity is marked for as many slots, where it is marked.
pub open spec fn marks(validity: Option<Seq<bool>>, len: int) -> bool {
    validity matches Some(v) ==> v.len() == len
}

/// Whether offsets cut a list of `limit` things: at least one, none negative, none
/// before the one in front of it, none past the end or past what the width holds.
pub open spec fn cuts(offsets: Seq<i64>, limit: int, wide: bool) -> bool {
    &&& offsets.len() > 0
    &&& forall|i: int| #![trigger offsets[i]] 0 <= i < offsets.len() ==> 0 <= offsets[i] <= limit
    &&& forall|i: int, j: int|
        #![trigger offsets[i], offsets[j]]
        0 <= i < j < offsets.len() ==> offsets[i] <= offsets[j]
    &&& !wide ==> offsets[offsets.len() - 1] <= 0x7FFF_FFFF
}

/// Offsets are accepted exactly where they cut.
proof fn lemma_cuts(offsets: Seq<i64>, limit: int, wide: bool)
    requires
        0 <= limit,
    ensures
        offsets_error(
            offsets,
            limit,
            if wide {
                i64::MAX as int
            } else {
                i32::MAX as int
            },
        ) is None <==> cuts(offsets, limit, wide),
{
    let max = if wide {
        i64::MAX as int
    } else {
        i32::MAX as int
    };
    if offsets_error(offsets, limit, max) is None {
        lemma_offsets_fit(offsets, limit, max);
        let n = offsets.len() - 1;
        assert forall|i: int| #![trigger offsets[i]] 0 <= i < offsets.len() implies 0 <= offsets[i] <= limit by {
            assert(offsets[0] <= offsets[i]);
            assert(offsets[i] <= offsets[n]);
        }
    }
    if cuts(offsets, limit, wide) {
        lemma_offsets_ok_no_error(offsets, (offsets.len() - 1) as nat, limit, max);
    }
}

/// Bits make a column of as many slots, where validity is marked for them.
pub proof fn law_bits_make_a_column(bits: Seq<bool>, validity: Option<Seq<bool>>)
    ensures
        make_boolean(bits, validity) is Ok <==> marks(validity, bits.len() as int),
        make_boolean(bits, validity) matches Ok(a) ==> a == (ArrayV {
            ty: TypeModel::Bool,
            len: bits.len(),
            validity,
            body: BodyV::Bits(bits),
        }),
{
}

/// Bytes make a column of a type of one width where they are whole values, and
/// validity is marked for as many.
pub proof fn law_bytes_make_a_column(ty: TypeModel, bytes: Seq<u8>, validity: Option<Seq<bool>>)
    requires
        slot_bytes(ty) > 0 || ty is FixedSizeBinary,
    ensures
        make_fixed(ty, bytes, validity) is Ok <==> slot_bytes(ty) > 0 && bytes.len() as int % slot_bytes(ty) == 0
            && marks(validity, bytes.len() as int / slot_bytes(ty)),
        make_fixed(ty, bytes, validity) matches Ok(a) ==> a.ty == ty && a.validity == validity && a.body
            == BodyV::Fixed(bytes) && a.len == bytes.len() as int / slot_bytes(ty),
{
    if slot_bytes(ty) > 0 {
        let w = slot_bytes(ty);
        let n = bytes.len() as int;
        assert(n / w >= 0) by (nonlinear_arith)
            requires
                n >= 0,
                w > 0,
        ;
    }
}

/// Offsets and bytes make a column of byte strings where the offsets cut the bytes,
/// every slot of a type of text is text, and validity is marked for the slots.
pub proof fn law_byte_strings_make_a_column(
    ty: TypeModel,
    offsets: Seq<i64>,
    values: Seq<u8>,
    validity: Option<Seq<bool>>,
)
    requires
        ty is Binary || ty is LargeBinary || ty is Utf8 || ty is LargeUtf8,
    ensures
        make_var(ty, offsets, values, validity) is Ok <==> {
            &&& cuts(offsets, values.len() as int, ty is LargeBinary || ty is LargeUtf8)
            &&& marks(validity, offsets.len() - 1)
            &&& ty is Utf8 || ty is LargeUtf8 ==> forall|i: int|
                #![trigger offsets[i]]
                0 <= i < offsets.len() - 1 ==> valid_utf8(values.subrange(offsets[i] as int, offsets[i + 1] as int))
        },
        make_var(ty, offsets, values, validity) matches Ok(a) ==> a == (ArrayV {
            ty,
            len: (offsets.len() - 1) as nat,
            validity,
            body: BodyV::Var { offsets, values },
        }),
{
    lemma_cuts(offsets, values.len() as int, ty is LargeBinary || ty is LargeUtf8);
    if offsets.len() > 0 {
        lemma_text(offsets, values, (offsets.len() - 1) as nat);
    }
}

/// No slot is found not to be text exactly where all are.
proof fn lemma_text(offsets: Seq<i64>, values: Seq<u8>, count: nat)
    ensures
        first_bad_text(offsets, values, count) is None <==> forall|i: int|
            #![trigger offsets[i]]
            0 <= i < count ==> valid_utf8(values.subrange(offsets[i] as int, offsets[i + 1] as int)),
    decreases count,
{
    if count > 0 {
        lemma_text(offsets, values, (count - 1) as nat);
        if forall|i: int|
            #![trigger offsets[i]]
            0 <= i < count ==> valid_utf8(values.subrange(offsets[i] as int, offsets[i + 1] as int)) {
            assert(valid_utf8(values.subrange(offsets[count - 1] as int, offsets[count as int] as int)));
        }
    }
}

/// Offsets and a child make a column of lists where the child has the field's type,
/// the offsets cut its slots, and validity is marked for the lists.
pub proof fn law_children_make_lists(
    field: FieldModel,
    offsets: Seq<i64>,
    child: ArrayV,
    validity: Option<Seq<bool>>,
)
    ensures
        make_list(field, offsets, child, validity) is Ok <==> child.ty == field.data_type && cuts(
            offsets,
            child.len as int,
            false,
        ) && marks(validity, offsets.len() - 1),
        make_list(field, offsets, child, validity) matches Ok(a) ==> a == (ArrayV {
            ty: TypeModel::List(Box::new(field)),
            len: (offsets.len() - 1) as nat,
            validity,
            body: BodyV::List { offsets, child: Box::new(child) },
        }),
{
    lemma_cuts(offsets, child.len as int, false);
}

/// A child makes a column of lists of one size where the size is positive, the
/// child has the field's type and whole lists, and validity is marked for them.
pub proof fn law_children_make_lists_of_one_size(
    field: FieldModel,
    size: i32,
    child: ArrayV,
    validity: Option<Seq<bool>>,
)
    ensures
        make_fixed_list(field, size, child, validity) is Ok <==> size > 0 && child.ty == field.data_type
            && child.len as int % size as int == 0 && marks(validity, child.len as int / size as int),
        make_fixed_list(field, size, child, validity) matches Ok(a) ==> a.ty == TypeModel::FixedSizeList(
            Box::new(field),
            size,
        ) && a.validity == validity && a.body == BodyV::FixedList(Box::new(child)) && a.len == child.len as int
            / size as int,
{
    if size > 0 {
        let n = child.len as int;
        let w = size as int;
        assert(n / w >= 0) by (nonlinear_arith)
            requires
                n >= 0,
                w > 0,
        ;
    }
}

/// Columns make a column of structs where there is one for each field, each of the
/// field's type and of the length, and validity is marked for the structs.
pub proof fn law_columns_make_structs(
    fields: Seq<FieldModel>,
    columns: Seq<ArrayV>,
    len: nat,
    validity: Option<Seq<bool>>,
)
    ensures
        make_struct(fields, columns, len, validity) is Ok <==> fields.len() == columns.len() && marks(validity, len as int)
            && forall|k: int|
            #![trigger columns[k]]
            0 <= k < columns.len() ==> columns[k].len == len && columns[k].ty == fields[k].data_type,
        make_struct(fields, columns, len, validity) matches Ok(a) ==> a == (ArrayV {
            ty: TypeModel::Struct(fields),
            len,
            validity,
            body: BodyV::Struct(columns),
        }),
        make_rows(fields, columns, validity) is Ok ==> columns.len() > 0 && make_rows(fields, columns, validity)
            == make_struct(fields, columns, columns[0].len, validity),
{
    lemma_columns_fit(fields, columns, columns.len(), len);
}

} // verus!
