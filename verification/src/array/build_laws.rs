//! That columns hold what they are built from, slot by slot.
use vstd::prelude::*;
use vstd::utf8::valid_utf8;
use crate::array::flats::{bits_column, filled_bits};
use crate::array::fresh::{fresh, lemma_nulls_cells, size_error};
use crate::array::model::{ArrayV, BodyV, Cell};
use crate::array::native::ArrowNativeType;
use crate::array::nested::{lemma_sized_column, make_lengths, make_sized, sized_lists, totals};
use crate::array::primitive::{bytes_of, column_of, filled, lemma_column_of, present, values_of};
use crate::array::strings::{lemma_strings_of, slot_lists, strings_fit, strings_of};
use crate::datatype::{FieldModel, TypeModel};
use crate::error::DataErrorModel;
use crate::flat::flat;

verus! {

/// Whether slot `i` is marked null.
pub open spec fn no_value(a: ArrayV, i: int) -> bool {
    a.validity matches Some(v) && !v[i]
}

/// A column of values holds each in its slot.
pub proof fn law_values_are_held<T: ArrowNativeType>(values: Seq<T>, validity: Option<Seq<bool>>)
    requires
        validity matches Some(v) ==> v.len() == values.len(),
        values.len() <= usize::MAX,
        bytes_of(values).len() <= usize::MAX,
    ensures
        column_of(values, validity).ty == T::type_model(),
        column_of(values, validity).len == values.len(),
        column_of(values, validity).validity == validity,
        values_of::<T>(column_of(values, validity)) == values,
        forall|i: int|
            #![trigger column_of(values, validity).cell(i)]
            0 <= i < values.len() && !(T::type_model() is Null) ==> column_of(values, validity).cell(i) == (
            if no_value(column_of(values, validity), i) {
                Cell::Null
            } else {
                Cell::Bytes(values[i].le_bytes())
            }),
{
    lemma_column_of(values, validity);
}

/// A column of optional values holds each in its slot, and a null where there is
/// none.
pub proof fn law_optional_values_are_held<T: ArrowNativeType>(values: Seq<Option<T>>, i: int)
    requires
        values.len() <= usize::MAX,
        bytes_of(filled(values)).len() <= usize::MAX,
        0 <= i < values.len(),
    ensures
        ({
            let a = column_of(filled(values), present(values));
            &&& a.len == values.len()
            &&& no_value(a, i) <==> values[i] is None
            &&& values[i] matches Some(v) ==> values_of::<T>(a)[i] == v
        }),
{
    lemma_column_of(filled(values), present(values));
}

/// A column of optional bits holds each in its slot, and a null where there is
/// none.
pub proof fn law_optional_bits_are_held(bits: Seq<Option<bool>>, i: int)
    requires
        0 <= i < bits.len(),
    ensures
        ({
            let a = bits_column(filled_bits(bits), present(bits));
            &&& a.ty is Bool
            &&& a.len == bits.len()
            &&& a.cell(i) == match bits[i] {
                Some(b) => Cell::Bool(b),
                None => Cell::Null,
            }
        }),
{
}

/// A column of optional byte strings holds each in its slot, and a null where
/// there is none.
pub proof fn law_strings_are_held(t: TypeModel, slots: Seq<Option<Seq<u8>>>, i: int)
    requires
        t is Binary || t is LargeBinary || t is Utf8 || t is LargeUtf8,
        strings_fit(t, slots),
        slots.len() <= usize::MAX,
        flat(slot_lists(slots)).len() <= usize::MAX,
        t is Utf8 || t is LargeUtf8 ==> forall|i: int|
            #![trigger slots[i]]
            0 <= i < slots.len() && slots[i] is Some ==> valid_utf8(slots[i]->0),
        0 <= i < slots.len(),
    ensures
        strings_of(t, slots).ty == t,
        strings_of(t, slots).len == slots.len(),
        strings_of(t, slots).cell(i) == match slots[i] {
            Some(b) => Cell::Bytes(b),
            None => Cell::Null,
        },
{
    lemma_strings_of(t, slots);
}

/// A column of byte strings of one size holds each in its slot, and a null where
/// there is none; it is refused exactly where a size is not positive or a byte
/// string has another.
pub proof fn law_sized_strings_are_held(size: i32, slots: Seq<Option<Seq<u8>>>)
    requires
        slots.len() <= usize::MAX,
        flat(sized_lists(size as nat, slots)).len() <= usize::MAX,
    ensures
        match make_sized(size, slots) {
            Ok(a) => {
                &&& size > 0
                &&& a.ty == TypeModel::FixedSizeBinary(size)
                &&& a.len == slots.len()
                &&& forall|i: int|
                    #![trigger slots[i]]
                    0 <= i < slots.len() ==> a.cell(i) == match slots[i] {
                        Some(b) => Cell::Bytes(b),
                        None => Cell::Null,
                    } && (slots[i] matches Some(b) ==> b.len() == size)
            },
            Err(e) => size <= 0 || exists|i: int|
                #![trigger slots[i]]
                0 <= i < slots.len() && (slots[i] matches Some(b) && b.len() != size),
        },
{
    if size > 0 {
        lemma_missized(size as nat, slots, slots.len());
        if make_sized(size, slots) is Ok {
            assert forall|i: int| #![trigger slots[i]] 0 <= i < slots.len() && slots[i] is Some implies slots[i]->0.len()
                == size by {}
            lemma_sized_column(size, slots);
            let a = make_sized(size, slots)->Ok_0;
            assert forall|i: int| #![trigger slots[i]] 0 <= i < slots.len() implies a.cell(i) == match slots[i] {
                Some(b) => Cell::Bytes(b),
                None => Cell::Null,
            } by {
                assert(a.cell(i) == a.cell(i));
            }
        }
    }
}

proof fn lemma_missized(size: nat, slots: Seq<Option<Seq<u8>>>, count: nat)
    requires
        count <= slots.len(),
    ensures
        match crate::array::nested::first_missized(size, slots, count) {
            Some(k) => k < count && (slots[k as int] matches Some(b) && b.len() != size),
            None => forall|i: int|
                #![trigger slots[i]]
                0 <= i < count ==> (slots[i] matches Some(b) ==> b.len() == size),
        },
    decreases count,
{
    if count > 0 {
        lemma_missized(size, slots, (count - 1) as nat);
    }
}

/// Lists of given lengths hold the child's slots one behind the other: each starts
/// where the one before it ends.
pub proof fn law_lists_follow_one_another(field: FieldModel, lengths: Seq<usize>, child: ArrayV, a: ArrayV, i: int)
    requires
        make_lengths(field, lengths, child) == Ok::<ArrayV, DataErrorModel>(a),
        0 <= i < lengths.len(),
    ensures
        a.ty == TypeModel::List(Box::new(field)),
        a.len == lengths.len(),
        a.body matches BodyV::List { offsets, child: held } && {
            &&& *held == child
            &&& offsets[0] == 0
            &&& offsets[i + 1] == offsets[i] + lengths[i]
        },
        a.cell(i) matches Cell::Nested(items) && items.len() == lengths[i] && forall|j: int|
            #![trigger items[j]]
            0 <= j < items.len() ==> items[j] == child.cell(a.body->List_offsets[i] + j),
{
    lemma_totals(lengths, i as nat, lengths.len());
    lemma_totals(lengths, (i + 1) as nat, lengths.len());
    lemma_totals(lengths, 0, lengths.len());
}

/// Totals that all fit are below the largest offset.
proof fn lemma_totals(lengths: Seq<usize>, k: nat, count: nat)
    requires
        k <= count,
        crate::array::nested::first_long(lengths, count) is None,
    ensures
        totals(lengths, k) <= i32::MAX,
    decreases count,
{
    if k < count {
        lemma_totals(lengths, k, (count - 1) as nat);
    }
}

/// A column of nulls has as many slots as it is asked for, all null, under the
/// type; it is refused exactly where a size in the type is not positive.
pub proof fn law_null_columns_are_null(t: TypeModel, len: nat)
    ensures
        fresh(t, len) is Ok <==> sizes_positive(t),
        fresh(t, len) matches Ok(a) ==> a.ty == t && a.len == len && forall|i: int|
            #![trigger a.cell(i)]
            0 <= i < len ==> a.cell(i) is Null,
{
    lemma_sizes(t);
    if let Ok(a) = fresh(t, len) {
        lemma_nulls_cells(t, len);
        assert forall|i: int| #![trigger a.cell(i)] 0 <= i < len implies a.cell(i) is Null by {
            assert(a.cells()[i] == a.cell(i));
        }
    }
}

/// Whether every size in a type is positive.
pub open spec fn sizes_positive(t: TypeModel) -> bool
    decreases t,
{
    match t {
        TypeModel::FixedSizeBinary(w) => w > 0,
        TypeModel::FixedSizeList(f, n) => n > 0 && sizes_positive(f.data_type),
        TypeModel::List(f) => sizes_positive(f.data_type),
        TypeModel::Struct(fs) => forall|k: int|
            #![trigger fs[k]]
            0 <= k < fs.len() ==> sizes_positive(fs[k].data_type),
        _ => true,
    }
}

proof fn lemma_sizes(t: TypeModel)
    ensures
        size_error(t) is None <==> sizes_positive(t),
    decreases t, 0int,
{
    match t {
        TypeModel::FixedSizeList(f, _) => {
            lemma_sizes(f.data_type);
        },
        TypeModel::List(f) => {
            lemma_sizes(f.data_type);
        },
        TypeModel::Struct(fs) => {
            lemma_sizes_all(fs);
        },
        _ => {},
    }
}

proof fn lemma_sizes_all(fs: Seq<FieldModel>)
    ensures
        crate::array::fresh::sizes_error(fs) is None <==> forall|k: int|
            #![trigger fs[k]]
            0 <= k < fs.len() ==> sizes_positive(fs[k].data_type),
    decreases fs, 1int,
{
    if fs.len() > 0 {
        let rest = fs.drop_last();
        lemma_sizes_all(rest);
        lemma_sizes(fs.last().data_type);
        assert(fs.last() == fs[fs.len() - 1]);
        if crate::array::fresh::sizes_error(fs) is None {
            assert forall|k: int| #![trigger fs[k]] 0 <= k < fs.len() implies sizes_positive(fs[k].data_type) by {
                if k < rest.len() {
                    assert(rest[k] == fs[k]);
                }
            }
        }
        if forall|k: int| #![trigger fs[k]] 0 <= k < fs.len() ==> sizes_positive(fs[k].data_type) {
            assert forall|k: int| #![trigger rest[k]] 0 <= k < rest.len() implies sizes_positive(rest[k].data_type) by {
                assert(rest[k] == fs[k]);
            }
        }
    }
}

} // verus!
