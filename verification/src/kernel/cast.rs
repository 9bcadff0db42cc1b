//! Converting a column to another type.
//!
//! Numbers convert among the numeric types. Instants and spans convert to and
//! from 64-bit integers, text to and from bytes, offsets to and from the wider
//! kind. Nulls convert to and from anything. Nothing else converts.
use vstd::prelude::*;
use std::sync::Arc;
use crate::array::column::{share_bits, Array, ArrayRef, Body};
use crate::array::flats::retype;
use crate::array::fresh::{fresh, new_null_array, nulls_fit};
use crate::array::model::{is_text, is_var, max_offset, offsets_ok, ArrayV};
use crate::array::parts::{first_bad_text, lemma_all_text, make_var, null_array};
use crate::buffer::share;
use crate::datatype::{clone_type, type_equal, DataType, TypeModel};
use crate::error::{DataError, DataErrorModel};
use crate::kernel::numbers::{
    first_unfit, holds_all, is_numeric, lemma_scalar_ok, number_column, scalar_at, scalars, Scalar,
};

verus! {

/// What becomes of a number that does not fit.
#[derive(Debug, Clone, Copy, PartialEq, Eq, Structural, Hash, Default)]
#[non_exhaustive]
pub enum OverflowPolicy {
    /// It moves into the range: the nearest end of a range of integers, an
    /// infinity of a floating-point type.
    #[default]
    Saturate,
    /// The conversion fails.
    Error,
}

/// Whether one of the types is 64-bit integers and the other counts
/// nanoseconds.
pub open spec fn relabels(from: TypeModel, to: TypeModel) -> bool {
    ||| (from is Timestamp || from is Duration) && to is Int64
    ||| from is Int64 && (to is Timestamp || to is Duration)
}

/// Whether the types are text and bytes of one offset width, or one of them in
/// two widths.
pub open spec fn rereads(from: TypeModel, to: TypeModel) -> bool {
    &&& is_var(from)
    &&& is_var(to)
    &&& from != to
    &&& is_text(from) == is_text(to) || max_offset(from) == max_offset(to)
}

/// The first of the first `count` offsets past a limit.
pub open spec fn first_past(offsets: Seq<i64>, max: int, count: nat) -> Option<nat>
    decreases count,
{
    if count == 0 {
        None
    } else {
        match first_past(offsets, max, (count - 1) as nat) {
            Some(i) => Some(i),
            None => if offsets[count - 1] > max {
                Some((count - 1) as nat)
            } else {
                None
            },
        }
    }
}

/// The same byte strings under another type: offsets that fit, text where the
/// type says text.
pub open spec fn reread(a: ArrayV, to: TypeModel) -> Result<ArrayV, DataErrorModel> {
    let offsets = a.body->Var_offsets;
    match first_past(offsets, max_offset(to), offsets.len()) {
        Some(i) => Err(
            DataErrorModel::OffsetWidthOverflow {
                total: offsets[i as int] as usize,
                max: max_offset(to) as usize,
            },
        ),
        None => if is_text(to) && first_bad_text(offsets, a.body->Var_values, a.len) is Some {
            Err(
                DataErrorModel::InvalidUtf8 {
                    index: first_bad_text(offsets, a.body->Var_values, a.len)->0 as usize,
                },
            )
        } else {
            Ok(ArrayV { ty: to, ..a })
        },
    }
}

/// The numbers of a column, none where a slot is null.
pub open spec fn scalars_of(a: ArrayV) -> Seq<Option<Scalar>> {
    Seq::new(
        a.len,
        |i: int|
            if a.valid_at(i) {
                Some(scalar_at(a, i))
            } else {
                None
            },
    )
}

/// What converting a column gives.
pub open spec fn cast_of(r: Result<ArrayRef, DataError>, a: ArrayV, to: TypeModel, policy: OverflowPolicy) -> bool {
    if a.ty == to {
        r matches Ok(b) && b@ == a
    } else if a.ty is Null {
        match r {
            Ok(b) => fresh(to, a.len) == Ok::<ArrayV, DataErrorModel>(b@),
            Err(e) => fresh(to, a.len) == Err::<ArrayV, DataErrorModel>(e@),
        }
    } else if to is Null {
        r matches Ok(b) && b@ == null_array(a.len)
    } else if relabels(a.ty, to) {
        r matches Ok(b) && b@ == (ArrayV { ty: to, ..a })
    } else if rereads(a.ty, to) {
        match r {
            Ok(b) => reread(a, to) == Ok::<ArrayV, DataErrorModel>(b@),
            Err(e) => reread(a, to) == Err::<ArrayV, DataErrorModel>(e@),
        }
    } else if is_numeric(a.ty) && is_numeric(to) {
        let over = first_unfit(scalars_of(a), to, a.len);
        if policy == OverflowPolicy::Error && over is Some {
            r matches Err(e) && e@ == (DataErrorModel::CastOverflow { from: a.ty, to, index: over->0 as usize })
        } else {
            r matches Ok(b) && b@.ty == to && holds_all(b@, scalars_of(a))
        }
    } else {
        r matches Err(e) && e@ == (DataErrorModel::UnsupportedCast { from: a.ty, to })
    }
}

proof fn lemma_first_past_stays(offsets: Seq<i64>, max: int, count: nat, all: nat)
    requires
        count <= all,
        first_past(offsets, max, count) is Some,
    ensures
        first_past(offsets, max, all) == first_past(offsets, max, count),
    decreases all,
{
    if count < all {
        lemma_first_past_stays(offsets, max, count, (all - 1) as nat);
    }
}

/// Where no offset is past the limit, none is.
proof fn lemma_none_past(offsets: Seq<i64>, max: int, count: nat)
    requires
        first_past(offsets, max, count) is None,
    ensures
        forall|i: int| #![trigger offsets[i]] 0 <= i < count ==> offsets[i] <= max,
    decreases count,
{
    if count > 0 {
        lemma_none_past(offsets, max, (count - 1) as nat);
    }
}

/// What making the byte strings of a column under another type gives.
proof fn lemma_reread(a: ArrayV, to: TypeModel)
    requires
        a.wf(),
        is_var(a.ty),
        is_var(to),
        first_past(a.body->Var_offsets, max_offset(to), a.body->Var_offsets.len()) is None,
    ensures
        make_var(to, a.body->Var_offsets, a.body->Var_values, a.validity) == reread(a, to),
{
    let offsets = a.body->Var_offsets;
    let values = a.body->Var_values;
    lemma_none_past(offsets, max_offset(to), offsets.len());
    assert(offsets_ok(offsets, a.len, values.len() as int, max_offset(a.ty)));
    assert(offsets_ok(offsets, a.len, values.len() as int, max_offset(to))) by {
        assert(offsets.last() == offsets[offsets.len() - 1]);
    }
    crate::array::parts::lemma_offsets_ok_no_error(offsets, a.len, values.len() as int, max_offset(to));
}

/// The same byte strings under another type.
fn reread_column(array: &ArrayRef, to: &DataType) -> (r: Result<ArrayRef, DataError>)
    requires
        is_var(array@.ty),
        is_var(to@),
    ensures
        match r {
            Ok(b) => reread(array@, to@) == Ok::<ArrayV, DataErrorModel>(b@),
            Err(e) => reread(array@, to@) == Err::<ArrayV, DataErrorModel>(e@),
        },
{
    let ghost a = array@;
    let n: usize = array.len();
    match array.body() {
        Body::Var { offsets, values } => {
            let max: u64 = crate::array::column::max_offset_of(to);
            let count: usize = offsets.len();
            let mut i: usize = 0;
            while i < count
                invariant
                    0 <= i <= count == offsets@.len(),
                    a == array@,
                    max == max_offset(to@),
                    offsets@ == a.body->Var_offsets,
                    a.wf(),
                    is_var(a.ty),
                    first_past(offsets@, max as int, i as nat) is None,
                ensures
                    i == count,
                    first_past(offsets@, max as int, count as nat) is None,
                decreases count - i,
            {
                let value: i64 = offsets.at(i);
                proof {
                    assert(value >= 0);
                }
                if value as u64 > max {
                    proof {
                        assert(first_past(offsets@, max as int, (i + 1) as nat) == Some(i as nat));
                        lemma_first_past_stays(offsets@, max as int, (i + 1) as nat, offsets@.len());
                        assert(reread(a, to@) == Err::<ArrayV, DataErrorModel>(
                            DataErrorModel::OffsetWidthOverflow { total: value as usize, max: max as usize },
                        ));
                    }
                    return Err(DataError::OffsetWidthOverflow { total: value as usize, max: max as usize });
                }
                i = i + 1;
            }
            proof {
                lemma_reread(a, to@);
            }
            match Array::var(clone_type(to), offsets.share(), values.share(), share_bits(array.validity())) {
                Ok(out) => Ok(Arc::new(out)),
                Err(e) => Err(e),
            }
        },
        _ => Ok(share(array)),
    }
}

/// Converts numbers.
fn cast_numeric(array: &ArrayRef, to: &DataType, policy: OverflowPolicy) -> (r: Result<ArrayRef, DataError>)
    requires
        array@.ty != to@,
        !(array@.ty is Null),
        !(to@ is Null),
        !relabels(array@.ty, to@),
        !rereads(array@.ty, to@),
    ensures
        cast_of(r, array@, to@, policy),
{
    let ghost a = array@;
    let n: usize = array.len();
    match scalars(array) {
        Some(numbers) => {
            proof {
                assert(numbers@ =~= scalars_of(a));
                assert forall|i: int| #![trigger numbers@[i]] 0 <= i < numbers@.len() && numbers@[i] is Some implies
                    crate::kernel::numbers::scalar_ok(numbers@[i]->0) by {
                    lemma_scalar_ok(a, i);
                }
            }
            let strict = match policy {
                OverflowPolicy::Saturate => false,
                OverflowPolicy::Error => true,
            };
            match number_column(&numbers, to, strict) {
                Some(made) => match made {
                    Ok(b) => Ok(b),
                    Err(i) => Err(DataError::cast_overflow(clone_type(array.data_type()), clone_type(to), i)),
                },
                None => Err(DataError::unsupported_cast(clone_type(array.data_type()), clone_type(to))),
            }
        },
        None => Err(DataError::unsupported_cast(clone_type(array.data_type()), clone_type(to))),
    }
}

/// Converts a column to another type.
pub fn cast(array: &ArrayRef, to: &DataType, policy: OverflowPolicy) -> (r: Result<ArrayRef, DataError>)
    requires
        array@.ty is Null ==> nulls_fit(to@, array@.len),
    ensures
        cast_of(r, array@, to@, policy),
{
    let n: usize = array.len();
    let from = array.data_type();
    if type_equal(from, to) {
        return Ok(share(array));
    }
    match (from, to) {
        (DataType::Null, _) => new_null_array(to, n),
        (_, DataType::Null) => Ok(Arc::new(Array::null(n))),
        (DataType::Timestamp, DataType::Int64)
        | (DataType::Duration, DataType::Int64)
        | (DataType::Int64, DataType::Timestamp)
        | (DataType::Int64, DataType::Duration) => Ok(retype(array, clone_type(to))),
        (DataType::Utf8, DataType::Binary)
        | (DataType::Binary, DataType::Utf8)
        | (DataType::LargeUtf8, DataType::LargeBinary)
        | (DataType::LargeBinary, DataType::LargeUtf8)
        | (DataType::Utf8, DataType::LargeUtf8)
        | (DataType::LargeUtf8, DataType::Utf8)
        | (DataType::Binary, DataType::LargeBinary)
        | (DataType::LargeBinary, DataType::Binary) => reread_column(array, to),
        _ => cast_numeric(array, to, policy),
    }
}

/// Text read as bytes, or through wider offsets, and back is the same column.
pub proof fn law_reread_returns(a: ArrayV, to: TypeModel)
    requires
        a.wf(),
        rereads(a.ty, to),
        reread(a, to) is Ok,
    ensures
        reread(a, to) == Ok::<ArrayV, DataErrorModel>(ArrayV { ty: to, ..a }),
        reread(reread(a, to)->Ok_0, a.ty) == Ok::<ArrayV, DataErrorModel>(a),
{
    let offsets = a.body->Var_offsets;
    let values = a.body->Var_values;
    assert(offsets_ok(offsets, a.len, values.len() as int, max_offset(a.ty)));
    if first_past(offsets, max_offset(a.ty), offsets.len()) is Some {
        lemma_past_is(offsets, max_offset(a.ty), offsets.len());
    }
    if is_text(a.ty) {
        lemma_all_text(offsets, values, a.len);
    }
}

/// An offset found past a limit is past it.
proof fn lemma_past_is(offsets: Seq<i64>, max: int, count: nat)
    requires
        first_past(offsets, max, count) is Some,
    ensures
        first_past(offsets, max, count)->0 < count,
        offsets[first_past(offsets, max, count)->0 as int] > max,
    decreases count,
{
    if first_past(offsets, max, (count - 1) as nat) is Some {
        lemma_past_is(offsets, max, (count - 1) as nat);
    }
}

/// Integers that go to a wider range and back are the same integers, whatever
/// the policy.
pub proof fn law_integers_widen_exactly(x: int, from: (int, int), to: (int, int))
    requires
        i64::MIN <= to.0 <= from.0 <= x <= from.1 <= to.1 <= u64::MAX,
    ensures
        ({
            let there = crate::kernel::numbers::integer_for(Scalar::Integer(x as i128), to.0, to.1);
            &&& crate::kernel::numbers::integer_fits(Scalar::Integer(x as i128), to.0, to.1)
            &&& there == x
            &&& crate::kernel::numbers::integer_for(Scalar::Integer(there as i128), from.0, from.1) == x
        }),
{
}

} // verus!
