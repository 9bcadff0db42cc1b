//! What conversion among the numeric types gives, said of the numbers in the
//! columns.
use vstd::prelude::*;
use vstd::arithmetic::power2::{lemma_pow2_adds, lemma_pow2_pos, pow2};
use vstd::utf8::valid_utf8;
use crate::array::column::ArrayRef;
use crate::array::model::ArrayV;
use crate::array::native::{F16, F32, F64};
use crate::array::primitive::values_of;
use crate::datatype::TypeModel;
use crate::error::{DataError, DataErrorModel};
use crate::float::{bits_of, number_of, whole_part, FloatKind, Number};
use crate::float_laws::{
    are_bits, becomes, has_sign, is_endless, is_finite, law_bits_are_read_as_worth, law_formats_round,
    law_numbers_round, law_widening_keeps_the_number, product, rounds_to, worth,
};
use crate::kernel::cast::{cast_of, scalars_of, OverflowPolicy};
use crate::kernel::numbers::{first_unfit, scalar_at, scalar_fits, Scalar};
use crate::kernel::row_laws::{marked_null, stored};

verus! {

/// The least and the greatest integer of a type.
pub open spec fn bounds(t: TypeModel) -> (int, int) {
    match t {
        TypeModel::Int8 => (-128, 127),
        TypeModel::Int16 => (-32768, 32767),
        TypeModel::Int32 => (-0x8000_0000, 0x7FFF_FFFF),
        TypeModel::Int64 => (-0x8000_0000_0000_0000, 0x7FFF_FFFF_FFFF_FFFF),
        TypeModel::UInt8 => (0, 255),
        TypeModel::UInt16 => (0, 65535),
        TypeModel::UInt32 => (0, 0xFFFF_FFFF),
        TypeModel::UInt64 => (0, 0xFFFF_FFFF_FFFF_FFFF),
        _ => (0, 0),
    }
}

/// Whether a type is one of the eight of integers.
pub open spec fn counts(t: TypeModel) -> bool {
    t is Int8 || t is Int16 || t is Int32 || t is Int64 || t is UInt8 || t is UInt16 || t is UInt32 || t is UInt64
}

/// Whether `y` is the integer of a range that is nearest to `x`.
pub open spec fn nearest_in(y: int, x: int, range: (int, int)) -> bool {
    &&& range.0 <= y <= range.1
    &&& x < range.0 ==> y == range.0
    &&& x > range.1 ==> y == range.1
    &&& range.0 <= x <= range.1 ==> y == x
}

/// Whether the same slots of two columns are null.
pub open spec fn null_alike(a: ArrayV, b: ArrayV) -> bool {
    &&& a.len == b.len
    &&& forall|i: int| #![trigger marked_null(b, i)] 0 <= i < b.len ==> marked_null(b, i) == marked_null(a, i)
}

/// The format of a floating-point type.
pub open spec fn float_format(t: TypeModel) -> FloatKind {
    match t {
        TypeModel::Float16 => FloatKind::Half,
        TypeModel::Float32 => FloatKind::Single,
        _ => FloatKind::Double,
    }
}

/// Whether a type is one of the three of floating-point numbers.
pub open spec fn floats(t: TypeModel) -> bool {
    t is Float16 || t is Float32 || t is Float64
}

/// The bits that a slot of a column of floating-point numbers stores.
pub open spec fn stored_bits(a: ArrayV, i: int) -> int {
    match a.ty {
        TypeModel::Float16 => values_of::<F16>(a)[i].bits as int,
        TypeModel::Float32 => values_of::<F32>(a)[i].bits as int,
        TypeModel::Float64 => values_of::<F64>(a)[i].bits as int,
        _ => 0,
    }
}

/// Which number is found not to fit: the first.
proof fn lemma_first_unfit(numbers: Seq<Option<Scalar>>, t: TypeModel, count: nat)
    ensures
        match first_unfit(numbers, t, count) {
            Some(k) => k < count && numbers[k as int] is Some && !scalar_fits(numbers[k as int]->0, t) && forall|j: int|
                #![trigger numbers[j]]
                0 <= j < k && numbers[j] is Some ==> scalar_fits(numbers[j]->0, t),
            None => forall|j: int|
                #![trigger numbers[j]]
                0 <= j < count && numbers[j] is Some ==> scalar_fits(numbers[j]->0, t),
        },
    decreases count,
{
    if count > 0 {
        lemma_first_unfit(numbers, t, (count - 1) as nat);
    }
}

/// The stored integer lies within its type's bounds.
proof fn lemma_stored(a: ArrayV, i: int)
    requires
        counts(a.ty),
    ensures
        bounds(a.ty).0 <= stored(a, i) <= bounds(a.ty).1,
        scalar_at(a, i) == Scalar::Integer(stored(a, i) as i128),
        -0x8000_0000_0000_0000 <= stored(a, i) <= 0xFFFF_FFFF_FFFF_FFFF,
{
}

/// Integers that move into a type's range become the nearest of its integers: the
/// least where they are below it, the greatest where they are above, otherwise
/// themselves. Nulls stay null, and nothing is refused.
pub proof fn law_integers_saturate(r: Result<ArrayRef, DataError>, a: ArrayV, to: TypeModel)
    requires
        a.wf(),
        counts(a.ty),
        counts(to),
        cast_of(r, a, to, OverflowPolicy::Saturate),
    ensures
        r matches Ok(b) && {
            &&& b@.ty == to
            &&& null_alike(a, b@)
            &&& forall|i: int|
                #![trigger stored(b@, i)]
                0 <= i < a.len && !marked_null(a, i) ==> nearest_in(stored(b@, i), stored(a, i), bounds(to))
        },
{
    let b = r->Ok_0@;
    let numbers = scalars_of(a);
    if a.ty == to {
        assert forall|i: int| #![trigger stored(b, i)] 0 <= i < a.len implies nearest_in(
            stored(b, i),
            stored(a, i),
            bounds(to),
        ) by {
            lemma_stored(a, i);
        }
    } else {
        assert forall|i: int| #![trigger marked_null(b, i)] 0 <= i < b.len implies marked_null(b, i) == marked_null(
            a,
            i,
        ) by {
            assert(numbers[i] is Some <==> !marked_null(a, i));
        }
        assert forall|i: int| #![trigger stored(b, i)] 0 <= i < a.len && !marked_null(a, i) implies nearest_in(
            stored(b, i),
            stored(a, i),
            bounds(to),
        ) by {
            lemma_stored(a, i);
            lemma_stored(b, i);
            assert(numbers[i] == Some(scalar_at(a, i)));
        }
    }
}

/// Where integers must fit, they become themselves if every one lies in the
/// type's range; otherwise the first that does not is named.
pub proof fn law_integers_fit_or_fail(r: Result<ArrayRef, DataError>, a: ArrayV, to: TypeModel)
    requires
        a.wf(),
        a.len <= usize::MAX,
        counts(a.ty),
        counts(to),
        cast_of(r, a, to, OverflowPolicy::Error),
    ensures
        match r {
            Ok(b) => {
                &&& b@.ty == to
                &&& null_alike(a, b@)
                &&& forall|i: int|
                    #![trigger stored(b@, i)]
                    0 <= i < a.len && !marked_null(a, i) ==> stored(b@, i) == stored(a, i)
            },
            Err(e) => e@ matches DataErrorModel::CastOverflow { from, to: wanted, index } && {
                &&& from == a.ty && wanted == to && index < a.len
                &&& !marked_null(a, index as int)
                &&& !(bounds(to).0 <= stored(a, index as int) <= bounds(to).1)
                &&& forall|j: int|
                    #![trigger stored(a, j)]
                    0 <= j < index && !marked_null(a, j) ==> bounds(to).0 <= stored(a, j) <= bounds(to).1
            },
        },
{
    let numbers = scalars_of(a);
    lemma_first_unfit(numbers, to, a.len);
    assert forall|i: int| #![trigger numbers[i]] 0 <= i < a.len implies (numbers[i] is Some <==> !marked_null(a, i)) && (
    numbers[i] is Some ==> (scalar_fits(numbers[i]->0, to) <==> bounds(to).0 <= stored(a, i) <= bounds(to).1)) by {
        lemma_stored(a, i);
    }
    if a.ty != to {
        match r {
            Ok(b) => {
                assert forall|i: int| #![trigger marked_null(b@, i)] 0 <= i < b@.len implies marked_null(b@, i)
                    == marked_null(a, i) by {
                    assert(numbers[i] is Some <==> !marked_null(a, i));
                }
                assert forall|i: int| #![trigger stored(b@, i)] 0 <= i < a.len && !marked_null(a, i) implies stored(
                    b@,
                    i,
                ) == stored(a, i) by {
                    lemma_stored(a, i);
                    assert(numbers[i] is Some);
                }
            },
            Err(e) => {
                let k = first_unfit(numbers, to, a.len)->0;
                assert(numbers[k as int] is Some);
                assert forall|j: int| #![trigger stored(a, j)] 0 <= j < k && !marked_null(a, j) implies bounds(to).0
                    <= stored(a, j) <= bounds(to).1 by {
                    assert(numbers[j] is Some);
                }
            },
        }
    }
}

/// The integer part of a magnitude is its worth, counted in ones.
proof fn lemma_whole(m: nat, x: int)
    requires
        x >= -1074,
    ensures
        whole_part(m, x) == product(m, x) / pow2(1074),
{
    let one = pow2(1074);
    lemma_pow2_pos(1074);
    if x >= 0 {
        let p = pow2(x as nat);
        lemma_pow2_adds(x as nat, 1074);
        assert(m * (p * one) / one == m * p) by (nonlinear_arith)
            requires
                one > 0,
        ;
    } else {
        let d = pow2((-x) as nat);
        let p = pow2((x + 1074) as nat);
        lemma_pow2_pos((-x) as nat);
        lemma_pow2_pos((x + 1074) as nat);
        lemma_pow2_adds((-x) as nat, (x + 1074) as nat);
        let q = m / d;
        let rest = m % d;
        assert(m == q * d + rest) by (nonlinear_arith)
            requires
                q == m / d,
                rest == m % d,
                d > 0,
        ;
        assert(m * p == q * (d * p) + rest * p) by (nonlinear_arith)
            requires
                m == q * d + rest,
        ;
        assert(0 <= rest * p < d * p) by (nonlinear_arith)
            requires
                0 <= rest < d,
                p > 0,
        ;
        vstd::arithmetic::div_mod::lemma_fundamental_div_mod_converse(
            (m * p) as int,
            one as int,
            q as int,
            (rest * p) as int,
        );
    }
}

/// The integer that bits of a format are with their fraction dropped.
pub open spec fn truncated(bits: int, k: FloatKind) -> int {
    let w = (worth(bits, k) / pow2(1074)) as int;
    if has_sign(bits, k) {
        -w
    } else {
        w
    }
}

/// Whether `y` is what bits of a format become in a range of integers: the nearest
/// to the number with its fraction dropped, an end for an infinity, zero for no
/// number.
pub open spec fn truncates_to(y: int, bits: int, k: FloatKind, range: (int, int)) -> bool {
    &&& is_finite(bits, k) ==> nearest_in(y, truncated(bits, k), range)
    &&& is_endless(bits, k) ==> y == if has_sign(bits, k) {
        range.0
    } else {
        range.1
    }
    &&& !is_finite(bits, k) && !is_endless(bits, k) ==> y == 0
}

/// Whether bits of a format are a number whose integer part lies in a range.
pub open spec fn truncates_within(bits: int, k: FloatKind, range: (int, int)) -> bool {
    is_finite(bits, k) && range.0 <= truncated(bits, k) <= range.1
}

/// What becomes of the bits in a slot, on their way to an integer type.
proof fn lemma_truncation(a: ArrayV, i: int, to: TypeModel)
    requires
        floats(a.ty),
        counts(to),
    ensures
        ({
            let s = scalar_at(a, i);
            let k = float_format(a.ty);
            let range = bounds(to);
            &&& truncates_to(crate::kernel::numbers::integer_for(s, range.0, range.1), stored_bits(a, i), k, range)
            &&& scalar_fits(s, to) <==> truncates_within(stored_bits(a, i), k, range)
        }),
{
    let k = float_format(a.ty);
    let c = stored_bits(a, i);
    let d = bits_of(number_of(c, k), FloatKind::Double);
    assert(are_bits(c, k));
    law_widening_keeps_the_number(c, k);
    law_bits_are_read_as_worth(c, k);
    law_bits_are_read_as_worth(d, FloatKind::Double);
    if let Number::Finite { negative, mantissa, exponent } = number_of(d, FloatKind::Double) {
        lemma_whole(mantissa as nat, exponent as int);
    }
}

/// Floating-point numbers lose their fraction on the way to an integer type and
/// move into its range; nulls stay null, and nothing is refused.
pub proof fn law_floats_saturate_to_integers(r: Result<ArrayRef, DataError>, a: ArrayV, to: TypeModel)
    requires
        a.wf(),
        floats(a.ty),
        counts(to),
        cast_of(r, a, to, OverflowPolicy::Saturate),
    ensures
        r matches Ok(b) && {
            &&& b@.ty == to
            &&& null_alike(a, b@)
            &&& forall|i: int|
                #![trigger stored(b@, i)]
                0 <= i < a.len && !marked_null(a, i) ==> truncates_to(
                    stored(b@, i),
                    stored_bits(a, i),
                    float_format(a.ty),
                    bounds(to),
                )
        },
{
    let b = r->Ok_0@;
    let numbers = scalars_of(a);
    assert forall|i: int| #![trigger marked_null(b, i)] 0 <= i < b.len implies marked_null(b, i) == marked_null(
        a,
        i,
    ) by {
        assert(numbers[i] is Some <==> !marked_null(a, i));
    }
    assert forall|i: int| #![trigger stored(b, i)] 0 <= i < a.len && !marked_null(a, i) implies truncates_to(
        stored(b, i),
        stored_bits(a, i),
        float_format(a.ty),
        bounds(to),
    ) by {
        lemma_truncation(a, i, to);
        assert(numbers[i] == Some(scalar_at(a, i)));
    }
}

/// Where floating-point numbers must fit an integer type, they lose only their
/// fraction; otherwise the first whose integer part lies outside is named.
pub proof fn law_floats_fit_integers_or_fail(r: Result<ArrayRef, DataError>, a: ArrayV, to: TypeModel)
    requires
        a.wf(),
        a.len <= usize::MAX,
        floats(a.ty),
        counts(to),
        cast_of(r, a, to, OverflowPolicy::Error),
    ensures
        match r {
            Ok(b) => {
                &&& b@.ty == to
                &&& null_alike(a, b@)
                &&& forall|i: int|
                    #![trigger marked_null(a, i)]
                    0 <= i < a.len && !marked_null(a, i) ==> is_finite(stored_bits(a, i), float_format(a.ty)) && stored(b@, i)
                        == truncated(stored_bits(a, i), float_format(a.ty))
            },
            Err(e) => e@ matches DataErrorModel::CastOverflow { from, to: wanted, index } && {
                &&& from == a.ty && wanted == to && index < a.len
                &&& !marked_null(a, index as int)
                &&& !truncates_within(stored_bits(a, index as int), float_format(a.ty), bounds(to))
                &&& forall|j: int|
                    #![trigger stored_bits(a, j)]
                    0 <= j < index && !marked_null(a, j) ==> truncates_within(
                        stored_bits(a, j),
                        float_format(a.ty),
                        bounds(to),
                    )
            },
        },
{
    let numbers = scalars_of(a);
    lemma_first_unfit(numbers, to, a.len);
    assert forall|i: int| #![trigger numbers[i]] 0 <= i < a.len implies (numbers[i] is Some <==> !marked_null(a, i)) && (
    numbers[i] is Some ==> (scalar_fits(numbers[i]->0, to) <==> truncates_within(
        stored_bits(a, i),
        float_format(a.ty),
        bounds(to),
    ))) by {
        lemma_truncation(a, i, to);
    }
    match r {
        Ok(b) => {
            assert forall|i: int| #![trigger marked_null(b@, i)] 0 <= i < b@.len implies marked_null(b@, i)
                == marked_null(a, i) by {
                assert(numbers[i] is Some <==> !marked_null(a, i));
            }
            assert forall|i: int| #![trigger marked_null(a, i)] 0 <= i < a.len && !marked_null(a, i) implies is_finite(
                stored_bits(a, i),
                float_format(a.ty),
            ) && stored(b@, i) == truncated(stored_bits(a, i), float_format(a.ty)) by {
                lemma_truncation(a, i, to);
                assert(numbers[i] == Some(scalar_at(a, i)));
            }
        },
        Err(e) => {
            let k = first_unfit(numbers, to, a.len)->0;
            assert(numbers[k as int] is Some);
            assert forall|j: int| #![trigger stored_bits(a, j)] 0 <= j < k && !marked_null(a, j) implies truncates_within(
                stored_bits(a, j),
                float_format(a.ty),
                bounds(to),
            ) by {
                assert(numbers[j] is Some);
            }
        },
    }
}

/// Whether a double is what slot `i` of a column holds: the same number where the
/// column holds floating-point numbers, a nearest one where it holds integers.
pub open spec fn is_double_of(d: int, a: ArrayV, i: int) -> bool {
    if counts(a.ty) {
        let x = stored(a, i);
        rounds_to(
            d,
            FloatKind::Double,
            (if x < 0 {
                -x
            } else {
                x
            }) as nat * pow2(1074),
            x < 0,
        )
    } else {
        let c = stored_bits(a, i);
        let k = float_format(a.ty);
        &&& are_bits(d, FloatKind::Double)
        &&& has_sign(d, FloatKind::Double) == has_sign(c, k)
        &&& is_finite(d, FloatKind::Double) == is_finite(c, k)
        &&& is_endless(d, FloatKind::Double) == is_endless(c, k)
        &&& is_finite(c, k) ==> worth(d, FloatKind::Double) == worth(c, k)
    }
}

/// Whether bits of a format are what a double becomes in it: itself, a nearest
/// single, or a nearest half of a nearest single.
pub open spec fn narrows_to(r: int, k: FloatKind, d: int) -> bool {
    match k {
        FloatKind::Double => r == d,
        FloatKind::Single => becomes(r, FloatKind::Single, d, FloatKind::Double),
        FloatKind::Half => exists|s: int|
            #![trigger becomes(s, FloatKind::Single, d, FloatKind::Double)]
            becomes(s, FloatKind::Single, d, FloatKind::Double) && becomes(r, FloatKind::Half, s, FloatKind::Single),
    }
}

/// Whether bits of a format are what slot `i` of a column becomes, an infinity
/// only where it held one.
pub open spec fn fits_as(n: int, k: FloatKind, a: ArrayV, i: int) -> bool {
    exists|d: int|
        #![trigger is_double_of(d, a, i)]
        is_double_of(d, a, i) && narrows_to(n, k, d) && (is_endless(n, k) ==> is_endless(d, FloatKind::Double))
}

/// Whether the slots of a column are what another's become, infinities only where
/// it held some.
pub open spec fn all_fit_as(b: ArrayV, a: ArrayV) -> bool {
    forall|i: int|
        #![trigger stored_bits(b, i)]
        0 <= i < a.len && !marked_null(a, i) ==> fits_as(stored_bits(b, i), float_format(b.ty), a, i)
}

/// Whether bits of a format are what slot `i` of a column becomes, an infinity
/// where it held none.
pub open spec fn overflows_as(n: int, k: FloatKind, a: ArrayV, i: int) -> bool {
    exists|d: int|
        #![trigger is_double_of(d, a, i)]
        is_double_of(d, a, i) && narrows_to(n, k, d) && is_endless(n, k) && !is_endless(d, FloatKind::Double)
}

/// The double that a slot holds, and what it becomes in a format.
proof fn lemma_narrowing(a: ArrayV, i: int, k: FloatKind) -> (d: int)
    requires
        counts(a.ty) || floats(a.ty),
    ensures
        d == crate::kernel::numbers::double_for(scalar_at(a, i)),
        is_double_of(d, a, i),
        narrows_to(crate::kernel::numbers::narrowed(d, k), k, d),
        are_bits(d, FloatKind::Double),
        are_bits(crate::kernel::numbers::narrowed(d, k), k),
{
    let d = crate::kernel::numbers::double_for(scalar_at(a, i));
    if counts(a.ty) {
        lemma_stored(a, i);
        let x = stored(a, i);
        law_numbers_round(
            x < 0,
            (if x < 0 {
                -x
            } else {
                x
            }) as u64,
            0,
            FloatKind::Double,
        );
    } else {
        assert(are_bits(stored_bits(a, i), float_format(a.ty)));
        law_widening_keeps_the_number(stored_bits(a, i), float_format(a.ty));
    }
    law_formats_round(d, FloatKind::Double, FloatKind::Single);
    let s = bits_of(number_of(d, FloatKind::Double), FloatKind::Single);
    law_formats_round(s, FloatKind::Single, FloatKind::Half);
    d
}

/// Numbers become nearest numbers of a floating-point type, past the largest an
/// infinity; nulls stay null, and nothing is refused.
pub proof fn law_numbers_saturate_to_floats(r: Result<ArrayRef, DataError>, a: ArrayV, to: TypeModel)
    requires
        a.wf(),
        counts(a.ty) || floats(a.ty),
        floats(to),
        a.ty != to,
        cast_of(r, a, to, OverflowPolicy::Saturate),
    ensures
        r matches Ok(b) && {
            &&& b@.ty == to
            &&& null_alike(a, b@)
            &&& forall|i: int|
                #![trigger marked_null(a, i)]
                0 <= i < a.len && !marked_null(a, i) ==> exists|d: int|
                    #![trigger is_double_of(d, a, i)]
                    is_double_of(d, a, i) && narrows_to(stored_bits(b@, i), float_format(to), d)
        },
{
    let b = r->Ok_0@;
    let numbers = scalars_of(a);
    assert forall|i: int| #![trigger marked_null(b, i)] 0 <= i < b.len implies marked_null(b, i) == marked_null(
        a,
        i,
    ) by {
        assert(numbers[i] is Some <==> !marked_null(a, i));
    }
    assert forall|i: int| #![trigger marked_null(a, i)] 0 <= i < a.len && !marked_null(a, i) implies exists|d: int|
        #![trigger is_double_of(d, a, i)]
        is_double_of(d, a, i) && narrows_to(stored_bits(b, i), float_format(to), d) by {
        let d = lemma_narrowing(a, i, float_format(to));
        assert(numbers[i] == Some(scalar_at(a, i)));
        assert(stored_bits(b, i) == crate::kernel::numbers::narrowed(d, float_format(to)));
        assert(is_double_of(d, a, i) && narrows_to(stored_bits(b, i), float_format(to), d));
    }
}

/// Where numbers must fit a floating-point type and do, none becomes an infinity
/// that was none.
pub proof fn law_numbers_fit_floats(b: ArrayRef, a: ArrayV, to: TypeModel)
    requires
        a.wf(),
        counts(a.ty) || floats(a.ty),
        floats(to),
        a.ty != to,
        cast_of(Ok::<ArrayRef, DataError>(b), a, to, OverflowPolicy::Error),
    ensures
        b@.ty == to,
        null_alike(a, b@),
        all_fit_as(b@, a),
{
    let numbers = scalars_of(a);
    lemma_first_unfit(numbers, to, a.len);
    assert forall|i: int| #![trigger marked_null(b@, i)] 0 <= i < b@.len implies marked_null(b@, i) == marked_null(
        a,
        i,
    ) by {
        assert(numbers[i] is Some <==> !marked_null(a, i));
    }
    assert forall|i: int| #![trigger stored_bits(b@, i)] 0 <= i < a.len && !marked_null(a, i) implies fits_as(
        stored_bits(b@, i),
        float_format(b@.ty),
        a,
        i,
    ) by {
        assert(numbers[i] == Some(scalar_at(a, i)));
        let n = lemma_fits_format(a, i, to);
        assert(stored_bits(b@, i) == n);
    }
}

/// Where numbers must fit a floating-point type and are refused, the first is
/// named that would become an infinity and was none.
pub proof fn law_numbers_past_floats_fail(e: DataError, a: ArrayV, to: TypeModel)
    requires
        a.wf(),
        a.len <= usize::MAX,
        counts(a.ty) || floats(a.ty),
        floats(to),
        a.ty != to,
        cast_of(Err::<ArrayRef, DataError>(e), a, to, OverflowPolicy::Error),
    ensures
        e@ matches DataErrorModel::CastOverflow { from, to: wanted, index } && {
            &&& from == a.ty && wanted == to && index < a.len
            &&& !marked_null(a, index as int)
            &&& exists|n: int| #[trigger] overflows_as(n, float_format(to), a, index as int)
            &&& forall|j: int|
                #![trigger marked_null(a, j)]
                0 <= j < index && !marked_null(a, j) ==> exists|n: int| #[trigger] fits_as(n, float_format(to), a, j)
        },
{
    let numbers = scalars_of(a);
    lemma_first_unfit(numbers, to, a.len);
    let at = first_unfit(numbers, to, a.len)->0;
    assert(numbers[at as int] == Some(scalar_at(a, at as int)));
    let n = lemma_fits_format(a, at as int, to);
    assert(overflows_as(n, float_format(to), a, at as int));
    let index = e@->CastOverflow_index;
    assert(index as int == at);
    assert(overflows_as(n, float_format(to), a, index as int));
    assert forall|j: int| #![trigger marked_null(a, j)] 0 <= j < at && !marked_null(a, j) implies exists|n: int|
        #[trigger] fits_as(n, float_format(to), a, j) by {
        assert(numbers[j] == Some(scalar_at(a, j)));
        let n = lemma_fits_format(a, j, to);
        assert(fits_as(n, float_format(to), a, j));
    }
}

/// A number fits a floating-point type unless it becomes an infinity that it was
/// not.
proof fn lemma_fits_format(a: ArrayV, i: int, to: TypeModel) -> (n: int)
    requires
        counts(a.ty) || floats(a.ty),
        floats(to),
    ensures
        n == crate::kernel::numbers::narrowed(crate::kernel::numbers::double_for(scalar_at(a, i)), float_format(to)),
        scalar_fits(scalar_at(a, i), to) ==> fits_as(n, float_format(to), a, i),
        !scalar_fits(scalar_at(a, i), to) ==> overflows_as(n, float_format(to), a, i),
{
    let k = float_format(to);
    let d = lemma_narrowing(a, i, k);
    let n = crate::kernel::numbers::narrowed(d, k);
    lemma_endless(d, FloatKind::Double);
    lemma_endless(n, k);
    assert(is_double_of(d, a, i) && narrows_to(n, k, d));
    n
}

/// Which bits are an infinity.
proof fn lemma_endless(bits: int, k: FloatKind)
    requires
        are_bits(bits, k),
    ensures
        crate::kernel::numbers::is_infinite(bits, k) == is_endless(bits, k),
{
    match k {
        FloatKind::Half => {},
        FloatKind::Single => {},
        FloatKind::Double => {},
    }
}

/// Whether two types are text and bytes with offsets of one width, or text or
/// bytes with offsets of both widths.
pub open spec fn text_pair(a: TypeModel, b: TypeModel) -> bool {
    ||| a is Utf8 && b is Binary || a is Binary && b is Utf8
    ||| a is LargeUtf8 && b is LargeBinary || a is LargeBinary && b is LargeUtf8
    ||| a is Utf8 && b is LargeUtf8 || a is LargeUtf8 && b is Utf8
    ||| a is Binary && b is LargeBinary || a is LargeBinary && b is Binary
}

/// Whether two types are 64-bit integers and nanoseconds.
pub open spec fn time_pair(a: TypeModel, b: TypeModel) -> bool {
    a is Int64 && (b is Timestamp || b is Duration) || b is Int64 && (a is Timestamp || a is Duration)
}

/// A conversion is refused as such exactly where the types are different, none of
/// them is that of nulls, not both are of numbers, and they are no text and bytes
/// and no integers and nanoseconds that belong together.
pub proof fn law_only_related_types_convert(
    r: Result<ArrayRef, DataError>,
    a: ArrayV,
    to: TypeModel,
    policy: OverflowPolicy,
)
    requires
        cast_of(r, a, to, policy),
    ensures
        (r matches Err(e) && e@ is UnsupportedCast) <==> !(a.ty == to || a.ty is Null || to is Null || time_pair(
            a.ty,
            to,
        ) || text_pair(a.ty, to) || ((counts(a.ty) || floats(a.ty)) && (counts(to) || floats(to)))),
        r matches Err(e) && e@ is UnsupportedCast ==> r->Err_0@ == (DataErrorModel::UnsupportedCast {
            from: a.ty,
            to,
        }),
{
    if a.ty is Null && a.ty != to {
        lemma_fresh_errors(to);
    }
}

/// What is wrong with a size is no unsupported conversion.
proof fn lemma_fresh_errors(t: TypeModel)
    ensures
        crate::array::fresh::size_error(t) matches Some(e) ==> !(e is UnsupportedCast),
    decreases t, 0int,
{
    match t {
        TypeModel::FixedSizeList(f, _) => {
            lemma_fresh_errors(f.data_type);
        },
        TypeModel::List(f) => {
            lemma_fresh_errors(f.data_type);
        },
        TypeModel::Struct(fs) => {
            lemma_fresh_errors_all(fs);
        },
        _ => {},
    }
}

proof fn lemma_fresh_errors_all(fs: Seq<crate::datatype::FieldModel>)
    ensures
        crate::array::fresh::sizes_error(fs) matches Some(e) ==> !(e is UnsupportedCast),
    decreases fs, 1int,
{
    if fs.len() > 0 {
        lemma_fresh_errors_all(fs.drop_last());
        lemma_fresh_errors(fs.last().data_type);
    }
}

/// Integers become nanoseconds and nanoseconds integers of the same value, and
/// what has the type already stays as it is.
pub proof fn law_nanoseconds_are_integers(
    r: Result<ArrayRef, DataError>,
    a: ArrayV,
    to: TypeModel,
    policy: OverflowPolicy,
)
    requires
        cast_of(r, a, to, policy),
    ensures
        a.ty == to ==> (r matches Ok(b) && b@ == a),
        time_pair(a.ty, to) ==> (r matches Ok(b) && b@.ty == to && b@.len == a.len && b@.validity == a.validity
            && values_of::<i64>(b@) == values_of::<i64>(a)),
{
}

/// Nulls become nulls, and everything becomes null under the type of nulls: as
/// many slots as before, all null.
pub proof fn law_nulls_convert_to_nulls(
    r: Result<ArrayRef, DataError>,
    a: ArrayV,
    to: TypeModel,
    policy: OverflowPolicy,
)
    requires
        cast_of(r, a, to, policy),
        a.ty != to,
        a.ty is Null || to is Null,
    ensures
        r matches Ok(b) ==> b@.ty == to && b@.len == a.len && forall|i: int|
            #![trigger b@.cell(i)]
            0 <= i < a.len ==> b@.cell(i) is Null,
        r is Ok <==> to is Null || crate::array::build_laws::sizes_positive(to),
{
    crate::array::build_laws::law_null_columns_are_null(to, a.len);
}

/// Text becomes bytes and bytes text of the same bytes, slot by slot. It fails
/// where an offset is past what 32 bits hold, or else where bytes that must be text
/// are none, and the first such slot is named.
pub proof fn law_texts_keep_their_bytes(
    r: Result<ArrayRef, DataError>,
    a: ArrayV,
    to: TypeModel,
    policy: OverflowPolicy,
)
    requires
        a.wf(),
        text_pair(a.ty, to),
        cast_of(r, a, to, policy),
    ensures
        ({
            let offsets = a.body->Var_offsets;
            let values = a.body->Var_values;
            let narrow = to is Utf8 || to is Binary;
            let text = to is Utf8 || to is LargeUtf8;
            match r {
                Ok(b) => {
                    &&& b@.ty == to && b@.len == a.len
                    &&& forall|i: int| #![trigger b@.cell(i)] 0 <= i < a.len ==> b@.cell(i) == a.cell(i)
                    &&& narrow ==> offsets[a.len as int] <= 0x7FFF_FFFF
                    &&& text ==> forall|i: int|
                        #![trigger offsets[i]]
                        0 <= i < a.len ==> valid_utf8(values.subrange(offsets[i] as int, offsets[i + 1] as int))
                },
                Err(e) => {
                    ||| e@ is OffsetWidthOverflow && narrow && offsets[a.len as int] > 0x7FFF_FFFF
                    ||| e@ matches DataErrorModel::InvalidUtf8 { index } && text && index < a.len && !valid_utf8(
                        values.subrange(offsets[index as int] as int, offsets[index + 1] as int),
                    ) && forall|i: int|
                        #![trigger offsets[i]]
                        0 <= i < index ==> valid_utf8(values.subrange(offsets[i] as int, offsets[i + 1] as int))
                },
            }
        }),
{
    let offsets = a.body->Var_offsets;
    let values = a.body->Var_values;
    let max = crate::array::model::max_offset(to);
    assert(crate::array::model::offsets_ok(offsets, a.len, values.len() as int, crate::array::model::max_offset(a.ty)));
    lemma_past(offsets, max, offsets.len());
    lemma_texts(offsets, values, a.len);
    match r {
        Ok(b) => {
            assert(offsets[a.len as int] <= max);
            assert forall|i: int| #![trigger b@.cell(i)] 0 <= i < a.len implies b@.cell(i) == a.cell(i) by {
                assert(b@.valid_at(i) == a.valid_at(i));
            }
        },
        Err(e) => {
            if let Some(k) = crate::kernel::cast::first_past(offsets, max, offsets.len()) {
                assert(offsets[k as int] <= offsets[a.len as int]);
            }
        },
    }
}

/// An offset that is found past a limit is past it; where none is found, none is.
proof fn lemma_past(offsets: Seq<i64>, max: int, count: nat)
    ensures
        match crate::kernel::cast::first_past(offsets, max, count) {
            Some(k) => k < count && offsets[k as int] > max,
            None => forall|i: int| #![trigger offsets[i]] 0 <= i < count ==> offsets[i] <= max,
        },
    decreases count,
{
    if count > 0 {
        lemma_past(offsets, max, (count - 1) as nat);
    }
}

/// The slot that is found not to be text is the first that is none.
proof fn lemma_texts(offsets: Seq<i64>, values: Seq<u8>, count: nat)
    ensures
        match crate::array::parts::first_bad_text(offsets, values, count) {
            Some(k) => k < count && !valid_utf8(values.subrange(offsets[k as int] as int, offsets[k as int + 1] as int))
                && forall|i: int|
                #![trigger offsets[i]]
                0 <= i < k ==> valid_utf8(values.subrange(offsets[i] as int, offsets[i + 1] as int)),
            None => forall|i: int|
                #![trigger offsets[i]]
                0 <= i < count ==> valid_utf8(values.subrange(offsets[i] as int, offsets[i + 1] as int)),
        },
    decreases count,
{
    if count > 0 {
        lemma_texts(offsets, values, (count - 1) as nat);
    }
}

} // verus!
