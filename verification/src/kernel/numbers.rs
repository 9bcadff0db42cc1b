//! The numbers that columns of the numeric types hold, and the columns that
//! numbers make.
//!
//! A number goes from one type to another as an integer, where both types are
//! integers, or as a double otherwise.
use vstd::prelude::*;
use crate::array::column::ArrayRef;
use crate::array::model::ArrayV;
use crate::array::native::{ArrowNativeType, F16, F32, F64};
use crate::array::primitive::{column_of, filled, lemma_column_of, present, values_of, PrimitiveArray};
use crate::datatype::{DataType, TypeModel};
use crate::float::{
    bits_of, clamped, decode_float, encode_float, fits_range, infinity, integer_near, magnitude, number_of, sign_bit,
    to_integer, FloatKind, Number,
};
use crate::kernel::integers::{integer_at, integers, integers_of, is_integer, wide_model, IntegerValue};

verus! {

/// A primitive value that is a floating-point number.
pub trait FloatValue: ArrowNativeType {
    /// The format.
    spec fn kind_model() -> FloatKind;

    /// The bits.
    spec fn bits_model(self) -> int;

    /// The bits are bits of the format, and stand in for the value.
    proof fn lemma_float(v: Self, w: Self)
        ensures
            0 <= v.bits_model() < 2 * sign_bit(Self::kind_model()),
            v.bits_model() == w.bits_model() ==> v == w,
    ;

    /// The format.
    fn kind() -> (r: FloatKind)
        ensures
            r == Self::kind_model(),
    ;

    /// The bits.
    fn wide_bits(self) -> (r: u64)
        ensures
            r == self.bits_model(),
    ;

    /// The value that bits are.
    fn of_wide_bits(bits: u64) -> (r: Self)
        requires
            bits < 2 * sign_bit(Self::kind_model()),
        ensures
            r.bits_model() == bits,
    ;
}

impl FloatValue for F16 {
    open spec fn kind_model() -> FloatKind {
        FloatKind::Half
    }

    open spec fn bits_model(self) -> int {
        self.bits as int
    }

    proof fn lemma_float(v: Self, w: Self) {
    }

    fn kind() -> (r: FloatKind) {
        FloatKind::Half
    }

    fn wide_bits(self) -> (r: u64) {
        self.bits as u64
    }

    fn of_wide_bits(bits: u64) -> (r: Self) {
        F16 { bits: bits as u16 }
    }
}

impl FloatValue for F32 {
    open spec fn kind_model() -> FloatKind {
        FloatKind::Single
    }

    open spec fn bits_model(self) -> int {
        self.bits as int
    }

    proof fn lemma_float(v: Self, w: Self) {
    }

    fn kind() -> (r: FloatKind) {
        FloatKind::Single
    }

    fn wide_bits(self) -> (r: u64) {
        self.bits as u64
    }

    fn of_wide_bits(bits: u64) -> (r: Self) {
        F32 { bits: bits as u32 }
    }
}

impl FloatValue for F64 {
    open spec fn kind_model() -> FloatKind {
        FloatKind::Double
    }

    open spec fn bits_model(self) -> int {
        self.bits as int
    }

    proof fn lemma_float(v: Self, w: Self) {
    }

    fn kind() -> (r: FloatKind) {
        FloatKind::Double
    }

    fn wide_bits(self) -> (r: u64) {
        self.bits
    }

    fn of_wide_bits(bits: u64) -> (r: Self) {
        F64 { bits: bits }
    }
}

/// Whether the type's values are floating-point numbers.
pub open spec fn is_float(t: TypeModel) -> bool {
    t is Float16 || t is Float32 || t is Float64
}

/// The format of a floating-point type.
pub open spec fn float_kind(t: TypeModel) -> FloatKind {
    match t {
        TypeModel::Float16 => FloatKind::Half,
        TypeModel::Float32 => FloatKind::Single,
        _ => FloatKind::Double,
    }
}

/// The bits in slot `i`, nulls included as what stands under them.
pub open spec fn float_at(a: ArrayV, i: int) -> int {
    match a.ty {
        TypeModel::Float16 => values_of::<F16>(a)[i].bits as int,
        TypeModel::Float32 => values_of::<F32>(a)[i].bits as int,
        TypeModel::Float64 => values_of::<F64>(a)[i].bits as int,
        _ => 0,
    }
}

/// A number on its way from one type to another.
#[derive(Debug, Clone, Copy, PartialEq, Eq, Structural)]
pub enum Scalar {
    /// An integer.
    Integer(i128),
    /// The bits of a double.
    Double(u64),
}

/// The double nearest to an integer.
pub open spec fn double_of_integer(x: int) -> int {
    bits_of(
        Number::Finite {
            negative: x < 0,
            mantissa: (if x < 0 {
                -x
            } else {
                x
            }) as u64,
            exponent: 0,
        },
        FloatKind::Double,
    )
}

/// The number in slot `i`, as it goes to another type.
pub open spec fn scalar_at(a: ArrayV, i: int) -> Scalar {
    if is_integer(a.ty) {
        Scalar::Integer(integer_at(a, i) as i128)
    } else {
        Scalar::Double(bits_of(number_of(float_at(a, i), float_kind(a.ty)), FloatKind::Double) as u64)
    }
}

/// The integer of a range that a number becomes.
pub open spec fn integer_for(s: Scalar, lo: int, hi: int) -> int {
    match s {
        Scalar::Integer(x) => clamped(x as int, lo, hi),
        Scalar::Double(d) => integer_near(number_of(d as int, FloatKind::Double), lo, hi),
    }
}

/// Whether a number fits a range of integers.
pub open spec fn integer_fits(s: Scalar, lo: int, hi: int) -> bool {
    match s {
        Scalar::Integer(x) => lo <= x <= hi,
        Scalar::Double(d) => fits_range(number_of(d as int, FloatKind::Double), lo, hi),
    }
}

/// The double that a number is nearest to.
pub open spec fn double_for(s: Scalar) -> int {
    match s {
        Scalar::Integer(x) => double_of_integer(x as int),
        Scalar::Double(d) => d as int,
    }
}

/// The bits a double becomes in a format: half precision is reached through
/// single precision.
pub open spec fn narrowed(d: int, k: FloatKind) -> int {
    match k {
        FloatKind::Double => d,
        FloatKind::Single => bits_of(number_of(d, FloatKind::Double), FloatKind::Single),
        FloatKind::Half => bits_of(
            number_of(bits_of(number_of(d, FloatKind::Double), FloatKind::Single), FloatKind::Single),
            FloatKind::Half,
        ),
    }
}

/// Whether bits are an infinity.
pub open spec fn is_infinite(bits: int, k: FloatKind) -> bool {
    magnitude(bits, k) == infinity(k)
}

/// Whether a number fits a format: it becomes an infinity only where it is one.
pub open spec fn float_fits(s: Scalar, k: FloatKind) -> bool {
    is_infinite(double_for(s), FloatKind::Double) || !is_infinite(narrowed(double_for(s), k), k)
}

/// The range of an integer type.
pub open spec fn range_of(t: TypeModel) -> (int, int) {
    match t {
        TypeModel::Int8 => (i8::MIN as int, i8::MAX as int),
        TypeModel::Int16 => (i16::MIN as int, i16::MAX as int),
        TypeModel::Int32 => (i32::MIN as int, i32::MAX as int),
        TypeModel::Int64 => (i64::MIN as int, i64::MAX as int),
        TypeModel::UInt8 => (u8::MIN as int, u8::MAX as int),
        TypeModel::UInt16 => (u16::MIN as int, u16::MAX as int),
        TypeModel::UInt32 => (u32::MIN as int, u32::MAX as int),
        TypeModel::UInt64 => (u64::MIN as int, u64::MAX as int),
        _ => (0, 0),
    }
}

/// Whether the type's values are numbers.
pub open spec fn is_numeric(t: TypeModel) -> bool {
    is_integer(t) || is_float(t)
}

/// Whether a number fits a numeric type.
pub open spec fn scalar_fits(s: Scalar, t: TypeModel) -> bool {
    if is_integer(t) {
        integer_fits(s, range_of(t).0, range_of(t).1)
    } else {
        float_fits(s, float_kind(t))
    }
}

/// Whether slot `i` of a column holds what a number becomes in the column's
/// type.
pub open spec fn holds_scalar(b: ArrayV, i: int, s: Scalar) -> bool {
    if is_integer(b.ty) {
        integer_at(b, i) == integer_for(s, range_of(b.ty).0, range_of(b.ty).1)
    } else {
        float_at(b, i) == narrowed(double_for(s), float_kind(b.ty))
    }
}

/// The number lies within what the numeric types hold.
pub open spec fn scalar_ok(s: Scalar) -> bool {
    s matches Scalar::Integer(x) ==> i64::MIN <= x <= u64::MAX
}

/// The numbers of a column are within what the numeric types hold.
pub proof fn lemma_scalar_ok(a: ArrayV, i: int)
    ensures
        scalar_ok(scalar_at(a, i)),
{
}

/// The number of slots, and each slot's number.
pub open spec fn are_scalars(r: Seq<Option<Scalar>>, a: ArrayV) -> bool {
    &&& r.len() == a.len
    &&& forall|i: int|
        #![trigger r[i]]
        0 <= i < r.len() ==> r[i] == (if a.valid_at(i) {
            Some(scalar_at(a, i))
        } else {
            None
        })
}

/// The numbers of a column of a floating-point type.
fn doubles<T: FloatValue>(array: &ArrayRef) -> (r: Vec<Option<Scalar>>)
    requires
        array@.ty == T::type_model(),
    ensures
        r@.len() == array@.len,
        forall|i: int|
            #![trigger r@[i]]
            0 <= i < r@.len() ==> r@[i] == (if array@.valid_at(i) {
                Some(
                    Scalar::Double(
                        bits_of(
                            number_of(values_of::<T>(array@)[i].bits_model(), T::kind_model()),
                            FloatKind::Double,
                        ) as u64,
                    ),
                )
            } else {
                None
            }),
{
    let n: usize = array.len();
    let mut out: Vec<Option<Scalar>> = Vec::with_capacity(n);
    match PrimitiveArray::<T>::try_from_array(array) {
        Ok(typed) => {
            let mut i: usize = 0;
            while i < n
                invariant
                    0 <= i <= n == array@.len,
                    typed@ == array@,
                    out@.len() == i,
                    forall|k: int|
                        #![trigger out@[k]]
                        0 <= k < i ==> out@[k] == (if array@.valid_at(k) {
                            Some(
                                Scalar::Double(
                                    bits_of(
                                        number_of(values_of::<T>(array@)[k].bits_model(), T::kind_model()),
                                        FloatKind::Double,
                                    ) as u64,
                                ),
                            )
                        } else {
                            None
                        }),
                decreases n - i,
            {
                match typed.get(i) {
                    Some(v) => {
                        proof {
                            T::lemma_float(v, v);
                        }
                        let d: u64 = encode_float(decode_float(v.wide_bits(), T::kind()), FloatKind::Double);
                        out.push(Some(Scalar::Double(d)));
                    },
                    None => {
                        out.push(None);
                    },
                }
                i = i + 1;
            }
            out
        },
        Err(_) => out,
    }
}

/// The numbers of a column, none where a slot is null; nothing where the
/// column's type is not numeric.
pub fn scalars(array: &ArrayRef) -> (r: Option<Vec<Option<Scalar>>>)
    ensures
        match r {
            Some(v) => is_numeric(array@.ty) && are_scalars(v@, array@),
            None => !is_numeric(array@.ty),
        },
{
    match array.data_type() {
        DataType::Float16 => Some(doubles::<F16>(array)),
        DataType::Float32 => Some(doubles::<F32>(array)),
        DataType::Float64 => Some(doubles::<F64>(array)),
        _ => match integers(array) {
            Some(ints) => {
                let ghost model = integers_of(array@);
                assert(wide_model(ints@).len() == model.len());
                let mut out: Vec<Option<Scalar>> = Vec::with_capacity(ints.len());
                let mut i: usize = 0;
                while i < ints.len()
                    invariant
                        0 <= i <= ints@.len(),
                        is_integer(array@.ty),
                        model == integers_of(array@),
                        wide_model(ints@) == model,
                        ints@.len() == model.len(),
                        out@.len() == i,
                        forall|k: int|
                            #![trigger out@[k]]
                            0 <= k < i ==> out@[k] == (if array@.valid_at(k) {
                                Some(scalar_at(array@, k))
                            } else {
                                None
                            }),
                    decreases ints@.len() - i,
                {
                    assert(wide_model(ints@)[i as int] == model[i as int]);
                    match ints[i] {
                        Some(x) => {
                            out.push(Some(Scalar::Integer(x)));
                        },
                        None => {
                            out.push(None);
                        },
                    }
                    i = i + 1;
                }
                Some(out)
            },
            None => None,
        },
    }
}

/// The double nearest to a number.
fn to_double(s: Scalar) -> (r: u64)
    requires
        scalar_ok(s),
    ensures
        r == double_for(s),
{
    match s {
        Scalar::Integer(x) => {
            let negative = x < 0;
            let m: u64 = if negative {
                (-x) as u64
            } else {
                x as u64
            };
            encode_float(Number::Finite { negative, mantissa: m, exponent: 0 }, FloatKind::Double)
        },
        Scalar::Double(d) => d,
    }
}

/// The bits a number becomes in a format, and whether it fits.
pub fn to_float(s: Scalar, k: FloatKind) -> (r: (u64, bool))
    requires
        scalar_ok(s),
    ensures
        r.0 == narrowed(double_for(s), k),
        r.0 < 2 * sign_bit(k),
        r.1 == float_fits(s, k),
{
    let d: u64 = to_double(s);
    let out: u64 = match k {
        FloatKind::Double => d,
        FloatKind::Single => encode_float(decode_float(d, FloatKind::Double), FloatKind::Single),
        FloatKind::Half => encode_float(
            decode_float(
                encode_float(decode_float(d, FloatKind::Double), FloatKind::Single),
                FloatKind::Single,
            ),
            FloatKind::Half,
        ),
    };
    let was = infinite_bits(d, FloatKind::Double);
    let is = infinite_bits(out, k);
    (out, was || !is)
}

/// Whether bits are an infinity.
pub fn infinite_bits(bits: u64, k: FloatKind) -> (r: bool)
    requires
        bits < 2 * sign_bit(k),
    ensures
        r == is_infinite(bits as int, k),
{
    match decode_float(bits, k) {
        Number::Infinite { .. } => true,
        _ => false,
    }
}

/// The integer of a type's range that a number becomes, and whether it fits.
fn to_int(s: Scalar, lo: i128, hi: i128) -> (r: (i128, bool))
    requires
        scalar_ok(s),
        i64::MIN <= lo <= 0 < hi <= u64::MAX,
    ensures
        r.0 == integer_for(s, lo as int, hi as int),
        r.1 == integer_fits(s, lo as int, hi as int),
        lo <= r.0 <= hi,
{
    match s {
        Scalar::Integer(x) => if x < lo {
            (lo, false)
        } else if x > hi {
            (hi, false)
        } else {
            (x, true)
        },
        Scalar::Double(d) => to_integer(decode_float(d, FloatKind::Double), lo, hi),
    }
}

/// The first of the first `count` numbers that does not fit.
pub open spec fn first_unfit(numbers: Seq<Option<Scalar>>, t: TypeModel, count: nat) -> Option<nat>
    decreases count,
{
    if count == 0 {
        None
    } else {
        match first_unfit(numbers, t, (count - 1) as nat) {
            Some(i) => Some(i),
            None => match numbers[count - 1] {
                Some(s) => if scalar_fits(s, t) {
                    None
                } else {
                    Some((count - 1) as nat)
                },
                None => None,
            },
        }
    }
}

proof fn lemma_first_unfit_stays(numbers: Seq<Option<Scalar>>, t: TypeModel, count: nat, all: nat)
    requires
        count <= all,
        first_unfit(numbers, t, count) is Some,
    ensures
        first_unfit(numbers, t, all) == first_unfit(numbers, t, count),
    decreases all,
{
    if count < all {
        lemma_first_unfit_stays(numbers, t, count, (all - 1) as nat);
    }
}

/// Whether every number lies within what the numeric types hold.
pub open spec fn all_ok(numbers: Seq<Option<Scalar>>) -> bool {
    forall|i: int| #![trigger numbers[i]] 0 <= i < numbers.len() && numbers[i] is Some ==> scalar_ok(numbers[i]->0)
}

/// Whether a column holds what numbers become in its type.
pub open spec fn holds_all(b: ArrayV, numbers: Seq<Option<Scalar>>) -> bool {
    &&& b.len == numbers.len()
    &&& forall|i: int|
        #![trigger numbers[i]]
        0 <= i < numbers.len() ==> b.valid_at(i) == (numbers[i] is Some) && (numbers[i] matches Some(s)
            ==> holds_scalar(b, i, s))
}

/// What making a column of numbers gives: the first number that does not fit
/// where every one must, otherwise the column.
pub open spec fn numbers_made(
    r: Result<ArrayRef, usize>,
    numbers: Seq<Option<Scalar>>,
    t: TypeModel,
    strict: bool,
) -> bool {
    match r {
        Ok(b) => (strict ==> first_unfit(numbers, t, numbers.len()) is None) && b@.ty == t && holds_all(b@, numbers),
        Err(i) => strict && first_unfit(numbers, t, numbers.len()) == Some(i as nat),
    }
}

/// A column of an integer type.
fn integer_column<T: IntegerValue>(numbers: &Vec<Option<Scalar>>, strict: bool, Ghost(t): Ghost<TypeModel>) -> (r:
    Result<ArrayRef, usize>)
    requires
        all_ok(numbers@),
        is_integer(t),
        range_of(t) == (T::least(), T::greatest()),
    ensures
        match r {
            Ok(b) => {
                &&& strict ==> first_unfit(numbers@, t, numbers@.len()) is None
                &&& b@.ty == T::type_model()
                &&& b@.len == numbers@.len()
                &&& forall|i: int|
                    #![trigger numbers@[i]]
                    0 <= i < numbers@.len() ==> b@.valid_at(i) == (numbers@[i] is Some) && (numbers@[i] matches Some(
                        s,
                    ) ==> values_of::<T>(b@)[i].int_model() == integer_for(s, T::least(), T::greatest()))
            },
            Err(i) => strict && first_unfit(numbers@, t, numbers@.len()) == Some(i as nat),
        },
{
    let (lo, hi) = T::range();
    proof {
        T::lemma_integer(arbitrary(), arbitrary());
    }
    let mut out: Vec<Option<T>> = Vec::with_capacity(numbers.len());
    let mut i: usize = 0;
    while i < numbers.len()
        invariant
            0 <= i <= numbers@.len(),
            all_ok(numbers@),
            is_integer(t),
            range_of(t) == (T::least(), T::greatest()),
            lo == T::least(),
            hi == T::greatest(),
            i64::MIN <= lo <= 0 < hi <= u64::MAX,
            strict ==> first_unfit(numbers@, t, i as nat) is None,
            out@.len() == i,
            forall|k: int|
                #![trigger out@[k]]
                0 <= k < i ==> (out@[k] is Some) == (numbers@[k] is Some) && (numbers@[k] matches Some(s)
                    ==> out@[k]->0.int_model() == integer_for(s, T::least(), T::greatest())),
        decreases numbers@.len() - i,
    {
        match numbers[i] {
            Some(s) => {
                assert(scalar_ok(numbers@[i as int]->0));
                let (x, fits) = to_int(s, lo, hi);
                if strict && !fits {
                    proof {
                        assert(first_unfit(numbers@, t, (i + 1) as nat) == Some(i as nat));
                        lemma_first_unfit_stays(numbers@, t, (i + 1) as nat, numbers@.len());
                    }
                    return Err(i);
                }
                out.push(Some(T::narrow(x)));
            },
            None => {
                out.push(None);
            },
        }
        i = i + 1;
    }
    let ghost model = out@;
    let b = PrimitiveArray::<T>::from_opt_iter(out).into_array_ref();
    proof {
        lemma_made(model, b@);
        assert forall|k: int| #![trigger numbers@[k]] 0 <= k < numbers@.len() implies b@.valid_at(k) == (
        numbers@[k] is Some) && (numbers@[k] matches Some(s) ==> values_of::<T>(b@)[k].int_model() == integer_for(
            s,
            T::least(),
            T::greatest(),
        )) by {
            assert(model[k] is Some == (numbers@[k] is Some));
        }
    }
    Ok(b)
}

/// The values of a made column.
proof fn lemma_made<T: ArrowNativeType>(values: Seq<Option<T>>, b: ArrayV)
    requires
        b == column_of(filled(values), present(values)),
        b.wf(),
    ensures
        b.ty == T::type_model(),
        b.len == values.len(),
        values_of::<T>(b) == filled(values),
        forall|i: int| #![trigger values[i]] 0 <= i < values.len() ==> b.valid_at(i) == (values[i] is Some),
{
    T::lemma_native(arbitrary());
    crate::array::model::lemma_fixed_width(b);
    lemma_column_of(filled(values), present(values));
    assert forall|i: int| #![trigger values[i]] 0 <= i < values.len() implies b.valid_at(i) == (values[i] is Some) by {
        match present(values) {
            Some(v) => {
                assert(v[i] == (values[i] is Some));
            },
            None => {},
        }
    }
}

/// A column of a floating-point type.
fn float_column<T: FloatValue>(numbers: &Vec<Option<Scalar>>, strict: bool, Ghost(t): Ghost<TypeModel>) -> (r: Result<
    ArrayRef,
    usize,
>)
    requires
        all_ok(numbers@),
        is_float(t),
        float_kind(t) == T::kind_model(),
    ensures
        match r {
            Ok(b) => {
                &&& strict ==> first_unfit(numbers@, t, numbers@.len()) is None
                &&& b@.ty == T::type_model()
                &&& b@.len == numbers@.len()
                &&& forall|i: int|
                    #![trigger numbers@[i]]
                    0 <= i < numbers@.len() ==> b@.valid_at(i) == (numbers@[i] is Some) && (numbers@[i] matches Some(
                        s,
                    ) ==> values_of::<T>(b@)[i].bits_model() == narrowed(double_for(s), T::kind_model()))
            },
            Err(i) => strict && first_unfit(numbers@, t, numbers@.len()) == Some(i as nat),
        },
{
    let kind = T::kind();
    let mut out: Vec<Option<T>> = Vec::with_capacity(numbers.len());
    let mut i: usize = 0;
    while i < numbers.len()
        invariant
            0 <= i <= numbers@.len(),
            all_ok(numbers@),
            is_float(t),
            float_kind(t) == T::kind_model(),
            kind == T::kind_model(),
            strict ==> first_unfit(numbers@, t, i as nat) is None,
            out@.len() == i,
            forall|k: int|
                #![trigger out@[k]]
                0 <= k < i ==> (out@[k] is Some) == (numbers@[k] is Some) && (numbers@[k] matches Some(s)
                    ==> out@[k]->0.bits_model() == narrowed(double_for(s), T::kind_model())),
        decreases numbers@.len() - i,
    {
        match numbers[i] {
            Some(s) => {
                assert(scalar_ok(numbers@[i as int]->0));
                let (bits, fits) = to_float(s, kind);
                if strict && !fits {
                    proof {
                        assert(first_unfit(numbers@, t, (i + 1) as nat) == Some(i as nat));
                        lemma_first_unfit_stays(numbers@, t, (i + 1) as nat, numbers@.len());
                    }
                    return Err(i);
                }
                out.push(Some(T::of_wide_bits(bits)));
            },
            None => {
                out.push(None);
            },
        }
        i = i + 1;
    }
    let ghost model = out@;
    let b = PrimitiveArray::<T>::from_opt_iter(out).into_array_ref();
    proof {
        lemma_made(model, b@);
        assert forall|k: int| #![trigger numbers@[k]] 0 <= k < numbers@.len() implies b@.valid_at(k) == (
        numbers@[k] is Some) && (numbers@[k] matches Some(s) ==> values_of::<T>(b@)[k].bits_model() == narrowed(
            double_for(s),
            T::kind_model(),
        )) by {
            assert(model[k] is Some == (numbers@[k] is Some));
        }
    }
    Ok(b)
}

/// The column of a numeric type that numbers make; where `strict`, the first
/// number that does not fit instead.
pub fn number_column(numbers: &Vec<Option<Scalar>>, to: &DataType, strict: bool) -> (r: Option<Result<ArrayRef, usize>>)
    requires
        all_ok(numbers@),
    ensures
        match r {
            Some(made) => is_numeric(to@) && numbers_made(made, numbers@, to@, strict),
            None => !is_numeric(to@),
        },
{
    let ghost t = to@;
    match to {
        DataType::Int8 => match integer_column::<i8>(numbers, strict, Ghost(t)) {
            Ok(b) => Some(Ok(b)),
            Err(i) => Some(Err(i)),
        },
        DataType::Int16 => match integer_column::<i16>(numbers, strict, Ghost(t)) {
            Ok(b) => Some(Ok(b)),
            Err(i) => Some(Err(i)),
        },
        DataType::Int32 => match integer_column::<i32>(numbers, strict, Ghost(t)) {
            Ok(b) => Some(Ok(b)),
            Err(i) => Some(Err(i)),
        },
        DataType::Int64 => match integer_column::<i64>(numbers, strict, Ghost(t)) {
            Ok(b) => Some(Ok(b)),
            Err(i) => Some(Err(i)),
        },
        DataType::UInt8 => match integer_column::<u8>(numbers, strict, Ghost(t)) {
            Ok(b) => Some(Ok(b)),
            Err(i) => Some(Err(i)),
        },
        DataType::UInt16 => match integer_column::<u16>(numbers, strict, Ghost(t)) {
            Ok(b) => Some(Ok(b)),
            Err(i) => Some(Err(i)),
        },
        DataType::UInt32 => match integer_column::<u32>(numbers, strict, Ghost(t)) {
            Ok(b) => Some(Ok(b)),
            Err(i) => Some(Err(i)),
        },
        DataType::UInt64 => match integer_column::<u64>(numbers, strict, Ghost(t)) {
            Ok(b) => Some(Ok(b)),
            Err(i) => Some(Err(i)),
        },
        DataType::Float16 => match float_column::<F16>(numbers, strict, Ghost(t)) {
            Ok(b) => Some(Ok(b)),
            Err(i) => Some(Err(i)),
        },
        DataType::Float32 => match float_column::<F32>(numbers, strict, Ghost(t)) {
            Ok(b) => Some(Ok(b)),
            Err(i) => Some(Err(i)),
        },
        DataType::Float64 => match float_column::<F64>(numbers, strict, Ghost(t)) {
            Ok(b) => Some(Ok(b)),
            Err(i) => Some(Err(i)),
        },
        _ => None,
    }
}

} // verus!
