//! Columns of booleans, times, fixed-size values, lists and structs.
use vstd::prelude::*;
use std::sync::Arc;
use crate::array::column::{bits_model, slice_array, Array, ArrayRef, Body};
use crate::array::model::{ArrayV, BodyV, Cell};
use crate::buffer::{share, window, Bitmap};
use crate::datatype::{clone_type, DataType, TypeModel};
use crate::error::{DataError, DataErrorModel};
use crate::array::parts::{lemma_remade, null_array};
use crate::array::primitive::{column_of, filled, present, values_of, PrimitiveArray};

verus! {

/// What an optional list of bits holds.
pub open spec fn bools_model(bits: Option<Vec<bool>>) -> Option<Seq<bool>> {
    match bits {
        Some(v) => Some(v@),
        None => None,
    }
}

/// The bitmap of an optional list of bits.
fn pack(bits: Option<Vec<bool>>) -> (r: Option<Bitmap>)
    ensures
        bits_model(r) == bools_model(bits),
{
    match bits {
        Some(v) => Some(Bitmap::from_bools(v.as_slice())),
        None => None,
    }
}

/// The same column under another type of the same width.
pub fn retype(array: &ArrayRef, data_type: DataType) -> (r: ArrayRef)
    requires
        crate::datatype::primitive_width_model(array@.ty) is Some,
        crate::datatype::primitive_width_model(data_type@) == crate::datatype::primitive_width_model(array@.ty),
    ensures
        r@ == (ArrayV { ty: data_type@, ..array@ }),
{
    let ghost a = array@;
    let ghost want = ArrayV { ty: data_type@, ..a };
    let n: usize = array.len();
    proof {
        assert(want.wf());
        lemma_remade(want);
    }
    match array.body() {
        Body::Fixed(bytes) => match Array::fixed(
            data_type,
            bytes.share(),
            crate::array::column::share_bits(array.validity()),
        ) {
            Ok(out) => Arc::new(out),
            Err(_) => share(array),
        },
        _ => share(array),
    }
}

/// A column of nulls.
#[derive(Debug)]
pub struct NullArray {
    array: ArrayRef,
}

impl View for NullArray {
    type V = ArrayV;

    closed spec fn view(&self) -> ArrayV {
        self.array@
    }
}

impl NullArray {
    #[verifier::type_invariant]
    closed spec fn typed(self) -> bool {
        self.array@.ty is Null && self.array@.wf()
    }

    /// The column an array is, if it is one of these.
    pub fn try_from_array(array: &ArrayRef) -> (r: Result<NullArray, DataError>)
        ensures
            match r {
                Ok(a) => array@.ty is Null && a@ == array@,
                Err(e) => !(array@.ty is Null) && e@ == (DataErrorModel::DowncastFailed {
                    expected: "NullArray"@,
                    actual: array@.ty,
                }),
            },
    {
        let n: usize = array.len();
        match array.data_type() {
            DataType::Null => Ok(NullArray { array: share(array) }),
            _ => Err(DataError::downcast_failed("NullArray", clone_type(array.data_type()))),
        }
    }

    /// The array.
    #[must_use]
    pub fn into_array_ref(self) -> (r: ArrayRef)
        ensures
            r@ == self@,
            r@.ty is Null,
            r@.wf(),
    {
        proof {
            use_type_invariant(&self);
        }
        share(&self.array)
    }

    /// The array.
    #[must_use]
    pub fn as_array(&self) -> (r: &ArrayRef)
        ensures
            r@ == self@,
            r@.ty is Null,
            r@.wf(),
    {
        proof {
            use_type_invariant(self);
        }
        &self.array
    }

    /// Number of slots.
    #[must_use]
    pub fn len(&self) -> (r: usize)
        ensures
            r == self@.len,
    {
        self.array.len()
    }

    /// Whether there are no slots.
    #[must_use]
    pub fn is_empty(&self) -> (r: bool)
        ensures
            r == (self@.len == 0),
    {
        self.array.is_empty()
    }

    /// Number of nulls.
    #[must_use]
    pub fn null_count(&self) -> (r: usize)
        ensures
            r == self@.nulls(),
    {
        self.array.null_count()
    }

    /// Whether slot `index` is there and null.
    #[must_use]
    pub fn is_null(&self, index: usize) -> (r: bool)
        ensures
            r == (index < self@.len && !self@.valid_at(index as int)),
    {
        self.array.is_null(index)
    }

    /// The column of `len` slots from slot `offset` on, both cut to what there
    /// is.
    #[must_use]
    pub fn slice(&self, offset: usize, len: usize) -> (r: NullArray)
        ensures
            ({
                let (start, count) = window(self@.len as int, offset as int, len as int);
                r@ == self@.sliced(start, count)
            }),
    {
        proof {
            use_type_invariant(self);
        }
        let part = slice_array(&self.array, offset, len);
        let n: usize = part.len();
        NullArray { array: part }
    }
}

impl Clone for NullArray {
    fn clone(&self) -> (r: Self)
        ensures
            r@ == self@,
    {
        proof {
            use_type_invariant(self);
        }
        NullArray { array: share(&self.array) }
    }
}

impl NullArray {
    /// The column of `len` nulls.
    #[must_use]
    pub fn new(len: usize) -> (r: NullArray)
        ensures
            r@ == null_array(len as nat),
    {
        NullArray { array: Arc::new(Array::null(len)) }
    }
}

/// A column of booleans.
#[derive(Debug)]
pub struct BooleanArray {
    array: ArrayRef,
}

impl View for BooleanArray {
    type V = ArrayV;

    closed spec fn view(&self) -> ArrayV {
        self.array@
    }
}

impl BooleanArray {
    #[verifier::type_invariant]
    closed spec fn typed(self) -> bool {
        self.array@.ty is Bool && self.array@.wf()
    }

    /// The column an array is, if it is one of these.
    pub fn try_from_array(array: &ArrayRef) -> (r: Result<BooleanArray, DataError>)
        ensures
            match r {
                Ok(a) => array@.ty is Bool && a@ == array@,
                Err(e) => !(array@.ty is Bool) && e@ == (DataErrorModel::DowncastFailed {
                    expected: "BooleanArray"@,
                    actual: array@.ty,
                }),
            },
    {
        let n: usize = array.len();
        match array.data_type() {
            DataType::Bool => Ok(BooleanArray { array: share(array) }),
            _ => Err(DataError::downcast_failed("BooleanArray", clone_type(array.data_type()))),
        }
    }

    /// The array.
    #[must_use]
    pub fn into_array_ref(self) -> (r: ArrayRef)
        ensures
            r@ == self@,
            r@.ty is Bool,
            r@.wf(),
    {
        proof {
            use_type_invariant(&self);
        }
        share(&self.array)
    }

    /// The array.
    #[must_use]
    pub fn as_array(&self) -> (r: &ArrayRef)
        ensures
            r@ == self@,
            r@.ty is Bool,
            r@.wf(),
    {
        proof {
            use_type_invariant(self);
        }
        &self.array
    }

    /// Number of slots.
    #[must_use]
    pub fn len(&self) -> (r: usize)
        ensures
            r == self@.len,
    {
        self.array.len()
    }

    /// Whether there are no slots.
    #[must_use]
    pub fn is_empty(&self) -> (r: bool)
        ensures
            r == (self@.len == 0),
    {
        self.array.is_empty()
    }

    /// Number of nulls.
    #[must_use]
    pub fn null_count(&self) -> (r: usize)
        ensures
            r == self@.nulls(),
    {
        self.array.null_count()
    }

    /// Whether slot `index` is there and null.
    #[must_use]
    pub fn is_null(&self, index: usize) -> (r: bool)
        ensures
            r == (index < self@.len && !self@.valid_at(index as int)),
    {
        self.array.is_null(index)
    }

    /// The column of `len` slots from slot `offset` on, both cut to what there
    /// is.
    #[must_use]
    pub fn slice(&self, offset: usize, len: usize) -> (r: BooleanArray)
        ensures
            ({
                let (start, count) = window(self@.len as int, offset as int, len as int);
                r@ == self@.sliced(start, count)
            }),
    {
        proof {
            use_type_invariant(self);
        }
        let part = slice_array(&self.array, offset, len);
        let n: usize = part.len();
        BooleanArray { array: part }
    }
}

impl Clone for BooleanArray {
    fn clone(&self) -> (r: Self)
        ensures
            r@ == self@,
    {
        proof {
            use_type_invariant(self);
        }
        BooleanArray { array: share(&self.array) }
    }
}

/// The column of bits.
pub open spec fn bits_column(bits: Seq<bool>, validity: Option<Seq<bool>>) -> ArrayV {
    ArrayV { ty: TypeModel::Bool, len: bits.len(), validity, body: BodyV::Bits(bits) }
}

/// The bits a list of optional bits holds, unset where there is none.
pub open spec fn filled_bits(bits: Seq<Option<bool>>) -> Seq<bool> {
    Seq::new(bits.len(), |i: int| bits[i] == Some(true))
}

impl BooleanArray {
    /// The column of bits, none of them null.
    #[must_use]
    pub fn from_values(values: Vec<bool>) -> (r: BooleanArray)
        ensures
            r@ == bits_column(values@, None),
    {
        let n: usize = values.len();
        match Array::boolean(Bitmap::from_bools(values.as_slice()), None) {
            Ok(a) => BooleanArray { array: Arc::new(a) },
            Err(_) => BooleanArray { array: Arc::new(Array::null(0)) },
        }
    }

    /// The column of optional bits, nulls where there is none.
    #[must_use]
    pub fn from_opt_iter(values: Vec<Option<bool>>) -> (r: BooleanArray)
        ensures
            r@ == bits_column(filled_bits(values@), present(values@)),
    {
        let mut plain: Vec<bool> = Vec::with_capacity(values.len());
        let mut bits: Vec<bool> = Vec::with_capacity(values.len());
        let mut all = true;
        let mut i: usize = 0;
        while i < values.len()
            invariant
                0 <= i <= values@.len(),
                plain@.len() == i,
                bits@.len() == i,
                forall|k: int| #![trigger plain@[k]] 0 <= k < i ==> plain@[k] == (values@[k] == Some(true)),
                forall|k: int| #![trigger bits@[k]] 0 <= k < i ==> bits@[k] == (values@[k] is Some),
                all == (forall|k: int| #![trigger values@[k]] 0 <= k < i ==> values@[k] is Some),
            decreases values@.len() - i,
        {
            match values[i] {
                Some(v) => {
                    plain.push(v);
                    bits.push(true);
                },
                None => {
                    plain.push(false);
                    bits.push(false);
                    all = false;
                },
            }
            i = i + 1;
        }
        assert(plain@ =~= filled_bits(values@));
        let n: usize = plain.len();
        let validity = if all {
            None
        } else {
            assert(bits@ =~= Seq::new(values@.len(), |i: int| values@[i] is Some));
            Some(Bitmap::from_bools(bits.as_slice()))
        };
        match Array::boolean(Bitmap::from_bools(plain.as_slice()), validity) {
            Ok(a) => BooleanArray { array: Arc::new(a) },
            Err(_) => BooleanArray { array: Arc::new(Array::null(0)) },
        }
    }

    /// The bit in slot `index`, if it is there and not null.
    #[must_use]
    pub fn get(&self, index: usize) -> (r: Option<bool>)
        ensures
            r == (if index < self@.len && self@.valid_at(index as int) {
                Some(self@.body->Bits_0[index as int])
            } else {
                None
            }),
            r matches Some(b) ==> self@.cell(index as int) == Cell::Bool(b),
    {
        proof {
            use_type_invariant(self);
        }
        if !self.array.is_valid(index) {
            return None;
        }
        match self.array.body() {
            Body::Bits(bits) => Some(bits.bit(index)),
            _ => None,
        }
    }

    /// Every slot, `None` where it is null.
    #[must_use]
    pub fn iter(&self) -> (r: Vec<Option<bool>>)
        ensures
            r@.len() == self@.len,
            forall|i: int|
                #![trigger r@[i]]
                0 <= i < r@.len() ==> r@[i] == (if self@.valid_at(i) {
                    Some(self@.body->Bits_0[i])
                } else {
                    None
                }),
    {
        let n: usize = self.array.len();
        let mut out: Vec<Option<bool>> = Vec::with_capacity(n);
        let mut i: usize = 0;
        while i < n
            invariant
                0 <= i <= n == self@.len,
                out@.len() == i,
                forall|k: int|
                    #![trigger out@[k]]
                    0 <= k < i ==> out@[k] == (if self@.valid_at(k) {
                        Some(self@.body->Bits_0[k])
                    } else {
                        None
                    }),
            decreases n - i,
        {
            out.push(self.get(i));
            i = i + 1;
        }
        out
    }
}

/// A column of instants, in nanoseconds since the epoch.
#[derive(Debug)]
pub struct TimestampArray {
    array: ArrayRef,
}

impl View for TimestampArray {
    type V = ArrayV;

    closed spec fn view(&self) -> ArrayV {
        self.array@
    }
}

impl TimestampArray {
    #[verifier::type_invariant]
    closed spec fn typed(self) -> bool {
        self.array@.ty is Timestamp && self.array@.wf()
    }

    /// The column an array is, if it is one of these.
    pub fn try_from_array(array: &ArrayRef) -> (r: Result<TimestampArray, DataError>)
        ensures
            match r {
                Ok(a) => array@.ty is Timestamp && a@ == array@,
                Err(e) => !(array@.ty is Timestamp) && e@ == (DataErrorModel::DowncastFailed {
                    expected: "TimestampArray"@,
                    actual: array@.ty,
                }),
            },
    {
        let n: usize = array.len();
        match array.data_type() {
            DataType::Timestamp => Ok(TimestampArray { array: share(array) }),
            _ => Err(DataError::downcast_failed("TimestampArray", clone_type(array.data_type()))),
        }
    }

    /// The array.
    #[must_use]
    pub fn into_array_ref(self) -> (r: ArrayRef)
        ensures
            r@ == self@,
            r@.ty is Timestamp,
            r@.wf(),
    {
        proof {
            use_type_invariant(&self);
        }
        share(&self.array)
    }

    /// The array.
    #[must_use]
    pub fn as_array(&self) -> (r: &ArrayRef)
        ensures
            r@ == self@,
            r@.ty is Timestamp,
            r@.wf(),
    {
        proof {
            use_type_invariant(self);
        }
        &self.array
    }

    /// Number of slots.
    #[must_use]
    pub fn len(&self) -> (r: usize)
        ensures
            r == self@.len,
    {
        self.array.len()
    }

    /// Whether there are no slots.
    #[must_use]
    pub fn is_empty(&self) -> (r: bool)
        ensures
            r == (self@.len == 0),
    {
        self.array.is_empty()
    }

    /// Number of nulls.
    #[must_use]
    pub fn null_count(&self) -> (r: usize)
        ensures
            r == self@.nulls(),
    {
        self.array.null_count()
    }

    /// Whether slot `index` is there and null.
    #[must_use]
    pub fn is_null(&self, index: usize) -> (r: bool)
        ensures
            r == (index < self@.len && !self@.valid_at(index as int)),
    {
        self.array.is_null(index)
    }

    /// The column of `len` slots from slot `offset` on, both cut to what there
    /// is.
    #[must_use]
    pub fn slice(&self, offset: usize, len: usize) -> (r: TimestampArray)
        ensures
            ({
                let (start, count) = window(self@.len as int, offset as int, len as int);
                r@ == self@.sliced(start, count)
            }),
    {
        proof {
            use_type_invariant(self);
        }
        let part = slice_array(&self.array, offset, len);
        let n: usize = part.len();
        TimestampArray { array: part }
    }
}

impl Clone for TimestampArray {
    fn clone(&self) -> (r: Self)
        ensures
            r@ == self@,
    {
        proof {
            use_type_invariant(self);
        }
        TimestampArray { array: share(&self.array) }
    }
}

impl TimestampArray {
    /// The column of nanoseconds, none of them null.
    #[must_use]
    pub fn from_nanos(values: Vec<i64>) -> (r: TimestampArray)
        ensures
            r@ == (ArrayV { ty: TypeModel::Timestamp, ..column_of(values@, None) }),
    {
        let plain = PrimitiveArray::<i64>::from_values(values).into_array_ref();
        let array = retype(&plain, DataType::Timestamp);
        let n: usize = array.len();
        TimestampArray { array }
    }

    /// The column of optional nanoseconds, nulls where there are none.
    #[must_use]
    pub fn from_opt_nanos(values: Vec<Option<i64>>) -> (r: TimestampArray)
        ensures
            r@ == (ArrayV { ty: TypeModel::Timestamp, ..column_of(filled(values@), present(values@)) }),
    {
        let plain = PrimitiveArray::<i64>::from_opt_iter(values).into_array_ref();
        let array = retype(&plain, DataType::Timestamp);
        let n: usize = array.len();
        TimestampArray { array }
    }

    /// The nanoseconds in slot `index`, if it is there and not null.
    #[must_use]
    pub fn get(&self, index: usize) -> (r: Option<i64>)
        ensures
            r == (if index < self@.len && self@.valid_at(index as int) {
                Some(values_of::<i64>(self@)[index as int])
            } else {
                None
            }),
    {
        proof {
            use_type_invariant(self);
        }
        let plain = retype(&self.array, DataType::Int64);
        match PrimitiveArray::<i64>::try_from_array(&plain) {
            Ok(values) => {
                assert(values_of::<i64>(plain@) =~= values_of::<i64>(self@));
                values.get(index)
            },
            Err(_) => None,
        }
    }
}

/// A column of spans of time, in nanoseconds.
#[derive(Debug)]
pub struct DurationArray {
    array: ArrayRef,
}

impl View for DurationArray {
    type V = ArrayV;

    closed spec fn view(&self) -> ArrayV {
        self.array@
    }
}

impl DurationArray {
    #[verifier::type_invariant]
    closed spec fn typed(self) -> bool {
        self.array@.ty is Duration && self.array@.wf()
    }

    /// The column an array is, if it is one of these.
    pub fn try_from_array(array: &ArrayRef) -> (r: Result<DurationArray, DataError>)
        ensures
            match r {
                Ok(a) => array@.ty is Duration && a@ == array@,
                Err(e) => !(array@.ty is Duration) && e@ == (DataErrorModel::DowncastFailed {
                    expected: "DurationArray"@,
                    actual: array@.ty,
                }),
            },
    {
        let n: usize = array.len();
        match array.data_type() {
            DataType::Duration => Ok(DurationArray { array: share(array) }),
            _ => Err(DataError::downcast_failed("DurationArray", clone_type(array.data_type()))),
        }
    }

    /// The array.
    #[must_use]
    pub fn into_array_ref(self) -> (r: ArrayRef)
        ensures
            r@ == self@,
            r@.ty is Duration,
            r@.wf(),
    {
        proof {
            use_type_invariant(&self);
        }
        share(&self.array)
    }

    /// The array.
    #[must_use]
    pub fn as_array(&self) -> (r: &ArrayRef)
        ensures
            r@ == self@,
            r@.ty is Duration,
            r@.wf(),
    {
        proof {
            use_type_invariant(self);
        }
        &self.array
    }

    /// Number of slots.
    #[must_use]
    pub fn len(&self) -> (r: usize)
        ensures
            r == self@.len,
    {
        self.array.len()
    }

    /// Whether there are no slots.
    #[must_use]
    pub fn is_empty(&self) -> (r: bool)
        ensures
            r == (self@.len == 0),
    {
        self.array.is_empty()
    }

    /// Number of nulls.
    #[must_use]
    pub fn null_count(&self) -> (r: usize)
        ensures
            r == self@.nulls(),
    {
        self.array.null_count()
    }

    /// Whether slot `index` is there and null.
    #[must_use]
    pub fn is_null(&self, index: usize) -> (r: bool)
        ensures
            r == (index < self@.len && !self@.valid_at(index as int)),
    {
        self.array.is_null(index)
    }

    /// The column of `len` slots from slot `offset` on, both cut to what there
    /// is.
    #[must_use]
    pub fn slice(&self, offset: usize, len: usize) -> (r: DurationArray)
        ensures
            ({
                let (start, count) = window(self@.len as int, offset as int, len as int);
                r@ == self@.sliced(start, count)
            }),
    {
        proof {
            use_type_invariant(self);
        }
        let part = slice_array(&self.array, offset, len);
        let n: usize = part.len();
        DurationArray { array: part }
    }
}

impl Clone for DurationArray {
    fn clone(&self) -> (r: Self)
        ensures
            r@ == self@,
    {
        proof {
            use_type_invariant(self);
        }
        DurationArray { array: share(&self.array) }
    }
}

impl DurationArray {
    /// The column of nanoseconds, none of them null.
    #[must_use]
    pub fn from_nanos(values: Vec<i64>) -> (r: DurationArray)
        ensures
            r@ == (ArrayV { ty: TypeModel::Duration, ..column_of(values@, None) }),
    {
        let plain = PrimitiveArray::<i64>::from_values(values).into_array_ref();
        let array = retype(&plain, DataType::Duration);
        let n: usize = array.len();
        DurationArray { array }
    }

    /// The column of optional nanoseconds, nulls where there are none.
    #[must_use]
    pub fn from_opt_nanos(values: Vec<Option<i64>>) -> (r: DurationArray)
        ensures
            r@ == (ArrayV { ty: TypeModel::Duration, ..column_of(filled(values@), present(values@)) }),
    {
        let plain = PrimitiveArray::<i64>::from_opt_iter(values).into_array_ref();
        let array = retype(&plain, DataType::Duration);
        let n: usize = array.len();
        DurationArray { array }
    }

    /// The nanoseconds in slot `index`, if it is there and not null.
    #[must_use]
    pub fn get(&self, index: usize) -> (r: Option<i64>)
        ensures
            r == (if index < self@.len && self@.valid_at(index as int) {
                Some(values_of::<i64>(self@)[index as int])
            } else {
                None
            }),
    {
        proof {
            use_type_invariant(self);
        }
        let plain = retype(&self.array, DataType::Int64);
        match PrimitiveArray::<i64>::try_from_array(&plain) {
            Ok(values) => {
                assert(values_of::<i64>(plain@) =~= values_of::<i64>(self@));
                values.get(index)
            },
            Err(_) => None,
        }
    }
}

} // verus!
