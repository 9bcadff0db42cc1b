//! Columns of primitive values.
use vstd::prelude::*;
use std::marker::PhantomData;
use std::sync::Arc;
use crate::array::column::{bits_model, slice_array, Array, ArrayRef, Body};
use crate::array::model::{lemma_fixed_width, lemma_scaled, ArrayV, BodyV, Cell};
use crate::array::native::{ArrowNativeType, F16, F32, F64};
use crate::array::parts::lemma_remade;
use crate::buffer::{share, window, Bitmap, Buffer};
use crate::datatype::{clone_type, type_equal};
use crate::error::{DataError, DataErrorModel};
use crate::flat::{flat, lemma_even_starts, lemma_flat_run};

verus! {

/// The values that a column's bytes are, nulls included.
pub open spec fn values_of<T: ArrowNativeType>(a: ArrayV) -> Seq<T> {
    Seq::new(
        a.len,
        |i: int| T::of_le_bytes(a.body->Fixed_0.subrange(i * T::width(), i * T::width() + T::width())),
    )
}

/// The bytes of values.
pub open spec fn bytes_of<T: ArrowNativeType>(values: Seq<T>) -> Seq<u8> {
    flat(Seq::new(values.len(), |i: int| values[i].le_bytes()))
}

/// The column of values.
pub open spec fn column_of<T: ArrowNativeType>(values: Seq<T>, validity: Option<Seq<bool>>) -> ArrayV {
    ArrayV { ty: T::type_model(), len: values.len(), validity, body: BodyV::Fixed(bytes_of(values)) }
}

/// The values a list of optional values holds, zero where there is none.
pub open spec fn filled<T: ArrowNativeType>(values: Seq<Option<T>>) -> Seq<T> {
    Seq::new(
        values.len(),
        |i: int|
            match values[i] {
                Some(v) => v,
                None => T::zero_model(),
            },
    )
}

/// Which of a list of optional values are there: none marked where all are.
pub open spec fn present<T>(values: Seq<Option<T>>) -> Option<Seq<bool>> {
    if forall|i: int| #![trigger values[i]] 0 <= i < values.len() ==> values[i] is Some {
        None
    } else {
        Some(Seq::new(values.len(), |i: int| values[i] is Some))
    }
}

/// What a column of values is, and what it holds.
pub proof fn lemma_column_of<T: ArrowNativeType>(values: Seq<T>, validity: Option<Seq<bool>>)
    requires
        validity matches Some(v) ==> v.len() == values.len(),
        values.len() <= usize::MAX,
        bytes_of(values).len() <= usize::MAX,
    ensures
        column_of(values, validity).wf(),
        values_of::<T>(column_of(values, validity)) == values,
        bytes_of(values).len() == values.len() * T::width(),
        forall|i: int|
            0 <= i < values.len() ==> #[trigger] column_of(values, validity).cell(i) == (if column_of(
                values,
                validity,
            ).valid_at(i) {
                Cell::Bytes(values[i].le_bytes())
            } else {
                Cell::Null
            }),
{
    let lists = Seq::new(values.len(), |i: int| values[i].le_bytes());
    let w = T::width() as int;
    T::lemma_native(T::zero_model());
    assert forall|i: int| #![trigger lists[i]] 0 <= i < lists.len() implies lists[i].len() == w by {
        T::lemma_native(values[i]);
    }
    lemma_even_starts(lists, w, 0);
    let a = column_of(values, validity);
    assert(a.width() == w);
    assert forall|i: int| 0 <= i < values.len() implies #[trigger] a.body->Fixed_0.subrange(i * w, i * w + w)
        == values[i].le_bytes() by {
        lemma_even_starts(lists, w, i);
        lemma_flat_run(lists, i, 0, w);
        assert(lists[i].len() == w);
        assert(lists[i].subrange(0, w) =~= lists[i]);
    }
    assert(values_of::<T>(a) =~= values) by {
        assert forall|i: int| 0 <= i < values.len() implies values_of::<T>(a)[i] == values[i] by {
            assert(a.body->Fixed_0.subrange(i * w, i * w + w) == values[i].le_bytes());
            T::lemma_native(values[i]);
        }
    }
    assert forall|i: int| 0 <= i < values.len() implies #[trigger] a.cell(i) == (if a.valid_at(i) {
        Cell::Bytes(values[i].le_bytes())
    } else {
        Cell::Null
    }) by {
        assert(a.body->Fixed_0.subrange(i * w, i * w + w) == values[i].le_bytes());
    }
}

/// A column of primitive values.
#[derive(Debug)]
pub struct PrimitiveArray<T: ArrowNativeType> {
    array: ArrayRef,
    kind: PhantomData<T>,
}

/// Signed 8-bit integers.
pub type Int8Array = PrimitiveArray<i8>;

/// Signed 16-bit integers.
pub type Int16Array = PrimitiveArray<i16>;

/// Signed 32-bit integers.
pub type Int32Array = PrimitiveArray<i32>;

/// Signed 64-bit integers.
pub type Int64Array = PrimitiveArray<i64>;

/// Unsigned 8-bit integers.
pub type UInt8Array = PrimitiveArray<u8>;

/// Unsigned 16-bit integers.
pub type UInt16Array = PrimitiveArray<u16>;

/// Unsigned 32-bit integers.
pub type UInt32Array = PrimitiveArray<u32>;

/// Unsigned 64-bit integers.
pub type UInt64Array = PrimitiveArray<u64>;

/// Half-precision floating-point numbers.
pub type Float16Array = PrimitiveArray<F16>;

/// Single-precision floating-point numbers.
pub type Float32Array = PrimitiveArray<F32>;

/// Double-precision floating-point numbers.
pub type Float64Array = PrimitiveArray<F64>;

impl<T: ArrowNativeType> View for PrimitiveArray<T> {
    type V = ArrayV;

    closed spec fn view(&self) -> ArrayV {
        self.array@
    }
}

/// The bytes of values.
fn encode_values<T: ArrowNativeType>(values: &Vec<T>) -> (r: Vec<u8>)
    ensures
        r@ == bytes_of(values@),
{
    let ghost lists = Seq::new(values@.len(), |i: int| values@[i].le_bytes());
    let mut out: Vec<u8> = Vec::new();
    let mut i: usize = 0;
    proof {
        assert(lists.take(0) =~= Seq::<Seq<u8>>::empty());
        assert(out@ =~= flat(lists.take(0)));
    }
    while i < values.len()
        invariant
            0 <= i <= values@.len(),
            lists == Seq::new(values@.len(), |i: int| values@[i].le_bytes()),
            out@ == flat(lists.take(i as int)),
        decreases values@.len() - i,
    {
        proof {
            assert(lists.take(i + 1).drop_last() =~= lists.take(i as int));
            assert(lists.take(i + 1).last() == values@[i as int].le_bytes());
        }
        values[i].append_le(&mut out);
        i = i + 1;
    }
    assert(lists.take(i as int) =~= lists);
    out
}

impl<T: ArrowNativeType> PrimitiveArray<T> {
    #[verifier::type_invariant]
    closed spec fn typed(self) -> bool {
        self.array@.ty == T::type_model() && self.array@.wf()
    }

    /// The column of values, none of them null.
    #[must_use]
    pub fn from_values(values: Vec<T>) -> (r: Self)
        ensures
            r@ == column_of(values@, None),
            values_of::<T>(r@) == values@,
    {
        PrimitiveArray::with_bits(&values, None)
    }

    /// The column of optional values, nulls where there is none.
    #[must_use]
    pub fn from_opt_iter(values: Vec<Option<T>>) -> (r: Self)
        ensures
            r@ == column_of(filled(values@), present(values@)),
            values_of::<T>(r@) == filled(values@),
    {
        let mut plain: Vec<T> = Vec::with_capacity(values.len());
        let mut bits: Vec<bool> = Vec::with_capacity(values.len());
        let mut all = true;
        let mut i: usize = 0;
        while i < values.len()
            invariant
                0 <= i <= values@.len(),
                plain@.len() == i,
                bits@.len() == i,
                forall|k: int| #![trigger plain@[k]] 0 <= k < i ==> plain@[k] == filled(values@)[k],
                forall|k: int| #![trigger bits@[k]] 0 <= k < i ==> bits@[k] == (values@[k] is Some),
                all == (forall|k: int| #![trigger values@[k]] 0 <= k < i ==> values@[k] is Some),
            decreases values@.len() - i,
        {
            match values[i] {
                Some(v) => {
                    plain.push(v);
                    bits.push(true);
                },
                None => {
                    plain.push(T::zero());
                    bits.push(false);
                    all = false;
                },
            }
            i = i + 1;
        }
        assert(plain@ =~= filled(values@));
        let validity = if all {
            None
        } else {
            assert(bits@ =~= Seq::new(values@.len(), |i: int| values@[i] is Some));
            Some(Bitmap::from_bools(bits.as_slice()))
        };
        PrimitiveArray::with_bits(&plain, validity)
    }

    /// The column of `len` nulls.
    #[must_use]
    pub fn new_null(len: usize) -> (r: Self)
        ensures
            r@ == column_of(
                filled(Seq::<Option<T>>::new(len as nat, |i: int| None)),
                present(Seq::<Option<T>>::new(len as nat, |i: int| None)),
            ),
    {
        let mut values: Vec<Option<T>> = Vec::with_capacity(len);
        let mut i: usize = 0;
        while i < len
            invariant
                0 <= i <= len,
                values@.len() == i,
                forall|k: int| #![trigger values@[k]] 0 <= k < i ==> values@[k] is None,
            decreases len - i,
        {
            values.push(None);
            i = i + 1;
        }
        assert(values@ =~= Seq::<Option<T>>::new(len as nat, |i: int| None));
        PrimitiveArray::from_opt_iter(values)
    }

    /// The column of values under a validity bitmap.
    fn with_bits(values: &Vec<T>, validity: Option<Bitmap>) -> (r: Self)
        requires
            bits_model(validity) matches Some(v) ==> v.len() == values@.len(),
        ensures
            r@ == column_of(values@, bits_model(validity)),
            values_of::<T>(r@) == values@,
    {
        let bytes = encode_values(values);
        let n: usize = values.len();
        let total: usize = bytes.len();
        let ghost bits = bits_model(validity);
        proof {
            lemma_column_of(values@, bits);
            lemma_remade(column_of(values@, bits));
        }
        match Array::fixed(T::data_type(), Buffer::from_vec(bytes), validity) {
            Ok(a) => PrimitiveArray { array: Arc::new(a), kind: PhantomData },
            Err(_) => PrimitiveArray { array: Arc::new(Array::null(0)), kind: PhantomData },
        }
    }

    /// The column an array is, if it is one of these.
    pub fn try_from_array(array: &ArrayRef) -> (r: Result<Self, DataError>)
        ensures
            match r {
                Ok(a) => array@.ty == T::type_model() && a@ == array@,
                Err(e) => array@.ty != T::type_model() && e@ == (DataErrorModel::DowncastFailed {
                    expected: "PrimitiveArray"@,
                    actual: array@.ty,
                }),
            },
    {
        let wanted = T::data_type();
        let n: usize = array.len();
        if type_equal(array.data_type(), &wanted) {
            Ok(PrimitiveArray { array: share(array), kind: PhantomData })
        } else {
            Err(DataError::downcast_failed("PrimitiveArray", clone_type(array.data_type())))
        }
    }

    /// The array.
    #[must_use]
    pub fn into_array_ref(self) -> (r: ArrayRef)
        ensures
            r@ == self@,
            r@.ty == T::type_model(),
            r@.wf(),
    {
        proof {
            use_type_invariant(&self);
        }
        share(&self.array)
    }

    /// The array.
    #[must_use]
    pub fn as_array(&self) -> (r: &ArrayRef)
        ensures
            r@ == self@,
            r@.ty == T::type_model(),
            r@.wf(),
    {
        proof {
            use_type_invariant(self);
        }
        &self.array
    }

    /// Number of slots.
    #[must_use]
    pub fn len(&self) -> (r: usize)
        ensures
            r == self@.len,
    {
        self.array.len()
    }

    /// Whether there are no slots.
    #[must_use]
    pub fn is_empty(&self) -> (r: bool)
        ensures
            r == (self@.len == 0),
    {
        self.array.is_empty()
    }

    /// Number of nulls.
    #[must_use]
    pub fn null_count(&self) -> (r: usize)
        ensures
            r == self@.nulls(),
    {
        self.array.null_count()
    }

    /// Whether slot `index` is there and null.
    #[must_use]
    pub fn is_null(&self, index: usize) -> (r: bool)
        ensures
            r == (index < self@.len && !self@.valid_at(index as int)),
    {
        self.array.is_null(index)
    }

    /// The value in slot `index`, null or not.
    #[must_use]
    pub fn value(&self, index: usize) -> (r: T)
        requires
            index < self@.len,
        ensures
            r == values_of::<T>(self@)[index as int],
    {
        proof {
            use_type_invariant(self);
            T::lemma_native(T::zero_model());
            lemma_fixed_width(self.array@);
            lemma_scaled(index as int, self.array@.len as int, T::width() as int);
        }
        let width: usize = T::byte_width();
        match self.array.body() {
            Body::Fixed(bytes) => {
                let slice = bytes.as_slice();
                assert(slice.len() == slice@.len());
                T::read_le(slice, index * width)
            },
            _ => T::zero(),
        }
    }

    /// The value in slot `index`, if it is there and not null.
    #[must_use]
    pub fn get(&self, index: usize) -> (r: Option<T>)
        ensures
            r == (if index < self@.len && self@.valid_at(index as int) {
                Some(values_of::<T>(self@)[index as int])
            } else {
                None
            }),
    {
        if self.array.is_valid(index) {
            Some(self.value(index))
        } else {
            None
        }
    }

    /// Every value, nulls included as what stands under them.
    #[must_use]
    pub fn values(&self) -> (r: Vec<T>)
        ensures
            r@ == values_of::<T>(self@),
    {
        let n: usize = self.array.len();
        let mut out: Vec<T> = Vec::with_capacity(n);
        let mut i: usize = 0;
        while i < n
            invariant
                0 <= i <= n == self@.len,
                out@.len() == i,
                forall|k: int| #![trigger out@[k]] 0 <= k < i ==> out@[k] == values_of::<T>(self@)[k],
            decreases n - i,
        {
            out.push(self.value(i));
            i = i + 1;
        }
        assert(out@ =~= values_of::<T>(self@));
        out
    }

    /// Every slot, `None` where it is null.
    #[must_use]
    pub fn iter(&self) -> (r: Vec<Option<T>>)
        ensures
            r@.len() == self@.len,
            forall|i: int|
                #![trigger r@[i]]
                0 <= i < r@.len() ==> r@[i] == (if self@.valid_at(i) {
                    Some(values_of::<T>(self@)[i])
                } else {
                    None
                }),
    {
        let n: usize = self.array.len();
        let mut out: Vec<Option<T>> = Vec::with_capacity(n);
        let mut i: usize = 0;
        while i < n
            invariant
                0 <= i <= n == self@.len,
                out@.len() == i,
                forall|k: int|
                    #![trigger out@[k]]
                    0 <= k < i ==> out@[k] == (if self@.valid_at(k) {
                        Some(values_of::<T>(self@)[k])
                    } else {
                        None
                    }),
            decreases n - i,
        {
            out.push(self.get(i));
            i = i + 1;
        }
        out
    }

    /// The column of `len` slots from slot `offset` on, both cut to what there
    /// is.
    #[must_use]
    pub fn slice(&self, offset: usize, len: usize) -> (r: Self)
        ensures
            ({
                let (start, count) = window(self@.len as int, offset as int, len as int);
                r@ == self@.sliced(start, count)
            }),
    {
        proof {
            use_type_invariant(self);
        }
        let part = slice_array(&self.array, offset, len);
        let n: usize = part.len();
        PrimitiveArray { array: part, kind: PhantomData }
    }
}

impl<T: ArrowNativeType> Clone for PrimitiveArray<T> {
    fn clone(&self) -> (r: Self)
        ensures
            r@ == self@,
    {
        proof {
            use_type_invariant(self);
        }
        PrimitiveArray { array: share(&self.array), kind: PhantomData }
    }
}

} // verus!
