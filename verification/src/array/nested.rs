//! Columns of fixed-size values, lists and structs.
use vstd::prelude::*;
use std::sync::Arc;
use crate::array::column::{
    arrays_model, bits_model, lemma_offset_pair, lemma_struct_body, slice_array, Array, ArrayRef, Body,
};
use crate::array::model::{lemma_fixed_width, lemma_scaled, max_offset, ArrayV, BodyV, Cell};
use crate::buffer::{share, window, Bitmap, Buffer, Offsets};
use crate::datatype::{clone_type, DataType, TypeModel};
use crate::error::{DataError, DataErrorModel};
use vstd::slice::slice_subrange;
use crate::array::flats::bools_model;
use crate::array::parts::{lemma_remade, make_fixed_list, make_list, make_struct};
use crate::array::primitive::present;
use crate::datatype::{clone_field, fields_model, Field, FieldModel};
use crate::flat::{flat, lemma_even_starts, lemma_flat_run};
use crate::le::{extend, extend_zeros, zeros};
use crate::lex::text_equal;
use crate::schema::first_named;

verus! {

/// The bitmap of an optional list of bits.
fn pack(bits: Option<Vec<bool>>) -> (r: Option<Bitmap>)
    ensures
        bits_model(r) == bools_model(bits),
{
    match bits {
        Some(v) => Some(Bitmap::from_bools(v.as_slice())),
        None => None,
    }
}

/// A column of byte strings of one size.
#[derive(Debug)]
pub struct FixedSizeBinaryArray {
    array: ArrayRef,
}

impl View for FixedSizeBinaryArray {
    type V = ArrayV;

    closed spec fn view(&self) -> ArrayV {
        self.array@
    }
}

impl FixedSizeBinaryArray {
    #[verifier::type_invariant]
    closed spec fn typed(self) -> bool {
        self.array@.ty is FixedSizeBinary && self.array@.wf()
    }

    /// The column an array is, if it is one of these.
    pub fn try_from_array(array: &ArrayRef) -> (r: Result<FixedSizeBinaryArray, DataError>)
        ensures
            match r {
                Ok(a) => array@.ty is FixedSizeBinary && a@ == array@,
                Err(e) => !(array@.ty is FixedSizeBinary) && e@ == (DataErrorModel::DowncastFailed {
                    expected: "FixedSizeBinaryArray"@,
                    actual: array@.ty,
                }),
            },
    {
        let n: usize = array.len();
        match array.data_type() {
            DataType::FixedSizeBinary(_) => Ok(FixedSizeBinaryArray { array: share(array) }),
            _ => Err(DataError::downcast_failed("FixedSizeBinaryArray", clone_type(array.data_type()))),
        }
    }

    /// The array.
    #[must_use]
    pub fn into_array_ref(self) -> (r: ArrayRef)
        ensures
            r@ == self@,
            r@.ty is FixedSizeBinary,
            r@.wf(),
    {
        proof {
            use_type_invariant(&self);
        }
        share(&self.array)
    }

    /// The array.
    #[must_use]
    pub fn as_array(&self) -> (r: &ArrayRef)
        ensures
            r@ == self@,
            r@.ty is FixedSizeBinary,
            r@.wf(),
    {
        proof {
            use_type_invariant(self);
        }
        &self.array
    }

    /// Number of slots.
    #[must_use]
    pub fn len(&self) -> (r: usize)
        ensures
            r == self@.len,
    {
        self.array.len()
    }

    /// Whether there are no slots.
    #[must_use]
    pub fn is_empty(&self) -> (r: bool)
        ensures
            r == (self@.len == 0),
    {
        self.array.is_empty()
    }

    /// Number of nulls.
    #[must_use]
    pub fn null_count(&self) -> (r: usize)
        ensures
            r == self@.nulls(),
    {
        self.array.null_count()
    }

    /// Whether slot `index` is there and null.
    #[must_use]
    pub fn is_null(&self, index: usize) -> (r: bool)
        ensures
            r == (index < self@.len && !self@.valid_at(index as int)),
    {
        self.array.is_null(index)
    }

    /// The column of `len` slots from slot `offset` on, both cut to what there
    /// is.
    #[must_use]
    pub fn slice(&self, offset: usize, len: usize) -> (r: FixedSizeBinaryArray)
        ensures
            ({
                let (start, count) = window(self@.len as int, offset as int, len as int);
                r@ == self@.sliced(start, count)
            }),
    {
        proof {
            use_type_invariant(self);
        }
        let part = slice_array(&self.array, offset, len);
        let n: usize = part.len();
        FixedSizeBinaryArray { array: part }
    }
}

impl Clone for FixedSizeBinaryArray {
    fn clone(&self) -> (r: Self)
        ensures
            r@ == self@,
    {
        proof {
            use_type_invariant(self);
        }
        FixedSizeBinaryArray { array: share(&self.array) }
    }
}

/// The bytes of optional byte strings of one size, zeros where there is none.
pub open spec fn sized_lists(size: nat, slots: Seq<Option<Seq<u8>>>) -> Seq<Seq<u8>> {
    Seq::new(
        slots.len(),
        |i: int|
            match slots[i] {
                Some(b) => b,
                None => zeros(size),
            },
    )
}

/// The column of optional byte strings of one size.
pub open spec fn sized_column(size: i32, slots: Seq<Option<Seq<u8>>>) -> ArrayV {
    ArrayV {
        ty: TypeModel::FixedSizeBinary(size),
        len: slots.len(),
        validity: present(slots),
        body: BodyV::Fixed(flat(sized_lists(size as nat, slots))),
    }
}

/// The first of the first `count` byte strings of another size.
pub open spec fn first_missized(size: nat, slots: Seq<Option<Seq<u8>>>, count: nat) -> Option<nat>
    decreases count,
{
    if count == 0 {
        None
    } else {
        match first_missized(size, slots, (count - 1) as nat) {
            Some(i) => Some(i),
            None => match slots[count - 1] {
                Some(b) => if b.len() != size {
                    Some((count - 1) as nat)
                } else {
                    None
                },
                None => None,
            },
        }
    }
}

/// The column that optional byte strings of one size make, or why they make
/// none.
pub open spec fn make_sized(size: i32, slots: Seq<Option<Seq<u8>>>) -> Result<ArrayV, DataErrorModel> {
    if size <= 0 {
        Err(DataErrorModel::InvalidFixedSize { size })
    } else {
        match first_missized(size as nat, slots, slots.len()) {
            Some(i) => Err(
                DataErrorModel::ValueLengthMismatch {
                    expected: size as usize,
                    actual: slots[i as int]->0.len() as usize,
                },
            ),
            None => Ok(sized_column(size, slots)),
        }
    }
}

proof fn lemma_missized_stays(size: nat, slots: Seq<Option<Seq<u8>>>, count: nat, all: nat)
    requires
        count <= all,
        first_missized(size, slots, count) is Some,
    ensures
        first_missized(size, slots, all) == first_missized(size, slots, count),
    decreases all,
{
    if count < all {
        lemma_missized_stays(size, slots, count, (all - 1) as nat);
    }
}

/// What the column is, and what it holds.
pub proof fn lemma_sized_column(size: i32, slots: Seq<Option<Seq<u8>>>)
    requires
        size > 0,
        forall|i: int|
            #![trigger slots[i]]
            0 <= i < slots.len() && slots[i] is Some ==> slots[i]->0.len() == size,
        slots.len() <= usize::MAX,
        flat(sized_lists(size as nat, slots)).len() <= usize::MAX,
    ensures
        sized_column(size, slots).wf(),
        forall|i: int|
            0 <= i < slots.len() ==> #[trigger] sized_column(size, slots).cell(i) == (match slots[i] {
                Some(b) => Cell::Bytes(b),
                None => Cell::Null,
            }),
{
    let lists = sized_lists(size as nat, slots);
    let w = size as int;
    assert forall|i: int| #![trigger lists[i]] 0 <= i < lists.len() implies lists[i].len() == w by {
        assert(slots[i] is Some ==> slots[i]->0.len() == size);
    }
    lemma_even_starts(lists, w, 0);
    let a = sized_column(size, slots);
    assert(a.width() == w);
    assert forall|i: int| 0 <= i < slots.len() implies #[trigger] a.cell(i) == (match slots[i] {
        Some(b) => Cell::Bytes(b),
        None => Cell::Null,
    }) by {
        lemma_even_starts(lists, w, i);
        assert(lists[i].len() == w);
        lemma_flat_run(lists, i, 0, w);
        assert(lists[i].subrange(0, w) =~= lists[i]);
        assert(a.valid_at(i) == (slots[i] is Some));
    }
}

impl FixedSizeBinaryArray {
    /// The column of byte strings of one size, none of them null.
    pub fn try_from_values(size: i32, values: Vec<&[u8]>) -> (r: Result<FixedSizeBinaryArray, DataError>)
        ensures
            ({
                let slots = crate::array::strings::slices_model(
                    Seq::new(values@.len(), |i: int| Some(values@[i])),
                );
                match r {
                    Ok(a) => make_sized(size, slots) == Ok::<ArrayV, DataErrorModel>(a@),
                    Err(e) => make_sized(size, slots) == Err::<ArrayV, DataErrorModel>(e@),
                }
            }),
    {
        let mut slots: Vec<Option<&[u8]>> = Vec::with_capacity(values.len());
        let mut i: usize = 0;
        while i < values.len()
            invariant
                0 <= i <= values@.len(),
                slots@.len() == i,
                forall|k: int| #![trigger slots@[k]] 0 <= k < i ==> slots@[k] == Some(values@[k]),
            decreases values@.len() - i,
        {
            slots.push(Some(values[i]));
            i = i + 1;
        }
        assert(slots@ =~= Seq::new(values@.len(), |i: int| Some(values@[i])));
        FixedSizeBinaryArray::try_from_opt_iter(size, slots)
    }

    /// The column of optional byte strings of one size, nulls where there is
    /// none.
    pub fn try_from_opt_iter(size: i32, slots: Vec<Option<&[u8]>>) -> (r: Result<
        FixedSizeBinaryArray,
        DataError,
    >)
        ensures
            ({
                let model = crate::array::strings::slices_model(slots@);
                match r {
                    Ok(a) => make_sized(size, model) == Ok::<ArrayV, DataErrorModel>(a@),
                    Err(e) => make_sized(size, model) == Err::<ArrayV, DataErrorModel>(e@),
                }
            }),
    {
        if size <= 0 {
            return Err(DataError::InvalidFixedSize { size });
        }
        let width: usize = size as usize;
        let ghost model = crate::array::strings::slices_model(slots@);
        let ghost lists = sized_lists(size as nat, model);
        let mut bytes: Vec<u8> = Vec::new();
        let mut bits: Vec<bool> = Vec::new();
        let mut all = true;
        let mut i: usize = 0;
        proof {
            assert(lists.take(0) =~= Seq::<Seq<u8>>::empty());
            assert(bytes@ =~= flat(lists.take(0)));
        }
        while i < slots.len()
            invariant
                0 <= i <= slots@.len(),
                model == crate::array::strings::slices_model(slots@),
                lists == sized_lists(size as nat, model),
                width == size,
                size > 0,
                first_missized(size as nat, model, i as nat) is None,
                forall|k: int|
                    #![trigger model[k]]
                    0 <= k < i && model[k] is Some ==> model[k]->0.len() == size,
                bytes@ == flat(lists.take(i as int)),
                bits@.len() == i,
                forall|k: int| #![trigger bits@[k]] 0 <= k < i ==> bits@[k] == (model[k] is Some),
                all == (forall|k: int| #![trigger model[k]] 0 <= k < i ==> model[k] is Some),
            decreases slots@.len() - i,
        {
            proof {
                assert(lists.take(i + 1).drop_last() =~= lists.take(i as int));
                assert(lists.take(i + 1).last() == lists[i as int]);
            }
            match slots[i] {
                Some(slot) => {
                    assert(model[i as int] == Some(slot@));
                    if slot.len() != width {
                        proof {
                            assert(first_missized(size as nat, model, (i + 1) as nat) == Some(i as nat));
                            lemma_missized_stays(size as nat, model, (i + 1) as nat, model.len());
                            assert(model[i as int]->0.len() as usize == slot.len());
                        }
                        return Err(DataError::ValueLengthMismatch { expected: width, actual: slot.len() });
                    }
                    extend(&mut bytes, slot);
                    bits.push(true);
                },
                None => {
                    assert(model[i as int] is None);
                    extend_zeros(&mut bytes, width);
                    bits.push(false);
                    all = false;
                },
            }
            i = i + 1;
        }
        assert(lists.take(i as int) =~= lists);
        let total: usize = bytes.len();
        let validity = if all {
            None
        } else {
            assert(bits@ =~= Seq::new(model.len(), |i: int| model[i] is Some));
            Some(Bitmap::from_bools(bits.as_slice()))
        };
        proof {
            lemma_sized_column(size, model);
            lemma_remade(sized_column(size, model));
        }
        match Array::fixed(DataType::FixedSizeBinary(size), Buffer::from_vec(bytes), validity) {
            Ok(a) => Ok(FixedSizeBinaryArray { array: Arc::new(a) }),
            Err(e) => Err(e),
        }
    }

    /// The bytes in slot `index`, if it is there and not null.
    #[must_use]
    pub fn get(&self, index: usize) -> (r: Option<&[u8]>)
        ensures
            match r {
                Some(b) => index < self@.len && self@.valid_at(index as int) && self@.cell(index as int)
                    == Cell::Bytes(b@),
                None => index >= self@.len || !self@.valid_at(index as int),
            },
    {
        proof {
            use_type_invariant(self);
        }
        if !self.array.is_valid(index) {
            return None;
        }
        let width: usize = self.array.value_width();
        match self.array.body() {
            Body::Fixed(bytes) => {
                proof {
                    lemma_fixed_width(self.array@);
                    lemma_scaled(index as int, self.array@.len as int, width as int);
                }
                let slice = bytes.as_slice();
                assert(slice.len() == slice@.len());
                Some(slice_subrange(slice, index * width, index * width + width))
            },
            _ => None,
        }
    }
}

/// A column of lists.
#[derive(Debug)]
pub struct ListArray {
    array: ArrayRef,
}

impl View for ListArray {
    type V = ArrayV;

    closed spec fn view(&self) -> ArrayV {
        self.array@
    }
}

impl ListArray {
    #[verifier::type_invariant]
    closed spec fn typed(self) -> bool {
        self.array@.ty is List && self.array@.wf()
    }

    /// The column an array is, if it is one of these.
    pub fn try_from_array(array: &ArrayRef) -> (r: Result<ListArray, DataError>)
        ensures
            match r {
                Ok(a) => array@.ty is List && a@ == array@,
                Err(e) => !(array@.ty is List) && e@ == (DataErrorModel::DowncastFailed {
                    expected: "ListArray"@,
                    actual: array@.ty,
                }),
            },
    {
        let n: usize = array.len();
        match array.data_type() {
            DataType::List(_) => Ok(ListArray { array: share(array) }),
            _ => Err(DataError::downcast_failed("ListArray", clone_type(array.data_type()))),
        }
    }

    /// The array.
    #[must_use]
    pub fn into_array_ref(self) -> (r: ArrayRef)
        ensures
            r@ == self@,
            r@.ty is List,
            r@.wf(),
    {
        proof {
            use_type_invariant(&self);
        }
        share(&self.array)
    }

    /// The array.
    #[must_use]
    pub fn as_array(&self) -> (r: &ArrayRef)
        ensures
            r@ == self@,
            r@.ty is List,
            r@.wf(),
    {
        proof {
            use_type_invariant(self);
        }
        &self.array
    }

    /// Number of slots.
    #[must_use]
    pub fn len(&self) -> (r: usize)
        ensures
            r == self@.len,
    {
        self.array.len()
    }

    /// Whether there are no slots.
    #[must_use]
    pub fn is_empty(&self) -> (r: bool)
        ensures
            r == (self@.len == 0),
    {
        self.array.is_empty()
    }

    /// Number of nulls.
    #[must_use]
    pub fn null_count(&self) -> (r: usize)
        ensures
            r == self@.nulls(),
    {
        self.array.null_count()
    }

    /// Whether slot `index` is there and null.
    #[must_use]
    pub fn is_null(&self, index: usize) -> (r: bool)
        ensures
            r == (index < self@.len && !self@.valid_at(index as int)),
    {
        self.array.is_null(index)
    }

    /// The column of `len` slots from slot `offset` on, both cut to what there
    /// is.
    #[must_use]
    pub fn slice(&self, offset: usize, len: usize) -> (r: ListArray)
        ensures
            ({
                let (start, count) = window(self@.len as int, offset as int, len as int);
                r@ == self@.sliced(start, count)
            }),
    {
        proof {
            use_type_invariant(self);
        }
        let part = slice_array(&self.array, offset, len);
        let n: usize = part.len();
        ListArray { array: part }
    }
}

impl Clone for ListArray {
    fn clone(&self) -> (r: Self)
        ensures
            r@ == self@,
    {
        proof {
            use_type_invariant(self);
        }
        ListArray { array: share(&self.array) }
    }
}

/// Running totals of lengths.
pub open spec fn totals(lengths: Seq<usize>, count: nat) -> nat
    decreases count,
{
    if count == 0 {
        0
    } else {
        totals(lengths, (count - 1) as nat) + lengths[count - 1] as nat
    }
}

/// The first of the first `count` totals past what list offsets can hold.
pub open spec fn first_long(lengths: Seq<usize>, count: nat) -> Option<nat>
    decreases count,
{
    if count == 0 {
        None
    } else {
        match first_long(lengths, (count - 1) as nat) {
            Some(n) => Some(n),
            None => if totals(lengths, count) > i32::MAX {
                Some(totals(lengths, count))
            } else {
                None
            },
        }
    }
}

proof fn lemma_first_long_stays(lengths: Seq<usize>, count: nat, all: nat)
    requires
        count <= all,
        first_long(lengths, count) is Some,
    ensures
        first_long(lengths, all) == first_long(lengths, count),
    decreases all,
{
    if count < all {
        lemma_first_long_stays(lengths, count, (all - 1) as nat);
    }
}

/// The lists of given lengths, one behind the other in the child, or why they
/// make no column.
pub open spec fn make_lengths(field: FieldModel, lengths: Seq<usize>, child: ArrayV) -> Result<
    ArrayV,
    DataErrorModel,
> {
    match first_long(lengths, lengths.len()) {
        Some(n) => Err(DataErrorModel::OffsetWidthOverflow { total: n as usize, max: i32::MAX as usize }),
        None => make_list(
            field,
            Seq::new(lengths.len() + 1, |i: int| totals(lengths, i as nat) as i64),
            child,
            None,
        ),
    }
}

impl ListArray {
    /// The column of lists that offsets cut out of a child.
    pub fn try_new(field: Field, offsets: Vec<i32>, values: ArrayRef, validity: Option<Vec<bool>>) -> (r: Result<
        ListArray,
        DataError,
    >)
        ensures
            ({
                let wide = Seq::new(offsets@.len(), |i: int| offsets@[i] as i64);
                match r {
                    Ok(a) => make_list(field@, wide, values@, bools_model(validity)) == Ok::<
                        ArrayV,
                        DataErrorModel,
                    >(a@),
                    Err(e) => make_list(field@, wide, values@, bools_model(validity)) == Err::<
                        ArrayV,
                        DataErrorModel,
                    >(e@),
                }
            }),
    {
        let mut wide: Vec<i64> = Vec::with_capacity(offsets.len());
        let mut i: usize = 0;
        while i < offsets.len()
            invariant
                0 <= i <= offsets@.len(),
                wide@.len() == i,
                forall|k: int| #![trigger wide@[k]] 0 <= k < i ==> wide@[k] == offsets@[k],
            decreases offsets@.len() - i,
        {
            wide.push(offsets[i] as i64);
            i = i + 1;
        }
        assert(wide@ =~= Seq::new(offsets@.len(), |i: int| offsets@[i] as i64));
        match Array::list(field, Offsets::from_vec(wide), values, pack(validity)) {
            Ok(a) => {
                let n: usize = a.len();
                Ok(ListArray { array: Arc::new(a) })
            },
            Err(e) => Err(e),
        }
    }

    /// The column of lists of given lengths, one behind the other in the child.
    pub fn try_from_lengths(field: Field, lengths: Vec<usize>, values: ArrayRef) -> (r: Result<
        ListArray,
        DataError,
    >)
        ensures
            match r {
                Ok(a) => make_lengths(field@, lengths@, values@) == Ok::<ArrayV, DataErrorModel>(a@),
                Err(e) => make_lengths(field@, lengths@, values@) == Err::<ArrayV, DataErrorModel>(e@),
            },
    {
        let mut wide: Vec<i64> = Vec::new();
        let mut total: usize = 0;
        let mut i: usize = 0;
        wide.push(0);
        while i < lengths.len()
            invariant
                0 <= i <= lengths@.len(),
                total == totals(lengths@, i as nat),
                total <= i32::MAX,
                first_long(lengths@, i as nat) is None,
                wide@.len() == i + 1,
                forall|k: int|
                    #![trigger wide@[k]]
                    0 <= k <= i ==> wide@[k] == totals(lengths@, k as nat) as i64,
            decreases lengths@.len() - i,
        {
            let next: u128 = total as u128 + lengths[i] as u128;
            assert(next == totals(lengths@, (i + 1) as nat));
            if next > 0x7FFF_FFFF {
                proof {
                    lemma_first_long_stays(lengths@, (i + 1) as nat, lengths@.len());
                }
                return Err(
                    DataError::OffsetWidthOverflow {
                        total: #[verifier::truncate] (next as usize),
                        max: 0x7FFF_FFFF,
                    },
                );
            }
            total = next as usize;
            wide.push(total as i64);
            i = i + 1;
        }
        assert(wide@ =~= Seq::new(lengths@.len() + 1, |i: int| totals(lengths@, i as nat) as i64));
        match Array::list(field, Offsets::from_vec(wide), values, None) {
            Ok(a) => {
                let n: usize = a.len();
                Ok(ListArray { array: Arc::new(a) })
            },
            Err(e) => Err(e),
        }
    }

    /// The same lists under another validity.
    pub fn with_validity(self, validity: Option<Vec<bool>>) -> (r: Result<ListArray, DataError>)
        ensures
            ({
                let want = make_list(
                    *self@.ty->List_0,
                    self@.body->List_offsets,
                    *self@.body->List_child,
                    bools_model(validity),
                );
                match r {
                    Ok(a) => want == Ok::<ArrayV, DataErrorModel>(a@),
                    Err(e) => want == Err::<ArrayV, DataErrorModel>(e@),
                }
            }),
    {
        proof {
            use_type_invariant(&self);
        }
        match (self.array.data_type(), self.array.body()) {
            (DataType::List(field), Body::List { offsets, child }) => match Array::list(
                clone_field(field),
                offsets.share(),
                share(child),
                pack(validity),
            ) {
                Ok(a) => {
                    let n: usize = a.len();
                    Ok(ListArray { array: Arc::new(a) })
                },
                Err(e) => Err(e),
            },
            _ => Ok(self),
        }
    }

    /// The list in slot `index`, if it is there and not null.
    #[must_use]
    pub fn get(&self, index: usize) -> (r: Option<ArrayRef>)
        ensures
            match r {
                Some(list) => {
                    let offsets = self@.body->List_offsets;
                    &&& index < self@.len
                    &&& self@.valid_at(index as int)
                    &&& list@ == self@.body->List_child.sliced(
                        offsets[index as int] as int,
                        offsets[index + 1] - offsets[index as int],
                    )
                    &&& self@.cell(index as int) == Cell::Nested(list@.cells())
                },
                None => index >= self@.len || !self@.valid_at(index as int),
            },
    {
        proof {
            use_type_invariant(self);
        }
        if !self.array.is_valid(index) {
            return None;
        }
        match self.array.body() {
            Body::List { offsets, child } => {
                let n: usize = child.len();
                proof {
                    lemma_offset_pair(
                        offsets@,
                        self.array@.len,
                        child@.len as int,
                        max_offset(self.array@.ty),
                        index as int,
                    );
                }
                let start: usize = offsets.at(index) as usize;
                let count: usize = (offsets.at(index + 1) - offsets.at(index)) as usize;
                let list = slice_array(child, start, count);
                proof {
                    let want = self.array@.cell(index as int)->Nested_0;
                    assert forall|j: int| 0 <= j < want.len() implies want[j] == list@.cells()[j] by {
                        assert(child@.cells().subrange(start as int, start + count)[j] == child@.cell(start + j));
                    }
                    assert(want =~= list@.cells());
                }
                Some(list)
            },
            _ => None,
        }
    }

    /// How many things the list in slot `index` spans, null or not.
    #[must_use]
    pub fn value_length(&self, index: usize) -> (r: Option<usize>)
        ensures
            match r {
                Some(n) => index < self@.len && n == self@.body->List_offsets[index + 1]
                    - self@.body->List_offsets[index as int],
                None => index >= self@.len,
            },
    {
        proof {
            use_type_invariant(self);
        }
        if index >= self.array.len() {
            return None;
        }
        match self.array.body() {
            Body::List { offsets, child } => {
                let n: usize = child.len();
                proof {
                    lemma_offset_pair(
                        offsets@,
                        self.array@.len,
                        child@.len as int,
                        max_offset(self.array@.ty),
                        index as int,
                    );
                }
                Some((offsets.at(index + 1) - offsets.at(index)) as usize)
            },
            _ => None,
        }
    }

    /// The elements of every list.
    #[must_use]
    pub fn values(&self) -> (r: ArrayRef)
        ensures
            r@ == *self@.body->List_child,
    {
        proof {
            use_type_invariant(self);
        }
        match self.array.body() {
            Body::List { offsets, child } => share(child),
            _ => share(&self.array),
        }
    }
}

/// A column of lists of one size.
#[derive(Debug)]
pub struct FixedSizeListArray {
    array: ArrayRef,
}

impl View for FixedSizeListArray {
    type V = ArrayV;

    closed spec fn view(&self) -> ArrayV {
        self.array@
    }
}

impl FixedSizeListArray {
    #[verifier::type_invariant]
    closed spec fn typed(self) -> bool {
        self.array@.ty is FixedSizeList && self.array@.wf()
    }

    /// The column an array is, if it is one of these.
    pub fn try_from_array(array: &ArrayRef) -> (r: Result<FixedSizeListArray, DataError>)
        ensures
            match r {
                Ok(a) => array@.ty is FixedSizeList && a@ == array@,
                Err(e) => !(array@.ty is FixedSizeList) && e@ == (DataErrorModel::DowncastFailed {
                    expected: "FixedSizeListArray"@,
                    actual: array@.ty,
                }),
            },
    {
        let n: usize = array.len();
        match array.data_type() {
            DataType::FixedSizeList(_, _) => Ok(FixedSizeListArray { array: share(array) }),
            _ => Err(DataError::downcast_failed("FixedSizeListArray", clone_type(array.data_type()))),
        }
    }

    /// The array.
    #[must_use]
    pub fn into_array_ref(self) -> (r: ArrayRef)
        ensures
            r@ == self@,
            r@.ty is FixedSizeList,
            r@.wf(),
    {
        proof {
            use_type_invariant(&self);
        }
        share(&self.array)
    }

    /// The array.
    #[must_use]
    pub fn as_array(&self) -> (r: &ArrayRef)
        ensures
            r@ == self@,
            r@.ty is FixedSizeList,
            r@.wf(),
    {
        proof {
            use_type_invariant(self);
        }
        &self.array
    }

    /// Number of slots.
    #[must_use]
    pub fn len(&self) -> (r: usize)
        ensures
            r == self@.len,
    {
        self.array.len()
    }

    /// Whether there are no slots.
    #[must_use]
    pub fn is_empty(&self) -> (r: bool)
        ensures
            r == (self@.len == 0),
    {
        self.array.is_empty()
    }

    /// Number of nulls.
    #[must_use]
    pub fn null_count(&self) -> (r: usize)
        ensures
            r == self@.nulls(),
    {
        self.array.null_count()
    }

    /// Whether slot `index` is there and null.
    #[must_use]
    pub fn is_null(&self, index: usize) -> (r: bool)
        ensures
            r == (index < self@.len && !self@.valid_at(index as int)),
    {
        self.array.is_null(index)
    }

    /// The column of `len` slots from slot `offset` on, both cut to what there
    /// is.
    #[must_use]
    pub fn slice(&self, offset: usize, len: usize) -> (r: FixedSizeListArray)
        ensures
            ({
                let (start, count) = window(self@.len as int, offset as int, len as int);
                r@ == self@.sliced(start, count)
            }),
    {
        proof {
            use_type_invariant(self);
        }
        let part = slice_array(&self.array, offset, len);
        let n: usize = part.len();
        FixedSizeListArray { array: part }
    }
}

impl Clone for FixedSizeListArray {
    fn clone(&self) -> (r: Self)
        ensures
            r@ == self@,
    {
        proof {
            use_type_invariant(self);
        }
        FixedSizeListArray { array: share(&self.array) }
    }
}

impl FixedSizeListArray {
    /// The column of lists of one size, one behind the other in the child.
    pub fn try_new(field: Field, size: i32, values: ArrayRef, validity: Option<Vec<bool>>) -> (r: Result<
        FixedSizeListArray,
        DataError,
    >)
        ensures
            match r {
                Ok(a) => make_fixed_list(field@, size, values@, bools_model(validity)) == Ok::<
                    ArrayV,
                    DataErrorModel,
                >(a@),
                Err(e) => make_fixed_list(field@, size, values@, bools_model(validity)) == Err::<
                    ArrayV,
                    DataErrorModel,
                >(e@),
            },
    {
        match Array::fixed_list(field, size, values, pack(validity)) {
            Ok(a) => {
                let n: usize = a.len();
                Ok(FixedSizeListArray { array: Arc::new(a) })
            },
            Err(e) => Err(e),
        }
    }

    /// The list in slot `index`, if it is there and not null.
    #[must_use]
    pub fn get(&self, index: usize) -> (r: Option<ArrayRef>)
        ensures
            match r {
                Some(list) => {
                    let n = self@.list_size();
                    &&& index < self@.len
                    &&& self@.valid_at(index as int)
                    &&& list@ == self@.body->FixedList_0.sliced((index * n) as int, n as int)
                    &&& self@.cell(index as int) == Cell::Nested(list@.cells())
                },
                None => index >= self@.len || !self@.valid_at(index as int),
            },
    {
        proof {
            use_type_invariant(self);
        }
        if !self.array.is_valid(index) {
            return None;
        }
        let size: usize = self.array.fixed_size();
        match self.array.body() {
            Body::FixedList { child } => {
                let n: usize = child.len();
                proof {
                    lemma_scaled(index as int, self.array@.len as int, size as int);
                }
                let list = slice_array(child, index * size, size);
                proof {
                    let want = self.array@.cell(index as int)->Nested_0;
                    let start = index * size;
                    assert forall|j: int| 0 <= j < want.len() implies want[j] == list@.cells()[j] by {
                        assert(child@.cells().subrange(start, start + size)[j] == child@.cell(start + j));
                    }
                    assert(want =~= list@.cells());
                }
                Some(list)
            },
            _ => None,
        }
    }

    /// The elements of every list.
    #[must_use]
    pub fn values(&self) -> (r: ArrayRef)
        ensures
            r@ == *self@.body->FixedList_0,
    {
        proof {
            use_type_invariant(self);
        }
        match self.array.body() {
            Body::FixedList { child } => share(child),
            _ => share(&self.array),
        }
    }
}

/// A column of structs.
#[derive(Debug)]
pub struct StructArray {
    array: ArrayRef,
}

impl View for StructArray {
    type V = ArrayV;

    closed spec fn view(&self) -> ArrayV {
        self.array@
    }
}

impl StructArray {
    #[verifier::type_invariant]
    closed spec fn typed(self) -> bool {
        self.array@.ty is Struct && self.array@.wf()
    }

    /// The column an array is, if it is one of these.
    pub fn try_from_array(array: &ArrayRef) -> (r: Result<StructArray, DataError>)
        ensures
            match r {
                Ok(a) => array@.ty is Struct && a@ == array@,
                Err(e) => !(array@.ty is Struct) && e@ == (DataErrorModel::DowncastFailed {
                    expected: "StructArray"@,
                    actual: array@.ty,
                }),
            },
    {
        let n: usize = array.len();
        match array.data_type() {
            DataType::Struct(_) => Ok(StructArray { array: share(array) }),
            _ => Err(DataError::downcast_failed("StructArray", clone_type(array.data_type()))),
        }
    }

    /// The array.
    #[must_use]
    pub fn into_array_ref(self) -> (r: ArrayRef)
        ensures
            r@ == self@,
            r@.ty is Struct,
            r@.wf(),
    {
        proof {
            use_type_invariant(&self);
        }
        share(&self.array)
    }

    /// The array.
    #[must_use]
    pub fn as_array(&self) -> (r: &ArrayRef)
        ensures
            r@ == self@,
            r@.ty is Struct,
            r@.wf(),
    {
        proof {
            use_type_invariant(self);
        }
        &self.array
    }

    /// Number of slots.
    #[must_use]
    pub fn len(&self) -> (r: usize)
        ensures
            r == self@.len,
            self@.wf() && self@.ty is Struct,
    {
        proof {
            use_type_invariant(self);
        }
        self.array.len()
    }

    /// Whether there are no slots.
    #[must_use]
    pub fn is_empty(&self) -> (r: bool)
        ensures
            r == (self@.len == 0),
    {
        self.array.is_empty()
    }

    /// Number of nulls.
    #[must_use]
    pub fn null_count(&self) -> (r: usize)
        ensures
            r == self@.nulls(),
    {
        self.array.null_count()
    }

    /// Whether slot `index` is there and null.
    #[must_use]
    pub fn is_null(&self, index: usize) -> (r: bool)
        ensures
            r == (index < self@.len && !self@.valid_at(index as int)),
    {
        self.array.is_null(index)
    }

    /// The column of `len` slots from slot `offset` on, both cut to what there
    /// is.
    #[must_use]
    pub fn slice(&self, offset: usize, len: usize) -> (r: StructArray)
        ensures
            ({
                let (start, count) = window(self@.len as int, offset as int, len as int);
                r@ == self@.sliced(start, count)
            }),
    {
        proof {
            use_type_invariant(self);
        }
        let part = slice_array(&self.array, offset, len);
        let n: usize = part.len();
        StructArray { array: part }
    }
}

impl Clone for StructArray {
    fn clone(&self) -> (r: Self)
        ensures
            r@ == self@,
    {
        proof {
            use_type_invariant(self);
        }
        StructArray { array: share(&self.array) }
    }
}

/// The column of structs that columns make, its length the first column's.
pub open spec fn make_rows(fields: Seq<FieldModel>, columns: Seq<ArrayV>, validity: Option<Seq<bool>>) -> Result<
    ArrayV,
    DataErrorModel,
> {
    if columns.len() == 0 && fields.len() == 0 {
        Err(DataErrorModel::UnknownStructLength)
    } else {
        make_struct(
            fields,
            columns,
            if columns.len() == 0 {
                0
            } else {
                columns[0].len
            },
            validity,
        )
    }
}

impl StructArray {
    /// The column of structs of the columns' length.
    pub fn try_new(fields: Vec<Field>, columns: Vec<ArrayRef>, validity: Option<Vec<bool>>) -> (r: Result<
        StructArray,
        DataError,
    >)
        ensures
            ({
                let want = make_rows(
                    fields_model(fields@),
                    arrays_model(columns@),
                    bools_model(validity),
                );
                match r {
                    Ok(a) => want == Ok::<ArrayV, DataErrorModel>(a@),
                    Err(e) => want == Err::<ArrayV, DataErrorModel>(e@),
                }
            }),
    {
        if columns.len() == 0 && fields.len() == 0 {
            return Err(DataError::UnknownStructLength);
        }
        let len: usize = if columns.len() == 0 {
            0
        } else {
            assert(arrays_model(columns@)[0] == columns@[0]@);
            columns[0].len()
        };
        StructArray::try_new_with_len(fields, columns, len, validity)
    }

    /// The column of `len` structs.
    pub fn try_new_with_len(fields: Vec<Field>, columns: Vec<ArrayRef>, len: usize, validity: Option<Vec<bool>>) -> (r:
        Result<StructArray, DataError>)
        ensures
            ({
                let want = make_struct(
                    fields_model(fields@),
                    arrays_model(columns@),
                    len as nat,
                    bools_model(validity),
                );
                match r {
                    Ok(a) => want == Ok::<ArrayV, DataErrorModel>(a@),
                    Err(e) => want == Err::<ArrayV, DataErrorModel>(e@),
                }
            }),
    {
        match Array::strukt(fields, columns, len, pack(validity)) {
            Ok(a) => {
                let n: usize = a.len();
                Ok(StructArray { array: Arc::new(a) })
            },
            Err(e) => Err(e),
        }
    }

    /// The columns, in field order.
    #[must_use]
    pub fn columns(&self) -> (r: Vec<ArrayRef>)
        ensures
            arrays_model(r@) == self@.body->Struct_0,
    {
        proof {
            use_type_invariant(self);
        }
        let body = self.array.body();
        match body {
            Body::Struct { columns } => {
                proof {
                    lemma_struct_body(*body);
                }
                crate::array::column::share_arrays(columns)
            },
            _ => Vec::new(),
        }
    }

    /// The column of the first field of a name.
    pub fn try_column_by_name(&self, name: &str) -> (r: Result<ArrayRef, DataError>)
        ensures
            match r {
                Ok(c) => first_named(self@.ty->Struct_0, name@) matches Some(k) && c@
                    == self@.body->Struct_0[k as int],
                Err(e) => first_named(self@.ty->Struct_0, name@) is None && e@ == (
                DataErrorModel::FieldNotFound { name: name@ }),
            },
    {
        broadcast use crate::datatype::lemma_struct_model;
        proof {
            use_type_invariant(self);
        }
        let body = self.array.body();
        match (self.array.data_type(), body) {
            (DataType::Struct(fields), Body::Struct { columns }) => {
                let ghost fs = fields_model(fields@);
                proof {
                    lemma_struct_body(*body);
                    assert(self.array@.ty == TypeModel::Struct(fs));
                }
                let mut i: usize = 0;
                while i < fields.len()
                    invariant
                        0 <= i <= fields@.len(),
                        fs == fields_model(fields@),
                        fs == self@.ty->Struct_0,
                        columns@.len() == fields@.len(),
                        arrays_model(columns@) == self@.body->Struct_0,
                        forall|k: int| #![trigger fs[k]] 0 <= k < i ==> fs[k].name != name@,
                    decreases fields@.len() - i,
                {
                    assert(fs[i as int] == fields@[i as int]@);
                    if text_equal(fields[i].name(), name) {
                        proof {
                            crate::schema::lemma_first_named_is(fs, name@, i as int);
                            assert(arrays_model(columns@)[i as int] == columns@[i as int]@);
                        }
                        return Ok(share(&columns[i]));
                    }
                    i = i + 1;
                }
                proof {
                    crate::schema::lemma_first_named_is(fs, name@, i as int);
                }
                Err(DataError::FieldNotFound { name: name.to_owned() })
            },
            _ => Err(DataError::FieldNotFound { name: name.to_owned() }),
        }
    }

    /// Slot `index`, column by column, if it is there and not null.
    #[must_use]
    pub fn get(&self, index: usize) -> (r: Option<Vec<ArrayRef>>)
        ensures
            match r {
                Some(row) => index < self@.len && self@.valid_at(index as int) && arrays_model(row@)
                    == Seq::new(
                    self@.body->Struct_0.len(),
                    |k: int| self@.body->Struct_0[k].sliced(index as int, 1),
                ),
                None => index >= self@.len || !self@.valid_at(index as int),
            },
    {
        if !self.array.is_valid(index) {
            return None;
        }
        proof {
            use_type_invariant(self);
        }
        let columns = self.columns();
        let ghost all = self@.body->Struct_0;
        let mut row: Vec<ArrayRef> = Vec::new();
        let mut i: usize = 0;
        while i < columns.len()
            invariant
                0 <= i <= columns@.len(),
                all == self@.body->Struct_0,
                all == arrays_model(columns@),
                self@.wf(),
                self@.ty is Struct,
                index < self@.len,
                row@.len() == i,
                forall|k: int| #![trigger row@[k]] 0 <= k < i ==> row@[k]@ == all[k].sliced(index as int, 1),
            decreases columns@.len() - i,
        {
            proof {
                assert(all[i as int] == columns@[i as int]@);
                assert(self@.body->Struct_0[i as int].len == self@.len);
            }
            row.push(slice_array(&columns[i], index, 1));
            i = i + 1;
        }
        assert(arrays_model(row@) =~= Seq::new(all.len(), |k: int| all[k].sliced(index as int, 1)));
        Some(row)
    }
}

} // verus!
