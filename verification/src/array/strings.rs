//! Columns of byte strings and texts.
use vstd::prelude::*;
use std::sync::Arc;
use crate::array::column::{lemma_offset_pair, slice_array, Array, ArrayRef, Body};
use crate::array::model::{all_text, is_text, is_var, max_offset, offsets_ok, var_slot, ArrayV, BodyV, Cell};
use crate::buffer::{share, window, Bitmap, Buffer, Offsets};
use crate::datatype::{clone_type, DataType, TypeModel};
use crate::error::{DataError, DataErrorModel};
use vstd::slice::slice_subrange;
use vstd::utf8::{encode_utf8, valid_utf8};
use crate::array::parts::lemma_remade;
use crate::array::primitive::present;
use crate::flat::{flat, lemma_flat_run, lemma_start_step, start_of};
use crate::ipc::fb::reader::text_of_bytes;
use crate::le::extend;

verus! {

/// The bytes of optional byte strings, none where there is none.
pub open spec fn slot_lists(slots: Seq<Option<Seq<u8>>>) -> Seq<Seq<u8>> {
    Seq::new(
        slots.len(),
        |i: int|
            match slots[i] {
                Some(b) => b,
                None => Seq::empty(),
            },
    )
}

/// The column of optional byte strings: nulls take no bytes.
pub open spec fn strings_of(t: TypeModel, slots: Seq<Option<Seq<u8>>>) -> ArrayV {
    let lists = slot_lists(slots);
    ArrayV {
        ty: t,
        len: slots.len(),
        validity: present(slots),
        body: BodyV::Var {
            offsets: Seq::new(slots.len() + 1, |i: int| start_of(lists, i) as i64),
            values: flat(lists),
        },
    }
}

/// The bytes fit the type's offsets.
pub open spec fn strings_fit(t: TypeModel, slots: Seq<Option<Seq<u8>>>) -> bool {
    flat(slot_lists(slots)).len() <= max_offset(t)
}

/// Where a list starts is no further than where all of them end.
proof fn lemma_start_inside<T>(ss: Seq<Seq<T>>, i: int, j: int)
    requires
        0 <= i <= j <= ss.len(),
    ensures
        0 <= start_of(ss, i) <= start_of(ss, j) <= flat(ss).len(),
    decreases j - i,
{
    if i == j {
        if i < ss.len() {
            lemma_start_step(ss, i);
        } else {
            assert(ss.take(i) =~= ss);
        }
    } else {
        lemma_start_step(ss, i);
        lemma_start_inside(ss, i + 1, j);
    }
}

/// What the column of optional byte strings is, and what it holds.
pub proof fn lemma_strings_of(t: TypeModel, slots: Seq<Option<Seq<u8>>>)
    requires
        is_var(t),
        strings_fit(t, slots),
        slots.len() <= usize::MAX,
        flat(slot_lists(slots)).len() <= usize::MAX,
        is_text(t) ==> forall|i: int|
            #![trigger slots[i]]
            0 <= i < slots.len() && slots[i] is Some ==> valid_utf8(slots[i]->0),
    ensures
        strings_of(t, slots).wf(),
        forall|i: int|
            0 <= i < slots.len() ==> #[trigger] strings_of(t, slots).cell(i) == (match slots[i] {
                Some(b) => Cell::Bytes(b),
                None => Cell::Null,
            }),
{
    let a = strings_of(t, slots);
    let lists = slot_lists(slots);
    let o = a.body->Var_offsets;
    let values = flat(lists);
    let n = slots.len() as int;
    assert forall|i: int| 0 <= i <= n implies #[trigger] o[i] == start_of(lists, i) by {
        lemma_start_inside(lists, i, n);
    }
    assert(lists.take(n) =~= lists);
    assert(offsets_ok(o, a.len, values.len() as int, max_offset(t))) by {
        lemma_start_inside(lists, 0, n);
        assert(o[0] == start_of(lists, 0));
        assert(o[n] == start_of(lists, n));
        assert forall|i: int, j: int| #![trigger o[i], o[j]] 0 <= i <= j < o.len() implies o[i] <= o[j] by {
            lemma_start_inside(lists, i, j);
            assert(o[i] == start_of(lists, i));
            assert(o[j] == start_of(lists, j));
        }
    }
    assert forall|i: int| 0 <= i < n implies #[trigger] var_slot(o, values, i) == lists[i] by {
        lemma_start_step(lists, i);
        assert(o[i] == start_of(lists, i));
        assert(o[i + 1] == start_of(lists, i + 1));
        lemma_flat_run(lists, i, 0, lists[i].len() as int);
        assert(lists[i].subrange(0, lists[i].len() as int) =~= lists[i]);
    }
    if is_text(t) {
        assert forall|i: int| 0 <= i < n implies valid_utf8(#[trigger] var_slot(o, values, i)) by {
            assert(var_slot(o, values, i) == lists[i]);
            assert(slots[i] is Some ==> valid_utf8(slots[i]->0));
        }
        assert(all_text(o, values, a.len));
    }
    assert forall|i: int| 0 <= i < n implies #[trigger] a.cell(i) == (match slots[i] {
        Some(b) => Cell::Bytes(b),
        None => Cell::Null,
    }) by {
        assert(var_slot(o, values, i) == lists[i]);
        assert(a.valid_at(i) == (slots[i] is Some));
    }
}

/// What optional slices hold.
pub open spec fn slices_model(slots: Seq<Option<&[u8]>>) -> Seq<Option<Seq<u8>>> {
    Seq::new(
        slots.len(),
        |i: int|
            match slots[i] {
                Some(b) => Some(b@),
                None => None,
            },
    )
}

/// What optional texts hold.
pub open spec fn texts_model(slots: Seq<Option<&str>>) -> Seq<Option<Seq<u8>>> {
    Seq::new(
        slots.len(),
        |i: int|
            match slots[i] {
                Some(b) => Some(encode_utf8(b@)),
                None => None,
            },
    )
}

/// Makes a column of optional byte strings.
fn make_strings(data_type: DataType, slots: &Vec<Option<&[u8]>>) -> (r: ArrayRef)
    requires
        is_var(data_type@),
        strings_fit(data_type@, slices_model(slots@)),
        is_text(data_type@) ==> forall|i: int|
            #![trigger slots@[i]]
            0 <= i < slots@.len() && slots@[i] is Some ==> valid_utf8(slots@[i]->0@),
    ensures
        r@ == strings_of(data_type@, slices_model(slots@)),
        r@.wf(),
{
    let ghost t = data_type@;
    let ghost model = slices_model(slots@);
    let ghost lists = slot_lists(model);
    let ghost total = flat(lists).len();
    let mut offsets: Vec<i64> = Vec::new();
    let mut values: Vec<u8> = Vec::new();
    let mut bits: Vec<bool> = Vec::new();
    let mut all = true;
    let mut i: usize = 0;
    offsets.push(0);
    proof {
        assert(lists.take(0) =~= Seq::<Seq<u8>>::empty());
        assert(values@ =~= flat(lists.take(0)));
    }
    while i < slots.len()
        invariant
            0 <= i <= slots@.len(),
            model == slices_model(slots@),
            lists == slot_lists(model),
            flat(lists).len() <= max_offset(t),
            max_offset(t) <= i64::MAX,
            values@ == flat(lists.take(i as int)),
            offsets@.len() == i + 1,
            forall|k: int| #![trigger offsets@[k]] 0 <= k <= i ==> offsets@[k] == start_of(lists, k) as i64,
            bits@.len() == i,
            forall|k: int| #![trigger bits@[k]] 0 <= k < i ==> bits@[k] == (model[k] is Some),
            all == (forall|k: int| #![trigger model[k]] 0 <= k < i ==> model[k] is Some),
        decreases slots@.len() - i,
    {
        proof {
            assert(lists.take(i + 1).drop_last() =~= lists.take(i as int));
            assert(lists.take(i + 1).last() == lists[i as int]);
            lemma_start_inside(lists, i + 1, lists.len() as int);
        }
        match slots[i] {
            Some(bytes) => {
                extend(&mut values, bytes);
                bits.push(true);
            },
            None => {
                bits.push(false);
                all = false;
                assert(model[i as int] is None);
                assert(values@ =~= flat(lists.take(i + 1)));
            },
        }
        offsets.push(values.len() as i64);
        i = i + 1;
    }
    assert(lists.take(i as int) =~= lists);
    assert(values.len() == values@.len());
    let validity = if all {
        None
    } else {
        assert(bits@ =~= Seq::new(model.len(), |i: int| model[i] is Some));
        Some(Bitmap::from_bools(bits.as_slice()))
    };
    proof {
        assert forall|i: int| #![trigger model[i]] 0 <= i < model.len() && model[i] is Some && is_text(t) implies valid_utf8(
            model[i]->0,
        ) by {
            assert(slots@[i] is Some);
        }
        lemma_strings_of(t, model);
        lemma_remade(strings_of(t, model));
        assert(offsets@ =~= strings_of(t, model).body->Var_offsets);
    }
    match Array::var(data_type, Offsets::from_vec(offsets), Buffer::from_vec(values), validity) {
        Ok(a) => Arc::new(a),
        Err(_) => Arc::new(Array::null(0)),
    }
}

/// The bytes in slot `index` of a column of byte strings, if it is there and not
/// null.
fn slot_bytes(array: &Array, index: usize) -> (r: Option<&[u8]>)
    requires
        is_var(array@.ty),
    ensures
        match r {
            Some(b) => index < array@.len && array@.valid_at(index as int) && array@.cell(index as int)
                == Cell::Bytes(b@),
            None => index >= array@.len || !array@.valid_at(index as int),
        },
        is_text(array@.ty) ==> (r matches Some(b) ==> valid_utf8(b@)),
{
    if !array.is_valid(index) {
        return None;
    }
    match array.body() {
        Body::Var { offsets, values } => {
            proof {
                lemma_offset_pair(
                    offsets@,
                    array@.len,
                    values@.len() as int,
                    max_offset(array@.ty),
                    index as int,
                );
                assert(is_text(array@.ty) ==> valid_utf8(var_slot(offsets@, values@, index as int)));
            }
            let bytes = values.as_slice();
            assert(bytes.len() == bytes@.len());
            Some(slice_subrange(bytes, offsets.at(index) as usize, offsets.at(index + 1) as usize))
        },
        _ => None,
    }
}

/// The offsets of a column of byte strings.
fn slot_offsets(array: &Array) -> (r: Vec<i64>)
    requires
        is_var(array@.ty),
    ensures
        r@ == array@.body->Var_offsets,
{
    let mut out: Vec<i64> = Vec::new();
    match array.body() {
        Body::Var { offsets, values } => {
            let n: usize = offsets.len();
            let mut i: usize = 0;
            while i < n
                invariant
                    0 <= i <= n == offsets@.len(),
                    out@.len() == i,
                    forall|k: int| #![trigger out@[k]] 0 <= k < i ==> out@[k] == offsets@[k],
                decreases n - i,
            {
                out.push(offsets.at(i));
                i = i + 1;
            }
            assert(out@ =~= offsets@);
        },
        _ => {},
    }
    out
}

/// A column of byte strings.
#[derive(Debug)]
pub struct BinaryArray {
    array: ArrayRef,
}

impl View for BinaryArray {
    type V = ArrayV;

    closed spec fn view(&self) -> ArrayV {
        self.array@
    }
}

impl BinaryArray {
    #[verifier::type_invariant]
    closed spec fn typed(self) -> bool {
        self.array@.ty is Binary && self.array@.wf()
    }

    /// The column an array is, if it is one of these.
    pub fn try_from_array(array: &ArrayRef) -> (r: Result<BinaryArray, DataError>)
        ensures
            match r {
                Ok(a) => array@.ty is Binary && a@ == array@,
                Err(e) => !(array@.ty is Binary) && e@ == (DataErrorModel::DowncastFailed {
                    expected: "BinaryArray"@,
                    actual: array@.ty,
                }),
            },
    {
        let n: usize = array.len();
        match array.data_type() {
            DataType::Binary => Ok(BinaryArray { array: share(array) }),
            _ => Err(DataError::downcast_failed("BinaryArray", clone_type(array.data_type()))),
        }
    }

    /// The array.
    #[must_use]
    pub fn into_array_ref(self) -> (r: ArrayRef)
        ensures
            r@ == self@,
            r@.ty is Binary,
            r@.wf(),
    {
        proof {
            use_type_invariant(&self);
        }
        share(&self.array)
    }

    /// The array.
    #[must_use]
    pub fn as_array(&self) -> (r: &ArrayRef)
        ensures
            r@ == self@,
            r@.ty is Binary,
            r@.wf(),
    {
        proof {
            use_type_invariant(self);
        }
        &self.array
    }

    /// Number of slots.
    #[must_use]
    pub fn len(&self) -> (r: usize)
        ensures
            r == self@.len,
    {
        self.array.len()
    }

    /// Whether there are no slots.
    #[must_use]
    pub fn is_empty(&self) -> (r: bool)
        ensures
            r == (self@.len == 0),
    {
        self.array.is_empty()
    }

    /// Number of nulls.
    #[must_use]
    pub fn null_count(&self) -> (r: usize)
        ensures
            r == self@.nulls(),
    {
        self.array.null_count()
    }

    /// Whether slot `index` is there and null.
    #[must_use]
    pub fn is_null(&self, index: usize) -> (r: bool)
        ensures
            r == (index < self@.len && !self@.valid_at(index as int)),
    {
        self.array.is_null(index)
    }

    /// The column of `len` slots from slot `offset` on, both cut to what there
    /// is.
    #[must_use]
    pub fn slice(&self, offset: usize, len: usize) -> (r: BinaryArray)
        ensures
            ({
                let (start, count) = window(self@.len as int, offset as int, len as int);
                r@ == self@.sliced(start, count)
            }),
    {
        proof {
            use_type_invariant(self);
        }
        let part = slice_array(&self.array, offset, len);
        let n: usize = part.len();
        BinaryArray { array: part }
    }
}

impl Clone for BinaryArray {
    fn clone(&self) -> (r: Self)
        ensures
            r@ == self@,
    {
        proof {
            use_type_invariant(self);
        }
        BinaryArray { array: share(&self.array) }
    }
}

impl BinaryArray {
    /// The column of values, none of them null.
    #[must_use]
    pub fn from_values(values: Vec<&[u8]>) -> (r: BinaryArray)
        requires
            strings_fit(
                TypeModel::Binary,
                slices_model(Seq::new(values@.len(), |i: int| Some(values@[i]))),
            ),
        ensures
            r@ == strings_of(
                TypeModel::Binary,
                slices_model(Seq::new(values@.len(), |i: int| Some(values@[i]))),
            ),
    {
        let mut slots: Vec<Option<&[u8]>> = Vec::with_capacity(values.len());
        let mut i: usize = 0;
        while i < values.len()
            invariant
                0 <= i <= values@.len(),
                slots@.len() == i,
                forall|k: int| #![trigger slots@[k]] 0 <= k < i ==> slots@[k] == Some(values@[k]),
            decreases values@.len() - i,
        {
            slots.push(Some(values[i]));
            i = i + 1;
        }
        assert(slots@ =~= Seq::new(values@.len(), |i: int| Some(values@[i])));
        BinaryArray::from_opt_iter(slots)
    }

    /// The column of optional values, nulls where there is none.
    #[must_use]
    pub fn from_opt_iter(slots: Vec<Option<&[u8]>>) -> (r: BinaryArray)
        requires
            strings_fit(TypeModel::Binary, slices_model(slots@)),
        ensures
            r@ == strings_of(TypeModel::Binary, slices_model(slots@)),
    {
        BinaryArray { array: make_strings(DataType::Binary, &slots) }
    }

    /// The bytes in slot `index`, if it is there and not null.
    #[must_use]
    pub fn get(&self, index: usize) -> (r: Option<&[u8]>)
        ensures
            match r {
                Some(b) => index < self@.len && self@.valid_at(index as int) && self@.cell(index as int)
                    == Cell::Bytes(b@),
                None => index >= self@.len || !self@.valid_at(index as int),
            },
    {
        proof {
            use_type_invariant(self);
        }
        slot_bytes(&self.array, index)
    }

    /// The offsets.
    #[must_use]
    pub fn value_offsets(&self) -> (r: Vec<i64>)
        ensures
            r@ == self@.body->Var_offsets,
    {
        proof {
            use_type_invariant(self);
        }
        slot_offsets(&self.array)
    }
}

/// A column of byte strings with wide offsets.
#[derive(Debug)]
pub struct LargeBinaryArray {
    array: ArrayRef,
}

impl View for LargeBinaryArray {
    type V = ArrayV;

    closed spec fn view(&self) -> ArrayV {
        self.array@
    }
}

impl LargeBinaryArray {
    #[verifier::type_invariant]
    closed spec fn typed(self) -> bool {
        self.array@.ty is LargeBinary && self.array@.wf()
    }

    /// The column an array is, if it is one of these.
    pub fn try_from_array(array: &ArrayRef) -> (r: Result<LargeBinaryArray, DataError>)
        ensures
            match r {
                Ok(a) => array@.ty is LargeBinary && a@ == array@,
                Err(e) => !(array@.ty is LargeBinary) && e@ == (DataErrorModel::DowncastFailed {
                    expected: "LargeBinaryArray"@,
                    actual: array@.ty,
                }),
            },
    {
        let n: usize = array.len();
        match array.data_type() {
            DataType::LargeBinary => Ok(LargeBinaryArray { array: share(array) }),
            _ => Err(DataError::downcast_failed("LargeBinaryArray", clone_type(array.data_type()))),
        }
    }

    /// The array.
    #[must_use]
    pub fn into_array_ref(self) -> (r: ArrayRef)
        ensures
            r@ == self@,
            r@.ty is LargeBinary,
            r@.wf(),
    {
        proof {
            use_type_invariant(&self);
        }
        share(&self.array)
    }

    /// The array.
    #[must_use]
    pub fn as_array(&self) -> (r: &ArrayRef)
        ensures
            r@ == self@,
            r@.ty is LargeBinary,
            r@.wf(),
    {
        proof {
            use_type_invariant(self);
        }
        &self.array
    }

    /// Number of slots.
    #[must_use]
    pub fn len(&self) -> (r: usize)
        ensures
            r == self@.len,
    {
        self.array.len()
    }

    /// Whether there are no slots.
    #[must_use]
    pub fn is_empty(&self) -> (r: bool)
        ensures
            r == (self@.len == 0),
    {
        self.array.is_empty()
    }

    /// Number of nulls.
    #[must_use]
    pub fn null_count(&self) -> (r: usize)
        ensures
            r == self@.nulls(),
    {
        self.array.null_count()
    }

    /// Whether slot `index` is there and null.
    #[must_use]
    pub fn is_null(&self, index: usize) -> (r: bool)
        ensures
            r == (index < self@.len && !self@.valid_at(index as int)),
    {
        self.array.is_null(index)
    }

    /// The column of `len` slots from slot `offset` on, both cut to what there
    /// is.
    #[must_use]
    pub fn slice(&self, offset: usize, len: usize) -> (r: LargeBinaryArray)
        ensures
            ({
                let (start, count) = window(self@.len as int, offset as int, len as int);
                r@ == self@.sliced(start, count)
            }),
    {
        proof {
            use_type_invariant(self);
        }
        let part = slice_array(&self.array, offset, len);
        let n: usize = part.len();
        LargeBinaryArray { array: part }
    }
}

impl Clone for LargeBinaryArray {
    fn clone(&self) -> (r: Self)
        ensures
            r@ == self@,
    {
        proof {
            use_type_invariant(self);
        }
        LargeBinaryArray { array: share(&self.array) }
    }
}

impl LargeBinaryArray {
    /// The column of values, none of them null.
    #[must_use]
    pub fn from_values(values: Vec<&[u8]>) -> (r: LargeBinaryArray)
        requires
            strings_fit(
                TypeModel::LargeBinary,
                slices_model(Seq::new(values@.len(), |i: int| Some(values@[i]))),
            ),
        ensures
            r@ == strings_of(
                TypeModel::LargeBinary,
                slices_model(Seq::new(values@.len(), |i: int| Some(values@[i]))),
            ),
    {
        let mut slots: Vec<Option<&[u8]>> = Vec::with_capacity(values.len());
        let mut i: usize = 0;
        while i < values.len()
            invariant
                0 <= i <= values@.len(),
                slots@.len() == i,
                forall|k: int| #![trigger slots@[k]] 0 <= k < i ==> slots@[k] == Some(values@[k]),
            decreases values@.len() - i,
        {
            slots.push(Some(values[i]));
            i = i + 1;
        }
        assert(slots@ =~= Seq::new(values@.len(), |i: int| Some(values@[i])));
        LargeBinaryArray::from_opt_iter(slots)
    }

    /// The column of optional values, nulls where there is none.
    #[must_use]
    pub fn from_opt_iter(slots: Vec<Option<&[u8]>>) -> (r: LargeBinaryArray)
        requires
            strings_fit(TypeModel::LargeBinary, slices_model(slots@)),
        ensures
            r@ == strings_of(TypeModel::LargeBinary, slices_model(slots@)),
    {
        LargeBinaryArray { array: make_strings(DataType::LargeBinary, &slots) }
    }

    /// The bytes in slot `index`, if it is there and not null.
    #[must_use]
    pub fn get(&self, index: usize) -> (r: Option<&[u8]>)
        ensures
            match r {
                Some(b) => index < self@.len && self@.valid_at(index as int) && self@.cell(index as int)
                    == Cell::Bytes(b@),
                None => index >= self@.len || !self@.valid_at(index as int),
            },
    {
        proof {
            use_type_invariant(self);
        }
        slot_bytes(&self.array, index)
    }

    /// The offsets.
    #[must_use]
    pub fn value_offsets(&self) -> (r: Vec<i64>)
        ensures
            r@ == self@.body->Var_offsets,
    {
        proof {
            use_type_invariant(self);
        }
        slot_offsets(&self.array)
    }
}

/// A column of texts.
#[derive(Debug)]
pub struct StringArray {
    array: ArrayRef,
}

impl View for StringArray {
    type V = ArrayV;

    closed spec fn view(&self) -> ArrayV {
        self.array@
    }
}

impl StringArray {
    #[verifier::type_invariant]
    closed spec fn typed(self) -> bool {
        self.array@.ty is Utf8 && self.array@.wf()
    }

    /// The column an array is, if it is one of these.
    pub fn try_from_array(array: &ArrayRef) -> (r: Result<StringArray, DataError>)
        ensures
            match r {
                Ok(a) => array@.ty is Utf8 && a@ == array@,
                Err(e) => !(array@.ty is Utf8) && e@ == (DataErrorModel::DowncastFailed {
                    expected: "StringArray"@,
                    actual: array@.ty,
                }),
            },
    {
        let n: usize = array.len();
        match array.data_type() {
            DataType::Utf8 => Ok(StringArray { array: share(array) }),
            _ => Err(DataError::downcast_failed("StringArray", clone_type(array.data_type()))),
        }
    }

    /// The array.
    #[must_use]
    pub fn into_array_ref(self) -> (r: ArrayRef)
        ensures
            r@ == self@,
            r@.ty is Utf8,
            r@.wf(),
    {
        proof {
            use_type_invariant(&self);
        }
        share(&self.array)
    }

    /// The array.
    #[must_use]
    pub fn as_array(&self) -> (r: &ArrayRef)
        ensures
            r@ == self@,
            r@.ty is Utf8,
            r@.wf(),
    {
        proof {
            use_type_invariant(self);
        }
        &self.array
    }

    /// Number of slots.
    #[must_use]
    pub fn len(&self) -> (r: usize)
        ensures
            r == self@.len,
    {
        self.array.len()
    }

    /// Whether there are no slots.
    #[must_use]
    pub fn is_empty(&self) -> (r: bool)
        ensures
            r == (self@.len == 0),
    {
        self.array.is_empty()
    }

    /// Number of nulls.
    #[must_use]
    pub fn null_count(&self) -> (r: usize)
        ensures
            r == self@.nulls(),
    {
        self.array.null_count()
    }

    /// Whether slot `index` is there and null.
    #[must_use]
    pub fn is_null(&self, index: usize) -> (r: bool)
        ensures
            r == (index < self@.len && !self@.valid_at(index as int)),
    {
        self.array.is_null(index)
    }

    /// The column of `len` slots from slot `offset` on, both cut to what there
    /// is.
    #[must_use]
    pub fn slice(&self, offset: usize, len: usize) -> (r: StringArray)
        ensures
            ({
                let (start, count) = window(self@.len as int, offset as int, len as int);
                r@ == self@.sliced(start, count)
            }),
    {
        proof {
            use_type_invariant(self);
        }
        let part = slice_array(&self.array, offset, len);
        let n: usize = part.len();
        StringArray { array: part }
    }
}

impl Clone for StringArray {
    fn clone(&self) -> (r: Self)
        ensures
            r@ == self@,
    {
        proof {
            use_type_invariant(self);
        }
        StringArray { array: share(&self.array) }
    }
}

impl StringArray {
    /// The column of values, none of them null.
    #[must_use]
    pub fn from_values(values: Vec<&str>) -> (r: StringArray)
        requires
            strings_fit(
                TypeModel::Utf8,
                texts_model(Seq::new(values@.len(), |i: int| Some(values@[i]))),
            ),
        ensures
            r@ == strings_of(
                TypeModel::Utf8,
                texts_model(Seq::new(values@.len(), |i: int| Some(values@[i]))),
            ),
    {
        let mut slots: Vec<Option<&str>> = Vec::with_capacity(values.len());
        let mut i: usize = 0;
        while i < values.len()
            invariant
                0 <= i <= values@.len(),
                slots@.len() == i,
                forall|k: int| #![trigger slots@[k]] 0 <= k < i ==> slots@[k] == Some(values@[k]),
            decreases values@.len() - i,
        {
            slots.push(Some(values[i]));
            i = i + 1;
        }
        assert(slots@ =~= Seq::new(values@.len(), |i: int| Some(values@[i])));
        StringArray::from_opt_iter(slots)
    }

    /// The column of optional values, nulls where there is none.
    #[must_use]
    pub fn from_opt_iter(slots: Vec<Option<&str>>) -> (r: StringArray)
        requires
            strings_fit(TypeModel::Utf8, texts_model(slots@)),
        ensures
            r@ == strings_of(TypeModel::Utf8, texts_model(slots@)),
    {
        let mut bytes: Vec<Option<&[u8]>> = Vec::with_capacity(slots.len());
        let mut i: usize = 0;
        while i < slots.len()
            invariant
                0 <= i <= slots@.len(),
                bytes@.len() == i,
                forall|k: int|
                    #![trigger bytes@[k]]
                    0 <= k < i ==> match (bytes@[k], slots@[k]) {
                        (Some(b), Some(s)) => b@ == encode_utf8(s@) && valid_utf8(b@),
                        (None, None) => true,
                        _ => false,
                    },
            decreases slots@.len() - i,
        {
            match slots[i] {
                Some(text) => {
                    proof {
                        vstd::utf8::encode_utf8_valid_utf8(text@);
                    }
                    bytes.push(Some(text.as_bytes()));
                },
                None => {
                    bytes.push(None);
                },
            }
            i = i + 1;
        }
        assert(slices_model(bytes@) =~= texts_model(slots@));
        StringArray { array: make_strings(DataType::Utf8, &bytes) }
    }

    /// The text in slot `index`, if it is there and not null.
    #[must_use]
    pub fn get(&self, index: usize) -> (r: Option<&str>)
        ensures
            match r {
                Some(s) => index < self@.len && self@.valid_at(index as int) && self@.cell(index as int)
                    == Cell::Bytes(encode_utf8(s@)),
                None => index >= self@.len || !self@.valid_at(index as int),
            },
    {
        proof {
            use_type_invariant(self);
        }
        match slot_bytes(&self.array, index) {
            Some(bytes) => text_of_bytes(bytes),
            None => None,
        }
    }

    /// The offsets.
    #[must_use]
    pub fn value_offsets(&self) -> (r: Vec<i64>)
        ensures
            r@ == self@.body->Var_offsets,
    {
        proof {
            use_type_invariant(self);
        }
        slot_offsets(&self.array)
    }
}

/// A column of texts with wide offsets.
#[derive(Debug)]
pub struct LargeStringArray {
    array: ArrayRef,
}

impl View for LargeStringArray {
    type V = ArrayV;

    closed spec fn view(&self) -> ArrayV {
        self.array@
    }
}

impl LargeStringArray {
    #[verifier::type_invariant]
    closed spec fn typed(self) -> bool {
        self.array@.ty is LargeUtf8 && self.array@.wf()
    }

    /// The column an array is, if it is one of these.
    pub fn try_from_array(array: &ArrayRef) -> (r: Result<LargeStringArray, DataError>)
        ensures
            match r {
                Ok(a) => array@.ty is LargeUtf8 && a@ == array@,
                Err(e) => !(array@.ty is LargeUtf8) && e@ == (DataErrorModel::DowncastFailed {
                    expected: "LargeStringArray"@,
                    actual: array@.ty,
                }),
            },
    {
        let n: usize = array.len();
        match array.data_type() {
            DataType::LargeUtf8 => Ok(LargeStringArray { array: share(array) }),
            _ => Err(DataError::downcast_failed("LargeStringArray", clone_type(array.data_type()))),
        }
    }

    /// The array.
    #[must_use]
    pub fn into_array_ref(self) -> (r: ArrayRef)
        ensures
            r@ == self@,
            r@.ty is LargeUtf8,
            r@.wf(),
    {
        proof {
            use_type_invariant(&self);
        }
        share(&self.array)
    }

    /// The array.
    #[must_use]
    pub fn as_array(&self) -> (r: &ArrayRef)
        ensures
            r@ == self@,
            r@.ty is LargeUtf8,
            r@.wf(),
    {
        proof {
            use_type_invariant(self);
        }
        &self.array
    }

    /// Number of slots.
    #[must_use]
    pub fn len(&self) -> (r: usize)
        ensures
            r == self@.len,
    {
        self.array.len()
    }

    /// Whether there are no slots.
    #[must_use]
    pub fn is_empty(&self) -> (r: bool)
        ensures
            r == (self@.len == 0),
    {
        self.array.is_empty()
    }

    /// Number of nulls.
    #[must_use]
    pub fn null_count(&self) -> (r: usize)
        ensures
            r == self@.nulls(),
    {
        self.array.null_count()
    }

    /// Whether slot `index` is there and null.
    #[must_use]
    pub fn is_null(&self, index: usize) -> (r: bool)
        ensures
            r == (index < self@.len && !self@.valid_at(index as int)),
    {
        self.array.is_null(index)
    }

    /// The column of `len` slots from slot `offset` on, both cut to what there
    /// is.
    #[must_use]
    pub fn slice(&self, offset: usize, len: usize) -> (r: LargeStringArray)
        ensures
            ({
                let (start, count) = window(self@.len as int, offset as int, len as int);
                r@ == self@.sliced(start, count)
            }),
    {
        proof {
            use_type_invariant(self);
        }
        let part = slice_array(&self.array, offset, len);
        let n: usize = part.len();
        LargeStringArray { array: part }
    }
}

impl Clone for LargeStringArray {
    fn clone(&self) -> (r: Self)
        ensures
            r@ == self@,
    {
        proof {
            use_type_invariant(self);
        }
        LargeStringArray { array: share(&self.array) }
    }
}

impl LargeStringArray {
    /// The column of values, none of them null.
    #[must_use]
    pub fn from_values(values: Vec<&str>) -> (r: LargeStringArray)
        requires
            strings_fit(
                TypeModel::LargeUtf8,
                texts_model(Seq::new(values@.len(), |i: int| Some(values@[i]))),
            ),
        ensures
            r@ == strings_of(
                TypeModel::LargeUtf8,
                texts_model(Seq::new(values@.len(), |i: int| Some(values@[i]))),
            ),
    {
        let mut slots: Vec<Option<&str>> = Vec::with_capacity(values.len());
        let mut i: usize = 0;
        while i < values.len()
            invariant
                0 <= i <= values@.len(),
                slots@.len() == i,
                forall|k: int| #![trigger slots@[k]] 0 <= k < i ==> slots@[k] == Some(values@[k]),
            decreases values@.len() - i,
        {
            slots.push(Some(values[i]));
            i = i + 1;
        }
        assert(slots@ =~= Seq::new(values@.len(), |i: int| Some(values@[i])));
        LargeStringArray::from_opt_iter(slots)
    }

    /// The column of optional values, nulls where there is none.
    #[must_use]
    pub fn from_opt_iter(slots: Vec<Option<&str>>) -> (r: LargeStringArray)
        requires
            strings_fit(TypeModel::LargeUtf8, texts_model(slots@)),
        ensures
            r@ == strings_of(TypeModel::LargeUtf8, texts_model(slots@)),
    {
        let mut bytes: Vec<Option<&[u8]>> = Vec::with_capacity(slots.len());
        let mut i: usize = 0;
        while i < slots.len()
            invariant
                0 <= i <= slots@.len(),
                bytes@.len() == i,
                forall|k: int|
                    #![trigger bytes@[k]]
                    0 <= k < i ==> match (bytes@[k], slots@[k]) {
                        (Some(b), Some(s)) => b@ == encode_utf8(s@) && valid_utf8(b@),
                        (None, None) => true,
                        _ => false,
                    },
            decreases slots@.len() - i,
        {
            match slots[i] {
                Some(text) => {
                    proof {
                        vstd::utf8::encode_utf8_valid_utf8(text@);
                    }
                    bytes.push(Some(text.as_bytes()));
                },
                None => {
                    bytes.push(None);
                },
            }
            i = i + 1;
        }
        assert(slices_model(bytes@) =~= texts_model(slots@));
        LargeStringArray { array: make_strings(DataType::LargeUtf8, &bytes) }
    }

    /// The text in slot `index`, if it is there and not null.
    #[must_use]
    pub fn get(&self, index: usize) -> (r: Option<&str>)
        ensures
            match r {
                Some(s) => index < self@.len && self@.valid_at(index as int) && self@.cell(index as int)
                    == Cell::Bytes(encode_utf8(s@)),
                None => index >= self@.len || !self@.valid_at(index as int),
            },
    {
        proof {
            use_type_invariant(self);
        }
        match slot_bytes(&self.array, index) {
            Some(bytes) => text_of_bytes(bytes),
            None => None,
        }
    }

    /// The offsets.
    #[must_use]
    pub fn value_offsets(&self) -> (r: Vec<i64>)
        ensures
            r@ == self@.body->Var_offsets,
    {
        proof {
            use_type_invariant(self);
        }
        slot_offsets(&self.array)
    }
}

} // verus!
