//! The array type.
use vstd::prelude::*;
use vstd::slice::slice_subrange;
use std::sync::Arc;
use crate::array::model::{
    is_var, lemma_fixed_width, lemma_scaled, lemma_scaled_window, law_slice_keeps_cells, max_offset, offsets_ok,
    same_array, ArrayV, BodyV, Cell,
};
use crate::array::parts::{
    bad_validity, columns_error, first_bad_offset, first_bad_text, is_fixed, lemma_all_text, lemma_columns_error_stays,
    lemma_columns_fit, lemma_first_bad_offset_stays, lemma_first_bad_text_stays, lemma_offsets_fit, make_boolean,
    make_fixed, make_fixed_list, make_list, make_struct, make_var, null_array, offset_fits, offsets_error,
    validity_fits,
};
use crate::buffer::{clamp_window, share, window, Bitmap, Buffer, Offsets};
use crate::datatype::{clone_type, fields_model, type_equal, DataType, Field};
use crate::error::{DataError, DataErrorModel};
use crate::ipc::fb::reader::text_of_bytes;
use crate::ipc::layout::{value_byte_width, value_width};
use crate::lex::bytes_equal;

verus! {

/// A shared array.
pub type ArrayRef = Arc<Array>;

/// A column: a type, a length, which slots are null, and the buffers and
/// children that hold the values.
#[derive(Debug)]
pub struct Array {
    data_type: DataType,
    len: usize,
    validity: Option<Bitmap>,
    body: Body,
}

/// The buffers and children of an array.
#[derive(Debug)]
pub enum Body {
    /// None at all.
    Null,
    /// One bit per slot.
    Bits(Bitmap),
    /// One value of fixed width per slot.
    Fixed(Buffer),
    /// Byte strings.
    Var {
        /// One more than there are slots.
        offsets: Offsets,
        /// The bytes of every slot.
        values: Buffer,
    },
    /// Lists.
    List {
        /// One more than there are slots.
        offsets: Offsets,
        /// The elements of every slot.
        child: ArrayRef,
    },
    /// Lists of one size.
    FixedList {
        /// The elements of every slot.
        child: ArrayRef,
    },
    /// Structs.
    Struct {
        /// One column per field.
        columns: Vec<ArrayRef>,
    },
}

/// What an optional bitmap holds.
pub open spec fn bits_model(validity: Option<Bitmap>) -> Option<Seq<bool>> {
    match validity {
        None => None,
        Some(b) => Some(b@),
    }
}

/// The parts of a list of arrays.
pub open spec fn arrays_model(columns: Seq<ArrayRef>) -> Seq<ArrayV> {
    Seq::new(columns.len(), |i: int| columns[i]@)
}

impl Body {
    /// What the body holds.
    pub open spec fn model(self) -> BodyV
        decreases self,
    {
        match self {
            Body::Null => BodyV::Null,
            Body::Bits(bits) => BodyV::Bits(bits@),
            Body::Fixed(bytes) => BodyV::Fixed(bytes@),
            Body::Var { offsets, values } => BodyV::Var { offsets: offsets@, values: values@ },
            Body::List { offsets, child } => BodyV::List {
                offsets: offsets@,
                child: Box::new(child.model()),
            },
            Body::FixedList { child } => BodyV::FixedList(Box::new(child.model())),
            Body::Struct { columns } => BodyV::Struct(
                Seq::new(
                    columns@.len(),
                    |i: int|
                        if 0 <= i < columns@.len() {
                            columns@[i].model()
                        } else {
                            arbitrary()
                        },
                ),
            ),
        }
    }
}

impl Array {
    /// The array's parts.
    pub closed spec fn model(self) -> ArrayV
        decreases self,
    {
        ArrayV {
            ty: self.data_type@,
            len: self.len as nat,
            validity: bits_model(self.validity),
            body: self.body.model(),
        }
    }

    #[verifier::type_invariant]
    closed spec fn fits(self) -> bool {
        self.model().wf()
    }
}

impl View for Array {
    type V = ArrayV;

    open spec fn view(&self) -> ArrayV {
        self.model()
    }
}

/// The columns of a struct body are the models of its columns.
pub broadcast proof fn lemma_struct_body(body: Body)
    requires
        body is Struct,
    ensures
        #[trigger] body.model() == BodyV::Struct(arrays_model(body->columns@)),
{
    assert(body.model()->Struct_0 =~= arrays_model(body->columns@));
}

/// Another handle to an optional bitmap.
pub fn share_bits(validity: &Option<Bitmap>) -> (r: Option<Bitmap>)
    ensures
        bits_model(r) == bits_model(*validity),
{
    match validity {
        None => None,
        Some(b) => Some(b.share()),
    }
}

/// Handles to a list of arrays.
pub fn share_arrays(columns: &Vec<ArrayRef>) -> (r: Vec<ArrayRef>)
    ensures
        r@ == columns@,
{
    let mut out: Vec<ArrayRef> = Vec::with_capacity(columns.len());
    let mut i: usize = 0;
    while i < columns.len()
        invariant
            0 <= i <= columns@.len(),
            out@.len() == i,
            forall|k: int| 0 <= k < i ==> out@[k] == columns@[k],
        decreases columns@.len() - i,
    {
        out.push(share(&columns[i]));
        i = i + 1;
    }
    assert(out@ =~= columns@);
    out
}

/// Whether the validity is for `len` slots; the error when it is not.
fn check_validity(validity: &Option<Bitmap>, len: usize) -> (r: Result<(), DataError>)
    ensures
        match r {
            Ok(_) => validity_fits(bits_model(*validity), len as nat),
            Err(e) => !validity_fits(bits_model(*validity), len as nat) && e@ == bad_validity(
                bits_model(*validity),
                len as nat,
            ),
        },
{
    match validity {
        None => Ok(()),
        Some(b) => if b.len() == len {
            Ok(())
        } else {
            Err(DataError::ValidityLengthMismatch { expected: len, actual: b.len() })
        },
    }
}

/// Why offsets do not address `limit` things, or nothing when they do.
pub fn check_offsets(offsets: &Offsets, limit: usize, max: u64) -> (r: Result<(), DataError>)
    requires
        max <= i64::MAX,
    ensures
        match r {
            Ok(_) => offsets_error(offsets@, limit as int, max as int) is None,
            Err(e) => offsets_error(offsets@, limit as int, max as int) == Some(e@),
        },
{
    let count: usize = offsets.len();
    if count == 0 {
        return Err(DataError::InvalidOffset { index: 0 });
    }
    let mut previous: i64 = 0;
    let mut i: usize = 0;
    while i < count
        invariant
            0 <= i <= count == offsets@.len(),
            first_bad_offset(offsets@, i as nat, limit as int) is None,
            previous == if i == 0 {
                0i64
            } else {
                offsets@[i - 1]
            },
            previous >= 0,
        decreases count - i,
    {
        let entry: i64 = offsets.at(i);
        if entry < previous || entry as u64 > limit as u64 {
            proof {
                assert(!offset_fits(offsets@, i as int, limit as int));
                assert(first_bad_offset(offsets@, (i + 1) as nat, limit as int) == Some(i as nat));
                lemma_first_bad_offset_stays(offsets@, (i + 1) as nat, count as nat, limit as int);
            }
            return Err(DataError::InvalidOffset { index: i });
        }
        previous = entry;
        i = i + 1;
    }
    assert(offsets@.last() == previous);
    proof {
        lemma_last_fits(offsets@, limit as int);
    }
    if previous as u64 > max {
        return Err(DataError::OffsetWidthOverflow { total: previous as usize, max: max as usize });
    }
    Ok(())
}

proof fn lemma_last_fits(offsets: Seq<i64>, limit: int)
    requires
        offsets.len() > 0,
        first_bad_offset(offsets, offsets.len(), limit) is None,
    ensures
        offsets.last() <= limit,
{
}

/// The largest offset a type can write.
pub fn max_offset_of(t: &DataType) -> (r: u64)
    ensures
        r == max_offset(t@),
{
    match t {
        DataType::Binary | DataType::Utf8 | DataType::List(_) => 0x7FFF_FFFF,
        _ => 0x7FFF_FFFF_FFFF_FFFF,
    }
}

/// The first slot that is not text.
fn check_text(offsets: &Offsets, values: &Buffer, len: usize) -> (r: Result<(), DataError>)
    requires
        offsets_ok(offsets@, len as nat, values@.len() as int, i64::MAX as int),
    ensures
        match r {
            Ok(_) => first_bad_text(offsets@, values@, len as nat) is None,
            Err(e) => first_bad_text(offsets@, values@, len as nat) matches Some(i) && e@ == (
            DataErrorModel::InvalidUtf8 { index: i as usize }),
        },
{
    let bytes = values.as_slice();
    let mut i: usize = 0;
    while i < len
        invariant
            0 <= i <= len,
            bytes@ == values@,
            offsets_ok(offsets@, len as nat, values@.len() as int, i64::MAX as int),
            first_bad_text(offsets@, values@, i as nat) is None,
        decreases len - i,
    {
        proof {
            assert(offsets@[0] <= offsets@[i as int]);
            assert(offsets@[i as int] <= offsets@[i + 1]);
            assert(offsets@[i + 1] <= offsets@[len as int]);
            assert(bytes.len() == bytes@.len());
        }
        let start: usize = offsets.at(i) as usize;
        let end: usize = offsets.at(i + 1) as usize;
        if text_of_bytes(slice_subrange(bytes, start, end)).is_none() {
            proof {
                assert(first_bad_text(offsets@, values@, (i + 1) as nat) == Some(i as nat));
                lemma_first_bad_text_stays(offsets@, values@, (i + 1) as nat, len as nat);
            }
            return Err(DataError::InvalidUtf8 { index: i });
        }
        i = i + 1;
    }
    Ok(())
}

impl Array {
    /// An array of `len` nulls.
    pub fn null(len: usize) -> (r: Array)
        ensures
            r@ == null_array(len as nat),
    {
        Array { data_type: DataType::Null, len, validity: None, body: Body::Null }
    }

    /// An array of bits.
    pub fn boolean(bits: Bitmap, validity: Option<Bitmap>) -> (r: Result<Array, DataError>)
        ensures
            match r {
                Ok(a) => make_boolean(bits@, bits_model(validity)) == Ok::<ArrayV, DataErrorModel>(a@),
                Err(e) => make_boolean(bits@, bits_model(validity)) == Err::<ArrayV, DataErrorModel>(e@),
            },
    {
        let len: usize = bits.len();
        match check_validity(&validity, len) {
            Ok(_) => Ok(Array { data_type: DataType::Bool, len, validity, body: Body::Bits(bits) }),
            Err(e) => Err(e),
        }
    }

    /// An array of fixed-width values.
    pub fn fixed(data_type: DataType, values: Buffer, validity: Option<Bitmap>) -> (r: Result<Array, DataError>)
        requires
            is_fixed(data_type@),
        ensures
            match r {
                Ok(a) => make_fixed(data_type@, values@, bits_model(validity)) == Ok::<ArrayV, DataErrorModel>(
                    a@,
                ),
                Err(e) => make_fixed(data_type@, values@, bits_model(validity)) == Err::<
                    ArrayV,
                    DataErrorModel,
                >(e@),
            },
    {
        if let DataType::FixedSizeBinary(size) = &data_type {
            if *size <= 0 {
                return Err(DataError::InvalidFixedSize { size: *size });
            }
        }
        let width: usize = match value_byte_width(&data_type) {
            Some(w) => w,
            None => 1,
        };
        assert(width > 0);
        let total: usize = values.len();
        let len: usize = total / width;
        proof {
            vstd::arithmetic::div_mod::lemma_fundamental_div_mod(total as int, width as int);
            assert(len * width == width * len) by (nonlinear_arith);
        }
        if total % width != 0 {
            return Err(DataError::ValueLengthMismatch { expected: len * width, actual: total });
        }
        match check_validity(&validity, len) {
            Ok(_) => Ok(Array { data_type, len, validity, body: Body::Fixed(values) }),
            Err(e) => Err(e),
        }
    }

    /// An array of byte strings or texts.
    pub fn var(data_type: DataType, offsets: Offsets, values: Buffer, validity: Option<Bitmap>) -> (r: Result<
        Array,
        DataError,
    >)
        requires
            is_var(data_type@),
        ensures
            match r {
                Ok(a) => make_var(data_type@, offsets@, values@, bits_model(validity)) == Ok::<
                    ArrayV,
                    DataErrorModel,
                >(a@),
                Err(e) => make_var(data_type@, offsets@, values@, bits_model(validity)) == Err::<
                    ArrayV,
                    DataErrorModel,
                >(e@),
            },
    {
        match check_offsets(&offsets, values.len(), max_offset_of(&data_type)) {
            Ok(_) => {},
            Err(e) => {
                return Err(e);
            },
        }
        let len: usize = offsets.len() - 1;
        proof {
            lemma_offsets_fit(offsets@, values@.len() as int, max_offset(data_type@));
            lemma_all_text(offsets@, values@, len as nat);
        }
        let text = match &data_type {
            DataType::Utf8 | DataType::LargeUtf8 => true,
            _ => false,
        };
        if text {
            match check_text(&offsets, &values, len) {
                Ok(_) => {},
                Err(e) => {
                    return Err(e);
                },
            }
        }
        let n: usize = values.len();
        match check_validity(&validity, len) {
            Ok(_) => Ok(Array { data_type, len, validity, body: Body::Var { offsets, values } }),
            Err(e) => Err(e),
        }
    }

    /// An array of lists.
    pub fn list(field: Field, offsets: Offsets, child: ArrayRef, validity: Option<Bitmap>) -> (r: Result<
        Array,
        DataError,
    >)
        ensures
            match r {
                Ok(a) => make_list(field@, offsets@, child@, bits_model(validity)) == Ok::<
                    ArrayV,
                    DataErrorModel,
                >(a@),
                Err(e) => make_list(field@, offsets@, child@, bits_model(validity)) == Err::<
                    ArrayV,
                    DataErrorModel,
                >(e@),
            },
    {
        proof {
            use_type_invariant(&*child);
        }
        if !type_equal(&child.data_type, field.data_type()) {
            return Err(
                DataError::type_mismatch(clone_type(field.data_type()), clone_type(&child.data_type)),
            );
        }
        let data_type = DataType::list(field);
        match check_offsets(&offsets, child.len, max_offset_of(&data_type)) {
            Ok(_) => {},
            Err(e) => {
                return Err(e);
            },
        }
        let len: usize = offsets.len() - 1;
        proof {
            lemma_offsets_fit(offsets@, child@.len as int, max_offset(data_type@));
        }
        match check_validity(&validity, len) {
            Ok(_) => Ok(Array { data_type, len, validity, body: Body::List { offsets, child } }),
            Err(e) => Err(e),
        }
    }

    /// An array of lists of one size.
    pub fn fixed_list(field: Field, size: i32, child: ArrayRef, validity: Option<Bitmap>) -> (r: Result<
        Array,
        DataError,
    >)
        ensures
            match r {
                Ok(a) => make_fixed_list(field@, size, child@, bits_model(validity)) == Ok::<
                    ArrayV,
                    DataErrorModel,
                >(a@),
                Err(e) => make_fixed_list(field@, size, child@, bits_model(validity)) == Err::<
                    ArrayV,
                    DataErrorModel,
                >(e@),
            },
    {
        proof {
            use_type_invariant(&*child);
        }
        if size <= 0 {
            return Err(DataError::InvalidFixedSize { size });
        }
        if !type_equal(&child.data_type, field.data_type()) {
            return Err(
                DataError::type_mismatch(clone_type(field.data_type()), clone_type(&child.data_type)),
            );
        }
        let n: usize = size as usize;
        let total: usize = child.len;
        let len: usize = total / n;
        proof {
            vstd::arithmetic::div_mod::lemma_fundamental_div_mod(total as int, n as int);
            assert(len * n == n * len) by (nonlinear_arith);
        }
        if total % n != 0 {
            return Err(DataError::ValueLengthMismatch { expected: len * n, actual: total });
        }
        match check_validity(&validity, len) {
            Ok(_) => Ok(
                Array {
                    data_type: DataType::fixed_size_list(field, size),
                    len,
                    validity,
                    body: Body::FixedList { child },
                },
            ),
            Err(e) => Err(e),
        }
    }

    /// An array of structs of `len` slots.
    pub fn strukt(fields: Vec<Field>, columns: Vec<ArrayRef>, len: usize, validity: Option<Bitmap>) -> (r:
        Result<Array, DataError>)
        ensures
            match r {
                Ok(a) => make_struct(
                    fields_model(fields@),
                    arrays_model(columns@),
                    len as nat,
                    bits_model(validity),
                ) == Ok::<ArrayV, DataErrorModel>(a@),
                Err(e) => make_struct(
                    fields_model(fields@),
                    arrays_model(columns@),
                    len as nat,
                    bits_model(validity),
                ) == Err::<ArrayV, DataErrorModel>(e@),
            },
    {
        broadcast use {lemma_struct_body, crate::datatype::lemma_struct_model};
        if fields.len() != columns.len() {
            return Err(DataError::ColumnCountMismatch { fields: fields.len(), columns: columns.len() });
        }
        let ghost fs = fields_model(fields@);
        let ghost cs = arrays_model(columns@);
        let mut i: usize = 0;
        while i < columns.len()
            invariant
                0 <= i <= columns@.len(),
                columns@.len() == fields@.len(),
                fs == fields_model(fields@),
                cs == arrays_model(columns@),
                columns_error(fs, cs, i as nat, len as nat) is None,
                forall|k: int| #![trigger cs[k]] 0 <= k < i ==> cs[k].wf(),
            decreases columns@.len() - i,
        {
            let column = &columns[i];
            proof {
                use_type_invariant(&**column);
                assert(cs[i as int] == column@);
                assert(fs[i as int] == fields@[i as int]@);
            }
            if column.len != len {
                proof {
                    lemma_columns_error_stays(fs, cs, (i + 1) as nat, cs.len(), len as nat);
                }
                return Err(
                    DataError::ColumnLengthMismatch {
                        index: i,
                        name: fields[i].name().to_owned(),
                        expected: len,
                        actual: column.len,
                    },
                );
            }
            if !type_equal(&column.data_type, fields[i].data_type()) {
                proof {
                    lemma_columns_error_stays(fs, cs, (i + 1) as nat, cs.len(), len as nat);
                }
                return Err(
                    DataError::type_mismatch(clone_type(fields[i].data_type()), clone_type(&column.data_type)),
                );
            }
            i = i + 1;
        }
        proof {
            lemma_columns_fit(fs, cs, cs.len(), len as nat);
        }
        let data_type = DataType::strukt(fields);
        let body = Body::Struct { columns };
        assert(body.model() == BodyV::Struct(cs));
        match check_validity(&validity, len) {
            Ok(_) => Ok(Array { data_type, len, validity, body }),
            Err(e) => Err(e),
        }
    }
}

impl Array {
    /// The type.
    pub fn data_type(&self) -> (r: &DataType)
        ensures
            r@ == self@.ty,
    {
        &self.data_type
    }

    /// Number of slots.
    pub fn len(&self) -> (r: usize)
        ensures
            r == self@.len,
            self@.wf(),
    {
        proof {
            use_type_invariant(self);
        }
        self.len
    }

    /// Whether there are no slots.
    pub fn is_empty(&self) -> (r: bool)
        ensures
            r == (self@.len == 0),
    {
        self.len == 0
    }

    /// Which slots are valid, where any is marked.
    pub fn validity(&self) -> (r: &Option<Bitmap>)
        ensures
            bits_model(*r) == self@.validity,
    {
        &self.validity
    }

    /// The buffers and children.
    pub fn body(&self) -> (r: &Body)
        ensures
            r.model() == self@.body,
            self@.wf(),
            decreases_to!(self => r),
    {
        proof {
            use_type_invariant(self);
        }
        &self.body
    }

    /// Number of null slots. Every slot of a `Null` array is null.
    pub fn null_count(&self) -> (r: usize)
        ensures
            r == self@.nulls(),
    {
        proof {
            use_type_invariant(self);
        }
        match &self.data_type {
            DataType::Null => self.len,
            _ => match &self.validity {
                None => 0,
                Some(bits) => bits.count_unset(),
            },
        }
    }

    /// Whether slot `index` is there and not null.
    pub fn is_valid(&self, index: usize) -> (r: bool)
        ensures
            r == (index < self@.len && self@.valid_at(index as int)),
    {
        proof {
            use_type_invariant(self);
        }
        if index >= self.len {
            return false;
        }
        match &self.data_type {
            DataType::Null => false,
            _ => match &self.validity {
                None => true,
                Some(bits) => bits.bit(index),
            },
        }
    }

    /// Whether slot `index` is there and null.
    pub fn is_null(&self, index: usize) -> (r: bool)
        ensures
            r == (index < self@.len && !self@.valid_at(index as int)),
    {
        index < self.len && !self.is_valid(index)
    }

    /// The array of `len` slots from slot `offset` on.
    fn narrowed(&self, offset: usize, len: usize) -> (r: Array)
        requires
            offset + len <= self@.len,
        ensures
            r@ == self@.sliced(offset as int, len as int),
        decreases self, 0int,
    {
        broadcast use lemma_struct_body;
        proof {
            use_type_invariant(self);
            law_slice_keeps_cells(self@, offset as int, len as int);
        }
        let validity: Option<Bitmap> = match &self.validity {
            None => None,
            Some(bits) => {
                let part = bits.slice(offset, len);
                assert(part@ =~= bits@.subrange(offset as int, offset + len));
                Some(part)
            },
        };
        let body: Body = match &self.body {
            Body::Null => Body::Null,
            Body::Bits(bits) => {
                let part = bits.slice(offset, len);
                assert(part@ =~= bits@.subrange(offset as int, offset + len));
                Body::Bits(part)
            },
            Body::Fixed(bytes) => {
                let width: usize = match value_byte_width(&self.data_type) {
                    Some(w) => w,
                    None => 0,
                };
                proof {
                    lemma_fixed_width(self@);
                    lemma_scaled_window(offset as int, len as int, self.len as int, width as int);
                }
                let total: usize = bytes.len();
                let part = bytes.slice(offset * width, len * width);
                assert(part@ =~= bytes@.subrange(offset * width, (offset + len) * width));
                Body::Fixed(part)
            },
            Body::Var { offsets, values } => {
                let n: usize = offsets.len();
                Body::Var { offsets: offsets.slice(offset, len + 1), values: values.share() }
            },
            Body::List { offsets, child } => {
                let n: usize = offsets.len();
                Body::List { offsets: offsets.slice(offset, len + 1), child: share(child) }
            },
            Body::FixedList { child } => {
                let size: usize = match &self.data_type {
                    DataType::FixedSizeList(_, n) => if *n >= 0 {
                        *n as usize
                    } else {
                        0
                    },
                    _ => 0,
                };
                proof {
                    lemma_scaled_window(offset as int, len as int, self.len as int, size as int);
                    use_type_invariant(&**child);
                }
                Body::FixedList { child: Arc::new(child.narrowed(offset * size, len * size)) }
            },
            Body::Struct { columns } => {
                proof {
                    let cs = arrays_model(columns@);
                    lemma_struct_body(self.body);
                    assert(self@.body == self.body.model());
                    assert forall|k: int| #![trigger columns@[k]] 0 <= k < columns@.len() implies offset + len
                        <= columns@[k]@.len by {
                        assert(cs[k] == columns@[k]@);
                    }
                }
                let parts = narrow_columns(columns, offset, len);
                let body = Body::Struct { columns: parts };
                proof {
                    let want = self@.sliced(offset as int, len as int).body;
                    assert(want->Struct_0 =~= arrays_model(parts@));
                }
                body
            },
        };
        assert(body.model() == self@.sliced(offset as int, len as int).body);
        Array { data_type: clone_type(&self.data_type), len, validity, body }
    }

    /// The array of `len` slots from slot `offset` on, both cut to what there is.
    pub fn slice(&self, offset: usize, len: usize) -> (r: ArrayRef)
        ensures
            ({
                let (start, count) = window(self@.len as int, offset as int, len as int);
                &&& r@ == self@.sliced(start, count)
                &&& r@.cells() == self@.cells().subrange(start, start + count)
            }),
    {
        let (start, count) = clamp_window(self.len, offset, len);
        proof {
            use_type_invariant(self);
            law_slice_keeps_cells(self@, start as int, count as int);
        }
        Arc::new(self.narrowed(start, count))
    }

    /// The array of `len` slots from slot `offset` on.
    pub fn try_slice(&self, offset: usize, len: usize) -> (r: Result<ArrayRef, DataError>)
        ensures
            match r {
                Ok(a) => offset + len <= self@.len && a@ == self@.sliced(offset as int, len as int) && a@.cells()
                    == self@.cells().subrange(offset as int, offset + len),
                Err(e) => offset + len > self@.len && e@ == (DataErrorModel::SliceOutOfBounds {
                    offset,
                    len,
                    available: self@.len as usize,
                }),
            },
    {
        match offset.checked_add(len) {
            Some(end) => if end <= self.len {
                return Ok(self.slice(offset, len));
            },
            None => {},
        }
        Err(DataError::SliceOutOfBounds { offset, len, available: self.len })
    }
}

/// Narrows every column.
fn narrow_columns(columns: &Vec<ArrayRef>, offset: usize, len: usize) -> (r: Vec<ArrayRef>)
    requires
        forall|k: int| #![trigger columns@[k]] 0 <= k < columns@.len() ==> offset + len <= columns@[k]@.len,
    ensures
        r@.len() == columns@.len(),
        forall|k: int|
            #![trigger r@[k]]
            0 <= k < r@.len() ==> r@[k]@ == columns@[k]@.sliced(offset as int, len as int),
    decreases columns, 1int,
{
    let mut out: Vec<ArrayRef> = Vec::with_capacity(columns.len());
    let mut i: usize = 0;
    while i < columns.len()
        invariant
            0 <= i <= columns@.len(),
            out@.len() == i,
            forall|k: int|
                #![trigger columns@[k]]
                0 <= k < columns@.len() ==> offset + len <= columns@[k]@.len,
            forall|k: int|
                #![trigger out@[k]]
                0 <= k < i ==> out@[k]@ == columns@[k]@.sliced(offset as int, len as int),
        decreases columns@.len() - i,
    {
        let part = columns[i].narrowed(offset, len);
        out.push(Arc::new(part));
        i = i + 1;
    }
    out
}

/// Narrowing to everything changes nothing.
pub proof fn lemma_sliced_whole(a: ArrayV)
    requires
        a.wf(),
    ensures
        a.sliced(0, a.len as int) == a,
    decreases a,
{
    let s = a.sliced(0, a.len as int);
    if let Some(v) = a.validity {
        assert(v.subrange(0, a.len as int) =~= v);
    }
    match a.body {
        BodyV::Null => {},
        BodyV::Bits(bits) => {
            assert(bits.subrange(0, a.len as int) =~= bits);
        },
        BodyV::Fixed(bytes) => {
            lemma_fixed_width(a);
            assert(0 * a.width() == 0);
            assert(bytes.subrange(0, bytes.len() as int) =~= bytes);
        },
        BodyV::Var { offsets, values } => {
            assert(offsets.subrange(0, a.len as int + 1) =~= offsets);
        },
        BodyV::List { offsets, child } => {
            assert(offsets.subrange(0, a.len as int + 1) =~= offsets);
        },
        BodyV::FixedList(child) => {
            lemma_sliced_whole(*child);
            assert(0 * a.list_size() == 0);
        },
        BodyV::Struct(columns) => {
            assert forall|k: int| 0 <= k < columns.len() implies (#[trigger] columns[k]).sliced(0, a.len as int)
                == columns[k] by {
                lemma_sliced_whole(columns[k]);
            }
            assert(s.body->Struct_0 =~= columns);
        },
    }
}

/// The array of `len` slots from slot `offset` on, both cut to what there is.
/// Everything asked for is another handle to the same array.
pub fn slice_array(array: &ArrayRef, offset: usize, len: usize) -> (r: ArrayRef)
    ensures
        ({
            let (start, count) = window(array@.len as int, offset as int, len as int);
            &&& r@ == array@.sliced(start, count)
            &&& r@.cells() == array@.cells().subrange(start, start + count)
        }),
        offset == 0 && len >= array@.len ==> r == *array,
{
    if offset == 0 && len >= array.len() {
        proof {
            use_type_invariant(&**array);
            lemma_sliced_whole(array@);
            assert(array@.cells().subrange(0, array@.len as int) =~= array@.cells());
        }
        return share(array);
    }
    array.slice(offset, len)
}

/// The offsets around slot `i` are in order and inside.
pub proof fn lemma_offset_pair(offsets: Seq<i64>, len: nat, limit: int, max: int, i: int)
    requires
        offsets_ok(offsets, len, limit, max),
        0 <= i < len,
    ensures
        0 <= offsets[i] <= offsets[i + 1] <= limit,
        offsets.len() == len + 1,
{
    assert(offsets[0] <= offsets[i]);
    assert(offsets[i] <= offsets[i + 1]);
    assert(offsets[i + 1] <= offsets[len as int]);
}

/// A slot that is not null holds something.
pub proof fn lemma_valid_not_null(a: ArrayV, i: int)
    requires
        a.wf(),
        0 <= i < a.len,
    ensures
        a.valid_at(i) <==> a.cell(i) !is Null,
{
}

impl Array {
    /// How many child slots a slot has, where that is fixed.
    pub fn fixed_size(&self) -> (r: usize)
        ensures
            r == self@.list_size(),
    {
        proof {
            use_type_invariant(self);
        }
        match &self.data_type {
            DataType::FixedSizeList(_, n) => *n as usize,
            _ => 0,
        }
    }

    /// The byte width of a slot, where it has one.
    pub fn value_width(&self) -> (r: usize)
        ensures
            r == self@.width(),
    {
        match value_byte_width(&self.data_type) {
            Some(w) => w,
            None => 0,
        }
    }
}

/// Whether two slots of arrays of one type hold the same.
fn cell_equal(a: &Array, i: usize, b: &Array, j: usize) -> (r: bool)
    requires
        i < a@.len,
        j < b@.len,
        a@.ty == b@.ty,
    ensures
        r == (a@.cell(i as int) == b@.cell(j as int)),
    decreases a, 2int,
{
    broadcast use lemma_struct_body;
    proof {
        use_type_invariant(a);
        use_type_invariant(b);
        lemma_valid_not_null(a@, i as int);
        lemma_valid_not_null(b@, j as int);
    }
    let va = a.is_valid(i);
    let vb = b.is_valid(j);
    if !va || !vb {
        return !va && !vb;
    }
    match (&a.body, &b.body) {
        (Body::Bits(x), Body::Bits(y)) => x.bit(i) == y.bit(j),
        (Body::Fixed(x), Body::Fixed(y)) => {
            proof {
                lemma_fixed_width(a@);
                lemma_fixed_width(b@);
                lemma_scaled(i as int, a@.len as int, a@.width() as int);
                lemma_scaled(j as int, b@.len as int, b@.width() as int);
            }
            let w: usize = a.value_width();
            let xl: usize = x.len();
            let yl: usize = y.len();
            bytes_equal(
                slice_subrange(x.as_slice(), i * w, i * w + w),
                slice_subrange(y.as_slice(), j * w, j * w + w),
            )
        },
        (Body::Var { offsets: x, values: p }, Body::Var { offsets: y, values: q }) => {
            proof {
                lemma_offset_pair(x@, a@.len, p@.len() as int, max_offset(a@.ty), i as int);
                lemma_offset_pair(y@, b@.len, q@.len() as int, max_offset(b@.ty), j as int);
            }
            let pl: usize = p.len();
            let ql: usize = q.len();
            bytes_equal(
                slice_subrange(p.as_slice(), x.at(i) as usize, x.at(i + 1) as usize),
                slice_subrange(q.as_slice(), y.at(j) as usize, y.at(j + 1) as usize),
            )
        },
        (Body::List { offsets: x, child: c }, Body::List { offsets: y, child: d }) => {
            proof {
                lemma_offset_pair(x@, a@.len, c@.len as int, max_offset(a@.ty), i as int);
                lemma_offset_pair(y@, b@.len, d@.len as int, max_offset(b@.ty), j as int);
            }
            let cl: usize = c.len();
            let dl: usize = d.len();
            let s: usize = x.at(i) as usize;
            let e: usize = x.at(i + 1) as usize;
            let t: usize = y.at(j) as usize;
            let f: usize = y.at(j + 1) as usize;
            let r = e - s == f - t && run_equal(c, s, d, t, e - s);
            proof {
                let u = a@.cell(i as int)->Nested_0;
                let v = b@.cell(j as int)->Nested_0;
                assert(u =~= run_of(c@, s as int, (e - s) as nat));
                assert(v =~= run_of(d@, t as int, (f - t) as nat));
            }
            r
        },
        (Body::FixedList { child: c }, Body::FixedList { child: d }) => {
            proof {
                lemma_scaled(i as int, a@.len as int, a@.list_size() as int);
                lemma_scaled(j as int, b@.len as int, b@.list_size() as int);
            }
            let cl: usize = c.len();
            let dl: usize = d.len();
            let n: usize = a.fixed_size();
            let r = run_equal(c, i * n, d, j * n, n);
            proof {
                let u = a@.cell(i as int)->Nested_0;
                let v = b@.cell(j as int)->Nested_0;
                assert(u =~= run_of(c@, i * n, n as nat));
                assert(v =~= run_of(d@, j * n, n as nat));
            }
            r
        },
        (Body::Struct { columns: x }, Body::Struct { columns: y }) => {
            proof {
                let xs = arrays_model(x@);
                let ys = arrays_model(y@);
                lemma_struct_body(a.body);
                lemma_struct_body(b.body);
                assert(a@.body == a.body.model());
                assert(b@.body == b.body.model());
                assert forall|k: int| #![trigger x@[k]] 0 <= k < x@.len() implies i < x@[k]@.len && j
                    < y@[k]@.len && x@[k]@.ty == y@[k]@.ty by {
                    assert(xs[k] == x@[k]@);
                    assert(ys[k] == y@[k]@);
                }
            }
            let r = row_equal(x, i, y, j);
            proof {
                let u = a@.cell(i as int)->Nested_0;
                let v = b@.cell(j as int)->Nested_0;
                assert(u =~= row_of(arrays_model(x@), i as int));
                assert(v =~= row_of(arrays_model(y@), j as int));
            }
            r
        },
        _ => false,
    }
}

/// A run of slots.
pub open spec fn run_of(a: ArrayV, start: int, count: nat) -> Seq<Cell> {
    Seq::new(count, |k: int| a.cell(start + k))
}

/// One slot of every column.
pub open spec fn row_of(columns: Seq<ArrayV>, i: int) -> Seq<Cell> {
    Seq::new(columns.len(), |k: int| columns[k].cell(i))
}

/// Whether two runs of slots hold the same.
fn run_equal(a: &Array, s: usize, b: &Array, t: usize, count: usize) -> (r: bool)
    requires
        s + count <= a@.len,
        t + count <= b@.len,
        a@.ty == b@.ty,
    ensures
        r == (run_of(a@, s as int, count as nat) == run_of(b@, t as int, count as nat)),
    decreases a, 3int,
{
    proof {
        use_type_invariant(a);
        use_type_invariant(b);
    }
    let mut k: usize = 0;
    while k < count
        invariant
            0 <= k <= count,
            s + count <= a@.len <= usize::MAX,
            t + count <= b@.len <= usize::MAX,
            a@.ty == b@.ty,
            forall|n: int| 0 <= n < k ==> #[trigger] a@.cell(s + n) == b@.cell(t + n),
        decreases count - k,
    {
        if !cell_equal(a, s + k, b, t + k) {
            proof {
                assert(run_of(a@, s as int, count as nat)[k as int] != run_of(b@, t as int, count as nat)[k as int]);
            }
            return false;
        }
        k = k + 1;
    }
    assert(run_of(a@, s as int, count as nat) =~= run_of(b@, t as int, count as nat));
    true
}

/// Whether two rows hold the same.
fn row_equal(x: &Vec<ArrayRef>, i: usize, y: &Vec<ArrayRef>, j: usize) -> (r: bool)
    requires
        x@.len() == y@.len(),
        forall|k: int|
            #![trigger x@[k]]
            0 <= k < x@.len() ==> i < x@[k]@.len && j < y@[k]@.len && x@[k]@.ty == y@[k]@.ty,
    ensures
        r == (row_of(arrays_model(x@), i as int) == row_of(arrays_model(y@), j as int)),
    decreases x, 3int,
{
    let ghost u = row_of(arrays_model(x@), i as int);
    let ghost v = row_of(arrays_model(y@), j as int);
    let mut k: usize = 0;
    while k < x.len()
        invariant
            0 <= k <= x@.len(),
            x@.len() == y@.len(),
            u == row_of(arrays_model(x@), i as int),
            v == row_of(arrays_model(y@), j as int),
            forall|n: int|
                #![trigger x@[n]]
                0 <= n < x@.len() ==> i < x@[n]@.len && j < y@[n]@.len && x@[n]@.ty == y@[n]@.ty,
            forall|n: int| 0 <= n < k ==> u[n] == v[n],
        decreases x@.len() - k,
    {
        assert(u[k as int] == x@[k as int]@.cell(i as int));
        assert(v[k as int] == y@[k as int]@.cell(j as int));
        if !cell_equal(&x[k], i, &y[k], j) {
            return false;
        }
        k = k + 1;
    }
    assert(u =~= v);
    true
}

/// Whether two arrays have one type and hold the same.
pub fn array_equal(a: &Array, b: &Array) -> (r: bool)
    ensures
        r == same_array(a@, b@),
{
    if !type_equal(&a.data_type, &b.data_type) {
        return false;
    }
    if a.len != b.len {
        assert(a@.cells().len() != b@.cells().len());
        return false;
    }
    let r = run_equal(a, 0, b, 0, a.len);
    assert(run_of(a@, 0, a@.len) =~= a@.cells());
    assert(run_of(b@, 0, b@.len) =~= b@.cells());
    r
}

impl PartialEq for Array {
    fn eq(&self, other: &Array) -> (r: bool) {
        array_equal(self, other)
    }
}

impl vstd::std_specs::cmp::PartialEqSpecImpl for Array {
    open spec fn obeys_eq_spec() -> bool {
        true
    }

    open spec fn eq_spec(&self, other: &Array) -> bool {
        same_array(self@, other@)
    }
}

} // verus!
