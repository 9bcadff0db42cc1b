//! What can go wrong building, converting or reading columns.
use vstd::prelude::*;
use vstd::string::StringExecFns;
use crate::datatype::{DataType, TypeModel};
use crate::text::{append_int, decimal, quote, quoted};

verus! {

/// A failure of the columnar layer.
#[derive(Debug, Clone, PartialEq, Eq)]
#[non_exhaustive]
pub enum DataError {
    /// The number of columns does not equal the number of fields.
    ColumnCountMismatch {
        /// Fields declared.
        fields: usize,
        /// Columns given.
        columns: usize,
    },
    /// A column does not have the expected number of rows.
    ColumnLengthMismatch {
        /// Position of the column.
        index: usize,
        /// Name of its field.
        name: String,
        /// Rows expected.
        expected: usize,
        /// Rows found.
        actual: usize,
    },
    /// A type is not the one required.
    TypeMismatch {
        /// The required type.
        expected: Box<DataType>,
        /// The type found.
        actual: Box<DataType>,
    },
    /// A column with nulls stands under a field that admits none.
    NullsInNonNullableColumn {
        /// Position of the column.
        index: usize,
        /// Name of its field.
        name: String,
        /// Nulls found.
        null_count: usize,
    },
    /// A fixed size is not positive.
    InvalidFixedSize {
        /// The size.
        size: i32,
    },
    /// An index is past the end.
    IndexOutOfBounds {
        /// The index.
        index: usize,
        /// The length.
        len: usize,
    },
    /// A schema has no field of that name.
    FieldNotFound {
        /// The name.
        name: String,
    },
    /// A schema has two fields of one name.
    DuplicateField {
        /// The name.
        name: String,
    },
    /// A window leaves the available range.
    SliceOutOfBounds {
        /// Start of the window.
        offset: usize,
        /// Length of the window.
        len: usize,
        /// Length available.
        available: usize,
    },
    /// A struct without columns does not say how long it is.
    UnknownStructLength,
    /// A message batch does not hold exactly one row.
    MessageRowCount {
        /// Rows found.
        actual: usize,
    },
    /// A fixed-size message field decoded to another length.
    MessageFixedArrayLength {
        /// The field.
        field: String,
        /// Elements expected.
        expected: usize,
        /// Elements found.
        actual: usize,
    },
    /// A required value is null.
    RequiredFieldIsNull {
        /// The field.
        field: String,
        /// The row.
        row: usize,
    },
    /// An offset does not fit the offset type.
    OffsetWidthOverflow {
        /// The offset.
        total: usize,
        /// Largest representable offset.
        max: usize,
    },
    /// An array is not of the requested kind.
    DowncastFailed {
        /// The requested kind.
        expected: &'static str,
        /// The array's type.
        actual: Box<DataType>,
    },
    /// A take index does not name a row.
    TakeIndexInvalid {
        /// Position of the index.
        position: usize,
        /// Rows available.
        len: usize,
    },
    /// A filter mask does not have one entry per row.
    MaskLengthMismatch {
        /// Rows.
        array_len: usize,
        /// Mask entries.
        mask_len: usize,
    },
    /// A value does not fit the destination type.
    CastOverflow {
        /// Source type.
        from: Box<DataType>,
        /// Destination type.
        to: Box<DataType>,
        /// Row of the value.
        index: usize,
    },
    /// No conversion between two types is defined.
    UnsupportedCast {
        /// Source type.
        from: Box<DataType>,
        /// Destination type.
        to: Box<DataType>,
    },
    /// A text value is not UTF-8.
    InvalidUtf8 {
        /// Row of the value.
        index: usize,
    },
    /// The dimensions of a tensor multiply out to more elements than an index can count.
    TensorShapeOverflow {
        /// The shape.
        shape: Vec<usize>,
    },
    /// A tensor's shape does not have as many elements as its values.
    TensorShapeMismatch {
        /// Elements of the shape.
        expected: usize,
        /// Values given.
        actual: usize,
    },
    /// A tensor index does not have one component per dimension.
    TensorRankMismatch {
        /// Dimensions.
        expected: usize,
        /// Components.
        actual: usize,
    },
    /// A tensor index component is past its dimension.
    TensorIndexOutOfBounds {
        /// The dimension.
        axis: usize,
        /// The component.
        index: usize,
        /// The extent.
        dim: usize,
    },
    /// A tensor has no such dimension.
    TensorAxisOutOfBounds {
        /// The dimension.
        axis: usize,
        /// Number of dimensions.
        ndim: usize,
    },
    /// A validity bitmap does not have one bit per row.
    ValidityLengthMismatch {
        /// Rows.
        expected: usize,
        /// Bits.
        actual: usize,
    },
    /// An offset is negative, smaller than the one before it, or past the values.
    InvalidOffset {
        /// Position of the offset.
        index: usize,
    },
    /// A value buffer does not have the length its rows need.
    ValueLengthMismatch {
        /// Length needed.
        expected: usize,
        /// Length given.
        actual: usize,
    },
    /// A bitmap window leaves its buffer.
    BitmapOutOfBounds {
        /// First bit.
        offset: usize,
        /// Number of bits.
        len: usize,
        /// Bits available.
        available: usize,
    },
}

/// What a [`DataError`] says.
pub enum DataErrorModel {
    ColumnCountMismatch { fields: usize, columns: usize },
    ColumnLengthMismatch { index: usize, name: Seq<char>, expected: usize, actual: usize },
    TypeMismatch { expected: TypeModel, actual: TypeModel },
    NullsInNonNullableColumn { index: usize, name: Seq<char>, null_count: usize },
    InvalidFixedSize { size: i32 },
    IndexOutOfBounds { index: usize, len: usize },
    FieldNotFound { name: Seq<char> },
    DuplicateField { name: Seq<char> },
    SliceOutOfBounds { offset: usize, len: usize, available: usize },
    UnknownStructLength,
    MessageRowCount { actual: usize },
    MessageFixedArrayLength { field: Seq<char>, expected: usize, actual: usize },
    RequiredFieldIsNull { field: Seq<char>, row: usize },
    OffsetWidthOverflow { total: usize, max: usize },
    DowncastFailed { expected: Seq<char>, actual: TypeModel },
    TakeIndexInvalid { position: usize, len: usize },
    MaskLengthMismatch { array_len: usize, mask_len: usize },
    CastOverflow { from: TypeModel, to: TypeModel, index: usize },
    UnsupportedCast { from: TypeModel, to: TypeModel },
    InvalidUtf8 { index: usize },
    TensorShapeOverflow { shape: Seq<usize> },
    TensorShapeMismatch { expected: usize, actual: usize },
    TensorRankMismatch { expected: usize, actual: usize },
    TensorIndexOutOfBounds { axis: usize, index: usize, dim: usize },
    TensorAxisOutOfBounds { axis: usize, ndim: usize },
    ValidityLengthMismatch { expected: usize, actual: usize },
    InvalidOffset { index: usize },
    ValueLengthMismatch { expected: usize, actual: usize },
    BitmapOutOfBounds { offset: usize, len: usize, available: usize },
}

impl View for DataError {
    type V = DataErrorModel;

    open spec fn view(&self) -> DataErrorModel {
        match *self {
            DataError::ColumnCountMismatch { fields, columns } => DataErrorModel::ColumnCountMismatch { fields, columns },
            DataError::ColumnLengthMismatch { index, name, expected, actual } => DataErrorModel::ColumnLengthMismatch { index, name: name@, expected, actual },
            DataError::TypeMismatch { expected, actual } => DataErrorModel::TypeMismatch { expected: expected@, actual: actual@ },
            DataError::NullsInNonNullableColumn { index, name, null_count } => DataErrorModel::NullsInNonNullableColumn { index, name: name@, null_count },
            DataError::InvalidFixedSize { size } => DataErrorModel::InvalidFixedSize { size },
            DataError::IndexOutOfBounds { index, len } => DataErrorModel::IndexOutOfBounds { index, len },
            DataError::FieldNotFound { name } => DataErrorModel::FieldNotFound { name: name@ },
            DataError::DuplicateField { name } => DataErrorModel::DuplicateField { name: name@ },
            DataError::SliceOutOfBounds { offset, len, available } => DataErrorModel::SliceOutOfBounds { offset, len, available },
            DataError::UnknownStructLength => DataErrorModel::UnknownStructLength,
            DataError::MessageRowCount { actual } => DataErrorModel::MessageRowCount { actual },
            DataError::MessageFixedArrayLength { field, expected, actual } => DataErrorModel::MessageFixedArrayLength { field: field@, expected, actual },
            DataError::RequiredFieldIsNull { field, row } => DataErrorModel::RequiredFieldIsNull { field: field@, row },
            DataError::OffsetWidthOverflow { total, max } => DataErrorModel::OffsetWidthOverflow { total, max },
            DataError::DowncastFailed { expected, actual } => DataErrorModel::DowncastFailed { expected: expected@, actual: actual@ },
            DataError::TakeIndexInvalid { position, len } => DataErrorModel::TakeIndexInvalid { position, len },
            DataError::MaskLengthMismatch { array_len, mask_len } => DataErrorModel::MaskLengthMismatch { array_len, mask_len },
            DataError::CastOverflow { from, to, index } => DataErrorModel::CastOverflow { from: from@, to: to@, index },
            DataError::UnsupportedCast { from, to } => DataErrorModel::UnsupportedCast { from: from@, to: to@ },
            DataError::InvalidUtf8 { index } => DataErrorModel::InvalidUtf8 { index },
            DataError::TensorShapeOverflow { shape } => DataErrorModel::TensorShapeOverflow { shape: shape@ },
            DataError::TensorShapeMismatch { expected, actual } => DataErrorModel::TensorShapeMismatch { expected, actual },
            DataError::TensorRankMismatch { expected, actual } => DataErrorModel::TensorRankMismatch { expected, actual },
            DataError::TensorIndexOutOfBounds { axis, index, dim } => DataErrorModel::TensorIndexOutOfBounds { axis, index, dim },
            DataError::TensorAxisOutOfBounds { axis, ndim } => DataErrorModel::TensorAxisOutOfBounds { axis, ndim },
            DataError::ValidityLengthMismatch { expected, actual } => DataErrorModel::ValidityLengthMismatch { expected, actual },
            DataError::InvalidOffset { index } => DataErrorModel::InvalidOffset { index },
            DataError::ValueLengthMismatch { expected, actual } => DataErrorModel::ValueLengthMismatch { expected, actual },
            DataError::BitmapOutOfBounds { offset, len, available } => DataErrorModel::BitmapOutOfBounds { offset, len, available },
        }
    }
}

/// The text of an error.
pub open spec fn data_message(e: DataErrorModel) -> Seq<char> {
    match e {
        DataErrorModel::ColumnCountMismatch { fields, columns } => "the schema declares "@ + decimal(fields as int) + " field(s) but "@ + decimal(columns as int) + " column(s) were given"@,
        DataErrorModel::ColumnLengthMismatch { index, name, expected, actual } => "column "@ + decimal(index as int) + " ("@ + quoted(name) + ") has "@ + decimal(actual as int) + " row(s), expected "@ + decimal(expected as int),
        DataErrorModel::TypeMismatch { .. } => "the type is not the one required"@,
        DataErrorModel::NullsInNonNullableColumn { index, name, null_count } => "column "@ + decimal(index as int) + " ("@ + quoted(name) + ") is not nullable but holds "@ + decimal(null_count as int) + " null(s)"@,
        DataErrorModel::InvalidFixedSize { size } => "fixed size "@ + decimal(size as int) + " is not positive"@,
        DataErrorModel::IndexOutOfBounds { index, len } => "index "@ + decimal(index as int) + " is out of bounds for length "@ + decimal(len as int),
        DataErrorModel::FieldNotFound { name } => "no field named "@ + quoted(name),
        DataErrorModel::DuplicateField { name } => "two fields named "@ + quoted(name),
        DataErrorModel::SliceOutOfBounds { offset, len, available } => "slice ["@ + decimal(offset as int) + "; "@ + decimal(len as int) + "] leaves the available length "@ + decimal(available as int),
        DataErrorModel::UnknownStructLength => "a struct without columns has no length of its own"@,
        DataErrorModel::MessageRowCount { actual } => "expected exactly one message row but the batch has "@ + decimal(actual as int),
        DataErrorModel::MessageFixedArrayLength { field, expected, actual } => "fixed-size field "@ + quoted(field) + " decoded "@ + decimal(actual as int) + " element(s), expected "@ + decimal(expected as int),
        DataErrorModel::RequiredFieldIsNull { field, row } => "required field "@ + quoted(field) + " is null in row "@ + decimal(row as int),
        DataErrorModel::OffsetWidthOverflow { total, max } => "offset "@ + decimal(total as int) + " exceeds the largest representable offset "@ + decimal(max as int),
        DataErrorModel::DowncastFailed { expected, .. } => "the array is not a "@ + expected,
        DataErrorModel::TakeIndexInvalid { position, len } => "take index at position "@ + decimal(position as int) + " does not name one of "@ + decimal(len as int) + " row(s)"@,
        DataErrorModel::MaskLengthMismatch { array_len, mask_len } => "the mask has "@ + decimal(mask_len as int) + " entries for "@ + decimal(array_len as int) + " row(s)"@,
        DataErrorModel::CastOverflow { index, .. } => "the value in row "@ + decimal(index as int) + " does not fit the destination type"@,
        DataErrorModel::UnsupportedCast { .. } => "no conversion between the two types is defined"@,
        DataErrorModel::InvalidUtf8 { index } => "the value in row "@ + decimal(index as int) + " is not UTF-8"@,
        DataErrorModel::TensorShapeOverflow { .. } => "the shape has too many elements"@,
        DataErrorModel::TensorShapeMismatch { expected, actual } => "the shape has "@ + decimal(expected as int) + " element(s) but "@ + decimal(actual as int) + " value(s) were given"@,
        DataErrorModel::TensorRankMismatch { expected, actual } => "the index has "@ + decimal(actual as int) + " component(s) for "@ + decimal(expected as int) + " dimension(s)"@,
        DataErrorModel::TensorIndexOutOfBounds { axis, index, dim } => "index "@ + decimal(index as int) + " on axis "@ + decimal(axis as int) + " is out of bounds for extent "@ + decimal(dim as int),
        DataErrorModel::TensorAxisOutOfBounds { axis, ndim } => "axis "@ + decimal(axis as int) + " is out of bounds for "@ + decimal(ndim as int) + " dimension(s)"@,
        DataErrorModel::ValidityLengthMismatch { expected, actual } => "the validity bitmap has "@ + decimal(actual as int) + " bit(s) for "@ + decimal(expected as int) + " row(s)"@,
        DataErrorModel::InvalidOffset { index } => "offset "@ + decimal(index as int) + " is out of order or out of range"@,
        DataErrorModel::ValueLengthMismatch { expected, actual } => "the values have length "@ + decimal(actual as int) + ", expected "@ + decimal(expected as int),
        DataErrorModel::BitmapOutOfBounds { offset, len, available } => "bitmap window ["@ + decimal(offset as int) + "; "@ + decimal(len as int) + "] leaves "@ + decimal(available as int) + " bit(s)"@,
    }
}

impl DataError {
    /// The error's text.
    pub fn to_string(&self) -> (r: String)
        ensures
            r@ == data_message(self@),
    {
        let mut out = String::new();
        match self {
            DataError::ColumnCountMismatch { fields, columns } => {
                out.append("the schema declares ");
                append_int(&mut out, *fields as i128);
                out.append(" field(s) but ");
                append_int(&mut out, *columns as i128);
                out.append(" column(s) were given");
            },
            DataError::ColumnLengthMismatch { index, name, expected, actual } => {
                out.append("column ");
                append_int(&mut out, *index as i128);
                out.append(" (");
                let q = quote(name.as_str());
                out.append(q.as_str());
                out.append(") has ");
                append_int(&mut out, *actual as i128);
                out.append(" row(s), expected ");
                append_int(&mut out, *expected as i128);
            },
            DataError::TypeMismatch { .. } => {
                out.append("the type is not the one required");
            },
            DataError::NullsInNonNullableColumn { index, name, null_count } => {
                out.append("column ");
                append_int(&mut out, *index as i128);
                out.append(" (");
                let q = quote(name.as_str());
                out.append(q.as_str());
                out.append(") is not nullable but holds ");
                append_int(&mut out, *null_count as i128);
                out.append(" null(s)");
            },
            DataError::InvalidFixedSize { size } => {
                out.append("fixed size ");
                append_int(&mut out, *size as i128);
                out.append(" is not positive");
            },
            DataError::IndexOutOfBounds { index, len } => {
                out.append("index ");
                append_int(&mut out, *index as i128);
                out.append(" is out of bounds for length ");
                append_int(&mut out, *len as i128);
            },
            DataError::FieldNotFound { name } => {
                out.append("no field named ");
                let q = quote(name.as_str());
                out.append(q.as_str());
            },
            DataError::DuplicateField { name } => {
                out.append("two fields named ");
                let q = quote(name.as_str());
                out.append(q.as_str());
            },
            DataError::SliceOutOfBounds { offset, len, available } => {
                out.append("slice [");
                append_int(&mut out, *offset as i128);
                out.append("; ");
                append_int(&mut out, *len as i128);
                out.append("] leaves the available length ");
                append_int(&mut out, *available as i128);
            },
            DataError::UnknownStructLength => {
                out.append("a struct without columns has no length of its own");
            },
            DataError::MessageRowCount { actual } => {
                out.append("expected exactly one message row but the batch has ");
                append_int(&mut out, *actual as i128);
            },
            DataError::MessageFixedArrayLength { field, expected, actual } => {
                out.append("fixed-size field ");
                let q = quote(field.as_str());
                out.append(q.as_str());
                out.append(" decoded ");
                append_int(&mut out, *actual as i128);
                out.append(" element(s), expected ");
                append_int(&mut out, *expected as i128);
            },
            DataError::RequiredFieldIsNull { field, row } => {
                out.append("required field ");
                let q = quote(field.as_str());
                out.append(q.as_str());
                out.append(" is null in row ");
                append_int(&mut out, *row as i128);
            },
            DataError::OffsetWidthOverflow { total, max } => {
                out.append("offset ");
                append_int(&mut out, *total as i128);
                out.append(" exceeds the largest representable offset ");
                append_int(&mut out, *max as i128);
            },
            DataError::DowncastFailed { expected, .. } => {
                out.append("the array is not a ");
                out.append(expected);
            },
            DataError::TakeIndexInvalid { position, len } => {
                out.append("take index at position ");
                append_int(&mut out, *position as i128);
                out.append(" does not name one of ");
                append_int(&mut out, *len as i128);
                out.append(" row(s)");
            },
            DataError::MaskLengthMismatch { array_len, mask_len } => {
                out.append("the mask has ");
                append_int(&mut out, *mask_len as i128);
                out.append(" entries for ");
                append_int(&mut out, *array_len as i128);
                out.append(" row(s)");
            },
            DataError::CastOverflow { index, .. } => {
                out.append("the value in row ");
                append_int(&mut out, *index as i128);
                out.append(" does not fit the destination type");
            },
            DataError::UnsupportedCast { .. } => {
                out.append("no conversion between the two types is defined");
            },
            DataError::InvalidUtf8 { index } => {
                out.append("the value in row ");
                append_int(&mut out, *index as i128);
                out.append(" is not UTF-8");
            },
            DataError::TensorShapeOverflow { .. } => {
                out.append("the shape has too many elements");
            },
            DataError::TensorShapeMismatch { expected, actual } => {
                out.append("the shape has ");
                append_int(&mut out, *expected as i128);
                out.append(" element(s) but ");
                append_int(&mut out, *actual as i128);
                out.append(" value(s) were given");
            },
            DataError::TensorRankMismatch { expected, actual } => {
                out.append("the index has ");
                append_int(&mut out, *actual as i128);
                out.append(" component(s) for ");
                append_int(&mut out, *expected as i128);
                out.append(" dimension(s)");
            },
            DataError::TensorIndexOutOfBounds { axis, index, dim } => {
                out.append("index ");
                append_int(&mut out, *index as i128);
                out.append(" on axis ");
                append_int(&mut out, *axis as i128);
                out.append(" is out of bounds for extent ");
                append_int(&mut out, *dim as i128);
            },
            DataError::TensorAxisOutOfBounds { axis, ndim } => {
                out.append("axis ");
                append_int(&mut out, *axis as i128);
                out.append(" is out of bounds for ");
                append_int(&mut out, *ndim as i128);
                out.append(" dimension(s)");
            },
            DataError::ValidityLengthMismatch { expected, actual } => {
                out.append("the validity bitmap has ");
                append_int(&mut out, *actual as i128);
                out.append(" bit(s) for ");
                append_int(&mut out, *expected as i128);
                out.append(" row(s)");
            },
            DataError::InvalidOffset { index } => {
                out.append("offset ");
                append_int(&mut out, *index as i128);
                out.append(" is out of order or out of range");
            },
            DataError::ValueLengthMismatch { expected, actual } => {
                out.append("the values have length ");
                append_int(&mut out, *actual as i128);
                out.append(", expected ");
                append_int(&mut out, *expected as i128);
            },
            DataError::BitmapOutOfBounds { offset, len, available } => {
                out.append("bitmap window [");
                append_int(&mut out, *offset as i128);
                out.append("; ");
                append_int(&mut out, *len as i128);
                out.append("] leaves ");
                append_int(&mut out, *available as i128);
                out.append(" bit(s)");
            },
        }
        assert(out@ =~= data_message(self@));
        out
    }

    /// A [`DataError::TypeMismatch`].
    pub fn type_mismatch(expected: DataType, actual: DataType) -> (r: DataError)
        ensures
            r@ == (DataErrorModel::TypeMismatch { expected: expected@, actual: actual@ }),
    {
        DataError::TypeMismatch { expected: Box::new(expected), actual: Box::new(actual) }
    }

    /// A [`DataError::CastOverflow`].
    pub fn cast_overflow(from: DataType, to: DataType, index: usize) -> (r: DataError)
        ensures
            r@ == (DataErrorModel::CastOverflow { from: from@, to: to@, index }),
    {
        DataError::CastOverflow { from: Box::new(from), to: Box::new(to), index }
    }

    /// A [`DataError::UnsupportedCast`].
    pub fn unsupported_cast(from: DataType, to: DataType) -> (r: DataError)
        ensures
            r@ == (DataErrorModel::UnsupportedCast { from: from@, to: to@ }),
    {
        DataError::UnsupportedCast { from: Box::new(from), to: Box::new(to) }
    }

    /// A [`DataError::DowncastFailed`].
    pub fn downcast_failed(expected: &'static str, actual: DataType) -> (r: DataError)
        ensures
            r@ == (DataErrorModel::DowncastFailed { expected: expected@, actual: actual@ }),
    {
        DataError::DowncastFailed { expected, actual: Box::new(actual) }
    }
}

} // verus!
