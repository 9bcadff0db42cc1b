//! What can go wrong exchanging columns with arrow.
use vstd::prelude::*;
use vstd::string::StringExecFns;
use arrow_schema::{ArrowError, DataType as ArrowDataType};
use crate::error::{data_message, DataError, DataErrorModel};
use crate::interop::outside::{own_text, render_error, render_type, type_text, type_view, ArrowTypeV};
use crate::text::{append_int, decimal};

verus! {

/// A failure exchanging columns with arrow.
#[derive(Debug, Clone, PartialEq, Eq)]
#[non_exhaustive]
pub enum InteropError {
    /// A type outside the closed set.
    UnmappableArrowType {
        /// The type, as text.
        arrow_type: String,
    },
    /// A time type that does not count nanoseconds, or that has a time zone.
    UnsupportedTemporalUnit {
        /// Which time type.
        kind: &'static str,
        /// The type, as text.
        arrow_type: String,
    },
    /// An array of another type than the one expected.
    ArrowTypeMismatch {
        /// The type expected.
        expected: ArrowDataType,
        /// The array's type.
        actual: ArrowDataType,
    },
    /// An array without the parts of its type.
    ArrowDowncastFailed {
        /// The array's type.
        data_type: ArrowDataType,
    },
    /// The parts make no column or batch.
    Data(DataError),
    /// The other side refused the parts.
    Arrow(String),
    /// A schema and its columns differ in number.
    ColumnCountMismatch {
        /// Fields declared.
        expected: usize,
        /// Columns held.
        actual: usize,
    },
}

/// What an [`InteropError`] says.
pub enum InteropErrorModel {
    UnmappableArrowType { arrow_type: Seq<char> },
    UnsupportedTemporalUnit { kind: Seq<char>, arrow_type: Seq<char> },
    ArrowTypeMismatch { expected: ArrowTypeV, actual: ArrowTypeV },
    ArrowDowncastFailed { data_type: ArrowTypeV },
    Data(DataErrorModel),
    Arrow(Seq<char>),
    ColumnCountMismatch { expected: usize, actual: usize },
}

impl View for InteropError {
    type V = InteropErrorModel;

    open spec fn view(&self) -> InteropErrorModel {
        match *self {
            InteropError::UnmappableArrowType { arrow_type } => InteropErrorModel::UnmappableArrowType { arrow_type: arrow_type@ },
            InteropError::UnsupportedTemporalUnit { kind, arrow_type } => InteropErrorModel::UnsupportedTemporalUnit { kind: kind@, arrow_type: arrow_type@ },
            InteropError::ArrowTypeMismatch { expected, actual } => InteropErrorModel::ArrowTypeMismatch { expected: type_view(expected), actual: type_view(actual) },
            InteropError::ArrowDowncastFailed { data_type } => InteropErrorModel::ArrowDowncastFailed { data_type: type_view(data_type) },
            InteropError::Data(e) => InteropErrorModel::Data(e@),
            InteropError::Arrow(e) => InteropErrorModel::Arrow(e@),
            InteropError::ColumnCountMismatch { expected, actual } => InteropErrorModel::ColumnCountMismatch { expected, actual },
        }
    }
}

impl From<DataError> for InteropError {
    fn from(error: DataError) -> (r: InteropError) {
        InteropError::Data(error)
    }
}

impl vstd::std_specs::convert::FromSpecImpl<DataError> for InteropError {
    open spec fn obeys_from_spec() -> bool {
        true
    }

    open spec fn from_spec(error: DataError) -> InteropError {
        InteropError::Data(error)
    }
}

/// The text of an error.
pub open spec fn interop_message(e: InteropError) -> Seq<char> {
    match e {
        InteropError::UnmappableArrowType { arrow_type } => "arrow DataType `"@ + arrow_type@ + "` has no astrs-data counterpart (outside the closed P0 set, blueprint §6.1)"@,
        InteropError::UnsupportedTemporalUnit { kind, arrow_type } => "arrow "@ + kind@ + " is not the nanosecond, timezone-less parameterisation astrs-data requires: "@ + arrow_type@,
        InteropError::ArrowTypeMismatch { expected, actual } => "expected an arrow array of type "@ + type_text(expected) + ", found "@ + type_text(actual),
        InteropError::ArrowDowncastFailed { data_type } => "arrow array reports type "@ + type_text(data_type) + " but does not downcast to its concrete type"@,
        InteropError::Data(e) => data_message(e@),
        InteropError::Arrow(e) => "arrow-rs rejected the conversion: "@ + e@,
        InteropError::ColumnCountMismatch { expected, actual } => "schema declares "@ + decimal(expected as int) + " field(s) but the record batch has "@ + decimal(actual as int) + " column(s)"@,
    }
}

impl InteropError {
    /// What arrow refuses something with, kept as text. The text of an external
    /// error is that error's own.
    pub fn arrow(error: ArrowError) -> (r: InteropError)
        ensures
            r is Arrow,
            own_text(error) matches Some(text) ==> r@ == InteropErrorModel::Arrow(text),
    {
        InteropError::Arrow(render_error(&error))
    }

    /// The error's text.
    pub fn to_string(&self) -> (r: String)
        ensures
            r@ == interop_message(*self),
    {
        let mut out = String::new();
        match self {
            InteropError::UnmappableArrowType { arrow_type } => {
                out.append("arrow DataType `");
                out.append(arrow_type.as_str());
                out.append("` has no astrs-data counterpart (outside the closed P0 set, blueprint §6.1)");
            },
            InteropError::UnsupportedTemporalUnit { kind, arrow_type } => {
                out.append("arrow ");
                out.append(kind);
                out.append(" is not the nanosecond, timezone-less parameterisation astrs-data requires: ");
                out.append(arrow_type.as_str());
            },
            InteropError::ArrowTypeMismatch { expected, actual } => {
                out.append("expected an arrow array of type ");
                let want = render_type(expected);
                out.append(want.as_str());
                out.append(", found ");
                let got = render_type(actual);
                out.append(got.as_str());
            },
            InteropError::ArrowDowncastFailed { data_type } => {
                out.append("arrow array reports type ");
                let text = render_type(data_type);
                out.append(text.as_str());
                out.append(" but does not downcast to its concrete type");
            },
            InteropError::Data(e) => {
                let inner = e.to_string();
                out.append(inner.as_str());
            },
            InteropError::Arrow(e) => {
                out.append("arrow-rs rejected the conversion: ");
                out.append(e.as_str());
            },
            InteropError::ColumnCountMismatch { expected, actual } => {
                out.append("schema declares ");
                append_int(&mut out, *expected as i128);
                out.append(" field(s) but the record batch has ");
                append_int(&mut out, *actual as i128);
                out.append(" column(s)");
            },
        }
        assert(out@ =~= interop_message(*self));
        out
    }
}

} // verus!
