use arrow_schema::{ArrowError, DataType as ArrowDataType};
use astrs_data::interop::InteropError;
use astrs_data::DataError;

#[test]
fn arrow_errors_render_into_an_owned_message() {
    let arrow_err = ArrowError::InvalidArgumentError("bad offsets".to_owned());
    let rendered = arrow_err.to_string();
    let err = InteropError::arrow(arrow_err);
    assert_eq!(err, InteropError::Arrow(rendered));
}

#[test]
fn data_errors_flatten_transparently() {
    let inner = DataError::UnknownStructLength;
    let err: InteropError = inner.clone().into();
    assert_eq!(err.to_string(), inner.to_string());
    assert_eq!(err, InteropError::Data(inner));
}

#[test]
fn errors_compare_by_value() {
    let a = InteropError::UnmappableArrowType {
        arrow_type: "Union".to_owned(),
    };
    let b = InteropError::UnmappableArrowType {
        arrow_type: "Union".to_owned(),
    };
    assert_eq!(a, b);
    assert_ne!(
        a,
        InteropError::UnmappableArrowType {
            arrow_type: "Map".to_owned()
        }
    );
}

#[test]
fn arrow_type_mismatch_names_both_sides() {
    let err = InteropError::ArrowTypeMismatch {
        expected: ArrowDataType::Int32,
        actual: ArrowDataType::Utf8,
    };
    assert_eq!(
        err.to_string(),
        "expected an arrow array of type Int32, found Utf8"
    );
}

#[test]
fn errors_say_what_is_wrong() {
    let unit = InteropError::UnsupportedTemporalUnit {
        kind: "Duration",
        arrow_type: "Duration(s)".to_owned(),
    };
    assert_eq!(
        unit.to_string(),
        "arrow Duration is not the nanosecond, timezone-less parameterisation astrs-data requires: Duration(s)"
    );
    let downcast = InteropError::ArrowDowncastFailed { data_type: ArrowDataType::Int8 };
    assert_eq!(
        downcast.to_string(),
        "arrow array reports type Int8 but does not downcast to its concrete type"
    );
    let refused = InteropError::arrow(ArrowError::ComputeError("no".to_owned()));
    assert_eq!(refused.to_string(), "arrow-rs rejected the conversion: Compute error: no");
    let count = InteropError::ColumnCountMismatch { expected: 2, actual: 1 };
    assert_eq!(
        count.to_string(),
        "schema declares 2 field(s) but the record batch has 1 column(s)"
    );
}

#[test]
fn an_error_from_outside_arrow_keeps_its_text() {
    let text = ArrowError::ExternalError(Box::new(std::fmt::Error)).to_string();
    let err = InteropError::arrow(ArrowError::ExternalError(Box::new(std::fmt::Error)));
    assert_eq!(err, InteropError::Arrow(text));
}
