use astrs_data::array::{Float64Array, StructArray, F64};
use astrs_data::{AstrsMessage, DataError, DataType, Field, RecordBatch};

/// The column of double-precision numbers.
fn f64s(values: Vec<f64>) -> Float64Array {
    Float64Array::from_values(values.into_iter().map(|v| F64::from_bits(v.to_bits())).collect())
}

/// A minimal hand-written implementor, exercising the trait's default
/// methods and error paths.
#[derive(Debug, PartialEq)]
struct Ping {
    value: f64,
}

impl AstrsMessage for Ping {
    const URN: &'static str = "std/core/v1/PingMsg";

    fn data_type() -> DataType {
        DataType::strukt(vec![Field::required("value", DataType::Float64)])
    }

    fn to_record_batch(&self) -> Result<RecordBatch, DataError> {
        let DataType::Struct(fields) = Self::data_type() else {
            unreachable!("Ping::data_type is always a Struct")
        };
        let column = f64s(vec![self.value]).into_array_ref();
        let strukt = StructArray::try_new(fields, vec![column], None)?;
        Ok(RecordBatch::from_payload(strukt.into_array_ref()))
    }

    fn from_record_batch(batch: &RecordBatch) -> Result<Self, DataError> {
        if batch.num_rows() != 1 {
            return Err(DataError::MessageRowCount {
                actual: batch.num_rows(),
            });
        }
        let column = batch
            .payload_column()
            .ok_or(DataError::ColumnCountMismatch {
                fields: 1,
                columns: 0,
            })?;
        let strukt = StructArray::try_from_array(column)?;
        let columns = strukt.columns();
        let value_column = columns
            .first()
            .ok_or(DataError::ColumnCountMismatch {
                fields: 1,
                columns: 0,
            })?;
        let value = Float64Array::try_from_array(value_column)?
            .get(0)
            .ok_or_else(|| DataError::RequiredFieldIsNull {
                field: "value".to_owned(),
                row: 0,
            })?;
        Ok(Self { value: f64::from_bits(value.to_bits()) })
    }
}

#[test]
fn round_trips_through_a_record_batch() {
    let ping = Ping { value: 2.5 };
    let batch = ping.to_record_batch().unwrap();
    assert_eq!(batch.num_rows(), 1);
    assert_eq!(Ping::from_record_batch(&batch).unwrap(), ping);
}

#[test]
fn schema_wraps_data_type_in_the_payload_column() {
    let schema = Ping::schema();
    assert_eq!(schema.len(), 1);
    assert_eq!(
        schema.field(0).map(Field::data_type),
        Some(&Ping::data_type())
    );
    assert_eq!(schema.field(0).map(Field::name), Some(astrs_data::DATA_COLUMN));
}

#[test]
fn decode_rejects_a_batch_that_is_not_exactly_one_row() {
    let DataType::Struct(fields) = Ping::data_type() else {
        unreachable!()
    };
    let column = f64s(vec![1.0, 2.0]).into_array_ref();
    let strukt = StructArray::try_new(fields, vec![column], None).unwrap();
    let batch = RecordBatch::from_payload(strukt.into_array_ref());
    assert_eq!(
        Ping::from_record_batch(&batch).unwrap_err(),
        DataError::MessageRowCount { actual: 2 }
    );

    let empty = StructArray::try_new_with_len(
        Ping::data_type().children().into_iter().cloned().collect(),
        vec![Float64Array::new_null(0).into_array_ref()],
        0,
        None,
    )
    .unwrap();
    let empty_batch = RecordBatch::from_payload(empty.into_array_ref());
    assert_eq!(
        Ping::from_record_batch(&empty_batch).unwrap_err(),
        DataError::MessageRowCount { actual: 0 }
    );
}

#[test]
fn decode_rejects_a_null_required_field() {
    let DataType::Struct(fields) = Ping::data_type() else {
        unreachable!()
    };
    let column = Float64Array::new_null(1).into_array_ref();
    let strukt = StructArray::try_new(fields, vec![column], None).unwrap();
    let batch = RecordBatch::from_payload(strukt.into_array_ref());
    assert_eq!(
        Ping::from_record_batch(&batch).unwrap_err(),
        DataError::RequiredFieldIsNull {
            field: "value".to_owned(),
            row: 0,
        }
    );
}

#[test]
fn decode_rejects_the_wrong_shape() {
    // A payload column that isn't a `Struct` at all.
    let column = f64s(vec![1.0]).into_array_ref();
    let batch = RecordBatch::from_payload(column);
    assert!(Ping::from_record_batch(&batch).is_err());
}

#[test]
fn message_error_variants_report_useful_context() {
    let row_count = DataError::MessageRowCount { actual: 3 };
    assert_eq!(
        row_count.to_string(),
        "expected exactly one message row but the batch has 3"
    );

    let fixed = DataError::MessageFixedArrayLength {
        field: "quat".to_owned(),
        expected: 4,
        actual: 3,
    };
    assert_eq!(
        fixed.to_string(),
        "fixed-size field \"quat\" decoded 3 element(s), expected 4"
    );
}
