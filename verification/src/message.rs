//! Typed messages that travel as one-row batches.
use vstd::prelude::*;
use crate::datatype::{DataType, FieldModel, SchemaModel, TypeModel};
use crate::error::DataError;
use crate::record_batch::RecordBatch;
use crate::schema::Schema;
use crate::DATA_COLUMN;

verus! {

/// The schema of a payload: one column of a type, without nulls.
pub open spec fn payload_schema(t: TypeModel) -> SchemaModel {
    SchemaModel {
        fields: seq![FieldModel { name: DATA_COLUMN@, data_type: t, nullable: false }],
        metadata: Seq::empty(),
    }
}

/// A message that travels as a one-row batch.
pub trait AstrsMessage: Sized {
    /// The name of the message's type.
    const URN: &'static str;

    /// The type of the payload column.
    fn data_type() -> (r: DataType)
    ;

    /// The schema of the batch: the payload column alone, without nulls.
    fn schema() -> (r: Schema)
        ensures
            exists|t: DataType|
                #![trigger call_ensures(Self::data_type, (), t)]
                call_ensures(Self::data_type, (), t) && r@ == payload_schema(t@),
    {
        let t = Self::data_type();
        let r = Schema::payload(t, false);
        assert(r@.fields =~= payload_schema(t@).fields);
        r
    }

    /// The message as a one-row batch.
    fn to_record_batch(&self) -> (r: Result<RecordBatch, DataError>)
    ;

    /// The message that a one-row batch is.
    fn from_record_batch(batch: &RecordBatch) -> (r: Result<Self, DataError>)
    ;
}

} // verus!
