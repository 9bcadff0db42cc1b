//! Batches as arrow has them.
use vstd::prelude::*;
use std::sync::Arc;
use arrow_array::{
    make_array, Array as ArrowArray, RecordBatch as ArrowRecordBatch, RecordBatchOptions as ArrowRecordBatchOptions,
};
use arrow_data::ArrayData;
use arrow_schema::{ArrowError, Schema as ArrowSchema};
use crate::array::column::arrays_model;
use crate::array::model::ArrayV;
use crate::interop::array::{
    all_parts, arrays_of_parts, columns_from_data, data_parts, describes, to_array_data, PartsV,
};
use crate::interop::buffer::marked;
use crate::interop::datatype::{
    arrow_of, arrow_schema_of, from_arrow_schema, schema_of_arrow, schema_view, to_arrow_schema, ArrowSchemaV,
};
use crate::interop::error::{InteropError, InteropErrorModel};
use crate::interop::sound::{held, taken};
use crate::record_batch::{make_batch, strict, BatchV, RecordBatch, RecordBatchOptions};

verus! {

/// An `arrow_array::RecordBatch`: columns of one length under a schema.
#[derive(Debug)]
#[verifier::external_body]
pub struct ArrowBatch(pub ArrowRecordBatch);

/// What an [`ArrowBatch`] is made of.
pub struct ArrowBatchV {
    /// The schema.
    pub schema: ArrowSchemaV,
    /// The columns.
    pub columns: Seq<PartsV>,
    /// How many rows there are.
    pub rows: nat,
}

/// What an `arrow_array::RecordBatch` is made of: its schema, the parts that
/// `to_data` gives of its columns, its rows.
pub uninterp spec fn batch_parts(b: ArrowBatch) -> ArrowBatchV;

/// The parts of a batch in the making.
pub open spec fn new_batch(schema: ArrowSchema, columns: Seq<ArrayData>, rows: usize) -> ArrowBatchV {
    ArrowBatchV { schema: schema_view(schema), columns: all_parts(columns), rows: rows as nat }
}

/// Whether parts are those of some column.
pub open spec fn of_a_column(p: PartsV) -> bool {
    exists|a: ArrayV| a.wf() && #[trigger] describes(p, a)
}

/// Whether parts agree: a column for each field, of the field's type, with as
/// many slots as there are rows, and none null where the field allows no null.
pub open spec fn agree(p: ArrowBatchV) -> bool {
    &&& p.columns.len() == p.schema.fields.len()
    &&& forall|k: int|
        #![trigger p.columns[k]]
        0 <= k < p.columns.len() ==> {
            &&& p.columns[k].len == p.rows
            &&& p.columns[k].ty == p.schema.fields[k].data_type
            &&& p.schema.fields[k].nullable || marked(p.columns[k].nulls) is None
        }
}

/// `arrow_array::RecordBatch::try_new_with_options`, field names compared and
/// the rows given, on columns that `arrow_array::make_array` makes arrays of.
/// Parts that agree are taken, others refused with a text that is left open.
/// The parts of a column of one of this library's kinds are the array's own:
/// `to_data` gives them again. Parts of no column are left out, on some of which
/// `make_array` panics.
#[verifier::external_body]
fn make_arrow_batch(schema: ArrowSchema, columns: Vec<ArrayData>, rows: usize) -> (r: Result<ArrowBatch, ArrowError>)
    requires
        forall|k: int| #![trigger columns@[k]] 0 <= k < columns@.len() ==> of_a_column(data_parts(columns@[k])),
    ensures
        match r {
            Ok(b) => agree(new_batch(schema, columns@, rows)) && batch_parts(b) == new_batch(schema, columns@, rows),
            Err(_) => !agree(new_batch(schema, columns@, rows)),
        },
{
    let arrays = columns.into_iter().map(make_array).collect();
    let options = ArrowRecordBatchOptions::new().with_row_count(Some(rows));
    ArrowRecordBatch::try_new_with_options(Arc::new(schema), arrays, &options).map(ArrowBatch)
}

/// `arrow_array::RecordBatch::schema_ref`: the batch's schema.
#[verifier::external_body]
fn batch_schema(batch: &ArrowBatch) -> (r: &ArrowSchema)
    ensures
        schema_view(*r) == batch_parts(*batch).schema,
{
    batch.0.schema_ref().as_ref()
}

/// `arrow_array::RecordBatch::num_columns`: how many columns the batch has.
#[verifier::external_body]
fn batch_width(batch: &ArrowBatch) -> (r: usize)
    ensures
        r == batch_parts(*batch).columns.len(),
{
    batch.0.num_columns()
}

/// `arrow_array::RecordBatch::num_rows`: how many rows the batch has.
#[verifier::external_body]
fn batch_rows(batch: &ArrowBatch) -> (r: usize)
    ensures
        r == batch_parts(*batch).rows,
{
    batch.0.num_rows()
}

/// `arrow_array::RecordBatch::column`, then `to_data` of the array: one column.
/// It panics past the last.
#[verifier::external_body]
fn batch_column(batch: &ArrowBatch, index: usize) -> (r: ArrayData)
    requires
        index < batch_parts(*batch).columns.len(),
    ensures
        data_parts(r) == batch_parts(*batch).columns[index as int],
{
    batch.0.column(index).to_data()
}

/// Whether parts are a batch's: its schema, its columns' parts, its rows.
pub open spec fn describes_batch(p: ArrowBatchV, b: BatchV) -> bool {
    &&& p.schema == arrow_schema_of(b.schema)
    &&& p.rows == b.rows
    &&& p.columns.len() == b.columns.len()
    &&& forall|k: int| #![trigger p.columns[k]] 0 <= k < p.columns.len() ==> describes(p.columns[k], b.columns[k])
}

/// Whether the columns are of their fields' types, without nulls where the field
/// allows none. A batch that every check accepted is so; one made without the
/// checks need not be.
pub open spec fn fits(b: BatchV) -> bool {
    forall|k: int|
        #![trigger b.columns[k]]
        0 <= k < b.columns.len() ==> {
            &&& arrow_of(b.columns[k].ty) == arrow_of(b.schema.fields[k].data_type)
            &&& b.schema.fields[k].nullable || marked(b.columns[k].validity) is None
        }
}

/// A batch's parts agree where its columns fit.
proof fn lemma_agree(p: ArrowBatchV, b: BatchV)
    requires
        b.wf(),
        describes_batch(p, b),
    ensures
        agree(p) == fits(b),
{
    assert forall|k: int| #![trigger p.columns[k]] 0 <= k < p.columns.len() implies {
        &&& p.columns[k].len == p.rows
        &&& p.columns[k].ty == arrow_of(b.columns[k].ty)
        &&& marked(p.columns[k].nulls) == marked(b.columns[k].validity)
        &&& p.schema.fields[k].data_type == arrow_of(b.schema.fields[k].data_type)
        &&& p.schema.fields[k].nullable == b.schema.fields[k].nullable
    } by {
        assert(describes(p.columns[k], b.columns[k]));
        assert(b.columns[k].len == b.rows);
    }
    if agree(p) {
        assert forall|k: int| #![trigger b.columns[k]] 0 <= k < b.columns.len() implies {
            &&& arrow_of(b.columns[k].ty) == arrow_of(b.schema.fields[k].data_type)
            &&& b.schema.fields[k].nullable || marked(b.columns[k].validity) is None
        } by {
            assert(p.columns[k].len == p.rows);
        }
    }
    if fits(b) {
        assert forall|k: int| #![trigger p.columns[k]] 0 <= k < p.columns.len() implies {
            &&& p.columns[k].len == p.rows
            &&& p.columns[k].ty == p.schema.fields[k].data_type
            &&& p.schema.fields[k].nullable || marked(p.columns[k].nulls) is None
        } by {
            assert(arrow_of(b.columns[k].ty) == arrow_of(b.schema.fields[k].data_type));
        }
    }
}

/// The batch that parts are, or why they are none.
pub open spec fn batch_of_parts(p: ArrowBatchV) -> Result<BatchV, InteropErrorModel> {
    match schema_of_arrow(p.schema) {
        Err(e) => Err(e),
        Ok(schema) => match arrays_of_parts(p.columns) {
            Err(e) => Err(e),
            Ok(columns) => match make_batch(
                schema,
                columns,
                RecordBatchOptions { row_count: Some(p.rows as usize), ..strict() },
            ) {
                Ok(b) => Ok(b),
                Err(e) => Err(InteropErrorModel::Data(e)),
            },
        },
    }
}

/// What comes of sending a batch to arrow: its parts, held as they are, where
/// its columns fit and arrow takes each; else arrow's refusal.
pub open spec fn sent(batch: BatchV, r: Result<ArrowBatch, InteropError>) -> bool {
    match r {
        Ok(b) => {
            &&& fits(batch)
            &&& describes_batch(batch_parts(b), batch)
            &&& forall|k: int|
                #![trigger batch_parts(b).columns[k]]
                0 <= k < batch_parts(b).columns.len() ==> held(batch_parts(b).columns[k])
        },
        Err(e) => e is Arrow && (!fits(batch) || exists|k: int|
            #![trigger batch.columns[k]]
            0 <= k < batch.columns.len() && !taken(batch.columns[k])),
    }
}

/// Converts a batch to the one arrow has, column by column. Where arrow refuses
/// a column, or the columns under the schema, the error is arrow's.
pub fn to_arrow_record_batch(batch: &RecordBatch) -> (r: Result<ArrowBatch, InteropError>)
    ensures
        sent(batch@, r),
{
    let schema = match to_arrow_schema(batch.schema()) {
        Ok(s) => s,
        Err(e) => return Err(e),
    };
    let source = batch.columns();
    let mut columns: Vec<ArrayData> = Vec::with_capacity(source.len());
    let mut i: usize = 0;
    while i < source.len()
        invariant
            0 <= i <= source@.len(),
            columns@.len() == i,
            batch@.columns == arrays_model(source@),
            forall|k: int|
                #![trigger columns@[k]]
                0 <= k < i ==> describes(data_parts(columns@[k]), source@[k]@) && held(data_parts(columns@[k])),
        decreases source@.len() - i,
    {
        match to_array_data(&source[i]) {
            Ok(p) => {
                columns.push(p);
            },
            Err(e) => {
                assert(!taken(batch@.columns[i as int]));
                return Err(e);
            },
        }
        i = i + 1;
    }
    let rows: usize = batch.num_rows();
    proof {
        let b = batch@;
        let p = new_batch(schema, columns@, rows);
        assert forall|k: int| #![trigger p.columns[k]] 0 <= k < p.columns.len() implies describes(
            p.columns[k],
            b.columns[k],
        ) && held(p.columns[k]) by {
            assert(describes(data_parts(columns@[k]), source@[k]@));
        }
        assert forall|k: int| #![trigger columns@[k]] 0 <= k < columns@.len() implies of_a_column(
            data_parts(columns@[k]),
        ) by {
            assert(b.columns[k].wf());
            assert(describes(data_parts(columns@[k]), b.columns[k]));
        }
        lemma_agree(p, b);
    }
    match make_arrow_batch(schema, columns, rows) {
        Ok(b) => Ok(b),
        Err(e) => Err(InteropError::arrow(e)),
    }
}

/// Converts a batch that arrow has, column by column.
pub fn from_arrow_record_batch(batch: &ArrowBatch) -> (r: Result<RecordBatch, InteropError>)
    ensures
        match r {
            Ok(b) => batch_of_parts(batch_parts(*batch)) == Ok::<BatchV, InteropErrorModel>(b@),
            Err(e) => batch_of_parts(batch_parts(*batch)) == Err::<BatchV, InteropErrorModel>(e@),
        },
{
    let schema = match from_arrow_schema(batch_schema(batch)) {
        Ok(s) => s,
        Err(e) => return Err(e),
    };
    let count: usize = batch_width(batch);
    let mut data: Vec<ArrayData> = Vec::with_capacity(count);
    let mut i: usize = 0;
    while i < count
        invariant
            0 <= i <= count,
            count == batch_parts(*batch).columns.len(),
            all_parts(data@) == batch_parts(*batch).columns.take(i as int),
        decreases count - i,
    {
        let ghost before = data@;
        data.push(batch_column(batch, i));
        proof {
            let parts = batch_parts(*batch).columns;
            assert(data@.len() == before.len() + 1 == i + 1) by {
                assert(all_parts(before).len() == i);
            }
            assert forall|k: int| 0 <= k < i + 1 implies all_parts(data@)[k] == parts.take(i + 1)[k] by {
                if k < i {
                    assert(all_parts(before)[k] == parts.take(i as int)[k]);
                }
            }
            assert(all_parts(data@) =~= parts.take(i + 1));
        }
        i = i + 1;
    }
    assert(batch_parts(*batch).columns.take(count as int) =~= batch_parts(*batch).columns);
    let columns = match columns_from_data(data.as_slice()) {
        Ok(c) => c,
        Err(e) => return Err(e),
    };
    match RecordBatch::try_new_with_row_count(Arc::new(schema), columns, batch_rows(batch)) {
        Ok(b) => Ok(b),
        Err(e) => Err(InteropError::Data(e)),
    }
}

impl<'a> TryFrom<&'a RecordBatch> for ArrowBatch {
    type Error = InteropError;

    fn try_from(batch: &'a RecordBatch) -> (r: Result<Self, InteropError>)
        ensures
            sent(batch@, r),
    {
        to_arrow_record_batch(batch)
    }
}

impl<'a> vstd::std_specs::convert::TryFromSpecImpl<&'a RecordBatch> for ArrowBatch {
    open spec fn obeys_try_from_spec() -> bool {
        false
    }

    open spec fn try_from_spec(batch: &'a RecordBatch) -> Result<Self, InteropError> {
        arbitrary()
    }
}

impl<'a> TryFrom<&'a ArrowBatch> for RecordBatch {
    type Error = InteropError;

    fn try_from(batch: &'a ArrowBatch) -> (r: Result<Self, InteropError>)
        ensures
            match r {
                Ok(b) => batch_of_parts(batch_parts(*batch)) == Ok::<BatchV, InteropErrorModel>(b@),
                Err(e) => batch_of_parts(batch_parts(*batch)) == Err::<BatchV, InteropErrorModel>(e@),
            },
    {
        from_arrow_record_batch(batch)
    }
}

impl<'a> vstd::std_specs::convert::TryFromSpecImpl<&'a ArrowBatch> for RecordBatch {
    open spec fn obeys_try_from_spec() -> bool {
        false
    }

    open spec fn try_from_spec(batch: &'a ArrowBatch) -> Result<Self, InteropError> {
        arbitrary()
    }
}

} // verus!
