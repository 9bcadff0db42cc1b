//! A schema and one column of equal length per field.
//!
//! | Check on construction | Error |
//! |---|---|
//! | as many columns as fields | [`DataError::ColumnCountMismatch`] |
//! | every column has the batch's rows | [`DataError::ColumnLengthMismatch`] |
//! | every column's type matches its field | [`DataError::TypeMismatch`] |
//! | no nulls under a field that admits none | [`DataError::NullsInNonNullableColumn`] |
//!
//! The last two can be relaxed. A batch without columns can still have rows.
use vstd::prelude::*;
use std::sync::Arc;
use crate::array::column::{array_equal, arrays_model, share_arrays, Array, ArrayRef};
use crate::array::fresh::{fresh, new_empty_array};
use crate::array::memory::{arrays_memory, memory_all};
use crate::capped;
use crate::array::model::{same_array, law_slice_keeps_cells, ArrayV};
use crate::buffer::{clamp_window, share, window};
use crate::datatype::{clone_type, fields_layout_same, layout_same, type_equal, DataType, Field, FieldModel, SchemaModel, TypeModel};
use crate::error::{DataError, DataErrorModel};
use crate::schema::{entries_set, first_named, first_past, lemma_first_named, lemma_first_past_is, pick_fields, Schema};

verus! {

/// How a column's type is compared with its field's.
#[derive(Debug, Clone, Copy, PartialEq, Eq, Hash)]
#[non_exhaustive]
pub enum ColumnTypeCheck {
    /// The same type, child names and nullability included.
    Exact,
    /// The same buffers.
    Layout,
    /// Not at all.
    Unchecked,
}

impl Default for ColumnTypeCheck {
    fn default() -> (r: Self)
        ensures
            r == ColumnTypeCheck::Exact,
    {
        ColumnTypeCheck::Exact
    }
}

/// Whether a check accepts a pair of types.
pub open spec fn accepted(check: ColumnTypeCheck, declared: TypeModel, actual: TypeModel) -> bool {
    match check {
        ColumnTypeCheck::Exact => declared == actual,
        ColumnTypeCheck::Layout => layout_same(declared, actual),
        ColumnTypeCheck::Unchecked => true,
    }
}

impl ColumnTypeCheck {
    /// Applies the check to a pair of types.
    #[must_use]
    pub fn accepts(self, declared: &DataType, actual: &DataType) -> (r: bool)
        ensures
            r == accepted(self, declared@, actual@),
    {
        match self {
            ColumnTypeCheck::Exact => type_equal(declared, actual),
            ColumnTypeCheck::Layout => declared.layout_eq(actual),
            ColumnTypeCheck::Unchecked => true,
        }
    }
}

/// What construction checks.
#[derive(Debug, Clone, Copy, PartialEq, Eq, Hash)]
#[non_exhaustive]
pub struct RecordBatchOptions {
    /// The rows. `None` takes them from the first column, or none without one.
    pub row_count: Option<usize>,
    /// How types are compared.
    pub column_types: ColumnTypeCheck,
    /// Whether nulls under a field that admits none are refused.
    pub check_nullability: bool,
}

/// The strict options.
pub open spec fn strict() -> RecordBatchOptions {
    RecordBatchOptions { row_count: None, column_types: ColumnTypeCheck::Exact, check_nullability: true }
}

impl Default for RecordBatchOptions {
    fn default() -> (r: Self)
        ensures
            r == strict(),
    {
        RecordBatchOptions { row_count: None, column_types: ColumnTypeCheck::Exact, check_nullability: true }
    }
}

impl RecordBatchOptions {
    /// The strict options.
    #[must_use]
    pub fn new() -> (r: Self)
        ensures
            r == strict(),
    {
        RecordBatchOptions::default()
    }

    /// Sets the rows.
    #[must_use]
    pub fn with_row_count(self, rows: usize) -> (r: Self)
        ensures
            r == (RecordBatchOptions { row_count: Some(rows), ..self }),
    {
        RecordBatchOptions {
            row_count: Some(rows),
            column_types: self.column_types,
            check_nullability: self.check_nullability,
        }
    }

    /// Sets the type comparison.
    #[must_use]
    pub fn with_column_types(self, check: ColumnTypeCheck) -> (r: Self)
        ensures
            r == (RecordBatchOptions { column_types: check, ..self }),
    {
        RecordBatchOptions {
            row_count: self.row_count,
            column_types: check,
            check_nullability: self.check_nullability,
        }
    }

    /// Sets whether nulls are refused under fields that admit none.
    #[must_use]
    pub fn with_nullability_check(self, check: bool) -> (r: Self)
        ensures
            r == (RecordBatchOptions { check_nullability: check, ..self }),
    {
        RecordBatchOptions {
            row_count: self.row_count,
            column_types: self.column_types,
            check_nullability: check,
        }
    }
}

/// A batch's parts.
pub struct BatchV {
    pub schema: SchemaModel,
    pub columns: Seq<ArrayV>,
    pub rows: nat,
}

impl BatchV {
    /// One column per field, each of the batch's rows.
    pub open spec fn wf(self) -> bool {
        &&& self.columns.len() == self.schema.fields.len()
        &&& self.rows <= usize::MAX
        &&& forall|k: int|
            #![trigger self.columns[k]]
            0 <= k < self.columns.len() ==> self.columns[k].len == self.rows && self.columns[k].wf()
    }

    /// The batch of `len` rows from row `offset` on.
    pub open spec fn sliced(self, offset: int, len: int) -> BatchV {
        BatchV {
            schema: self.schema,
            columns: Seq::new(self.columns.len(), |k: int| self.columns[k].sliced(offset, len)),
            rows: len as nat,
        }
    }
}

/// Whether two batches have one schema and hold the same rows.
pub open spec fn same_batch(a: BatchV, b: BatchV) -> bool {
    &&& a.rows == b.rows
    &&& a.schema == b.schema
    &&& a.columns.len() == b.columns.len()
    &&& forall|k: int|
        #![trigger a.columns[k]]
        0 <= k < a.columns.len() ==> same_array(a.columns[k], b.columns[k])
}

/// The rows that options and columns give.
pub open spec fn rows_of(columns: Seq<ArrayV>, options: RecordBatchOptions) -> nat {
    match options.row_count {
        Some(n) => n as nat,
        None => if columns.len() == 0 {
            0
        } else {
            columns[0].len
        },
    }
}

/// Why column `i` is refused, or nothing when it is not.
pub open spec fn column_refusal(
    field: FieldModel,
    column: ArrayV,
    i: int,
    rows: nat,
    options: RecordBatchOptions,
) -> Option<DataErrorModel> {
    if column.len != rows {
        Some(
            DataErrorModel::ColumnLengthMismatch {
                index: i as usize,
                name: field.name,
                expected: rows as usize,
                actual: column.len as usize,
            },
        )
    } else if !accepted(options.column_types, field.data_type, column.ty) {
        Some(DataErrorModel::TypeMismatch { expected: field.data_type, actual: column.ty })
    } else if options.check_nullability && !field.nullable && column.nulls() > 0 {
        Some(
            DataErrorModel::NullsInNonNullableColumn {
                index: i as usize,
                name: field.name,
                null_count: column.nulls() as usize,
            },
        )
    } else {
        None
    }
}

/// Why the first of the first `count` columns is refused.
pub open spec fn columns_refusal(
    fields: Seq<FieldModel>,
    columns: Seq<ArrayV>,
    count: nat,
    rows: nat,
    options: RecordBatchOptions,
) -> Option<DataErrorModel>
    decreases count,
{
    if count == 0 {
        None
    } else {
        match columns_refusal(fields, columns, (count - 1) as nat, rows, options) {
            Some(e) => Some(e),
            None => column_refusal(fields[count - 1], columns[count - 1], count - 1, rows, options),
        }
    }
}

/// The batch that parts make, or why they make none.
pub open spec fn make_batch(schema: SchemaModel, columns: Seq<ArrayV>, options: RecordBatchOptions) -> Result<
    BatchV,
    DataErrorModel,
> {
    if schema.fields.len() != columns.len() {
        Err(
            DataErrorModel::ColumnCountMismatch {
                fields: schema.fields.len() as usize,
                columns: columns.len() as usize,
            },
        )
    } else {
        let rows = rows_of(columns, options);
        match columns_refusal(schema.fields, columns, columns.len(), rows, options) {
            Some(e) => Err(e),
            None => Ok(BatchV { schema, columns, rows }),
        }
    }
}

proof fn lemma_refusal_stays(
    fields: Seq<FieldModel>,
    columns: Seq<ArrayV>,
    count: nat,
    all: nat,
    rows: nat,
    options: RecordBatchOptions,
)
    requires
        count <= all,
        columns_refusal(fields, columns, count, rows, options) is Some,
    ensures
        columns_refusal(fields, columns, all, rows, options) == columns_refusal(
            fields,
            columns,
            count,
            rows,
            options,
        ),
    decreases all,
{
    if count < all {
        lemma_refusal_stays(fields, columns, count, (all - 1) as nat, rows, options);
    }
}

/// Columns that are not refused have the rows.
pub proof fn lemma_not_refused(
    fields: Seq<FieldModel>,
    columns: Seq<ArrayV>,
    count: nat,
    rows: nat,
    options: RecordBatchOptions,
)
    ensures
        columns_refusal(fields, columns, count, rows, options) is None <==> (forall|k: int|
            #![trigger columns[k]]
            0 <= k < count ==> column_refusal(fields[k], columns[k], k, rows, options) is None),
    decreases count,
{
    if count > 0 {
        lemma_not_refused(fields, columns, (count - 1) as nat, rows, options);
        if forall|k: int|
            #![trigger columns[k]]
            0 <= k < count ==> column_refusal(fields[k], columns[k], k, rows, options) is None {
            assert(column_refusal(fields[count - 1], columns[count - 1], count - 1, rows, options) is None);
        }
    }
}

/// A schema and one column of equal length per field.
#[derive(Debug)]
pub struct RecordBatch {
    schema: Arc<Schema>,
    columns: Vec<ArrayRef>,
    rows: usize,
}

impl View for RecordBatch {
    type V = BatchV;

    closed spec fn view(&self) -> BatchV {
        BatchV { schema: self.schema@, columns: arrays_model(self.columns@), rows: self.rows as nat }
    }
}

impl RecordBatch {
    #[verifier::type_invariant]
    closed spec fn fits(self) -> bool {
        self@.wf()
    }

    /// Builds a batch with every check. The rows are the first column's.
    pub fn try_new(schema: Arc<Schema>, columns: Vec<ArrayRef>) -> (r: Result<RecordBatch, DataError>)
        ensures
            match r {
                Ok(b) => make_batch(schema@, arrays_model(columns@), strict()) == Ok::<BatchV, DataErrorModel>(
                    b@,
                ),
                Err(e) => make_batch(schema@, arrays_model(columns@), strict()) == Err::<
                    BatchV,
                    DataErrorModel,
                >(e@),
            },
    {
        RecordBatch::try_new_with_options(schema, columns, RecordBatchOptions::default())
    }

    /// Builds a batch of `rows` rows with every check.
    pub fn try_new_with_row_count(schema: Arc<Schema>, columns: Vec<ArrayRef>, rows: usize) -> (r: Result<
        RecordBatch,
        DataError,
    >)
        ensures
            ({
                let options = RecordBatchOptions { row_count: Some(rows), ..strict() };
                match r {
                    Ok(b) => make_batch(schema@, arrays_model(columns@), options) == Ok::<
                        BatchV,
                        DataErrorModel,
                    >(b@),
                    Err(e) => make_batch(schema@, arrays_model(columns@), options) == Err::<
                        BatchV,
                        DataErrorModel,
                    >(e@),
                }
            }),
    {
        RecordBatch::try_new_with_options(
            schema,
            columns,
            RecordBatchOptions::default().with_row_count(rows),
        )
    }

    /// Builds a batch with the checks that `options` asks for. The error is the
    /// first column's.
    pub fn try_new_with_options(
        schema: Arc<Schema>,
        columns: Vec<ArrayRef>,
        options: RecordBatchOptions,
    ) -> (r: Result<RecordBatch, DataError>)
        ensures
            match r {
                Ok(b) => make_batch(schema@, arrays_model(columns@), options) == Ok::<BatchV, DataErrorModel>(
                    b@,
                ),
                Err(e) => make_batch(schema@, arrays_model(columns@), options) == Err::<
                    BatchV,
                    DataErrorModel,
                >(e@),
            },
    {
        if schema.len() != columns.len() {
            return Err(DataError::ColumnCountMismatch { fields: schema.len(), columns: columns.len() });
        }
        let ghost fs = schema@.fields;
        let ghost cs = arrays_model(columns@);
        let rows: usize = match options.row_count {
            Some(n) => n,
            None => if columns.len() == 0 {
                0
            } else {
                columns[0].len()
            },
        };
        let fields = schema.fields();
        assert(crate::datatype::fields_model(fields@).len() == fields@.len());
        let mut i: usize = 0;
        while i < columns.len()
            invariant
                0 <= i <= columns@.len(),
                cs == arrays_model(columns@),
                fs == crate::datatype::fields_model(fields@),
                fs == schema@.fields,
                rows == rows_of(cs, options),
                fields@.len() == columns@.len(),
                columns_refusal(fs, cs, i as nat, rows as nat, options) is None,
                forall|k: int| #![trigger cs[k]] 0 <= k < i ==> cs[k].wf(),
            decreases columns@.len() - i,
        {
            assert(cs[i as int] == columns@[i as int]@);
            assert(fs[i as int] == fields@[i as int]@);
            let _n: usize = columns[i].len();
            match RecordBatch::check_column(i, &fields[i], &columns[i], rows, options) {
                Ok(_) => {},
                Err(e) => {
                    proof {
                        lemma_refusal_stays(fs, cs, (i + 1) as nat, cs.len(), rows as nat, options);
                    }
                    return Err(e);
                },
            }
            i = i + 1;
        }
        proof {
            lemma_not_refused(fs, cs, cs.len(), rows as nat, options);
        }
        Ok(RecordBatch { schema, columns, rows })
    }

    /// Checks one column against its field.
    fn check_column(index: usize, field: &Field, column: &Array, rows: usize, options: RecordBatchOptions) -> (r:
        Result<(), DataError>)
        ensures
            match r {
                Ok(_) => column_refusal(field@, column@, index as int, rows as nat, options) is None,
                Err(e) => column_refusal(field@, column@, index as int, rows as nat, options) == Some(e@),
            },
    {
        if column.len() != rows {
            return Err(
                DataError::ColumnLengthMismatch {
                    index,
                    name: field.name().to_owned(),
                    expected: rows,
                    actual: column.len(),
                },
            );
        }
        if !options.column_types.accepts(field.data_type(), column.data_type()) {
            return Err(
                DataError::type_mismatch(clone_type(field.data_type()), clone_type(column.data_type())),
            );
        }
        if options.check_nullability && !field.is_nullable() {
            let nulls: usize = column.null_count();
            if nulls > 0 {
                return Err(
                    DataError::NullsInNonNullableColumn {
                        index,
                        name: field.name().to_owned(),
                        null_count: nulls,
                    },
                );
            }
        }
        Ok(())
    }

    /// The payload shape: one column of the payload's name, nullable exactly
    /// when it has nulls.
    #[must_use]
    pub fn from_payload(column: ArrayRef) -> (r: RecordBatch)
        ensures
            r@ == (BatchV {
                schema: SchemaModel {
                    fields: seq![
                        FieldModel {
                            name: crate::DATA_COLUMN@,
                            data_type: column@.ty,
                            nullable: column@.nulls() > 0,
                        },
                    ],
                    metadata: Seq::empty(),
                },
                columns: seq![column@],
                rows: column@.len,
            }),
    {
        let rows: usize = column.len();
        let schema = Arc::new(Schema::payload(clone_type(column.data_type()), column.null_count() > 0));
        let ghost c = column@;
        let mut columns: Vec<ArrayRef> = Vec::new();
        columns.push(column);
        assert(arrays_model(columns@) =~= seq![c]);
        RecordBatch { schema, columns, rows }
    }

    /// The batch of no rows of a schema.
    pub fn try_new_empty(schema: Arc<Schema>) -> (r: Result<RecordBatch, DataError>)
        ensures
            match r {
                Ok(b) => {
                    &&& b@.schema == schema@
                    &&& b@.rows == 0
                    &&& forall|k: int|
                        #![trigger b@.columns[k]]
                        0 <= k < b@.columns.len() ==> fresh(schema@.fields[k].data_type, 0) == Ok::<
                            ArrayV,
                            DataErrorModel,
                        >(b@.columns[k])
                },
                Err(e) => exists|k: int|
                    #![trigger schema@.fields[k]]
                    0 <= k < schema@.fields.len() && fresh(schema@.fields[k].data_type, 0) == Err::<
                        ArrayV,
                        DataErrorModel,
                    >(e@) && forall|j: int|
                        #![trigger schema@.fields[j]]
                        0 <= j < k ==> fresh(schema@.fields[j].data_type, 0) is Ok,
            },
    {
        let fields = schema.fields();
        let ghost fs = schema@.fields;
        assert(crate::datatype::fields_model(fields@).len() == fields@.len());
        let mut columns: Vec<ArrayRef> = Vec::new();
        let mut i: usize = 0;
        while i < fields.len()
            invariant
                0 <= i <= fields@.len(),
                fs == crate::datatype::fields_model(fields@),
                fs == schema@.fields,
                columns@.len() == i,
                forall|k: int|
                    #![trigger columns@[k]]
                    0 <= k < i ==> fresh(fs[k].data_type, 0) == Ok::<ArrayV, DataErrorModel>(columns@[k]@),
                forall|j: int| #![trigger fs[j]] 0 <= j < i ==> fresh(fs[j].data_type, 0) is Ok,
                forall|k: int| #![trigger columns@[k]] 0 <= k < i ==> columns@[k]@.len == 0 && columns@[k]@.wf(),
            decreases fields@.len() - i,
        {
            assert(fs[i as int] == fields@[i as int]@);
            match new_empty_array(fields[i].data_type()) {
                Ok(column) => {
                    proof {
                        crate::array::fresh::lemma_nulls_cells(fs[i as int].data_type, 0);
                    }
                    let _n: usize = column.len();
                    columns.push(column);
                },
                Err(e) => {
                    return Err(e);
                },
            }
            i = i + 1;
        }
        assert forall|k: int|
            #![trigger arrays_model(columns@)[k]]
            0 <= k < columns@.len() implies arrays_model(columns@)[k].len == 0 && arrays_model(columns@)[k].wf() by {
            assert(arrays_model(columns@)[k] == columns@[k]@);
        }
        let r = RecordBatch { schema, columns, rows: 0 };
        assert forall|k: int| #![trigger r@.columns[k]] 0 <= k < r@.columns.len() implies fresh(
            fs[k].data_type,
            0,
        ) == Ok::<ArrayV, DataErrorModel>(r@.columns[k]) by {
            assert(r@.columns[k] == columns@[k]@);
        }
        Ok(r)
    }

    /// The schema.
    #[must_use]
    pub fn schema(&self) -> (r: &Arc<Schema>)
        ensures
            r@ == self@.schema,
    {
        &self.schema
    }

    /// Another handle to the schema.
    #[must_use]
    pub fn schema_ref(&self) -> (r: Arc<Schema>)
        ensures
            r@ == self@.schema,
    {
        share(&self.schema)
    }

    /// The columns, in field order.
    #[must_use]
    pub fn columns(&self) -> (r: &Vec<ArrayRef>)
        ensures
            arrays_model(r@) == self@.columns,
            self@.wf(),
    {
        proof {
            use_type_invariant(self);
        }
        &self.columns
    }

    /// Number of rows.
    #[must_use]
    pub fn num_rows(&self) -> (r: usize)
        ensures
            r == self@.rows,
            self@.wf(),
    {
        proof {
            use_type_invariant(self);
        }
        self.rows
    }

    /// Number of columns.
    #[must_use]
    pub fn num_columns(&self) -> (r: usize)
        ensures
            r == self@.columns.len(),
    {
        self.columns.len()
    }

    /// Whether there are no rows.
    #[must_use]
    pub fn is_empty(&self) -> (r: bool)
        ensures
            r == (self@.rows == 0),
    {
        self.rows == 0
    }

    /// The column at `index`.
    #[must_use]
    pub fn column(&self, index: usize) -> (r: Option<&ArrayRef>)
        ensures
            match r {
                Some(c) => index < self@.columns.len() && c@ == self@.columns[index as int],
                None => index >= self@.columns.len(),
            },
    {
        if index < self.columns.len() {
            Some(&self.columns[index])
        } else {
            None
        }
    }

    /// The column at `index`, or an error.
    pub fn try_column(&self, index: usize) -> (r: Result<&ArrayRef, DataError>)
        ensures
            match r {
                Ok(c) => index < self@.columns.len() && c@ == self@.columns[index as int],
                Err(e) => index >= self@.columns.len() && e@ == (DataErrorModel::IndexOutOfBounds {
                    index,
                    len: self@.columns.len() as usize,
                }),
            },
    {
        if index < self.columns.len() {
            Ok(&self.columns[index])
        } else {
            Err(DataError::IndexOutOfBounds { index, len: self.columns.len() })
        }
    }

    /// The first column whose field has the name.
    #[must_use]
    pub fn column_by_name(&self, name: &str) -> (r: Option<&ArrayRef>)
        ensures
            match r {
                Some(c) => first_named(self@.schema.fields, name@) matches Some(i) && c@ == self@.columns[i as int],
                None => first_named(self@.schema.fields, name@) is None,
            },
    {
        proof {
            use_type_invariant(self);
            lemma_first_named(self@.schema.fields, name@);
        }
        match self.schema.index_of(name) {
            Some(i) => Some(&self.columns[i]),
            None => None,
        }
    }

    /// The first column whose field has the name, or an error.
    pub fn try_column_by_name(&self, name: &str) -> (r: Result<&ArrayRef, DataError>)
        ensures
            match r {
                Ok(c) => first_named(self@.schema.fields, name@) matches Some(i) && c@ == self@.columns[i as int],
                Err(e) => first_named(self@.schema.fields, name@) is None && e@ == (
                DataErrorModel::FieldNotFound { name: name@ }),
            },
    {
        proof {
            use_type_invariant(self);
            lemma_first_named(self@.schema.fields, name@);
        }
        match self.schema.try_index_of(name) {
            Ok(i) => Ok(&self.columns[i]),
            Err(e) => Err(e),
        }
    }

    /// The payload's column, where there is one.
    #[must_use]
    pub fn payload_column(&self) -> (r: Option<&ArrayRef>)
        ensures
            match r {
                Some(c) => first_named(self@.schema.fields, crate::DATA_COLUMN@) matches Some(i) && c@
                    == self@.columns[i as int],
                None => first_named(self@.schema.fields, crate::DATA_COLUMN@) is None,
            },
    {
        self.column_by_name(crate::DATA_COLUMN)
    }

    /// The fields with their columns, in order.
    pub fn iter(&self) -> (r: Vec<(&Field, &ArrayRef)>)
        ensures
            r@.len() == self@.columns.len(),
            forall|k: int|
                #![trigger r@[k]]
                0 <= k < r@.len() ==> r@[k].0@ == self@.schema.fields[k] && r@[k].1@ == self@.columns[k],
    {
        proof {
            use_type_invariant(self);
        }
        let fields = self.schema.fields();
        assert(crate::datatype::fields_model(fields@).len() == fields@.len());
        let mut out: Vec<(&Field, &ArrayRef)> = Vec::new();
        let mut i: usize = 0;
        while i < self.columns.len()
            invariant
                0 <= i <= self.columns@.len(),
                self.columns@.len() == fields@.len(),
                self@.schema.fields == crate::datatype::fields_model(fields@),
                self@.columns == arrays_model(self.columns@),
                out@.len() == i,
                forall|k: int|
                    #![trigger out@[k]]
                    0 <= k < out@.len() ==> out@[k].0@ == self@.schema.fields[k] && out@[k].1@
                        == self@.columns[k],
            decreases self.columns@.len() - i,
        {
            out.push((&fields[i], &self.columns[i]));
            i = i + 1;
        }
        out
    }

    /// The bytes of every column's buffers, cut to the largest `usize`. What two
    /// columns share is counted twice.
    #[must_use]
    pub fn buffer_memory_size(&self) -> (r: usize)
        ensures
            r == capped(memory_all(self@.columns)),
    {
        arrays_memory(&self.columns)
    }

    /// The batch of `len` rows from row `offset` on, both cut to what there is.
    #[must_use]
    pub fn slice(&self, offset: usize, len: usize) -> (r: RecordBatch)
        ensures
            ({
                let (start, count) = window(self@.rows as int, offset as int, len as int);
                &&& r@ == self@.sliced(start, count)
                &&& forall|k: int|
                    #![trigger r@.columns[k]]
                    0 <= k < r@.columns.len() ==> r@.columns[k].cells() == self@.columns[k].cells().subrange(
                        start,
                        start + count,
                    )
            }),
    {
        proof {
            use_type_invariant(self);
        }
        let (start, count) = clamp_window(self.rows, offset, len);
        let mut columns: Vec<ArrayRef> = Vec::with_capacity(self.columns.len());
        let mut i: usize = 0;
        while i < self.columns.len()
            invariant
                0 <= i <= self.columns@.len(),
                self@.columns == arrays_model(self.columns@),
                self@.wf(),
                start + count <= self@.rows,
                columns@.len() == i,
                forall|k: int|
                    #![trigger columns@[k]]
                    0 <= k < columns@.len() ==> columns@[k]@ == self@.columns[k].sliced(
                        start as int,
                        count as int,
                    ) && columns@[k]@.wf() && columns@[k]@.cells() == self@.columns[k].cells().subrange(
                        start as int,
                        start + count,
                    ),
            decreases self.columns@.len() - i,
        {
            assert(self@.columns[i as int] == self.columns@[i as int]@);
            let part = self.columns[i].slice(start, count);
            let _n: usize = part.len();
            columns.push(part);
            i = i + 1;
        }
        proof {
            let cs = arrays_model(columns@);
            assert forall|k: int| #![trigger cs[k]] 0 <= k < cs.len() implies cs[k].len == count && cs[k].wf() by {
                assert(cs[k] == columns@[k]@);
            }
        }
        let r = RecordBatch { schema: share(&self.schema), columns, rows: count };
        assert(r@.columns =~= self@.sliced(start as int, count as int).columns);
        assert forall|k: int| #![trigger r@.columns[k]] 0 <= k < r@.columns.len() implies r@.columns[k].cells()
            == self@.columns[k].cells().subrange(start as int, start + count) by {
            assert(r@.columns[k] == columns@[k]@);
        }
        r
    }

    /// The batch of `len` rows from row `offset` on.
    pub fn try_slice(&self, offset: usize, len: usize) -> (r: Result<RecordBatch, DataError>)
        ensures
            match r {
                Ok(b) => offset + len <= self@.rows && b@ == self@.sliced(offset as int, len as int),
                Err(e) => offset + len > self@.rows && e@ == (DataErrorModel::SliceOutOfBounds {
                    offset,
                    len,
                    available: self@.rows as usize,
                }),
            },
    {
        match offset.checked_add(len) {
            Some(end) => if end <= self.rows {
                return Ok(self.slice(offset, len));
            },
            None => {},
        }
        Err(DataError::SliceOutOfBounds { offset, len, available: self.rows })
    }

    /// The batch of the columns at `indices`, in that order.
    pub fn project(&self, indices: &[usize]) -> (r: Result<RecordBatch, DataError>)
        ensures
            match r {
                Ok(b) => first_past(indices@, self@.columns.len()) is None && b@ == (BatchV {
                    schema: SchemaModel {
                        fields: pick_fields(self@.schema.fields, indices@),
                        metadata: self@.schema.metadata,
                    },
                    columns: Seq::new(indices@.len(), |k: int| self@.columns[indices@[k] as int]),
                    rows: self@.rows,
                }),
                Err(e) => first_past(indices@, self@.columns.len()) matches Some(at) && e@ == (
                DataErrorModel::IndexOutOfBounds {
                    index: indices@[at as int],
                    len: self@.columns.len() as usize,
                }),
            },
    {
        proof {
            use_type_invariant(self);
        }
        let schema = match self.schema.project(indices) {
            Ok(schema) => schema,
            Err(e) => {
                return Err(e);
            },
        };
        proof {
            lemma_first_past_none(indices@, self@.columns.len());
        }
        let mut columns: Vec<ArrayRef> = Vec::with_capacity(indices.len());
        let mut i: usize = 0;
        while i < indices.len()
            invariant
                0 <= i <= indices@.len(),
                self@.columns == arrays_model(self.columns@),
                self@.wf(),
                forall|k: int| 0 <= k < indices@.len() ==> indices@[k] < self@.columns.len(),
                columns@.len() == i,
                forall|k: int|
                    #![trigger columns@[k]]
                    0 <= k < columns@.len() ==> columns@[k]@ == self@.columns[indices@[k] as int],
            decreases indices@.len() - i,
        {
            columns.push(share(&self.columns[indices[i]]));
            i = i + 1;
        }
        proof {
            let cs = arrays_model(columns@);
            assert forall|k: int| #![trigger cs[k]] 0 <= k < cs.len() implies cs[k].len == self@.rows
                && cs[k].wf() by {
                assert(cs[k] == columns@[k]@);
            }
        }
        let r = RecordBatch { schema: Arc::new(schema), columns, rows: self.rows };
        assert(r@.columns =~= Seq::new(indices@.len(), |k: int| self@.columns[indices@[k] as int]));
        Ok(r)
    }

    /// The batch of the named columns, in that order.
    pub fn project_by_name(&self, names: &[&str]) -> (r: Result<RecordBatch, DataError>)
        ensures
            match r {
                Ok(b) => {
                    &&& forall|k: int|
                        #![trigger names@[k]]
                        0 <= k < names@.len() ==> first_named(self@.schema.fields, names@[k]@) is Some
                    &&& b@ == (BatchV {
                        schema: SchemaModel {
                            fields: Seq::new(
                                names@.len(),
                                |k: int|
                                    self@.schema.fields[first_named(
                                        self@.schema.fields,
                                        names@[k]@,
                                    )->0 as int],
                            ),
                            metadata: self@.schema.metadata,
                        },
                        columns: Seq::new(
                            names@.len(),
                            |k: int|
                                self@.columns[first_named(self@.schema.fields, names@[k]@)->0 as int],
                        ),
                        rows: self@.rows,
                    })
                },
                Err(e) => exists|k: int|
                    #![trigger names@[k]]
                    0 <= k < names@.len() && first_named(self@.schema.fields, names@[k]@) is None && e@ == (
                    DataErrorModel::FieldNotFound { name: names@[k]@ }) && forall|j: int|
                        #![trigger names@[j]]
                        0 <= j < k ==> first_named(self@.schema.fields, names@[j]@) is Some,
            },
    {
        proof {
            use_type_invariant(self);
        }
        let mut indices: Vec<usize> = Vec::with_capacity(names.len());
        let mut i: usize = 0;
        while i < names.len()
            invariant
                0 <= i <= names@.len(),
                indices@.len() == i,
                forall|k: int|
                    #![trigger names@[k]]
                    0 <= k < i ==> first_named(self@.schema.fields, names@[k]@) == Some(indices@[k] as nat),
            decreases names@.len() - i,
        {
            match self.schema.try_index_of(names[i]) {
                Ok(at) => {
                    indices.push(at);
                },
                Err(e) => {
                    return Err(e);
                },
            }
            i = i + 1;
        }
        proof {
            assert forall|k: int| 0 <= k < indices@.len() implies indices@[k] < self@.columns.len() by {
                lemma_first_named(self@.schema.fields, names@[k]@);
                assert(first_named(self@.schema.fields, names@[k]@) == Some(indices@[k] as nat));
            }
            lemma_first_past_is(indices@, self@.columns.len(), indices@.len() as int);
        }
        proof {
            let fs = self@.schema.fields;
            let cs = self@.columns;
            assert forall|k: int| 0 <= k < names@.len() implies first_named(fs, (#[trigger] names@[k])@) == Some(
                indices@[k] as nat,
            ) by {}
            assert(pick_fields(fs, indices@) =~= Seq::new(
                names@.len(),
                |k: int| fs[first_named(fs, names@[k]@)->0 as int],
            ));
            assert(Seq::new(indices@.len(), |k: int| cs[indices@[k] as int]) =~= Seq::new(
                names@.len(),
                |k: int| cs[first_named(fs, names@[k]@)->0 as int],
            ));
        }
        self.project(indices.as_slice())
    }

    /// The columns under another schema, checked against it. The rows stay
    /// unless `options` says otherwise.
    pub fn try_with_schema(self, schema: Arc<Schema>, options: RecordBatchOptions) -> (r: Result<
        RecordBatch,
        DataError,
    >)
        ensures
            ({
                let used = if options.row_count is Some {
                    options
                } else {
                    RecordBatchOptions { row_count: Some(self@.rows as usize), ..options }
                };
                match r {
                    Ok(b) => make_batch(schema@, self@.columns, used) == Ok::<BatchV, DataErrorModel>(b@),
                    Err(e) => make_batch(schema@, self@.columns, used) == Err::<BatchV, DataErrorModel>(e@),
                }
            }),
    {
        let options = match options.row_count {
            Some(_) => options,
            None => options.with_row_count(self.rows),
        };
        RecordBatch::try_new_with_options(schema, share_arrays(&self.columns), options)
    }

    /// The batch with one metadata entry of its schema set.
    #[must_use]
    pub fn with_metadata_entry(self, key: &str, value: &str) -> (r: RecordBatch)
        ensures
            r@ == (BatchV {
                schema: SchemaModel {
                    fields: self@.schema.fields,
                    metadata: entries_set(self@.schema.metadata, key@, value@),
                },
                ..self@
            }),
    {
        proof {
            use_type_invariant(&self);
        }
        let schema: Schema = (*self.schema).clone();
        let schema = schema.with_metadata_entry(key, value);
        let columns = share_arrays(&self.columns);
        RecordBatch { schema: Arc::new(schema), columns, rows: self.rows }
    }

    /// Whether two batches have as many rows and describe the same buffers.
    #[must_use]
    pub fn layout_eq(&self, other: &RecordBatch) -> (r: bool)
        ensures
            r == (self@.rows == other@.rows && fields_layout_same(self@.schema.fields, other@.schema.fields)),
    {
        self.rows == other.rows && self.schema.layout_eq(&other.schema)
    }

    /// Whether two batches have one schema, metadata included, and hold the
    /// same rows.
    pub fn equal(&self, other: &RecordBatch) -> (r: bool)
        ensures
            r == same_batch(self@, other@),
    {
        if self.rows != other.rows || !self.schema.equal(&other.schema) || self.columns.len()
            != other.columns.len() {
            return false;
        }
        let mut i: usize = 0;
        while i < self.columns.len()
            invariant
                0 <= i <= self.columns@.len(),
                self.columns@.len() == other.columns@.len(),
                self@.columns == arrays_model(self.columns@),
                other@.columns == arrays_model(other.columns@),
                forall|k: int|
                    #![trigger self@.columns[k]]
                    0 <= k < i ==> same_array(self@.columns[k], other@.columns[k]),
            decreases self.columns@.len() - i,
        {
            assert(self@.columns[i as int] == self.columns@[i as int]@);
            assert(other@.columns[i as int] == other.columns@[i as int]@);
            if !array_equal(&self.columns[i], &other.columns[i]) {
                return false;
            }
            i = i + 1;
        }
        true
    }
}

proof fn lemma_first_past_none(indices: Seq<usize>, len: nat)
    requires
        first_past(indices, len) is None,
    ensures
        forall|k: int| 0 <= k < indices.len() ==> indices[k] < len,
    decreases indices.len(),
{
    if indices.len() > 0 {
        lemma_first_past_none(indices.drop_first(), len);
        assert forall|k: int| 0 <= k < indices.len() implies indices[k] < len by {
            if k > 0 {
                assert(indices.drop_first()[k - 1] == indices[k]);
            }
        }
    }
}

impl Clone for RecordBatch {
    fn clone(&self) -> (r: Self)
        ensures
            r@ == self@,
    {
        proof {
            use_type_invariant(self);
        }
        RecordBatch { schema: share(&self.schema), columns: share_arrays(&self.columns), rows: self.rows }
    }
}

impl PartialEq for RecordBatch {
    fn eq(&self, other: &RecordBatch) -> (r: bool) {
        self.equal(other)
    }
}

impl vstd::std_specs::cmp::PartialEqSpecImpl for RecordBatch {
    open spec fn obeys_eq_spec() -> bool {
        true
    }

    open spec fn eq_spec(&self, other: &RecordBatch) -> bool {
        same_batch(self@, other@)
    }
}

/// Two batches are the same exactly when they have one schema and every slot of
/// every column holds the same, however the columns were cut out.
pub proof fn law_equality_is_by_value(a: BatchV, b: BatchV, offset: int, len: int)
    requires
        a.wf(),
        b.wf(),
        0 <= offset,
        0 <= len,
        offset + len <= a.rows,
        b.rows == len,
        b.schema == a.schema,
        forall|k: int|
            #![trigger b.columns[k]]
            0 <= k < b.columns.len() ==> b.columns[k].ty == a.columns[k].ty && b.columns[k].cells()
                == a.columns[k].cells().subrange(offset, offset + len),
    ensures
        same_batch(a.sliced(offset, len), b),
{
    let s = a.sliced(offset, len);
    assert forall|k: int| #![trigger s.columns[k]] 0 <= k < s.columns.len() implies same_array(
        s.columns[k],
        b.columns[k],
    ) by {
        law_slice_keeps_cells(a.columns[k], offset, len);
        assert(b.columns[k].ty == a.columns[k].ty);
    }
}

} // verus!
