//! Which columns make a batch, which of its columns have a name, and which types
//! have the same buffers.
use vstd::prelude::*;
use crate::array::cell_laws::is_nothing;
use crate::array::model::{lemma_sliced_cell, ArrayV};
use crate::datatype::{layout_same, FieldModel, SchemaModel, TypeModel};
use crate::kernel::slice::{lemma_shortest, shortest, windowed};
use crate::record_batch::{accepted, columns_refusal, make_batch, rows_of, ColumnTypeCheck, RecordBatchOptions};
use crate::schema::{first_named, first_past, lemma_first_named};

verus! {

/// A field whose name and nullability are forgotten.
pub open spec fn nameless(t: TypeModel) -> FieldModel {
    FieldModel { name: Seq::empty(), data_type: t, nullable: false }
}

/// A type whose children's names and nullability are forgotten.
pub open spec fn bare(t: TypeModel) -> TypeModel
    decreases t,
{
    match t {
        TypeModel::FixedSizeList(f, n) => TypeModel::FixedSizeList(Box::new(nameless(bare(f.data_type))), n),
        TypeModel::List(f) => TypeModel::List(Box::new(nameless(bare(f.data_type)))),
        TypeModel::Struct(fs) => TypeModel::Struct(
            Seq::new(
                fs.len(),
                |i: int|
                    if 0 <= i < fs.len() {
                        nameless(bare(fs[i].data_type))
                    } else {
                        arbitrary()
                    },
            ),
        ),
        _ => t,
    }
}

/// Types have the same buffers exactly where they are the same but for the names
/// and the nullability of children.
pub proof fn law_layouts_are_types_without_names(a: TypeModel, b: TypeModel)
    ensures
        layout_same(a, b) <==> bare(a) == bare(b),
    decreases a,
{
    match (a, b) {
        (TypeModel::FixedSizeList(f, n), TypeModel::FixedSizeList(g, m)) => {
            law_layouts_are_types_without_names(f.data_type, g.data_type);
            if bare(a) == bare(b) {
                assert(bare(a)->FixedSizeList_0.data_type == bare(b)->FixedSizeList_0.data_type);
            }
        },
        (TypeModel::List(f), TypeModel::List(g)) => {
            law_layouts_are_types_without_names(f.data_type, g.data_type);
            if bare(a) == bare(b) {
                assert(bare(a)->List_0.data_type == bare(b)->List_0.data_type);
            }
        },
        (TypeModel::Struct(fs), TypeModel::Struct(gs)) => {
            let xs = bare(a)->Struct_0;
            let ys = bare(b)->Struct_0;
            assert forall|i: int| #![trigger fs[i]] 0 <= i < fs.len() && i < gs.len() implies (layout_same(
                fs[i].data_type,
                gs[i].data_type,
            ) <==> xs[i] == ys[i]) by {
                law_layouts_are_types_without_names(fs[i].data_type, gs[i].data_type);
                assert(xs[i].data_type == bare(fs[i].data_type));
                assert(ys[i].data_type == bare(gs[i].data_type));
            }
            if layout_same(a, b) {
                assert forall|i: int| 0 <= i < xs.len() implies xs[i] == ys[i] by {
                    assert(layout_same(fs[i].data_type, gs[i].data_type));
                }
                assert(xs =~= ys);
            }
            if bare(a) == bare(b) {
                assert(xs.len() == fs.len() && ys.len() == gs.len());
                assert forall|i: int| #![trigger fs[i]] 0 <= i < fs.len() implies layout_same(
                    fs[i].data_type,
                    gs[i].data_type,
                ) by {
                    assert(xs[i] == ys[i]);
                }
            }
        },
        _ => {},
    }
}

/// Whether a column may stand under a field: as many slots as the batch has rows,
/// a type that the options accept, and no nulls where the field admits none and
/// the options ask.
pub open spec fn stands_under(column: ArrayV, field: FieldModel, rows: nat, options: RecordBatchOptions) -> bool {
    &&& column.len == rows
    &&& match options.column_types {
        ColumnTypeCheck::Exact => field.data_type == column.ty,
        ColumnTypeCheck::Layout => bare(field.data_type) == bare(column.ty),
        ColumnTypeCheck::Unchecked => true,
    }
    &&& options.check_nullability && !field.nullable ==> forall|i: int|
        #![trigger is_nothing(column, i)]
        0 <= i < column.len ==> !is_nothing(column, i)
}

/// A column without nulls counts none.
proof fn lemma_null_free(column: ArrayV)
    requires
        column.wf(),
    ensures
        column.nulls() == 0 <==> forall|i: int|
            #![trigger is_nothing(column, i)]
            0 <= i < column.len ==> !is_nothing(column, i),
{
    if column.ty is Null {
        if column.len > 0 {
            assert(is_nothing(column, 0));
        }
    } else if let Some(v) = column.validity {
        crate::buffer::lemma_unset(v);
        if column.nulls() == 0 {
            assert forall|i: int| #![trigger is_nothing(column, i)] 0 <= i < column.len implies !is_nothing(column, i) by {
                assert(v[i]);
            }
        }
        if forall|i: int| #![trigger is_nothing(column, i)] 0 <= i < column.len ==> !is_nothing(column, i) {
            assert forall|i: int| 0 <= i < v.len() implies v[i] by {
                assert(!is_nothing(column, i));
            }
        }
    }
}

/// The first column that is refused is the first that may not stand under its
/// field.
pub proof fn lemma_refusal(
    fields: Seq<FieldModel>,
    columns: Seq<ArrayV>,
    count: nat,
    rows: nat,
    options: RecordBatchOptions,
)
    requires
        count <= columns.len(),
        forall|k: int| #![trigger columns[k]] 0 <= k < columns.len() ==> columns[k].wf(),
    ensures
        columns_refusal(fields, columns, count, rows, options) is None <==> forall|k: int|
            #![trigger columns[k]]
            0 <= k < count ==> stands_under(columns[k], fields[k], rows, options),
    decreases count,
{
    if count > 0 {
        lemma_refusal(fields, columns, (count - 1) as nat, rows, options);
        let k = count - 1;
        lemma_null_free(columns[k]);
        law_layouts_are_types_without_names(fields[k].data_type, columns[k].ty);
        assert(accepted(options.column_types, fields[k].data_type, columns[k].ty) <==> match options.column_types {
            ColumnTypeCheck::Exact => fields[k].data_type == columns[k].ty,
            ColumnTypeCheck::Layout => bare(fields[k].data_type) == bare(columns[k].ty),
            ColumnTypeCheck::Unchecked => true,
        });
    }
}

/// Columns make a batch exactly where there is one for each field and each may
/// stand under its own. The batch has the schema and the columns as given, and as
/// many rows as the options say, or else as the first column has.
pub proof fn law_batches_are_made_of_fitting_columns(
    schema: SchemaModel,
    columns: Seq<ArrayV>,
    options: RecordBatchOptions,
)
    requires
        forall|k: int| #![trigger columns[k]] 0 <= k < columns.len() ==> columns[k].wf(),
    ensures
        ({
            let rows = match options.row_count {
                Some(n) => n as nat,
                None => if columns.len() > 0 {
                    columns[0].len
                } else {
                    0
                },
            };
            &&& make_batch(schema, columns, options) is Ok <==> columns.len() == schema.fields.len() && forall|k: int|
                #![trigger columns[k]]
                0 <= k < columns.len() ==> stands_under(columns[k], schema.fields[k], rows, options)
            &&& make_batch(schema, columns, options) matches Ok(b) ==> b.schema == schema && b.columns == columns
                && b.rows == rows
        }),
{
    lemma_refusal(schema.fields, columns, columns.len(), rows_of(columns, options), options);
}

/// The field that is found under a name has it, and none before it has; where none
/// is found, none has it.
pub proof fn law_names_find_the_first_field(fields: Seq<FieldModel>, name: Seq<char>)
    ensures
        match first_named(fields, name) {
            Some(i) => i < fields.len() && fields[i as int].name == name && forall|k: int|
                #![trigger fields[k]]
                0 <= k < i ==> fields[k].name != name,
            None => forall|k: int| #![trigger fields[k]] 0 <= k < fields.len() ==> fields[k].name != name,
        },
{
    lemma_first_named(fields, name);
}

/// The index that is found past a length is past it, and none before it is.
pub proof fn law_the_first_index_past_is_found(indices: Seq<usize>, len: nat)
    ensures
        match first_past(indices, len) {
            Some(i) => i < indices.len() && indices[i as int] >= len && forall|k: int|
                #![trigger indices[k]]
                0 <= k < i ==> indices[k] < len,
            None => forall|k: int| #![trigger indices[k]] 0 <= k < indices.len() ==> indices[k] < len,
        },
    decreases indices.len(),
{
    if indices.len() > 0 {
        let rest = indices.drop_first();
        law_the_first_index_past_is_found(rest, len);
        match first_past(indices, len) {
            Some(i) => {
                assert forall|k: int| #![trigger indices[k]] 0 <= k < i implies indices[k] < len by {
                    if k > 0 {
                        assert(rest[k - 1] == indices[k]);
                    }
                }
            },
            None => {
                assert forall|k: int| #![trigger indices[k]] 0 <= k < indices.len() implies indices[k] < len by {
                    if k > 0 {
                        assert(rest[k - 1] == indices[k]);
                    }
                }
            },
        }
    }
}

/// A window of columns holds the rows from its start on that every column has, as
/// many as asked for, each cell as it was.
pub proof fn law_windows_hold_the_rows_there_are(columns: Seq<ArrayV>, offset: int, len: int, k: int, i: int)
    requires
        0 <= offset,
        0 <= len,
        0 <= i,
        0 <= k < columns.len(),
        forall|j: int| #![trigger columns[j]] 0 <= j < columns.len() ==> columns[j].wf(),
    ensures
        ({
            let out = windowed(columns, offset, len);
            &&& out.len() == columns.len()
            &&& i < out[k].len <==> i < len && forall|j: int|
                #![trigger columns[j]]
                0 <= j < columns.len() ==> offset + i < columns[j].len
            &&& i < out[k].len ==> out[k].cell(i) == columns[k].cell(offset + i)
        }),
{
    let n = shortest(columns);
    let out = windowed(columns, offset, len);
    lemma_least(columns);
    let at = choose|j: int| 0 <= j < columns.len() && (#[trigger] columns[j]).len == n;
    assert forall|j: int| #![trigger columns[j]] 0 <= j < columns.len() implies n <= columns[j].len by {
        lemma_shortest(columns, j);
    }
    assert(columns[at].len == n);
    if i < out[k].len {
        let start = crate::kernel::slice::clamped_start(offset, n as int);
        let count = crate::kernel::slice::clamped_len(offset, len, n as int);
        assert(start == offset);
        lemma_sliced_cell(columns[k], start, count, i);
    }
}

/// Some column is the shortest.
proof fn lemma_least(columns: Seq<ArrayV>)
    requires
        columns.len() > 0,
    ensures
        exists|j: int| 0 <= j < columns.len() && (#[trigger] columns[j]).len == shortest(columns),
    decreases columns.len(),
{
    if columns.len() == 1 || columns.last().len < shortest(columns.drop_last()) {
        assert(columns[columns.len() - 1].len == shortest(columns));
    } else {
        let rest = columns.drop_last();
        lemma_least(rest);
        let j = choose|j: int| 0 <= j < rest.len() && (#[trigger] rest[j]).len == shortest(rest);
        assert(columns[j].len == shortest(columns));
    }
}

} // verus!
