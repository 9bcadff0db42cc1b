//! What goes to arrow comes back.
use vstd::prelude::*;
use crate::array::model::{lemma_fixed_width, lemma_scaled, max_offset, ArrayV, BodyV};
use crate::array::parts::lemma_remade;
use crate::buffer::lemma_unset;
use crate::datatype::{FieldModel, TypeModel};
use crate::error::DataErrorModel;
use crate::interop::array::{
    array_of_parts, arrays_of_parts, describes, has_wide_offsets, narrowed_children, PartsV,
};
use crate::interop::buffer::marked;
use crate::interop::datatype::{law_schemas_return, law_types_return};
use crate::interop::record_batch::{batch_of_parts, describes_batch, fits, ArrowBatchV};
use crate::interop::sound::{held, lemma_offsets_return, lemma_whole_offsets, lemma_whole_window};
use crate::record_batch::{
    column_refusal, columns_refusal, make_batch, rows_of, strict, BatchV, RecordBatchOptions,
};
use crate::schema::keys_ascending;

verus! {

/// No struct in the type is without fields: such a struct's parts do not say
/// how many slots it has.
pub open spec fn has_fields(t: TypeModel) -> bool
    decreases t,
{
    match t {
        TypeModel::List(f) => has_fields(f.data_type),
        TypeModel::FixedSizeList(f, _) => has_fields(f.data_type),
        TypeModel::Struct(fs) => fs.len() > 0 && forall|k: int|
            #![trigger fs[k]]
            0 <= k < fs.len() ==> has_fields(fs[k].data_type),
        _ => true,
    }
}

/// Whether a column has another's type, length, nulls and cells.
pub open spec fn stands_for(b: ArrayV, a: ArrayV) -> bool {
    &&& b.wf()
    &&& b.ty == a.ty
    &&& b.len == a.len
    &&& b.nulls() == a.nulls()
    &&& b.cells() == a.cells()
}

/// Validity that marks no null says what none says.
proof fn lemma_marked(a: ArrayV, b: ArrayV, i: int)
    requires
        a.wf(),
        0 <= i < a.len,
        b.ty == a.ty,
        b.validity == marked(a.validity),
    ensures
        b.valid_at(i) == a.valid_at(i),
{
    if let Some(v) = a.validity {
        lemma_unset(v);
    }
}

/// A column that goes to arrow comes back with its type, its length, its nulls
/// and its cells.
pub proof fn law_columns_return(p: PartsV, a: ArrayV)
    requires
        a.wf(),
        describes(p, a),
        held(p),
        has_fields(a.ty),
    ensures
        array_of_parts(p) matches Ok(b) && stands_for(b, a),
    decreases a,
{
    let t = a.ty;
    law_types_return(t);
    let validity = marked(a.validity);
    assert(marked(p.nulls) == validity);
    match a.body {
        BodyV::Null => {
            lemma_remade(a);
        },
        BodyV::Bits(_) => {
            let b = ArrayV { validity, ..a };
            lemma_leaf(a, b);
            lemma_remade(b);
        },
        BodyV::Fixed(bytes) => {
            let b = ArrayV { validity, ..a };
            lemma_leaf(a, b);
            lemma_remade(b);
            lemma_fixed_width(a);
            lemma_whole_window(bytes, a.width() as int, a.len as int);
        },
        BodyV::Var { offsets, values } => {
            let b = ArrayV { validity, ..a };
            lemma_leaf(a, b);
            lemma_remade(b);
            assert(p.buffers[0].len() <= usize::MAX);
            lemma_offsets_return(offsets, a.len, values.len() as int, has_wide_offsets(t));
            lemma_whole_offsets(p, offsets, has_wide_offsets(t));
        },
        BodyV::List { offsets, child } => {
            assert(p.buffers[0].len() <= usize::MAX);
            lemma_offsets_return(offsets, a.len, child.len as int, false);
            lemma_whole_offsets(p, offsets, false);
            assert(held(p.children[0]));
            law_columns_return(p.children[0], *child);
            let c = array_of_parts(p.children[0])->Ok_0;
            let b = ArrayV { validity, body: BodyV::List { offsets, child: Box::new(c) }, ..a };
            lemma_list(a, b, *child, c);
            lemma_remade(b);
        },
        BodyV::FixedList(child) => {
            assert(held(p.children[0]));
            law_columns_return(p.children[0], *child);
            let c = array_of_parts(p.children[0])->Ok_0;
            let b = ArrayV { validity, body: BodyV::FixedList(Box::new(c)), ..a };
            lemma_fixed_list(a, b, *child, c);
            lemma_remade(b);
            let n = t->FixedSizeList_1;
            assert(p.offset * n == 0) by (nonlinear_arith)
                requires
                    p.offset == 0,
            ;
            assert(p.len * n == c.len);
        },
        BodyV::Struct(columns) => {
            let fs = t->Struct_0;
            assert forall|k: int| #![trigger p.children[k]] 0 <= k < columns.len() implies (array_of_parts(
                p.children[k],
            ) matches Ok(c) && stands_for(c, columns[k])) by {
                assert(held(p.children[k]));
                assert(fs[k].data_type == columns[k].ty);
                law_columns_return(p.children[k], columns[k]);
            }
            lemma_all_return(p.children, columns);
            let back = arrays_of_parts(p.children)->Ok_0;
            let b = ArrayV { validity, body: BodyV::Struct(back), ..a };
            lemma_struct(a, b, columns, back);
            lemma_remade(b);
            assert(back[0].len == a.len);
            assert forall|k: int| #![trigger back[k]] 0 <= k < back.len() implies back[k].len == a.len by {
                assert(stands_for(back[k], columns[k]));
                assert(columns[k].len == a.len);
            }
            assert(narrowed_children(back, 0, a.len as int).unwrap() =~= back);
        },
    }
}

/// Columns come back one by one.
proof fn lemma_all_return(ps: Seq<PartsV>, columns: Seq<ArrayV>)
    requires
        ps.len() == columns.len(),
        forall|k: int|
            #![trigger ps[k]]
            0 <= k < ps.len() ==> (array_of_parts(ps[k]) matches Ok(c) && stands_for(c, columns[k])),
    ensures
        arrays_of_parts(ps) matches Ok(back) && back.len() == columns.len() && forall|k: int|
            #![trigger back[k]]
            0 <= k < back.len() ==> stands_for(back[k], columns[k]),
    decreases ps.len(),
{
    if ps.len() > 0 {
        let rest = ps.drop_last();
        let others = columns.drop_last();
        assert forall|k: int| #![trigger rest[k]] 0 <= k < rest.len() implies (array_of_parts(rest[k]) matches Ok(c)
            && stands_for(c, others[k])) by {
            assert(rest[k] == ps[k]);
        }
        lemma_all_return(rest, others);
        assert(ps[ps.len() - 1] == ps.last());
    }
}

/// A column without children, under marked validity.
proof fn lemma_leaf(a: ArrayV, b: ArrayV)
    requires
        a.wf(),
        b == (ArrayV { validity: marked(a.validity), ..a }),
        a.body is Bits || a.body is Fixed || a.body is Var,
    ensures
        stands_for(b, a),
{
    assert forall|i: int| 0 <= i < a.len implies b.cells()[i] == a.cells()[i] by {
        lemma_marked(a, b, i);
    }
    assert(b.cells() =~= a.cells());
}

/// Lists over a child that stands for theirs.
proof fn lemma_list(a: ArrayV, b: ArrayV, child: ArrayV, c: ArrayV)
    requires
        a.wf(),
        a.body matches BodyV::List { offsets, child: old_child } && *old_child == child && b == (ArrayV {
            validity: marked(a.validity),
            body: BodyV::List { offsets, child: Box::new(c) },
            ..a
        }),
        stands_for(c, child),
    ensures
        stands_for(b, a),
{
    let offsets = a.body->List_offsets;
    assert forall|i: int| 0 <= i < a.len implies b.cells()[i] == a.cells()[i] by {
        lemma_marked(a, b, i);
        if a.valid_at(i) {
            crate::array::column::lemma_offset_pair(offsets, a.len, child.len as int, max_offset(a.ty), i);
            let got = b.cell(i)->Nested_0;
            let want = a.cell(i)->Nested_0;
            assert forall|j: int| 0 <= j < want.len() implies got[j] == want[j] by {
                assert(c.cells()[offsets[i] + j] == child.cells()[offsets[i] + j]);
            }
            assert(got =~= want);
        }
    }
    assert(b.cells() =~= a.cells());
}

/// Lists of one size over a child that stands for theirs.
proof fn lemma_fixed_list(a: ArrayV, b: ArrayV, child: ArrayV, c: ArrayV)
    requires
        a.wf(),
        a.body matches BodyV::FixedList(old_child) && *old_child == child && b == (ArrayV {
            validity: marked(a.validity),
            body: BodyV::FixedList(Box::new(c)),
            ..a
        }),
        stands_for(c, child),
    ensures
        stands_for(b, a),
{
    let n = a.list_size() as int;
    assert forall|i: int| 0 <= i < a.len implies b.cells()[i] == a.cells()[i] by {
        lemma_marked(a, b, i);
        if a.valid_at(i) {
            lemma_scaled(i, a.len as int, n);
            let got = b.cell(i)->Nested_0;
            let want = a.cell(i)->Nested_0;
            assert forall|j: int| 0 <= j < want.len() implies got[j] == want[j] by {
                assert(c.cells()[i * n + j] == child.cells()[i * n + j]);
            }
            assert(got =~= want);
        }
    }
    assert(b.cells() =~= a.cells());
}

/// Structs over columns that stand for theirs.
proof fn lemma_struct(a: ArrayV, b: ArrayV, columns: Seq<ArrayV>, back: Seq<ArrayV>)
    requires
        a.wf(),
        a.body == BodyV::Struct(columns),
        b == (ArrayV { validity: marked(a.validity), body: BodyV::Struct(back), ..a }),
        back.len() == columns.len(),
        forall|k: int| #![trigger back[k]] 0 <= k < back.len() ==> stands_for(back[k], columns[k]),
    ensures
        stands_for(b, a),
{
    assert forall|k: int| #![trigger back[k]] 0 <= k < back.len() implies back[k].len == a.len && back[k].ty
        == columns[k].ty && back[k].wf() by {
        assert(columns[k].len == a.len);
    }
    assert forall|i: int| 0 <= i < a.len implies b.cells()[i] == a.cells()[i] by {
        lemma_marked(a, b, i);
        if a.valid_at(i) {
            let got = b.cell(i)->Nested_0;
            let want = a.cell(i)->Nested_0;
            assert forall|k: int| 0 <= k < want.len() implies got[k] == want[k] by {
                assert(stands_for(back[k], columns[k]));
                assert(columns[k].len == a.len);
                assert(back[k].cells()[i] == columns[k].cells()[i]);
            }
            assert(got =~= want);
        }
    }
    assert(b.cells() =~= a.cells());
}

/// Columns that stand for others are refused under a schema where those are.
proof fn lemma_refused_alike(
    fields: Seq<FieldModel>,
    columns: Seq<ArrayV>,
    back: Seq<ArrayV>,
    count: nat,
    rows: nat,
    options: RecordBatchOptions,
)
    requires
        count <= columns.len() == back.len(),
        forall|k: int| #![trigger back[k]] 0 <= k < back.len() ==> stands_for(back[k], columns[k]),
    ensures
        columns_refusal(fields, back, count, rows, options) == columns_refusal(fields, columns, count, rows, options),
    decreases count,
{
    if count > 0 {
        lemma_refused_alike(fields, columns, back, (count - 1) as nat, rows, options);
        assert(stands_for(back[count - 1], columns[count - 1]));
    }
}

/// Where no column is refused, none of the first ones is.
proof fn lemma_each_accepted(
    fields: Seq<FieldModel>,
    columns: Seq<ArrayV>,
    count: nat,
    rows: nat,
    options: RecordBatchOptions,
    k: int,
)
    requires
        columns_refusal(fields, columns, count, rows, options) is None,
        0 <= k < count,
    ensures
        column_refusal(fields[k], columns[k], k, rows, options) is None,
    decreases count,
{
    if k < count - 1 {
        lemma_each_accepted(fields, columns, (count - 1) as nat, rows, options, k);
    }
}

/// A batch that every check accepts has the columns that its schema asks for:
/// arrow does not refuse them under it.
pub proof fn law_accepted_batches_fit(b: BatchV)
    requires
        b.wf(),
        make_batch(b.schema, b.columns, RecordBatchOptions { row_count: Some(b.rows as usize), ..strict() }) == Ok::<
            BatchV,
            DataErrorModel,
        >(b),
    ensures
        fits(b),
{
    let options = RecordBatchOptions { row_count: Some(b.rows as usize), ..strict() };
    let rows = rows_of(b.columns, options);
    assert forall|k: int| #![trigger b.columns[k]] 0 <= k < b.columns.len() implies {
        &&& b.columns[k].ty == b.schema.fields[k].data_type
        &&& b.schema.fields[k].nullable || marked(b.columns[k].validity) is None
    } by {
        lemma_each_accepted(b.schema.fields, b.columns, b.columns.len(), rows, options, k);
    }
}

/// A batch that every check accepts, gone to arrow, comes back with its schema,
/// its rows and its columns' cells.
pub proof fn law_batches_return(p: ArrowBatchV, b: BatchV)
    requires
        b.wf(),
        keys_ascending(b.schema.metadata),
        make_batch(b.schema, b.columns, RecordBatchOptions { row_count: Some(b.rows as usize), ..strict() }) == Ok::<
            BatchV,
            DataErrorModel,
        >(b),
        describes_batch(p, b),
        forall|k: int| #![trigger p.columns[k]] 0 <= k < p.columns.len() ==> held(p.columns[k]),
        forall|k: int| #![trigger b.columns[k]] 0 <= k < b.columns.len() ==> has_fields(b.columns[k].ty),
    ensures
        batch_of_parts(p) matches Ok(c) && c.schema == b.schema && c.rows == b.rows && c.columns.len()
            == b.columns.len() && forall|k: int|
            #![trigger c.columns[k]]
            0 <= k < c.columns.len() ==> stands_for(c.columns[k], b.columns[k]),
{
    law_schemas_return(b.schema);
    assert forall|k: int| #![trigger p.columns[k]] 0 <= k < p.columns.len() implies (array_of_parts(
        p.columns[k],
    ) matches Ok(c) && stands_for(c, b.columns[k])) by {
        assert(has_fields(b.columns[k].ty));
        law_columns_return(p.columns[k], b.columns[k]);
    }
    lemma_all_return(p.columns, b.columns);
    let back = arrays_of_parts(p.columns)->Ok_0;
    let options = RecordBatchOptions { row_count: Some(b.rows as usize), ..strict() };
    let rows = rows_of(b.columns, options);
    lemma_refused_alike(b.schema.fields, b.columns, back, back.len(), rows, options);
    assert(rows_of(back, options) == rows);
}

} // verus!
