//! That columns keep their values on the way to arrow and back.
//!
//! What slot `i` of an arrow column holds is said here by arrow's own layout:
//! from the column's offset on, values lie one behind the other in buffers,
//! byte strings and lists between two offsets, bits from the least significant.
use vstd::prelude::*;
use crate::array::cell_laws::{bit, law_bits_are_read_in_order, slot_bytes};
use crate::array::model::{lemma_sliced_cell, lemma_sliced_wf, ArrayV, BodyV, Cell};
use crate::array::parts::{lemma_all_text, lemma_columns_fit, lemma_offsets_fit};
use crate::buffer::lemma_unset;
use crate::interop::array::{
    array_of_parts, arrays_of_parts, describes, has_wide_offsets, narrowed_children, offsets_in, parts_offsets,
    window_bytes, PartsV,
};
use crate::interop::buffer::marked;
use crate::interop::datatype::type_of_arrow;
use crate::interop::error::{InteropError, InteropErrorModel};
use crate::interop::kind_laws::{
    alike, all_alike, law_arrow_fields_keep_their_kind, law_arrow_types_keep_their_kind, law_fields_keep_their_kind,
};
use crate::interop::laws::{has_fields, law_columns_return};
use crate::interop::outside::ArrowTypeV;
use crate::interop::record_batch::{
    batch_parts, from_arrow_record_batch, to_arrow_record_batch, ArrowBatch,
};
use crate::interop::sound::held;
use crate::ipc::format_laws::{word32, word64};
use crate::record_batch::RecordBatch;

verus! {

/// The bytes of a slot of an arrow type whose slots all have as many.
pub open spec fn arrow_bytes_each(t: ArrowTypeV) -> int {
    match t {
        ArrowTypeV::Int8 | ArrowTypeV::UInt8 => 1,
        ArrowTypeV::Int16 | ArrowTypeV::UInt16 | ArrowTypeV::Float16 => 2,
        ArrowTypeV::Int32 | ArrowTypeV::UInt32 | ArrowTypeV::Float32 => 4,
        ArrowTypeV::Int64 | ArrowTypeV::UInt64 | ArrowTypeV::Float64 | ArrowTypeV::Timestamp | ArrowTypeV::Duration => 8,
        ArrowTypeV::FixedSizeBinary(w) => w as int,
        _ => 0,
    }
}

/// The offset before slot `i` of an arrow column.
pub open spec fn arrow_offset(p: PartsV, i: int) -> int {
    if p.ty is LargeBinary || p.ty is LargeUtf8 {
        (word64(p.buffers[0], (p.offset + i) * 8) as i64) as int
    } else {
        (word32(p.buffers[0], (p.offset + i) * 4) as i32) as int
    }
}

/// What slot `i` of an arrow column holds.
pub open spec fn arrow_cell(p: PartsV, i: int) -> Cell
    decreases p,
{
    if p.ty is Null || (p.nulls matches Some(v) && !v[i]) {
        Cell::Null
    } else {
        match p.ty {
            ArrowTypeV::Boolean => Cell::Bool(bit(p.buffers[0][(p.offset + i) / 8], (p.offset + i) % 8)),
            ArrowTypeV::Binary | ArrowTypeV::LargeBinary | ArrowTypeV::Utf8 | ArrowTypeV::LargeUtf8 => Cell::Bytes(
                p.buffers[1].subrange(arrow_offset(p, i), arrow_offset(p, i + 1)),
            ),
            ArrowTypeV::List(_) => Cell::Nested(
                Seq::new(
                    (arrow_offset(p, i + 1) - arrow_offset(p, i)) as nat,
                    |j: int|
                        if p.children.len() > 0 {
                            arrow_cell(p.children[0], arrow_offset(p, i) + j)
                        } else {
                            arbitrary()
                        },
                ),
            ),
            ArrowTypeV::FixedSizeList(_, n) => Cell::Nested(
                Seq::new(
                    n as nat,
                    |j: int|
                        if p.children.len() > 0 {
                            arrow_cell(p.children[0], (p.offset + i) * n + j)
                        } else {
                            arbitrary()
                        },
                ),
            ),
            ArrowTypeV::Struct(_) => Cell::Nested(
                Seq::new(
                    p.children.len(),
                    |k: int|
                        if 0 <= k < p.children.len() {
                            arrow_cell(p.children[k], p.offset + i)
                        } else {
                            arbitrary()
                        },
                ),
            ),
            _ => {
                let w = arrow_bytes_each(p.ty);
                Cell::Bytes(p.buffers[0].subrange((p.offset + i) * w, (p.offset + i) * w + w))
            },
        }
    }
}

/// Whether the counts of an arrow column and of its children are counts of the
/// machine, and nulls are marked for as many slots as there are.
pub open spec fn counted(p: PartsV) -> bool
    decreases p,
{
    &&& p.len <= usize::MAX
    &&& p.nulls matches Some(v) ==> v.len() == p.len
    &&& forall|i: int| #![trigger p.buffers[i]] 0 <= i < p.buffers.len() ==> p.buffers[i].len() <= usize::MAX
    &&& forall|k: int| #![trigger p.children[k]] 0 <= k < p.children.len() ==> counted(p.children[k])
}

/// Whether a column holds what an arrow column holds, slot by slot.
pub open spec fn holds_alike(a: ArrayV, p: PartsV) -> bool {
    &&& a.wf()
    &&& a.len == p.len
    &&& forall|i: int| #![trigger a.cell(i)] 0 <= i < a.len ==> a.cell(i) == arrow_cell(p, i)
}

/// Which slots are null is kept.
proof fn lemma_validity(a: ArrayV, p: PartsV, i: int)
    requires
        a.validity == marked(p.nulls),
        a.validity matches Some(v) ==> v.len() == a.len,
        a.len == p.len,
        p.nulls matches Some(v) ==> v.len() == p.len,
        !(a.ty is Null),
        0 <= i < a.len,
    ensures
        a.valid_at(i) == !(p.nulls matches Some(v) && !v[i]),
{
    if let Some(v) = p.nulls {
        lemma_unset(v);
    }
}

/// Offsets that are read are those that stand there.
proof fn lemma_offsets(p: PartsV, wide: bool, i: int)
    requires
        p.buffers.len() > 0,
        wide == (p.ty is LargeBinary || p.ty is LargeUtf8),
        parts_offsets(p, wide) is Ok,
        p.len > 0 || p.buffers[0].len() > 0,
        0 <= i <= p.len,
    ensures
        parts_offsets(p, wide)->Ok_0.len() == p.len + 1,
        parts_offsets(p, wide)->Ok_0[i] == arrow_offset(p, i),
{
    let width: int = if wide {
        8
    } else {
        4
    };
    let at = p.offset as int;
    let count = p.len as int + 1;
    let bytes = window_bytes(p.buffers[0], width, at, count)->0;
    let offsets = offsets_in(bytes, wide)->Ok_0;
    assert(offsets_in(bytes, wide) is Ok);
    assert(bytes.len() == count * width && 0 <= at * width && (at + count) * width == at * width + count * width) by (
    nonlinear_arith)
        requires
            bytes.len() == (at + count) * width - at * width,
            at >= 0,
            width > 0,
    ;
    assert(bytes.len() as int / width == count) by (nonlinear_arith)
        requires
            bytes.len() == count * width,
            width > 0,
    ;
    assert(i * width + width <= count * width && 0 <= i * width && (at + i) * width == at * width + i * width) by (
    nonlinear_arith)
        requires
            0 <= i < count,
            width > 0,
    ;
    assert(bytes.subrange(i * width, i * width + width) =~= p.buffers[0].subrange(
        (at + i) * width,
        (at + i) * width + width,
    ));
}

/// The lists of a child that starts at a slot of its own.
proof fn lemma_narrowed(c: ArrayV, at: int, count: int)
    requires
        c.wf(),
        0 <= at,
        0 <= count,
        at + count <= c.len,
    ensures
        ({
            let n = crate::interop::array::narrowed_child(c, at, count)->0;
            &&& n.wf()
            &&& n.len == count
            &&& n.ty == c.ty
            &&& forall|j: int| #![trigger n.cell(j)] 0 <= j < count ==> n.cell(j) == c.cell(at + j)
        }),
{
    if !(at == 0 && count == c.len) {
        let n = c.sliced(at, count);
        lemma_sliced_wf(c, at, count);
        assert forall|j: int| #![trigger n.cell(j)] 0 <= j < count implies n.cell(j) == c.cell(at + j) by {
            lemma_sliced_cell(c, at, count, j);
        }
    }
}

/// Bits.
proof fn lemma_bool(p: PartsV, a: ArrayV)
    requires
        counted(p),
        p.ty is Boolean,
        array_of_parts(p) == Ok::<ArrayV, InteropErrorModel>(a),
    ensures
        holds_alike(a, p),
{
    assert forall|i: int| #![trigger a.cell(i)] 0 <= i < a.len implies a.cell(i) == arrow_cell(p, i) by {
        lemma_validity(a, p, i);
        law_bits_are_read_in_order(p.buffers[0], p.offset as int, p.len as int, i);
    }
}

/// Values of one width.
proof fn lemma_fixed(p: PartsV, a: ArrayV)
    requires
        counted(p),
        arrow_bytes_each(p.ty) != 0,
        array_of_parts(p) == Ok::<ArrayV, InteropErrorModel>(a),
    ensures
        holds_alike(a, p),
{
    law_arrow_types_keep_their_kind(p.ty);
    let t = type_of_arrow(p.ty)->Ok_0;
    let w = arrow_bytes_each(p.ty);
    assert(w == slot_bytes(t) && w > 0);
    let at = p.offset as int;
    let len = p.len as int;
    let bytes = window_bytes(p.buffers[0], w, at, len)->0;
    assert(p.buffers[0].len() <= usize::MAX);
    assert(0 <= at * w <= (at + len) * w) by (nonlinear_arith)
        requires
            at >= 0,
            len >= 0,
            w > 0,
    ;
    assert(bytes.len() == len * w && 0 <= at * w) by (nonlinear_arith)
        requires
            bytes.len() == (at + len) * w - at * w,
            at >= 0,
            w > 0,
    ;
    assert(bytes.len() as int / w == len && bytes.len() as int % w == 0) by (nonlinear_arith)
        requires
            bytes.len() == len * w,
            w > 0,
    ;
    assert(a.body == BodyV::Fixed(bytes) && a.ty == t && a.len == len);
    assert(a.wf());
    assert forall|i: int| #![trigger a.cell(i)] 0 <= i < a.len implies a.cell(i) == arrow_cell(p, i) by {
        lemma_validity(a, p, i);
        assert(i * w + w <= len * w && 0 <= i * w && (at + i) * w == at * w + i * w) by (nonlinear_arith)
            requires
                0 <= i < len,
                w > 0,
        ;
        assert((at + len) * w == at * w + len * w) by (nonlinear_arith);
        assert(bytes.subrange(i * w, i * w + w) =~= p.buffers[0].subrange((at + i) * w, (at + i) * w + w));
    }
}

/// Byte strings.
proof fn lemma_var(p: PartsV, a: ArrayV)
    requires
        counted(p),
        p.ty is Binary || p.ty is LargeBinary || p.ty is Utf8 || p.ty is LargeUtf8,
        array_of_parts(p) == Ok::<ArrayV, InteropErrorModel>(a),
    ensures
        holds_alike(a, p),
{
    let t = type_of_arrow(p.ty)->Ok_0;
    let wide = has_wide_offsets(t);
    let offsets = parts_offsets(p, wide)->Ok_0;
    let values = p.buffers[1];
    assert(parts_offsets(p, wide) is Ok);
    assert(a.body == (BodyV::Var { offsets, values }));
    lemma_offsets_fit(offsets, values.len() as int, crate::array::model::max_offset(t));
    lemma_all_text(offsets, values, (offsets.len() - 1) as nat);
    if p.len > 0 || p.buffers[0].len() > 0 {
        lemma_offsets(p, wide, 0);
    }
    assert(a.len == p.len);
    assert(a.wf());
    assert forall|i: int| #![trigger a.cell(i)] 0 <= i < a.len implies a.cell(i) == arrow_cell(p, i) by {
        lemma_validity(a, p, i);
        lemma_offsets(p, wide, i);
        lemma_offsets(p, wide, i + 1);
    }
}

/// Lists, their child's slots kept.
proof fn lemma_list(p: PartsV, a: ArrayV)
    requires
        counted(p),
        p.ty is List,
        array_of_parts(p) == Ok::<ArrayV, InteropErrorModel>(a),
        p.children.len() == 1 ==> (array_of_parts(p.children[0]) matches Ok(c) ==> holds_alike(c, p.children[0])),
    ensures
        holds_alike(a, p),
{
    let t = type_of_arrow(p.ty)->Ok_0;
    let offsets = parts_offsets(p, false)->Ok_0;
    assert(parts_offsets(p, false) is Ok);
    let child = array_of_parts(p.children[0])->Ok_0;
    assert(array_of_parts(p.children[0]) is Ok);
    assert(a.body == (BodyV::List { offsets, child: Box::new(child) }));
    lemma_offsets_fit(offsets, child.len as int, crate::array::model::max_offset(t));
    if p.len > 0 || p.buffers[0].len() > 0 {
        lemma_offsets(p, false, 0);
    }
    assert(a.len == p.len);
    assert(a.wf());
    assert forall|i: int| #![trigger a.cell(i)] 0 <= i < a.len implies a.cell(i) == arrow_cell(p, i) by {
        lemma_validity(a, p, i);
        lemma_offsets(p, false, i);
        lemma_offsets(p, false, i + 1);
        if a.valid_at(i) {
            let here = a.cell(i)->Nested_0;
            let there = arrow_cell(p, i)->Nested_0;
            assert(offsets[i + 1] <= offsets[p.len as int]);
            assert forall|j: int| #![trigger here[j]] 0 <= j < here.len() implies here[j] == there[j] by {
                assert(here[j] == child.cell(offsets[i] + j));
            }
            assert(here =~= there);
        }
    }
}

/// Lists of one size, their child's slots kept.
proof fn lemma_fixed_list(p: PartsV, a: ArrayV)
    requires
        counted(p),
        p.ty is FixedSizeList,
        array_of_parts(p) == Ok::<ArrayV, InteropErrorModel>(a),
        p.children.len() == 1 ==> (array_of_parts(p.children[0]) matches Ok(c) ==> holds_alike(c, p.children[0])),
    ensures
        holds_alike(a, p),
{
    let t = type_of_arrow(p.ty)->Ok_0;
    let n = t->FixedSizeList_1 as int;
    let child = array_of_parts(p.children[0])->Ok_0;
    assert(array_of_parts(p.children[0]) is Ok);
    let at = p.offset * n;
    let count = p.len * n;
    assert(0 <= at && 0 <= count) by (nonlinear_arith)
        requires
            at == p.offset * n,
            count == p.len * n,
            n > 0,
    ;
    lemma_narrowed(child, at, count);
    let part = crate::interop::array::narrowed_child(child, at, count)->0;
    assert(part.len as int / n == p.len && part.len as int % n == 0) by (nonlinear_arith)
        requires
            part.len == p.len * n,
            n > 0,
    ;
    assert(a.body == BodyV::FixedList(Box::new(part)));
    assert(a.len == p.len);
    assert(a.wf());
    assert forall|i: int| #![trigger a.cell(i)] 0 <= i < a.len implies a.cell(i) == arrow_cell(p, i) by {
        lemma_validity(a, p, i);
        if a.valid_at(i) {
            let here = a.cell(i)->Nested_0;
            let there = arrow_cell(p, i)->Nested_0;
            assert((p.offset + i) * n == at + i * n && 0 <= i * n && i * n + n <= count) by (nonlinear_arith)
                requires
                    at == p.offset * n,
                    count == p.len * n,
                    0 <= i < p.len,
                    n > 0,
            ;
            assert(here.len() == n && there.len() == n);
            assert forall|j: int| #![trigger here[j]] 0 <= j < here.len() implies here[j] == there[j] by {
                assert(here[j] == part.cell(i * n + j));
                assert(part.cell(i * n + j) == child.cell(at + (i * n + j)));
                assert(child.cell(at + i * n + j) == arrow_cell(p.children[0], at + i * n + j));
            }
            assert(here =~= there);
        }
    }
}

/// Structs, their columns' slots kept.
proof fn lemma_struct(p: PartsV, a: ArrayV, columns: Seq<ArrayV>)
    requires
        counted(p),
        p.ty is Struct,
        array_of_parts(p) == Ok::<ArrayV, InteropErrorModel>(a),
        arrays_of_parts(p.children) == Ok::<Seq<ArrayV>, InteropErrorModel>(columns),
        columns.len() == p.children.len(),
        forall|k: int| #![trigger columns[k]] 0 <= k < columns.len() ==> holds_alike(columns[k], p.children[k]),
    ensures
        holds_alike(a, p),
{
    let t = type_of_arrow(p.ty)->Ok_0;
    let fs = t->Struct_0;
    let at = p.offset as int;
    let len = p.len as int;
    let cut = narrowed_children(columns, at, len)->0;
    assert forall|k: int| #![trigger cut[k]] 0 <= k < cut.len() implies cut[k].wf() && cut[k].len == len && forall|
        j: int,
    |
        #![trigger cut[k].cell(j)]
        0 <= j < len ==> cut[k].cell(j) == columns[k].cell(at + j) by {
        assert(at + len <= columns[k].len);
        lemma_narrowed(columns[k], at, len);
    }
    assert(cut.len() > 0);
    assert(cut[0].len == len);
    assert(a.body == BodyV::Struct(cut));
    lemma_columns_fit(fs, cut, cut.len(), len as nat);
    assert(a.len == p.len);
    assert(a.wf());
    assert forall|i: int| #![trigger a.cell(i)] 0 <= i < a.len implies a.cell(i) == arrow_cell(p, i) by {
        lemma_validity(a, p, i);
        if a.valid_at(i) {
            let here = a.cell(i)->Nested_0;
            let there = arrow_cell(p, i)->Nested_0;
            assert forall|k: int| #![trigger here[k]] 0 <= k < here.len() implies here[k] == there[k] by {
                assert(here[k] == cut[k].cell(i));
                assert(cut[k].cell(i) == columns[k].cell(at + i));
                assert(at + len <= columns[k].len);
                assert(columns[k].cell(at + i) == arrow_cell(p.children[k], at + i));
            }
            assert(here =~= there);
        }
    }
}

/// A column that is read from arrow holds what the arrow column holds, slot by
/// slot, and its type is of the same kind.
pub proof fn law_arrow_columns_keep_their_values(p: PartsV, a: ArrayV)
    requires
        counted(p),
        array_of_parts(p) == Ok::<ArrayV, InteropErrorModel>(a),
    ensures
        holds_alike(a, p),
        alike(p.ty, a.ty),
    decreases p, 0int,
{
    law_arrow_types_keep_their_kind(p.ty);
    match p.ty {
        ArrowTypeV::Null => {},
        ArrowTypeV::Boolean => {
            lemma_bool(p, a);
        },
        ArrowTypeV::Binary | ArrowTypeV::LargeBinary | ArrowTypeV::Utf8 | ArrowTypeV::LargeUtf8 => {
            lemma_var(p, a);
        },
        ArrowTypeV::List(_) => {
            if p.children.len() == 1 && array_of_parts(p.children[0]) is Ok {
                law_arrow_columns_keep_their_values(p.children[0], array_of_parts(p.children[0])->Ok_0);
            }
            lemma_list(p, a);
        },
        ArrowTypeV::FixedSizeList(_, _) => {
            if p.children.len() == 1 && array_of_parts(p.children[0]) is Ok {
                law_arrow_columns_keep_their_values(p.children[0], array_of_parts(p.children[0])->Ok_0);
            }
            lemma_fixed_list(p, a);
        },
        ArrowTypeV::Struct(_) => {
            let columns = arrays_of_parts(p.children)->Ok_0;
            lemma_each(p.children);
            lemma_struct(p, a, columns);
        },
        _ => {
            if arrow_bytes_each(p.ty) != 0 {
                lemma_fixed(p, a);
            }
        },
    }
}

/// Columns that are read from arrow hold what the arrow columns hold, one by one.
proof fn lemma_each(ps: Seq<PartsV>)
    requires
        forall|k: int| #![trigger ps[k]] 0 <= k < ps.len() ==> counted(ps[k]),
        arrays_of_parts(ps) is Ok,
    ensures
        arrays_of_parts(ps)->Ok_0.len() == ps.len(),
        forall|k: int|
            #![trigger arrays_of_parts(ps)->Ok_0[k]]
            0 <= k < ps.len() ==> holds_alike(arrays_of_parts(ps)->Ok_0[k], ps[k]),
    decreases ps, 1int,
{
    if ps.len() > 0 {
        let rest = ps.drop_last();
        assert forall|k: int| #![trigger rest[k]] 0 <= k < rest.len() implies counted(rest[k]) by {
            assert(rest[k] == ps[k]);
        }
        lemma_each(rest);
        let last = ps.last();
        assert(last == ps[ps.len() - 1]);
        law_arrow_columns_keep_their_values(last, array_of_parts(last)->Ok_0);
        let done = arrays_of_parts(rest)->Ok_0;
        let all = arrays_of_parts(ps)->Ok_0;
        assert forall|k: int| #![trigger all[k]] 0 <= k < ps.len() implies holds_alike(all[k], ps[k]) by {
            if k < rest.len() {
                assert(all[k] == done[k]);
                assert(rest[k] == ps[k]);
            }
        }
    }
}

/// A column that goes to arrow is there what it was here, slot by slot, under a
/// type of the same kind.
pub proof fn law_columns_keep_their_values(p: PartsV, a: ArrayV)
    requires
        a.wf(),
        describes(p, a),
        held(p),
        counted(p),
        has_fields(a.ty),
    ensures
        p.len == a.len,
        alike(p.ty, a.ty),
        forall|i: int| #![trigger arrow_cell(p, i)] 0 <= i < a.len ==> arrow_cell(p, i) == a.cell(i),
{
    law_columns_return(p, a);
    let b = array_of_parts(p)->Ok_0;
    law_arrow_columns_keep_their_values(p, b);
    assert forall|i: int| #![trigger arrow_cell(p, i)] 0 <= i < a.len implies arrow_cell(p, i) == a.cell(i) by {
        assert(b.cells()[i] == a.cells()[i]);
        assert(b.cell(i) == arrow_cell(p, i));
    }
}

/// A batch that goes to arrow has there its rows and its columns, slot by slot, and
/// fields of the same names and kinds.
pub proof fn law_batches_go_to_arrow(batch: RecordBatch, r: Result<ArrowBatch, InteropError>)
    requires
        batch@.wf(),
        forall|k: int|
            #![trigger batch@.columns[k]]
            0 <= k < batch@.columns.len() ==> has_fields(batch@.columns[k].ty),
        call_ensures(to_arrow_record_batch, (&batch,), r),
        r matches Ok(b) ==> forall|k: int|
            #![trigger batch_parts(b).columns[k]]
            0 <= k < batch_parts(b).columns.len() ==> counted(batch_parts(b).columns[k]),
    ensures
        r matches Ok(b) ==> {
            let p = batch_parts(b);
            &&& p.rows == batch@.rows
            &&& all_alike(p.schema.fields, batch@.schema.fields)
            &&& p.columns.len() == batch@.columns.len()
            &&& forall|k: int, i: int|
                #![trigger arrow_cell(p.columns[k], i)]
                0 <= k < p.columns.len() && 0 <= i < p.rows ==> arrow_cell(p.columns[k], i) == batch@.columns[k].cell(i)
        },
{
    if let Ok(b) = r {
        let p = batch_parts(b);
        law_fields_keep_their_kind(batch@.schema.fields);
        assert forall|k: int, i: int|
            #![trigger arrow_cell(p.columns[k], i)]
            0 <= k < p.columns.len() && 0 <= i < p.rows implies arrow_cell(p.columns[k], i) == batch@.columns[k].cell(
            i,
        ) by {
            assert(counted(p.columns[k]) && held(p.columns[k]) && describes(p.columns[k], batch@.columns[k]));
            assert(has_fields(batch@.columns[k].ty));
            law_columns_keep_their_values(p.columns[k], batch@.columns[k]);
        }
    }
}

/// A batch that comes from arrow has here its rows and its columns, slot by slot,
/// and fields of the same names and kinds.
pub proof fn law_batches_come_from_arrow(batch: ArrowBatch, r: Result<RecordBatch, InteropError>)
    requires
        call_ensures(from_arrow_record_batch, (&batch,), r),
        forall|k: int|
            #![trigger batch_parts(batch).columns[k]]
            0 <= k < batch_parts(batch).columns.len() ==> counted(batch_parts(batch).columns[k]),
        batch_parts(batch).rows <= usize::MAX,
    ensures
        r matches Ok(b) ==> {
            let p = batch_parts(batch);
            &&& b@.rows == p.rows
            &&& all_alike(p.schema.fields, b@.schema.fields)
            &&& b@.columns.len() == p.columns.len()
            &&& forall|k: int| #![trigger b@.columns[k]] 0 <= k < p.columns.len() ==> holds_alike(b@.columns[k], p.columns[k])
        },
{
    if let Ok(b) = r {
        let p = batch_parts(batch);
        law_arrow_fields_keep_their_kind(p.schema.fields);
        lemma_each(p.columns);
    }
}

} // verus!
