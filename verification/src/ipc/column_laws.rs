//! A column that was flattened is rebuilt.
use vstd::prelude::*;
use crate::array::model::{
    all_text, is_text, lemma_fixed_width, lemma_sliced_cell, lemma_sliced_wf, max_offset, offsets_ok, var_slot, ArrayV,
    BodyV,
};
use crate::array::parts::{lemma_all_text, lemma_columns_fit, lemma_offsets_ok_no_error};
use crate::buffer::{law_packed_bits_read_back, lemma_unset, packed};
use crate::datatype::{FieldModel, TypeModel};
use crate::ipc::decode::{
    column_at, entries_of, entry_at, struct_columns_at, values_at, DecoderV, NodeV,
};
use crate::ipc::error::IpcErrorModel;
use crate::ipc::layout::{
    buffers_of, buffers_of_all, bytes_for_bits, depth_of, depth_of_all, nodes_of, nodes_of_all, BufferRole,
    MAX_NESTING_DEPTH,
};
use crate::ipc::wire::{
    covered, entry_bytes, rebased_bytes, width_of, wire_buffers, wire_buffers_all, wire_nodes, wire_nodes_all,
    wire_offsets, wire_validity,
};

verus! {

broadcast use crate::le::group_le;

/// Offsets counted from the first one.
pub open spec fn rebased(offsets: Seq<i64>) -> Seq<i64> {
    Seq::new(offsets.len(), |i: int| (offsets[i] - offsets[0]) as i64)
}

/// The validity that is kept: none without nulls.
pub open spec fn kept_validity(a: ArrayV) -> Option<Seq<bool>> {
    if a.nulls() == 0 {
        None
    } else {
        a.validity
    }
}

/// The array of the same cells with nothing beside them: no validity without
/// nulls, offsets from zero, no value outside them.
pub open spec fn canon(t: TypeModel, a: ArrayV) -> ArrayV
    decreases t, 0int,
{
    ArrayV {
        ty: a.ty,
        len: a.len,
        validity: kept_validity(a),
        body: match (t, a.body) {
            (_, BodyV::Var { offsets, values }) => BodyV::Var {
                offsets: rebased(offsets),
                values: values.subrange(offsets[0] as int, offsets.last() as int),
            },
            (TypeModel::List(f), BodyV::List { offsets, child }) => BodyV::List {
                offsets: rebased(offsets),
                child: Box::new(canon(f.data_type, covered(offsets, *child))),
            },
            (TypeModel::FixedSizeList(f, _), BodyV::FixedList(child)) => BodyV::FixedList(
                Box::new(canon(f.data_type, *child)),
            ),
            (TypeModel::Struct(fs), BodyV::Struct(columns)) => BodyV::Struct(canon_all(fs, columns)),
            (_, body) => body,
        },
    }
}

/// Every column so.
pub open spec fn canon_all(fs: Seq<FieldModel>, columns: Seq<ArrayV>) -> Seq<ArrayV>
    decreases fs, 1int,
{
    if fs.len() == 0 {
        Seq::empty()
    } else {
        canon_all(fs.drop_last(), columns).push(canon(fs.last().data_type, columns[fs.len() - 1]))
    }
}

/// Offsets counted from the first one address the things between the first and
/// the last.
proof fn lemma_rebased(offsets: Seq<i64>, len: nat, limit: int, max: int)
    requires
        offsets_ok(offsets, len, limit, max),
        max <= i64::MAX,
    ensures
        offsets_ok(rebased(offsets), len, offsets.last() - offsets[0], max),
        rebased(offsets).last() == offsets.last() - offsets[0],
        forall|i: int| 0 <= i <= len ==> #[trigger] rebased(offsets)[i] == offsets[i] - offsets[0],
        0 <= offsets[0] <= offsets.last() <= limit,
{
    let r = rebased(offsets);
    assert(offsets[0] <= offsets[len as int]);
    assert forall|i: int| 0 <= i <= len implies #[trigger] r[i] == offsets[i] - offsets[0] by {
        assert(offsets[0] <= offsets[i]);
        assert(offsets[i] <= offsets[len as int]);
    }
    assert forall|i: int, j: int| #![trigger r[i], r[j]] 0 <= i <= j < r.len() implies r[i] <= r[j] by {
        assert(offsets[i] <= offsets[j]);
    }
}

/// A byte string keeps its bytes when the offsets are counted from the first.
proof fn lemma_rebased_slot(offsets: Seq<i64>, values: Seq<u8>, len: nat, max: int, i: int)
    requires
        offsets_ok(offsets, len, values.len() as int, max),
        max <= i64::MAX,
        0 <= i < len,
    ensures
        var_slot(
            rebased(offsets),
            values.subrange(offsets[0] as int, offsets.last() as int),
            i,
        ) == var_slot(offsets, values, i),
{
    lemma_rebased(offsets, len, values.len() as int, max);
    assert(offsets[i] <= offsets[i + 1]);
    assert(offsets[i + 1] <= offsets[len as int]);
    assert(offsets[0] <= offsets[i]);
    assert(rebased(offsets)[i] == offsets[i] - offsets[0]);
    assert(rebased(offsets)[i + 1] == offsets[i + 1] - offsets[0]);
    assert(var_slot(rebased(offsets), values.subrange(offsets[0] as int, offsets.last() as int), i)
        =~= var_slot(offsets, values, i));
}

/// Without nulls every slot is valid, so nothing is lost with the bitmap.
proof fn lemma_kept_validity(a: ArrayV, c: ArrayV, i: int)
    requires
        a.wf(),
        0 <= i < a.len,
        c.ty == a.ty,
        c.validity == kept_validity(a),
    ensures
        c.valid_at(i) == a.valid_at(i),
{
    if let Some(v) = a.validity {
        lemma_unset(v);
    }
}

/// The part of a list's child that its offsets cover.
pub proof fn lemma_covered(a: ArrayV)
    requires
        a.wf(),
        a.body is List,
    ensures
        ({
            let offsets = a.body->List_offsets;
            let child = *a.body->List_child;
            let part = covered(offsets, child);
            &&& part.wf()
            &&& part.ty == child.ty
            &&& part.len == offsets.last() - offsets[0]
            &&& forall|j: int|
                0 <= j < part.len ==> #[trigger] part.cell(j) == child.cell(offsets[0] + j)
        }),
{
    let offsets = a.body->List_offsets;
    let child = *a.body->List_child;
    assert(offsets[0] <= offsets[a.len as int]);
    lemma_sliced_wf(child, offsets[0] as int, offsets.last() - offsets[0]);
    let part = covered(offsets, child);
    assert forall|j: int| 0 <= j < part.len implies #[trigger] part.cell(j) == child.cell(offsets[0] + j) by {
        lemma_sliced_cell(child, offsets[0] as int, offsets.last() - offsets[0], j);
    }
}

/// What is kept holds the same cells.
#[verifier::rlimit(40)]
proof fn lemma_canon(t: TypeModel, a: ArrayV)
    requires
        a.wf(),
        a.ty == t,
    ensures
        canon(t, a).wf(),
        canon(t, a).ty == t,
        canon(t, a).len == a.len,
        forall|i: int| 0 <= i < a.len ==> #[trigger] canon(t, a).cell(i) == a.cell(i),
    decreases t, 0int,
{
    let c = canon(t, a);
    assert(c.width() == a.width());
    assert(c.list_size() == a.list_size());
    match a.body {
        BodyV::Var { offsets, values } => {
            lemma_rebased(offsets, a.len, values.len() as int, max_offset(t));
            let trimmed = values.subrange(offsets[0] as int, offsets.last() as int);
            assert forall|i: int| 0 <= i < a.len implies #[trigger] var_slot(rebased(offsets), trimmed, i)
                == var_slot(offsets, values, i) by {
                lemma_rebased_slot(offsets, values, a.len, max_offset(t), i);
            }
            assert forall|i: int| 0 <= i < a.len implies #[trigger] c.cell(i) == a.cell(i) by {
                lemma_kept_validity(a, c, i);
                assert(var_slot(rebased(offsets), trimmed, i) == var_slot(offsets, values, i));
            }
            if is_text(t) {
                assert(all_text(rebased(offsets), trimmed, a.len));
            }
        },
        BodyV::List { offsets, child } => {
            let f = t->List_0;
            lemma_rebased(offsets, a.len, child.len as int, max_offset(t));
            lemma_covered(a);
            let part = covered(offsets, *child);
            lemma_canon(f.data_type, part);
            assert forall|i: int| 0 <= i < a.len implies #[trigger] c.cell(i) == a.cell(i) by {
                lemma_kept_validity(a, c, i);
                if a.valid_at(i) {
                    assert(offsets[i] <= offsets[i + 1]);
                    assert(offsets[i + 1] <= offsets[a.len as int]);
                    assert(offsets[0] <= offsets[i]);
                    assert(rebased(offsets)[i] == offsets[i] - offsets[0]);
                    assert(rebased(offsets)[i + 1] == offsets[i + 1] - offsets[0]);
                    let got = c.cell(i)->Nested_0;
                    let want = a.cell(i)->Nested_0;
                    assert forall|j: int| 0 <= j < want.len() implies got[j] == want[j] by {
                        let at = offsets[i] - offsets[0] + j;
                        assert(canon(f.data_type, part).cell(at) == part.cell(at));
                        assert(part.cell(at) == child.cell(offsets[0] + at));
                    }
                    assert(got =~= want);
                }
            }
        },
        BodyV::FixedList(child) => {
            let f = t->FixedSizeList_0;
            lemma_canon(f.data_type, *child);
            let n = a.list_size() as int;
            assert forall|i: int| 0 <= i < a.len implies #[trigger] c.cell(i) == a.cell(i) by {
                lemma_kept_validity(a, c, i);
                if a.valid_at(i) {
                    crate::array::model::lemma_scaled(i, a.len as int, n);
                    let got = c.cell(i)->Nested_0;
                    let want = a.cell(i)->Nested_0;
                    assert forall|j: int| 0 <= j < n implies got[j] == want[j] by {
                        assert(canon(f.data_type, *child).cell(i * n + j) == child.cell(i * n + j));
                    }
                    assert(got =~= want);
                }
            }
        },
        BodyV::Struct(columns) => {
            let fs = t->Struct_0;
            lemma_canon_all(fs, columns, a.len);
            let kept = canon_all(fs, columns);
            assert(c.wf()) by {
                assert forall|k: int| #![trigger kept[k]] 0 <= k < kept.len() implies kept[k].len == c.len
                    && kept[k].ty == fs[k].data_type && kept[k].wf() by {}
            }
            assert forall|i: int| 0 <= i < a.len implies #[trigger] c.cell(i) == a.cell(i) by {
                lemma_kept_validity(a, c, i);
                if a.valid_at(i) {
                    let got = c.cell(i)->Nested_0;
                    let want = a.cell(i)->Nested_0;
                    assert forall|k: int| 0 <= k < columns.len() implies got[k] == want[k] by {
                        assert(kept[k].cell(i) == columns[k].cell(i));
                    }
                    assert(got =~= want);
                }
            }
        },
        _ => {
            assert forall|i: int| 0 <= i < a.len implies #[trigger] c.cell(i) == a.cell(i) by {
                lemma_kept_validity(a, c, i);
            }
        },
    }
}

pub proof fn lemma_canon_all(fs: Seq<FieldModel>, columns: Seq<ArrayV>, len: nat)
    requires
        fs.len() <= columns.len(),
        forall|k: int|
            #![trigger columns[k]]
            0 <= k < fs.len() ==> columns[k].len == len && columns[k].ty == fs[k].data_type
                && columns[k].wf(),
    ensures
        canon_all(fs, columns).len() == fs.len(),
        forall|k: int|
            #![trigger canon_all(fs, columns)[k]]
            0 <= k < fs.len() ==> {
                &&& canon_all(fs, columns)[k] == canon(fs[k].data_type, columns[k])
                &&& canon_all(fs, columns)[k].len == len
                &&& canon_all(fs, columns)[k].ty == fs[k].data_type
                &&& canon_all(fs, columns)[k].wf()
            },
        forall|k: int, i: int|
            0 <= k < fs.len() && 0 <= i < len ==> #[trigger] canon_all(fs, columns)[k].cell(i)
                == columns[k].cell(i),
    decreases fs, 1int,
{
    if fs.len() > 0 {
        lemma_canon_all(fs.drop_last(), columns, len);
        let k = fs.len() - 1;
        assert(columns[k].wf());
        lemma_canon(fs.last().data_type, columns[k]);
        let before = canon_all(fs.drop_last(), columns);
        assert forall|k: int, i: int| 0 <= k < fs.len() && 0 <= i < len implies #[trigger] canon_all(
            fs,
            columns,
        )[k].cell(i) == columns[k].cell(i) by {
            if k < fs.len() - 1 {
                assert(before[k].cell(i) == columns[k].cell(i));
            }
        }
        assert forall|k: int| #![trigger canon_all(fs, columns)[k]] 0 <= k < fs.len() implies {
            &&& canon_all(fs, columns)[k] == canon(fs[k].data_type, columns[k])
            &&& canon_all(fs, columns)[k].len == len
            &&& canon_all(fs, columns)[k].ty == fs[k].data_type
            &&& canon_all(fs, columns)[k].wf()
        } by {
            if k < fs.len() - 1 {
                assert(before[k] == canon(fs.drop_last()[k].data_type, columns[k]));
            }
        }
    }
}

/// The window that entry `j` of the buffers names holds `bytes`.
pub open spec fn holds(d: DecoderV, j: int, bytes: Seq<u8>) -> bool {
    let (offset, length) = d.buffers[j];
    &&& 0 <= offset
    &&& 0 <= length
    &&& offset + length <= d.body.len()
    &&& d.body.subrange(offset as int, offset + length) == bytes
}

/// What comes next are these nodes and these buffers.
#[verifier::opaque]
pub open spec fn carries(d: DecoderV, nodes: Seq<(nat, nat)>, buffers: Seq<Seq<u8>>) -> bool {
    &&& d.body.len() <= usize::MAX
    &&& d.node_index + nodes.len() <= d.nodes.len()
    &&& d.buffer_index + buffers.len() <= d.buffers.len()
    &&& forall|i: int|
        #![trigger nodes[i]]
        0 <= i < nodes.len() ==> d.nodes[d.node_index + i].0 == nodes[i].0 && d.nodes[d.node_index + i].1
            == nodes[i].1
    &&& forall|j: int|
        #![trigger buffers[j]]
        0 <= j < buffers.len() ==> holds(d, d.buffer_index + j, buffers[j])
}

/// The state once so many nodes and so many buffers are consumed.
pub open spec fn advanced(d: DecoderV, nodes: nat, buffers: nat) -> DecoderV {
    DecoderV { node_index: d.node_index + nodes, buffer_index: d.buffer_index + buffers, ..d }
}

proof fn lemma_carries_parts(
    d: DecoderV,
    n1: Seq<(nat, nat)>,
    n2: Seq<(nat, nat)>,
    b1: Seq<Seq<u8>>,
    b2: Seq<Seq<u8>>,
)
    requires
        carries(d, n1 + n2, b1 + b2),
    ensures
        carries(d, n1, b1),
        carries(advanced(d, n1.len(), b1.len()), n2, b2),
{
    reveal(carries);
    let e = advanced(d, n1.len(), b1.len());
    let ns = n1 + n2;
    let bs = b1 + b2;
    assert forall|i: int| #![trigger n1[i]] 0 <= i < n1.len() implies d.nodes[d.node_index + i].0
        == n1[i].0 && d.nodes[d.node_index + i].1 == n1[i].1 by {
        assert(ns[i] == n1[i]);
    }
    assert forall|i: int| #![trigger n2[i]] 0 <= i < n2.len() implies e.nodes[e.node_index + i].0
        == n2[i].0 && e.nodes[e.node_index + i].1 == n2[i].1 by {
        assert(ns[n1.len() + i] == n2[i]);
    }
    assert forall|j: int| #![trigger b1[j]] 0 <= j < b1.len() implies holds(
        d,
        d.buffer_index + j,
        b1[j],
    ) by {
        assert(bs[j] == b1[j]);
    }
    assert forall|j: int| #![trigger b2[j]] 0 <= j < b2.len() implies holds(
        e,
        e.buffer_index + j,
        b2[j],
    ) by {
        assert(bs[b1.len() + j] == b2[j]);
    }
}

/// The next node, where it is carried.
proof fn lemma_next_node(d: DecoderV, a: ArrayV)
    requires
        a.wf(),
        carries(d, seq![(a.len, a.nulls())], Seq::empty()),
    ensures
        d.next_node() == Ok::<(NodeV, DecoderV), IpcErrorModel>(
            (NodeV { rows: a.len, nulls: Some(a.nulls()) }, advanced(d, 1, 0)),
        ),
{
    reveal(carries);
    let nodes = seq![(a.len, a.nulls())];
    assert(nodes[0] == (a.len, a.nulls()));
    if let Some(v) = a.validity {
        lemma_unset(v);
    }
}

/// The next buffer, where it is carried.
proof fn lemma_next_buffer(d: DecoderV, bytes: Seq<u8>)
    requires
        carries(d, Seq::empty(), seq![bytes]),
    ensures
        d.next_buffer() == Ok::<(Seq<u8>, DecoderV), IpcErrorModel>((bytes, advanced(d, 0, 1))),
        bytes.len() <= usize::MAX,
{
    reveal(carries);
    let buffers = seq![bytes];
    assert(buffers[0] == bytes);
}

/// The next validity, where it is carried.
proof fn lemma_next_validity(d: DecoderV, a: ArrayV)
    requires
        a.wf(),
        !(a.ty is Null),
        carries(d, Seq::empty(), seq![wire_validity(a)]),
    ensures
        d.next_validity(a.ty, NodeV { rows: a.len, nulls: Some(a.nulls()) }) == Ok::<
            (Option<Seq<bool>>, DecoderV),
            IpcErrorModel,
        >((kept_validity(a), advanced(d, 0, 1))),
{
    lemma_next_buffer(d, wire_validity(a));
    if let Some(v) = a.validity {
        law_packed_bits_read_back(v);
        assert(packed(v).take(bytes_for_bits(v.len() as int)) =~= packed(v));
    }
}

/// Written offsets are entries of their width.
proof fn lemma_entries(offsets: Seq<i64>, count: nat, width: nat, max: int)
    requires
        width == 4 || width == 8,
        width == 4 ==> max <= i32::MAX,
        max <= i64::MAX,
        0 < offsets.len(),
        offsets_ok(offsets, (offsets.len() - 1) as nat, max, max),
        count <= offsets.len(),
    ensures
        rebased_bytes(offsets, count, width).len() == count * width,
        forall|i: int|
            0 <= i < count ==> #[trigger] entry_at(rebased_bytes(offsets, count, width), i, width)
                == rebased(offsets)[i],
    decreases count,
{
    if count > 0 {
        let last = count - 1;
        lemma_entries(offsets, last as nat, width, max);
        let before = rebased_bytes(offsets, last as nat, width);
        let all = rebased_bytes(offsets, count, width);
        lemma_rebased(offsets, (offsets.len() - 1) as nat, max, max);
        let value = rebased(offsets)[last];
        assert(value == offsets[last] - offsets[0]);
        assert(offsets[last] <= offsets[offsets.len() - 1]);
        assert(0 <= value <= max) by {
            assert(rebased(offsets)[0] <= rebased(offsets)[last]);
        }
        let entry = entry_bytes(value, width);
        assert(entry.len() == width);
        assert(all =~= before + entry);
        assert(count * width == last * width + width) by (nonlinear_arith)
            requires
                last == count - 1,
        ;
        assert forall|i: int| 0 <= i < count implies #[trigger] entry_at(all, i, width)
            == rebased(offsets)[i] by {
            if i < last {
                assert(entry_at(before, i, width) == rebased(offsets)[i]);
                assert(i * width + width <= last * width) by (nonlinear_arith)
                    requires
                        i + 1 <= last,
                        0 <= width,
                ;
                if width == 4 {
                    assert(all.subrange(i * 4, i * 4 + 4) =~= before.subrange(i * 4, i * 4 + 4));
                } else {
                    assert(all.subrange(i * 8, i * 8 + 8) =~= before.subrange(i * 8, i * 8 + 8));
                }
            } else {
                if width == 4 {
                    assert(all.subrange(i * 4, i * 4 + 4) =~= entry);
                    assert(of_back_4(value));
                } else {
                    assert(all.subrange(i * 8, i * 8 + 8) =~= entry);
                    assert(crate::le::of_i64(crate::le::le_i64(value)) == value);
                }
            }
        }
    }
}

/// A value that four bytes hold is read back.
spec fn of_back_4(value: i64) -> bool {
    crate::le::of_i32(crate::le::le_i32(value as i32)) == value as i32
}

/// The next offsets, where they are carried.
proof fn lemma_next_offsets(d: DecoderV, offsets: Seq<i64>, len: nat, limit: int, t: TypeModel)
    requires
        offsets_ok(offsets, len, limit, max_offset(t)),
        width_of(t) == 4 || width_of(t) == 8,
        carries(d, Seq::empty(), seq![wire_offsets(offsets, width_of(t))]),
    ensures
        d.next_offsets(width_of(t), len) == Ok::<(Seq<i64>, DecoderV), IpcErrorModel>(
            (rebased(offsets), advanced(d, 0, 1)),
        ),
{
    let width = width_of(t);
    let bytes = wire_offsets(offsets, width);
    lemma_next_buffer(d, bytes);
    assert(offsets_ok(offsets, len, max_offset(t), max_offset(t)));
    lemma_entries(offsets, offsets.len(), width, max_offset(t));
    assert(bytes.len() == (len + 1) * width);
    assert(len + 1 <= (len + 1) * width) by (nonlinear_arith)
        requires
            1 <= width,
    ;
    assert(bytes.take(bytes.len() as int) =~= bytes);
    assert(bytes.len() / width == len + 1) by (nonlinear_arith)
        requires
            bytes.len() == (len + 1) * width,
            0 < width,
    ;
    assert(entries_of(bytes, width) =~= rebased(offsets));
}

/// A flattened column is rebuilt, with nothing beside its cells.
#[verifier::rlimit(60)]
proof fn lemma_column_rebuilt(t: TypeModel, a: ArrayV, d: DecoderV, depth: int)
    requires
        a.wf(),
        a.ty == t,
        depth >= 1,
        depth + depth_of(t) <= MAX_NESTING_DEPTH + 1,
        carries(d, wire_nodes(t, a), wire_buffers(t, a)),
    ensures
        column_at(t, depth, d) == Ok::<(ArrayV, DecoderV), IpcErrorModel>(
            (canon(t, a), advanced(d, wire_nodes(t, a).len(), wire_buffers(t, a).len())),
        ),
    decreases t, 2int,
{
    let own = seq![(a.len, a.nulls())];
    let none = Seq::<Seq<u8>>::empty();
    let zero = Seq::<(nat, nat)>::empty();
    let nodes = wire_nodes(t, a);
    let buffers = wire_buffers(t, a);
    let more = nodes.skip(1);
    assert(nodes[0] == own[0]);
    assert(nodes =~= own + more);
    assert(buffers =~= none + buffers);
    lemma_carries_parts(d, own, more, none, buffers);
    lemma_next_node(d, a);
    let d1 = advanced(d, 1, 0);
    if t is Null {
        assert(nodes =~= own);
    } else {
        let v = wire_validity(a);
        let rest = buffers.skip(1);
        assert(buffers[0] == v);
        assert(buffers =~= seq![v] + rest);
        assert(more =~= zero + more);
        lemma_carries_parts(d1, zero, more, seq![v], rest);
        lemma_next_validity(d1, a);
        let d2 = advanced(d1, 0, 1);
        lemma_values_rebuilt(t, a, d2, depth, more, rest);
        assert(advanced(d2, more.len(), rest.len()) == advanced(d, nodes.len(), buffers.len()));
    }
}

/// What follows the node and the validity.
#[verifier::rlimit(60)]
proof fn lemma_values_rebuilt(
    t: TypeModel,
    a: ArrayV,
    d: DecoderV,
    depth: int,
    more: Seq<(nat, nat)>,
    rest: Seq<Seq<u8>>,
)
    requires
        a.wf(),
        a.ty == t,
        !(t is Null),
        depth >= 1,
        depth + depth_of(t) <= MAX_NESTING_DEPTH + 1,
        more == wire_nodes(t, a).skip(1),
        rest == wire_buffers(t, a).skip(1),
        carries(d, more, rest),
    ensures
        values_at(t, depth, a.len, kept_validity(a), d) == Ok::<(ArrayV, DecoderV), IpcErrorModel>(
            (canon(t, a), advanced(d, more.len(), rest.len())),
        ),
    decreases t, 1int,
{
    let none = Seq::<Seq<u8>>::empty();
    let zero = Seq::<(nat, nat)>::empty();
    lemma_canon(t, a);
    match a.body {
        BodyV::Bits(bits) => {
            assert(more =~= zero);
            assert(rest =~= seq![packed(bits)]);
            lemma_next_buffer(d, packed(bits));
            law_packed_bits_read_back(bits);
            assert(packed(bits).take(bytes_for_bits(bits.len() as int)) =~= packed(bits));
        },
        BodyV::Fixed(bytes) => {
            assert(more =~= zero);
            assert(rest =~= seq![bytes]);
            lemma_next_buffer(d, bytes);
            lemma_fixed_rebuilt(t, a, d, depth);
        },
        BodyV::Var { offsets, values } => {
            assert(more =~= zero);
            let trimmed = values.subrange(offsets[0] as int, offsets.last() as int);
            let w = wire_offsets(offsets, width_of(t));
            assert(rest =~= seq![w] + seq![trimmed]);
            assert(more =~= zero + zero);
            lemma_carries_parts(d, zero, zero, seq![w], seq![trimmed]);
            lemma_next_offsets(d, offsets, a.len, values.len() as int, t);
            let d1 = advanced(d, 0, 1);
            lemma_next_buffer(d1, trimmed);
            lemma_rebased(offsets, a.len, values.len() as int, max_offset(t));
            lemma_offsets_ok_no_error(rebased(offsets), a.len, trimmed.len() as int, max_offset(t));
            lemma_all_text(rebased(offsets), trimmed, a.len);
        },
        BodyV::List { offsets, child } => {
            let f = t->List_0;
            let w = wire_offsets(offsets, width_of(t));
            lemma_covered(a);
            let part = covered(offsets, *child);
            let ns = wire_nodes(f.data_type, part);
            let bs = wire_buffers(f.data_type, part);
            assert(more =~= zero + ns);
            assert(rest =~= seq![w] + bs);
            lemma_carries_parts(d, zero, ns, seq![w], bs);
            lemma_next_offsets(d, offsets, a.len, child.len as int, t);
            let d1 = advanced(d, 0, 1);
            assert(more =~= ns);
            lemma_column_rebuilt(f.data_type, part, d1, depth + 1);
            lemma_canon(f.data_type, part);
            lemma_rebased(offsets, a.len, child.len as int, max_offset(t));
            lemma_offsets_ok_no_error(rebased(offsets), a.len, part.len as int, max_offset(t));
            assert(advanced(d1, ns.len(), bs.len()) == advanced(d, more.len(), rest.len()));
        },
        BodyV::FixedList(child) => {
            let f = t->FixedSizeList_0;
            let n = t->FixedSizeList_1;
            assert(more =~= wire_nodes(f.data_type, *child));
            assert(rest =~= wire_buffers(f.data_type, *child));
            lemma_column_rebuilt(f.data_type, *child, d, depth + 1);
            lemma_canon(f.data_type, *child);
            assert(child.len as int / n as int == a.len && child.len as int % n as int == 0) by {
                vstd::arithmetic::div_mod::lemma_div_multiples_vanish(a.len as int, n as int);
                vstd::arithmetic::div_mod::lemma_mod_multiples_basic(a.len as int, n as int);
                assert(n * a.len == a.len * n) by (nonlinear_arith);
            }
        },
        BodyV::Struct(columns) => {
            let fs = t->Struct_0;
            assert(more =~= wire_nodes_all(fs, columns));
            assert(rest =~= wire_buffers_all(fs, columns));
            lemma_columns_rebuilt(fs, columns, a.len, d, depth + 1);
            lemma_canon_all(fs, columns, a.len);
            lemma_columns_fit(fs, canon_all(fs, columns), fs.len(), a.len);
        },
        BodyV::Null => {},
    }
}

/// Fixed-width values that come next are the column's.
proof fn lemma_fixed_rebuilt(t: TypeModel, a: ArrayV, d: DecoderV, depth: int)
    requires
        a.wf(),
        a.ty == t,
        a.body is Fixed,
        d.next_buffer() == Ok::<(Seq<u8>, DecoderV), IpcErrorModel>(
            (a.body->Fixed_0, advanced(d, 0, 1)),
        ),
    ensures
        values_at(t, depth, a.len, kept_validity(a), d) == Ok::<(ArrayV, DecoderV), IpcErrorModel>(
            (canon(t, a), advanced(d, 0, 1)),
        ),
{
    let bytes = a.body->Fixed_0;
    lemma_fixed_width(a);
    let w = a.width() as int;
    assert(bytes.take(bytes.len() as int) =~= bytes);
    assert(bytes.len() as int / w == a.len && bytes.len() as int % w == 0) by {
        vstd::arithmetic::div_mod::lemma_div_multiples_vanish(a.len as int, w);
        vstd::arithmetic::div_mod::lemma_mod_multiples_basic(a.len as int, w);
        assert(w * a.len == a.len * w) by (nonlinear_arith);
    }
    assert(d.next_sized(BufferRole::Values, bytes.len() as int, a.len) == Ok::<
        (Seq<u8>, DecoderV),
        IpcErrorModel,
    >((bytes, advanced(d, 0, 1))));
}

/// Flattened columns are rebuilt.
pub proof fn lemma_columns_rebuilt(fs: Seq<FieldModel>, columns: Seq<ArrayV>, rows: nat, d: DecoderV, depth: int)
    requires
        fs.len() <= columns.len(),
        depth >= 1,
        depth + depth_of_all(fs) <= MAX_NESTING_DEPTH + 1,
        forall|k: int|
            #![trigger columns[k]]
            0 <= k < fs.len() ==> columns[k].len == rows && columns[k].ty == fs[k].data_type
                && columns[k].wf(),
        carries(d, wire_nodes_all(fs, columns), wire_buffers_all(fs, columns)),
    ensures
        struct_columns_at(fs, rows, depth, d) == Ok::<(Seq<ArrayV>, DecoderV), IpcErrorModel>(
            (
                canon_all(fs, columns),
                advanced(d, wire_nodes_all(fs, columns).len(), wire_buffers_all(fs, columns).len()),
            ),
        ),
    decreases fs, 3int,
{
    if fs.len() > 0 {
        let k = fs.len() - 1;
        let front = fs.drop_last();
        let t = fs.last().data_type;
        let n1 = wire_nodes_all(front, columns);
        let b1 = wire_buffers_all(front, columns);
        let n2 = wire_nodes(t, columns[k]);
        let b2 = wire_buffers(t, columns[k]);
        assert(columns[k].wf());
        lemma_carries_parts(d, n1, n2, b1, b2);
        lemma_columns_rebuilt(front, columns, rows, d, depth);
        let d1 = advanced(d, n1.len(), b1.len());
        lemma_column_rebuilt(t, columns[k], d1, depth);
        lemma_canon(t, columns[k]);
        assert(advanced(d1, n2.len(), b2.len()) == advanced(
            d,
            wire_nodes_all(fs, columns).len(),
            wire_buffers_all(fs, columns).len(),
        ));
    } else {
        assert(advanced(d, 0, 0) == d);
    }
}

/// A column is as many nodes and buffers as its type says.
proof fn lemma_wire_counts(t: TypeModel, a: ArrayV)
    requires
        a.wf(),
        a.ty == t,
    ensures
        wire_nodes(t, a).len() == nodes_of(t),
        wire_buffers(t, a).len() == buffers_of(t),
    decreases t, 0int,
{
    match a.body {
        BodyV::List { offsets, child } => {
            lemma_covered(a);
            lemma_wire_counts(t->List_0.data_type, covered(offsets, *child));
        },
        BodyV::FixedList(child) => {
            lemma_wire_counts(t->FixedSizeList_0.data_type, *child);
        },
        BodyV::Struct(columns) => {
            lemma_wire_counts_all(t->Struct_0, columns);
        },
        _ => {},
    }
}

pub proof fn lemma_wire_counts_all(fs: Seq<FieldModel>, columns: Seq<ArrayV>)
    requires
        fs.len() <= columns.len(),
        forall|k: int|
            #![trigger columns[k]]
            0 <= k < fs.len() ==> columns[k].ty == fs[k].data_type && columns[k].wf(),
    ensures
        wire_nodes_all(fs, columns).len() == nodes_of_all(fs),
        wire_buffers_all(fs, columns).len() == buffers_of_all(fs),
    decreases fs, 1int,
{
    if fs.len() > 0 {
        let k = fs.len() - 1;
        assert(columns[k].wf());
        lemma_wire_counts_all(fs.drop_last(), columns);
        lemma_wire_counts(fs.last().data_type, columns[k]);
    }
}

} // verus!
