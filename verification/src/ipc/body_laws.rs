//! What the nodes, the buffers and the body of a batch say, read by the layout of
//! the format alone.
//!
//! Each column has a node, and each child of a column the next one: how many
//! slots, how many of them null. Its buffers are windows of the body, in order:
//! validity first, then offsets, then values, then those of its children.
use vstd::prelude::*;
use crate::array::cell_laws::{bit, is_nothing, law_bits_are_read_in_order, law_nulls_are_counted, slot_bytes};
use crate::array::model::{lemma_sliced_wf, ArrayV, BodyV};
use crate::datatype::{FieldModel, TypeModel};
use crate::ipc::decode::{
    column_at, columns_at, entry_at, first, struct_columns_at, values_at, DecoderV, NodeV,
};
use crate::ipc::error::IpcErrorModel;
use crate::ipc::format_laws::{word32, word64};
use crate::ipc::layout::bytes_for_bits;
use crate::ipc::wire::{wire_nodes, wire_nodes_all};

verus! {

/// How many nodes a type has, its children's among them.
pub open spec fn node_span(t: TypeModel) -> nat
    decreases t, 0int,
{
    match t {
        TypeModel::List(f) => 1 + node_span(f.data_type),
        TypeModel::FixedSizeList(f, _) => 1 + node_span(f.data_type),
        TypeModel::Struct(fs) => 1 + node_start(fs, fs.len()),
        _ => 1,
    }
}

/// How many nodes the first `k` fields have.
pub open spec fn node_start(fs: Seq<FieldModel>, k: nat) -> nat
    decreases fs, 1int, k,
{
    if k == 0 || k > fs.len() {
        0
    } else {
        node_start(fs, (k - 1) as nat) + node_span(fs[k - 1].data_type)
    }
}

/// How many buffers a type has, its children's among them.
pub open spec fn buffer_span(t: TypeModel) -> nat
    decreases t, 0int,
{
    match t {
        TypeModel::Null => 0,
        TypeModel::Binary | TypeModel::LargeBinary | TypeModel::Utf8 | TypeModel::LargeUtf8 => 3,
        TypeModel::List(f) => 2 + buffer_span(f.data_type),
        TypeModel::FixedSizeList(f, _) => 1 + buffer_span(f.data_type),
        TypeModel::Struct(fs) => 1 + buffer_start(fs, fs.len()),
        _ => 2,
    }
}

/// How many buffers the first `k` fields have.
pub open spec fn buffer_start(fs: Seq<FieldModel>, k: nat) -> nat
    decreases fs, 1int, k,
{
    if k == 0 || k > fs.len() {
        0
    } else {
        buffer_start(fs, (k - 1) as nat) + buffer_span(fs[k - 1].data_type)
    }
}

/// Whether the nulls of a column are those that its node and its validity buffer
/// say: none where the node counts none, none without a buffer where the node does
/// not count them, otherwise where the bit is not set.
pub open spec fn says_nulls(
    body: Seq<u8>,
    nodes: Seq<(i64, i64)>,
    buffers: Seq<(i64, i64)>,
    n: int,
    b: int,
    a: ArrayV,
) -> bool {
    let (start, size) = buffers[b];
    let counted = nodes[n].1;
    forall|i: int|
        #![trigger marked(a, i)]
        0 <= i < a.len ==> marked(a, i) == (counted != 0 && !(counted == -1 && size == 0) && !bit(
            body[start + i / 8],
            i % 8,
        ))
}

/// Whether slot `i` is marked null.
pub open spec fn marked(a: ArrayV, i: int) -> bool {
    a.validity matches Some(v) && !v[i]
}

/// Whether offsets are those that a buffer holds, in a width of bytes; an empty
/// buffer holds those of no slots.
pub open spec fn says_offsets(
    body: Seq<u8>,
    buffers: Seq<(i64, i64)>,
    b: int,
    width: int,
    offsets: Seq<i64>,
    len: nat,
) -> bool {
    let (start, size) = buffers[b];
    &&& offsets.len() == len + 1
    &&& if size == 0 && len == 0 {
        offsets[0] == 0
    } else {
        forall|i: int|
            #![trigger offsets[i]]
            0 <= i < offsets.len() ==> offsets[i] == (if width == 4 {
                (word32(body, start + 4 * i) as i32) as i64
            } else {
                word64(body, start + 8 * i) as i64
            })
    }
}

/// Whether lists of one size hold more slots together than can be counted.
pub open spec fn overlong(t: TypeModel, rows: int) -> bool {
    t matches TypeModel::FixedSizeList(_, size) && rows * size >= usize::MAX
}

/// Whether node `n`, buffer `b` and what follows them say a column.
#[verifier::opaque]
pub open spec fn says_column(
    body: Seq<u8>,
    nodes: Seq<(i64, i64)>,
    buffers: Seq<(i64, i64)>,
    n: int,
    b: int,
    t: TypeModel,
    a: ArrayV,
) -> bool
    decreases t,
{
    &&& a.ty == t
    &&& a.len == nodes[n].0 || overlong(t, nodes[n].0 as int)
    &&& t is Null ==> a.validity is None
    &&& !(t is Null) ==> says_nulls(body, nodes, buffers, n, b, a)
    &&& match t {
        TypeModel::Null => a.body is Null,
        TypeModel::Bool => a.body matches BodyV::Bits(bits) && bits.len() == a.len && forall|i: int|
            #![trigger bits[i]]
            0 <= i < bits.len() ==> bits[i] == bit(body[buffers[b + 1].0 + i / 8], i % 8),
        TypeModel::Binary | TypeModel::Utf8 => a.body matches BodyV::Var { offsets, values } && says_offsets(
            body,
            buffers,
            b + 1,
            4,
            offsets,
            a.len,
        ) && values == body.subrange(buffers[b + 2].0 as int, buffers[b + 2].0 + buffers[b + 2].1),
        TypeModel::LargeBinary | TypeModel::LargeUtf8 => a.body matches BodyV::Var { offsets, values } && says_offsets(
            body,
            buffers,
            b + 1,
            8,
            offsets,
            a.len,
        ) && values == body.subrange(buffers[b + 2].0 as int, buffers[b + 2].0 + buffers[b + 2].1),
        TypeModel::List(f) => a.body matches BodyV::List { offsets, child } && says_offsets(
            body,
            buffers,
            b + 1,
            4,
            offsets,
            a.len,
        ) && says_column(body, nodes, buffers, n + 1, b + 2, f.data_type, *child),
        TypeModel::FixedSizeList(f, size) => a.body matches BodyV::FixedList(child) && child.len == a.len * size
            && says_column(body, nodes, buffers, n + 1, b + 1, f.data_type, *child),
        TypeModel::Struct(fs) => a.body matches BodyV::Struct(columns) && columns.len() == fs.len() && forall|k: int|
            #![trigger fs[k]]
            0 <= k < fs.len() ==> columns[k].len == a.len && says_column(
                body,
                nodes,
                buffers,
                n + 1 + node_start(fs, k as nat),
                b + 1 + buffer_start(fs, k as nat),
                fs[k].data_type,
                columns[k],
            ),
        _ => a.body matches BodyV::Fixed(bytes) && bytes == body.subrange(
            buffers[b + 1].0 as int,
            buffers[b + 1].0 + a.len * slot_bytes(t),
        ),
    }
}

/// The first fields of all but the last are the first fields.
proof fn lemma_starts(fs: Seq<FieldModel>, k: nat)
    requires
        k < fs.len(),
    ensures
        node_start(fs.drop_last(), k) == node_start(fs, k),
        buffer_start(fs.drop_last(), k) == buffer_start(fs, k),
    decreases k,
{
    if k > 0 {
        lemma_starts(fs, (k - 1) as nat);
    }
}

/// The state `n` nodes and `b` buffers on.
spec fn moved(d: DecoderV, n: nat, b: nat) -> DecoderV {
    DecoderV { node_index: d.node_index + n, buffer_index: d.buffer_index + b, ..d }
}

/// A validity that is read is the one that stands there.
proof fn lemma_nulls(t: TypeModel, node: NodeV, d: DecoderV, n: int, a: ArrayV)
    requires
        !(t is Null),
        d.next_validity(t, node) is Ok,
        0 <= n < d.nodes.len(),
        node.rows == d.nodes[n].0,
        node.nulls == (if d.nodes[n].1 == -1 {
            None::<nat>
        } else {
            Some(d.nodes[n].1 as nat)
        }),
        -1 <= d.nodes[n].1,
        a.validity is Some ==> a.len == node.rows,
        a.validity == d.next_validity(t, node)->Ok_0.0,
    ensures
        d.next_validity(t, node)->Ok_0.1 == moved(d, 0, 1),
        d.buffer_index < d.buffers.len(),
        says_nulls(d.body, d.nodes, d.buffers, n, d.buffer_index as int, a),
{
    let (start, size) = d.buffers[d.buffer_index as int];
    let bytes = d.body.subrange(start as int, start + size);
    if let Some(v) = a.validity {
        let required = bytes_for_bits(node.rows as int);
        assert forall|i: int| #![trigger marked(a, i)] 0 <= i < a.len implies marked(a, i) == !bit(
            d.body[start + i / 8],
            i % 8,
        ) by {
            law_bits_are_read_in_order(bytes.take(required), 0, node.rows as int, i);
            assert(bytes.take(required)[i / 8] == d.body[start + i / 8]);
        }
    }
}

/// Offsets that are read are those that stand there.
proof fn lemma_offsets(width: nat, rows: nat, d: DecoderV)
    requires
        width == 4 || width == 8,
        d.body.len() < usize::MAX,
        d.next_offsets(width, rows) is Ok,
    ensures
        d.next_offsets(width, rows)->Ok_0.1 == moved(d, 0, 1),
        says_offsets(
            d.body,
            d.buffers,
            d.buffer_index as int,
            width as int,
            d.next_offsets(width, rows)->Ok_0.0,
            rows,
        ),
{
    let (start, size) = d.buffers[d.buffer_index as int];
    let bytes = d.body.subrange(start as int, start + size);
    let offsets = d.next_offsets(width, rows)->Ok_0.0;
    if !(size == 0 && rows == 0) {
        let required = crate::capped(crate::capped((rows + 1) as int) * width);
        assert(bytes.len() < usize::MAX);
        assert(required < usize::MAX);
        let count = crate::capped((rows + 1) as int);
        assert(count * width >= count) by (nonlinear_arith)
            requires
                count >= 0,
                width >= 1,
        ;
        assert(rows + 1 < usize::MAX);
        assert(required == (rows + 1) * width);
        let taken = bytes.take(required);
        assert(taken.len() / width == rows + 1) by (nonlinear_arith)
            requires
                taken.len() == (rows + 1) * width,
                width > 0,
        ;
        assert forall|i: int| #![trigger offsets[i]] 0 <= i < offsets.len() implies offsets[i] == (if width == 4 {
            (word32(d.body, start + 4 * i) as i32) as i64
        } else {
            word64(d.body, start + 8 * i) as i64
        }) by {
            if width == 4 {
                assert(taken.subrange(i * 4, i * 4 + 4) =~= d.body.subrange(start + 4 * i, start + 4 * i + 4));
            } else {
                assert(taken.subrange(i * 8, i * 8 + 8) =~= d.body.subrange(start + 8 * i, start + 8 * i + 8));
            }
            assert(offsets[i] == entry_at(taken, i, width));
        }
    }
}

/// A column that is read is the one that its nodes and buffers say.
proof fn lemma_column(t: TypeModel, depth: int, d: DecoderV)
    requires
        d.body.len() < usize::MAX,
        column_at(t, depth, d) is Ok,
    ensures
        ({
            let (a, after) = column_at(t, depth, d)->Ok_0;
            &&& after == moved(d, node_span(t), buffer_span(t))
            &&& says_column(d.body, d.nodes, d.buffers, d.node_index as int, d.buffer_index as int, t, a)
        }),
    decreases t, 2int,
{
    reveal(says_column);
    let n = d.node_index as int;
    let b = d.buffer_index as int;
    let (node, d1) = d.next_node()->Ok_0;
    let (validity, d2) = d1.next_validity(t, node)->Ok_0;
    let (a, after) = column_at(t, depth, d)->Ok_0;
    lemma_values(t, depth, node.rows, validity, d2);
    assert(a.validity == validity && a.ty == t);
    if !(t is Null) {
        lemma_nulls(t, node, d1, n, a);
        assert(says_nulls(d.body, d.nodes, d.buffers, n, b, a));
    }
}

/// Whether the buffers from `b` on and the nodes from `n` on say the values of a
/// column.
spec fn says_values(d: DecoderV, n: int, b: int, t: TypeModel, a: ArrayV) -> bool {
    let body = d.body;
    let nodes = d.nodes;
    let buffers = d.buffers;
    match t {
        TypeModel::Null => a.body is Null,
        TypeModel::Bool => a.body matches BodyV::Bits(bits) && bits.len() == a.len && forall|i: int|
            #![trigger bits[i]]
            0 <= i < bits.len() ==> bits[i] == bit(body[buffers[b].0 + i / 8], i % 8),
        TypeModel::Binary | TypeModel::Utf8 => a.body matches BodyV::Var { offsets, values } && says_offsets(
            body,
            buffers,
            b,
            4,
            offsets,
            a.len,
        ) && values == body.subrange(buffers[b + 1].0 as int, buffers[b + 1].0 + buffers[b + 1].1),
        TypeModel::LargeBinary | TypeModel::LargeUtf8 => a.body matches BodyV::Var { offsets, values } && says_offsets(
            body,
            buffers,
            b,
            8,
            offsets,
            a.len,
        ) && values == body.subrange(buffers[b + 1].0 as int, buffers[b + 1].0 + buffers[b + 1].1),
        TypeModel::List(f) => a.body matches BodyV::List { offsets, child } && says_offsets(
            body,
            buffers,
            b,
            4,
            offsets,
            a.len,
        ) && says_column(body, nodes, buffers, n, b + 1, f.data_type, *child),
        TypeModel::FixedSizeList(f, size) => a.body matches BodyV::FixedList(child) && child.len == a.len * size
            && says_column(body, nodes, buffers, n, b, f.data_type, *child),
        TypeModel::Struct(fs) => a.body matches BodyV::Struct(columns) && columns.len() == fs.len() && forall|k: int|
            #![trigger fs[k]]
            0 <= k < fs.len() ==> columns[k].len == a.len && says_column(
                body,
                nodes,
                buffers,
                n + node_start(fs, k as nat),
                b + buffer_start(fs, k as nat),
                fs[k].data_type,
                columns[k],
            ),
        _ => a.body matches BodyV::Fixed(bytes) && bytes == body.subrange(
            buffers[b].0 as int,
            buffers[b].0 + a.len * slot_bytes(t),
        ),
    }
}

/// Bits that are read are those that the buffer says.
proof fn lemma_bool_values(depth: int, rows: nat, validity: Option<Seq<bool>>, d: DecoderV)
    requires
        values_at(TypeModel::Bool, depth, rows, validity, d) is Ok,
    ensures
        ({
            let (a, after) = values_at(TypeModel::Bool, depth, rows, validity, d)->Ok_0;
            &&& after == moved(d, 0, 1)
            &&& a.ty == TypeModel::Bool && a.len == rows && a.validity == validity
            &&& says_values(d, d.node_index as int, d.buffer_index as int, TypeModel::Bool, a)
        }),
{
    let (a, after) = values_at(TypeModel::Bool, depth, rows, validity, d)->Ok_0;
    let (start, size) = d.buffers[d.buffer_index as int];
    let required = bytes_for_bits(rows as int);
    let window = d.body.subrange(start as int, start + size);
    let bits = a.body->Bits_0;
    assert forall|i: int| #![trigger bits[i]] 0 <= i < bits.len() implies bits[i] == bit(
        d.body[start + i / 8],
        i % 8,
    ) by {
        law_bits_are_read_in_order(window.take(required), 0, rows as int, i);
        assert(window.take(required)[i / 8] == d.body[start + i / 8]);
    }
}

/// Values of one width that are read are those that the buffer says.
proof fn lemma_fixed_values(t: TypeModel, depth: int, rows: nat, validity: Option<Seq<bool>>, d: DecoderV)
    requires
        d.body.len() < usize::MAX,
        slot_bytes(t) > 0 || t is FixedSizeBinary,
        values_at(t, depth, rows, validity, d) is Ok,
    ensures
        ({
            let (a, after) = values_at(t, depth, rows, validity, d)->Ok_0;
            &&& after == moved(d, 0, 1)
            &&& a.ty == t && a.len == rows && a.validity == validity
            &&& says_values(d, d.node_index as int, d.buffer_index as int, t, a)
        }),
{
    let (start, size) = d.buffers[d.buffer_index as int];
    let w = slot_bytes(t);
    let window = d.body.subrange(start as int, start + size);
    assert(window.len() < usize::MAX);
    assert(w > 0);
    let required = crate::capped((rows * w) as int);
    assert(required == rows * w);
    let bytes = window.take(required);
    assert(bytes =~= d.body.subrange(start as int, start + rows * w));
    assert(bytes.len() as int / w == rows && bytes.len() as int % w == 0) by (nonlinear_arith)
        requires
            bytes.len() == rows * w,
            w > 0,
    ;
}

/// Values that are read are those that the buffers say.
#[verifier::rlimit(40)]
#[verifier::spinoff_prover]
proof fn lemma_values(t: TypeModel, depth: int, rows: nat, validity: Option<Seq<bool>>, d: DecoderV)
    requires
        d.body.len() < usize::MAX,
        rows <= usize::MAX,
        t is Null ==> validity is None,
        validity matches Some(v) ==> v.len() == rows,
        values_at(t, depth, rows, validity, d) is Ok,
    ensures
        ({
            let (a, after) = values_at(t, depth, rows, validity, d)->Ok_0;
            &&& after == moved(
                d,
                (node_span(t) - 1) as nat,
                if t is Null {
                    0
                } else {
                    (buffer_span(t) - 1) as nat
                },
            )
            &&& a.ty == t
            &&& a.len == rows || overlong(t, rows as int)
            &&& a.validity is Some ==> a.len == rows
            &&& a.validity == validity
            &&& says_values(d, d.node_index as int, d.buffer_index as int, t, a)
        }),
    decreases t, 1int,
{
    let (a, after) = values_at(t, depth, rows, validity, d)->Ok_0;
    let b = d.buffer_index as int;
    let (start, size) = d.buffers[b];
    match t {
        TypeModel::Null => {},
        TypeModel::Bool => {
            lemma_bool_values(depth, rows, validity, d);
        },
        TypeModel::Binary | TypeModel::Utf8 => {
            lemma_offsets(4, rows, d);
        },
        TypeModel::LargeBinary | TypeModel::LargeUtf8 => {
            lemma_offsets(8, rows, d);
        },
        TypeModel::List(f) => {
            lemma_offsets(4, rows, d);
            lemma_column(f.data_type, depth + 1, moved(d, 0, 1));
        },
        TypeModel::FixedSizeList(f, k) => {
            lemma_column(f.data_type, depth + 1, d);
            let child = column_at(f.data_type, depth + 1, d)->Ok_0.0;
            assert(k > 0);
            lemma_child_len(child.len, rows, k as nat);
        },
        TypeModel::Struct(fs) => {
            lemma_struct(fs, rows, depth + 1, d);
        },
        _ => {
            lemma_fixed_values(t, depth, rows, validity, d);
        },
    }
}

/// A child of as many slots as its parent's lists hold together has room for as
/// many lists, where they can be counted.
proof fn lemma_child_len(len: nat, rows: nat, size: nat)
    requires
        size > 0,
        len == crate::capped((rows * size) as int),
        len as int % size as int == 0,
    ensures
        rows * size < usize::MAX ==> len as int / size as int == rows,
        len == (len as int / size as int) * size,
{
    if rows * size < usize::MAX {
        assert(len as int / size as int == rows) by (nonlinear_arith)
            requires
                len == rows * size,
                size > 0,
        ;
    }
    assert(len as int == size as int * (len as int / size as int)) by (nonlinear_arith)
        requires
            len as int % size as int == 0,
            size > 0,
    ;
    assert(size as int * (len as int / size as int) == (len as int / size as int) * size) by (nonlinear_arith);
}

/// Columns that are read one after the other are those that the nodes and the
/// buffers say.
#[verifier::rlimit(60)]
#[verifier::spinoff_prover]
proof fn lemma_struct(fs: Seq<FieldModel>, rows: nat, depth: int, d: DecoderV)
    requires
        d.body.len() < usize::MAX,
        struct_columns_at(fs, rows, depth, d) is Ok,
    ensures
        ({
            let (columns, after) = struct_columns_at(fs, rows, depth, d)->Ok_0;
            &&& after == moved(d, node_start(fs, fs.len()), buffer_start(fs, fs.len()))
            &&& columns.len() == fs.len()
            &&& forall|k: int|
                #![trigger fs[k]]
                0 <= k < fs.len() ==> columns[k].len == rows && says_column(
                    d.body,
                    d.nodes,
                    d.buffers,
                    (d.node_index + node_start(fs, k as nat)) as int,
                    (d.buffer_index + buffer_start(fs, k as nat)) as int,
                    fs[k].data_type,
                    columns[k],
                )
        }),
    decreases fs, 3int,
{
    if fs.len() > 0 {
        let rest = fs.drop_last();
        let last = (fs.len() - 1) as nat;
        lemma_struct(rest, rows, depth, d);
        let (before, d1) = struct_columns_at(rest, rows, depth, d)->Ok_0;
        lemma_starts(fs, last);
        assert(fs[last as int] == fs.last());
        lemma_column(fs.last().data_type, depth, d1);
        let (columns, after) = struct_columns_at(fs, rows, depth, d)->Ok_0;
        let (column, _) = column_at(fs.last().data_type, depth, d1)->Ok_0;
        assert(columns == before.push(column));
        assert forall|k: int| #![trigger fs[k]] 0 <= k < fs.len() implies columns[k].len == rows && says_column(
            d.body,
            d.nodes,
            d.buffers,
            (d.node_index + node_start(fs, k as nat)) as int,
            (d.buffer_index + buffer_start(fs, k as nat)) as int,
            fs[k].data_type,
            columns[k],
        ) by {
            if k < last {
                lemma_starts(fs, k as nat);
                assert(rest[k] == fs[k]);
                assert(columns[k] == before[k]);
            }
        }
    }
}

/// Columns that are read out of nodes, buffers and a body are those that they say,
/// none of the nodes or buffers left over.
pub proof fn law_columns_are_read_by_the_format(
    fs: Seq<FieldModel>,
    rows: nat,
    body: Seq<u8>,
    nodes: Seq<(i64, i64)>,
    buffers: Seq<(i64, i64)>,
    columns: Seq<ArrayV>,
)
    requires
        body.len() < usize::MAX,
        columns_at(fs, rows, first(body, nodes, buffers)) == Ok::<Seq<ArrayV>, IpcErrorModel>(columns),
    ensures
        nodes.len() == node_start(fs, fs.len()),
        buffers.len() == buffer_start(fs, fs.len()),
        columns.len() == fs.len(),
        forall|k: int|
            #![trigger fs[k]]
            0 <= k < fs.len() ==> columns[k].len == rows && says_column(
                body,
                nodes,
                buffers,
                node_start(fs, k as nat) as int,
                buffer_start(fs, k as nat) as int,
                fs[k].data_type,
                columns[k],
            ),
{
    lemma_struct(fs, rows, 1, first(body, nodes, buffers));
}

/// Whether the nodes from `n` on are those of a column: its slots and how many of
/// them hold nothing, then those of its children, of lists only as far as the lists
/// reach.
#[verifier::opaque]
pub open spec fn counts_slots(nodes: Seq<(nat, nat)>, n: int, t: TypeModel, a: ArrayV) -> bool
    decreases t,
{
    &&& 0 <= n < nodes.len()
    &&& nodes[n].0 == a.len
    &&& nodes[n].1 == Seq::new(a.len, |i: int| is_nothing(a, i)).filter(|b: bool| b).len()
    &&& match (t, a.body) {
        (TypeModel::List(f), BodyV::List { offsets, child }) => counts_slots(
            nodes,
            n + 1,
            f.data_type,
            child.sliced(offsets[0] as int, offsets.last() - offsets[0]),
        ),
        (TypeModel::FixedSizeList(f, _), BodyV::FixedList(child)) => counts_slots(nodes, n + 1, f.data_type, *child),
        (TypeModel::Struct(fs), BodyV::Struct(columns)) => forall|k: int|
            #![trigger fs[k]]
            0 <= k < fs.len() ==> counts_slots(nodes, n + 1 + node_start(fs, k as nat), fs[k].data_type, columns[k]),
        _ => true,
    }
}

/// The nodes of a column that are written among others count its slots.
proof fn lemma_counts(before: Seq<(nat, nat)>, t: TypeModel, a: ArrayV, after: Seq<(nat, nat)>)
    requires
        a.wf(),
        a.ty == t,
    ensures
        wire_nodes(t, a).len() == node_span(t),
        counts_slots(before + wire_nodes(t, a) + after, before.len() as int, t, a),
    decreases t, 0int,
{
    reveal(counts_slots);
    let all = before + wire_nodes(t, a) + after;
    let n = before.len() as int;
    let own = seq![(a.len, a.nulls())];
    law_nulls_are_counted(a);
    match (t, a.body) {
        (TypeModel::List(f), BodyV::List { offsets, child }) => {
            let part = child.sliced(offsets[0] as int, offsets.last() - offsets[0]);
            lemma_sliced_wf(*child, offsets[0] as int, offsets.last() - offsets[0]);
            lemma_counts(before + own, f.data_type, part, after);
            assert(all =~= (before + own) + wire_nodes(f.data_type, part) + after);
            assert(all[n] == own[0]);
        },
        (TypeModel::FixedSizeList(f, _), BodyV::FixedList(child)) => {
            lemma_counts(before + own, f.data_type, *child, after);
            assert(all =~= (before + own) + wire_nodes(f.data_type, *child) + after);
            assert(all[n] == own[0]);
        },
        (TypeModel::Struct(fs), BodyV::Struct(columns)) => {
            lemma_counts_all(before + own, fs, columns, after);
            assert(all =~= (before + own) + wire_nodes_all(fs, columns) + after);
            assert(all[n] == own[0]);
        },
        _ => {
            assert(wire_nodes(t, a) == own);
            assert(all[n] == own[0]);
        },
    }
}

/// The nodes of columns that are written one after the other count their slots.
proof fn lemma_counts_all(
    before: Seq<(nat, nat)>,
    fs: Seq<FieldModel>,
    columns: Seq<ArrayV>,
    after: Seq<(nat, nat)>,
)
    requires
        fs.len() <= columns.len(),
        forall|k: int|
            #![trigger fs[k]]
            0 <= k < fs.len() ==> columns[k].wf() && columns[k].ty == fs[k].data_type,
    ensures
        wire_nodes_all(fs, columns).len() == node_start(fs, fs.len()),
        forall|k: int|
            #![trigger fs[k]]
            0 <= k < fs.len() ==> counts_slots(
                before + wire_nodes_all(fs, columns) + after,
                (before.len() + node_start(fs, k as nat)) as int,
                fs[k].data_type,
                columns[k],
            ),
    decreases fs, 1int,
{
    if fs.len() > 0 {
        let rest = fs.drop_last();
        let last = (fs.len() - 1) as nat;
        let head = wire_nodes_all(rest, columns);
        let tail = wire_nodes(fs.last().data_type, columns[last as int]);
        let all = before + wire_nodes_all(fs, columns) + after;
        assert(fs[last as int] == fs.last());
        assert forall|k: int| #![trigger rest[k]] 0 <= k < rest.len() implies columns[k].wf() && columns[k].ty
            == rest[k].data_type by {
            assert(rest[k] == fs[k]);
        }
        lemma_counts_all(before, rest, columns, tail + after);
        lemma_counts(before + head, fs.last().data_type, columns[last as int], after);
        lemma_starts(fs, last);
        assert(all =~= before + head + (tail + after));
        assert(all =~= (before + head) + tail + after);
        assert forall|k: int| #![trigger fs[k]] 0 <= k < fs.len() implies counts_slots(
            all,
            (before.len() + node_start(fs, k as nat)) as int,
            fs[k].data_type,
            columns[k],
        ) by {
            if k < last {
                lemma_starts(fs, k as nat);
                assert(rest[k] == fs[k]);
            }
        }
    }
}

/// The node that is written for a column counts its slots and those of them that
/// hold nothing, and so do the nodes of its children.
pub proof fn law_nodes_count_slots_and_nulls(t: TypeModel, a: ArrayV)
    requires
        a.wf(),
        a.ty == t,
    ensures
        wire_nodes(t, a).len() == node_span(t),
        counts_slots(wire_nodes(t, a), 0, t, a),
{
    let none = Seq::<(nat, nat)>::empty();
    lemma_counts(none, t, a, none);
    assert(none + wire_nodes(t, a) + none =~= wire_nodes(t, a));
}

} // verus!
