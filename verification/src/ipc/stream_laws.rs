//! What was written into a stream is read back.
use vstd::prelude::*;
use crate::array::model::{same_array, ArrayV};
use crate::datatype::{FieldModel, SchemaModel};
use crate::ipc::column_laws::{canon_all, carries, holds, lemma_canon_all, lemma_columns_rebuilt, lemma_wire_counts_all};
use crate::ipc::decode::{columns_at, decoded, first};
use crate::ipc::encode::plan_fits;
use crate::ipc::error::IpcErrorModel;
use crate::ipc::fb::builder::FbModel;
use crate::ipc::fb::content::{
    addressable, holds_pairs, lemma_create_struct_pair_vector, lemma_end_table, lemma_extends_refl,
    lemma_extends_trans, lemma_i64_at, lemma_lookup_push, lemma_placed, lemma_sits, lemma_slot_i64, lemma_slot_offset,
    lemma_start_table, lookup, sits, Site,
};
use crate::ipc::fb::reader::{deref_at, span_at, table_at, SpanModel, TableModel};
use crate::ipc::format::{message_header, record_batch};
use crate::ipc::layout::{depth_of_all, MAX_NESTING_DEPTH};
use crate::ipc::message::{
    body_length_of, end_of_stream, envelope, envelope_len, info_of, schema_message, used_alignment, write_header,
    MessageLimits, PREFIX_LEN,
};
use crate::ipc::message_laws::{
    law_end_marker_ends_the_stream, law_schema_message_round_trips, lemma_message_block, lemma_message_found, lemma_near_message,
};
use crate::ipc::payload::{
    one_batch_stream, payload_bytes, payload_limits, payload_of, PAYLOAD_ALIGNMENT,
};
use crate::ipc::reader::{
    batch_at, batch_of, opening, pairs_at, pairs_of, rest_at, whole_stream, RestV,
};
use crate::ipc::schema::closed_table;
use crate::ipc::schema_laws::{encodable, grown, lemma_slot_read};
use crate::ipc::wire::{
    body_bytes, body_fits, body_offset, body_total, column_buffers, column_depth, column_nodes, lemma_body_buffer,
    lemma_body_len, nodes_fit, wire_buffers_all, wire_nodes, wire_nodes_all,
};
use crate::ipc::writer::{
    batch_message, buffer_pairs, can_open, can_write, frame, frames, lemma_envelope_aligned, lemma_frames_aligned,
    node_pairs, row_count, stream_bytes, write_batch,
};
use crate::le::{le_i64, pad_to, zeros};
use crate::record_batch::{column_refusal, lemma_not_refused, make_batch, same_batch, BatchV};

verus! {

broadcast use {crate::le::group_le, lemma_lookup_push};

/// A record batch table at distance `d` is read with these fields.
pub open spec fn reads_batch(b: Site, d: int, rows: i64, nodes: Seq<(i64, i64)>, buffers: Seq<(i64, i64)>) -> bool {
    match table_at(b.buf, b.end - d) {
        Ok(t) => {
            &&& t.table_field(record_batch::COMPRESSION as int) == Ok::<Option<TableModel>, IpcErrorModel>(
                None,
            )
            &&& t.i64_field(record_batch::LENGTH as int, 0) == Ok::<i64, IpcErrorModel>(rows)
            &&& pairs_at(t, record_batch::NODES as int) == Ok::<Seq<(i64, i64)>, IpcErrorModel>(nodes)
            &&& pairs_at(t, record_batch::BUFFERS as int) == Ok::<Seq<(i64, i64)>, IpcErrorModel>(buffers)
            &&& nodes.len() <= usize::MAX
            &&& buffers.len() <= usize::MAX
        },
        Err(_) => false,
    }
}

/// Pairs that are read one by one are read together.
proof fn lemma_pairs_of(span: SpanModel, items: Seq<(i64, i64)>, count: nat)
    requires
        count <= items.len(),
        forall|i: int|
            0 <= i < items.len() ==> #[trigger] span.pair_item(i) == Ok::<(i64, i64), IpcErrorModel>(items[i]),
    ensures
        pairs_of(span, count) == Ok::<Seq<(i64, i64)>, IpcErrorModel>(items.take(count as int)),
    decreases count,
{
    if count > 0 {
        lemma_pairs_of(span, items, (count - 1) as nat);
        assert(span.pair_item(count - 1) == Ok::<(i64, i64), IpcErrorModel>(items[count - 1]));
        assert(items.take(count as int) =~= items.take(count - 1).push(items[count - 1]));
    } else {
        assert(items.take(0) =~= Seq::<(i64, i64)>::empty());
    }
}

/// A vector of pairs that a slot refers to is read.
proof fn lemma_pairs_at(t: TableModel, slot: int, c: FbModel, b: Site, at: int, d: int, items: Seq<(i64, i64)>)
    requires
        holds_pairs(c, d, items),
        sits(c, b),
        addressable(b),
        t.buf == b.buf,
        t.field_at(slot) == Ok::<Option<int>, IpcErrorModel>(Some(at)),
        deref_at(b.buf, at, "vector offset"@) == Ok::<int, IpcErrorModel>(b.end - d),
    ensures
        pairs_at(t, slot) == Ok::<Seq<(i64, i64)>, IpcErrorModel>(items),
        items.len() <= usize::MAX,
{
    let span = SpanModel { buf: b.buf, start: b.end - d + 4, len: items.len() as int, stride: 16 };
    assert(span_at(b.buf, b.end - d, 16) == Ok::<SpanModel, IpcErrorModel>(span));
    lemma_pairs_of(span, items, items.len());
    assert(items.take(items.len() as int) =~= items);
}

/// A record batch table is read back.
#[verifier::rlimit(60)]
proof fn lemma_write_batch(m: FbModel, rows: i64, nodes: Seq<(i64, i64)>, buffers: Seq<(i64, i64)>)
    requires
        m.wf(),
        !m.open,
    ensures
        ({
            let (done, d) = write_batch(m, rows, nodes, buffers);
            &&& grown(m, done, d)
            &&& forall|b: Site| #[trigger]
                sits(done, b) && addressable(b) ==> reads_batch(b, d as int, rows, nodes, buffers)
        }),
{
    reveal(closed_table);
    lemma_create_struct_pair_vector(m, nodes);
    let m1 = m.create_struct_pair_vector(nodes);
    lemma_create_struct_pair_vector(m1, buffers);
    let m2 = m1.create_struct_pair_vector(buffers);
    let start = m2.bytes.len();
    lemma_start_table(m2);
    let o0 = m2.start_table();
    let o1 = o0.slot_i64(record_batch::LENGTH as nat, rows, 0);
    if rows != 0 {
        lemma_slot_i64(o0, start as int, record_batch::LENGTH as nat, rows);
    } else {
        lemma_extends_refl(o0);
    }
    lemma_slot_offset(o1, start as int, record_batch::NODES as nat, m1.bytes.len());
    let o2 = o1.slot_offset(record_batch::NODES as nat, m1.bytes.len());
    lemma_slot_offset(o2, start as int, record_batch::BUFFERS as nat, m2.bytes.len());
    let o3 = o2.slot_offset(record_batch::BUFFERS as nat, m2.bytes.len());
    lemma_end_table(o3, start);
    let (done, d) = write_batch(m, rows, nodes, buffers);
    assert(done == o3.end_table(start));
    lemma_extends_trans(o2, o3, done);
    lemma_extends_trans(o1, o2, done);
    lemma_extends_trans(m2, o1, done);
    lemma_extends_trans(m1, m2, done);
    lemma_extends_trans(m, m1, done);
    assert(lookup(o0.locs, record_batch::LENGTH as int) is None);
    assert(lookup(o0.locs, record_batch::NODES as int) is None);
    assert(lookup(o0.locs, record_batch::BUFFERS as int) is None);
    assert(lookup(o0.locs, record_batch::COMPRESSION as int) is None);
    let locs = o3.locs;
    assert forall|b: Site| #[trigger] sits(done, b) && addressable(b) implies reads_batch(
        b,
        d as int,
        rows,
        nodes,
        buffers,
    ) by {
        lemma_slot_read(b, d as int, locs, record_batch::COMPRESSION as int);
        lemma_slot_read(b, d as int, locs, record_batch::LENGTH as int);
        lemma_slot_read(b, d as int, locs, record_batch::NODES as int);
        lemma_slot_read(b, d as int, locs, record_batch::BUFFERS as int);
        lemma_sits(o3, done, b);
        lemma_sits(o2, done, b);
        lemma_sits(o1, done, b);
        lemma_sits(m2, done, b);
        lemma_sits(m1, done, b);
        if rows != 0 {
            lemma_placed(o1, b, o1.bytes.len() as int, le_i64(rows));
            lemma_i64_at(b, o1.bytes.len() as int, rows, "i64 field"@);
        }
        let t = table_at(b.buf, b.end - d)->Ok_0;
        assert(deref_at(b.buf, b.end - o2.bytes.len(), "vector offset"@) == Ok::<int, IpcErrorModel>(
            b.end - m1.bytes.len(),
        ));
        assert(deref_at(b.buf, b.end - o3.bytes.len(), "vector offset"@) == Ok::<int, IpcErrorModel>(
            b.end - m2.bytes.len(),
        ));
        lemma_pairs_at(
            t,
            record_batch::NODES as int,
            m1,
            b,
            b.end - o2.bytes.len(),
            m1.bytes.len() as int,
            nodes,
        );
        lemma_pairs_at(
            t,
            record_batch::BUFFERS as int,
            m2,
            b,
            b.end - o3.bytes.len(),
            m2.bytes.len() as int,
            buffers,
        );
    }
}

/// Every column has exactly its field's type.
pub open spec fn exact(b: BatchV) -> bool {
    forall|k: int|
        #![trigger b.columns[k]]
        0 <= k < b.columns.len() ==> b.columns[k].ty == b.schema.fields[k].data_type
}

/// What a reader makes of a batch: the same cells, with nothing beside them.
pub open spec fn kept_batch(b: BatchV) -> BatchV {
    BatchV { columns: canon_all(b.schema.fields, b.columns), ..b }
}

/// Columns flattened each by its own type are columns flattened by their
/// fields.
proof fn lemma_column_lists(fs: Seq<FieldModel>, columns: Seq<ArrayV>, n: nat)
    requires
        n <= fs.len(),
        n <= columns.len(),
        forall|k: int| #![trigger columns[k]] 0 <= k < n ==> columns[k].ty == fs[k].data_type,
    ensures
        column_nodes(columns.take(n as int)) == wire_nodes_all(fs.take(n as int), columns),
        column_buffers(columns.take(n as int)) == wire_buffers_all(fs.take(n as int), columns),
        column_depth(columns.take(n as int)) == depth_of_all(fs.take(n as int)),
    decreases n,
{
    if n > 0 {
        let k = n - 1;
        lemma_column_lists(fs, columns, k as nat);
        assert(columns.take(n as int).drop_last() =~= columns.take(k));
        assert(fs.take(n as int).drop_last() =~= fs.take(k));
        assert(columns.take(n as int).last() == columns[k]);
        assert(fs.take(n as int).last() == fs[k]);
        assert(columns[k].ty == fs[k].data_type);
    }
}

/// A flattened batch is what its header and its body carry.
proof fn lemma_batch_carried(b: BatchV, boundary: int)
    requires
        b.wf(),
        exact(b),
        boundary >= 8,
        plan_fits(column_nodes(b.columns), column_buffers(b.columns), boundary),
    ensures
        carries(
            first(
                body_bytes(column_buffers(b.columns), boundary),
                node_pairs(column_nodes(b.columns)),
                buffer_pairs(column_buffers(b.columns), boundary),
            ),
            wire_nodes_all(b.schema.fields, b.columns),
            wire_buffers_all(b.schema.fields, b.columns),
        ),
{
    reveal(carries);
    reveal(nodes_fit);
    reveal(body_fits);
    let fs = b.schema.fields;
    let n = fs.len();
    lemma_column_lists(fs, b.columns, n);
    assert(b.columns.take(n as int) =~= b.columns);
    assert(fs.take(n as int) =~= fs);
    let nodes = column_nodes(b.columns);
    let body = column_buffers(b.columns);
    let d = first(body_bytes(body, boundary), node_pairs(nodes), buffer_pairs(body, boundary));
    lemma_body_len(body, boundary);
    lemma_nodes_counted(fs, b.columns);
    assert forall|i: int| #![trigger nodes[i]] 0 <= i < nodes.len() implies d.nodes[0 + i].0 == nodes[i].0
        && d.nodes[0 + i].1 == nodes[i].1 by {
        assert(nodes[i].1 <= nodes[i].0);
    }
    assert forall|j: int| #![trigger body[j]] 0 <= j < body.len() implies holds(d, 0 + j, body[j]) by {
        lemma_body_buffer(body, j, boundary);
    }
}

/// No node counts more nulls than slots.
proof fn lemma_node_counted(t: crate::datatype::TypeModel, a: ArrayV)
    requires
        a.wf(),
        a.ty == t,
    ensures
        forall|i: int| #![trigger wire_nodes(t, a)[i]] 0 <= i < wire_nodes(t, a).len() ==> wire_nodes(t, a)[i].1
            <= wire_nodes(t, a)[i].0,
    decreases t, 0int,
{
    if let Some(v) = a.validity {
        crate::buffer::lemma_unset(v);
    }
    let nodes = wire_nodes(t, a);
    let own = (a.len, a.nulls());
    assert(own.1 <= own.0);
    match a.body {
        crate::array::model::BodyV::List { offsets, child } => {
            crate::ipc::column_laws::lemma_covered(a);
            let part = crate::ipc::wire::covered(offsets, *child);
            lemma_node_counted(t->List_0.data_type, part);
            let rest = wire_nodes(t->List_0.data_type, part);
            assert forall|i: int| #![trigger nodes[i]] 0 <= i < nodes.len() implies nodes[i].1 <= nodes[i].0 by {
                if i > 0 {
                    assert(nodes[i] == rest[i - 1]);
                }
            }
        },
        crate::array::model::BodyV::FixedList(child) => {
            lemma_node_counted(t->FixedSizeList_0.data_type, *child);
            let rest = wire_nodes(t->FixedSizeList_0.data_type, *child);
            assert forall|i: int| #![trigger nodes[i]] 0 <= i < nodes.len() implies nodes[i].1 <= nodes[i].0 by {
                if i > 0 {
                    assert(nodes[i] == rest[i - 1]);
                }
            }
        },
        crate::array::model::BodyV::Struct(columns) => {
            lemma_nodes_counted(t->Struct_0, columns);
            let rest = wire_nodes_all(t->Struct_0, columns);
            assert forall|i: int| #![trigger nodes[i]] 0 <= i < nodes.len() implies nodes[i].1 <= nodes[i].0 by {
                if i > 0 {
                    assert(nodes[i] == rest[i - 1]);
                }
            }
        },
        _ => {},
    }
}

proof fn lemma_nodes_counted(fs: Seq<FieldModel>, columns: Seq<ArrayV>)
    requires
        fs.len() <= columns.len(),
        forall|k: int|
            #![trigger columns[k]]
            0 <= k < fs.len() ==> columns[k].ty == fs[k].data_type && columns[k].wf(),
    ensures
        forall|i: int|
            #![trigger wire_nodes_all(fs, columns)[i]]
            0 <= i < wire_nodes_all(fs, columns).len() ==> wire_nodes_all(fs, columns)[i].1
                <= wire_nodes_all(fs, columns)[i].0,
    decreases fs, 1int,
{
    if fs.len() > 0 {
        let k = fs.len() - 1;
        assert(columns[k].wf());
        let front = wire_nodes_all(fs.drop_last(), columns);
        let last = wire_nodes(fs.last().data_type, columns[k]);
        lemma_nodes_counted(fs.drop_last(), columns);
        lemma_node_counted(fs.last().data_type, columns[k]);
        let all = wire_nodes_all(fs, columns);
        assert forall|i: int| #![trigger all[i]] 0 <= i < all.len() implies all[i].1 <= all[i].0 by {
            if i < front.len() {
                assert(all[i] == front[i]);
            } else {
                assert(all[i] == last[i - front.len()]);
            }
        }
    }
}

/// A batch that stands in a stream: written, and under the reader's caps. A
/// column whose type is not exactly its field's comes back with the field's
/// type, so it is left out here.
pub open spec fn carriable(b: BatchV, alignment: int, limits: MessageLimits) -> bool {
    &&& b.wf()
    &&& exact(b)
    &&& b.rows <= i64::MAX
    &&& can_write(b.schema, b, alignment)
    &&& envelope_len(batch_message(b, alignment).len() as int, alignment) - PREFIX_LEN
        <= limits.max_metadata_bytes
    &&& body_total(column_buffers(b.columns), used_alignment(alignment)) <= limits.max_body_bytes
    &&& body_total(column_buffers(b.columns), used_alignment(alignment)) <= i64::MAX
}

/// What is kept of a batch is the same batch, and a batch.
pub proof fn lemma_kept_batch(b: BatchV)
    requires
        b.wf(),
        exact(b),
    ensures
        same_batch(kept_batch(b), b),
        make_batch(b.schema, kept_batch(b).columns, decoded(b.rows)) == Ok::<
            BatchV,
            crate::error::DataErrorModel,
        >(kept_batch(b)),
{
    let fs = b.schema.fields;
    lemma_canon_all(fs, b.columns, b.rows);
    let k = kept_batch(b);
    assert forall|i: int| #![trigger k.columns[i]] 0 <= i < k.columns.len() implies same_array(
        k.columns[i],
        b.columns[i],
    ) by {
        assert forall|j: int| 0 <= j < b.rows implies #[trigger] k.columns[i].cells()[j]
            == b.columns[i].cells()[j] by {
            assert(canon_all(fs, b.columns)[i].cell(j) == b.columns[i].cell(j));
        }
        assert(b.columns[i].len == b.rows);
        assert(k.columns[i].cells() =~= b.columns[i].cells());
    }
    let options = decoded(b.rows);
    assert forall|i: int| #![trigger k.columns[i]] 0 <= i < k.columns.len() implies column_refusal(
        fs[i],
        k.columns[i],
        i,
        b.rows,
        options,
    ) is None by {
        assert(b.columns[i].len == b.rows);
    }
    lemma_not_refused(fs, k.columns, k.columns.len(), b.rows, options);
}

/// A header and a body give the batch back.
proof fn lemma_batch_of(b: BatchV, boundary: int, site: Site, d: int, metadata: int)
    requires
        b.wf(),
        exact(b),
        b.rows <= i64::MAX,
        boundary >= 8,
        column_depth(b.columns) <= MAX_NESTING_DEPTH,
        plan_fits(column_nodes(b.columns), column_buffers(b.columns), boundary),
        reads_batch(
            site,
            d,
            row_count(b.rows),
            node_pairs(column_nodes(b.columns)),
            buffer_pairs(column_buffers(b.columns), boundary),
        ),
    ensures
        batch_of(
            table_at(site.buf, site.end - d)->Ok_0,
            body_bytes(column_buffers(b.columns), boundary),
            b.schema,
            metadata,
        ) == Ok::<BatchV, IpcErrorModel>(kept_batch(b)),
{
    let fs = b.schema.fields;
    let n = fs.len();
    lemma_batch_carried(b, boundary);
    lemma_column_lists(fs, b.columns, n);
    assert(b.columns.take(n as int) =~= b.columns);
    assert(fs.take(n as int) =~= fs);
    lemma_wire_counts_all(fs, b.columns);
    let start = first(
        body_bytes(column_buffers(b.columns), boundary),
        node_pairs(column_nodes(b.columns)),
        buffer_pairs(column_buffers(b.columns), boundary),
    );
    lemma_columns_rebuilt(fs, b.columns, b.rows, start, 1);
    assert(columns_at(fs, b.rows, start) == Ok::<Seq<ArrayV>, IpcErrorModel>(canon_all(fs, b.columns)));
    lemma_kept_batch(b);
}

/// Decoding the columns out of a plan's nodes, its buffers and its body gives the
/// batch's columns back, one by one: type, cells and nulls, also of columns cut
/// out of longer ones.
pub proof fn law_columns_round_trip(b: BatchV, alignment: int)
    requires
        b.wf(),
        exact(b),
        column_depth(b.columns) <= MAX_NESTING_DEPTH,
        plan_fits(column_nodes(b.columns), column_buffers(b.columns), used_alignment(alignment)),
        column_nodes(b.columns).len() <= usize::MAX,
        column_buffers(b.columns).len() <= usize::MAX,
    ensures
        ({
            let body = column_buffers(b.columns);
            let boundary = used_alignment(alignment);
            let start = first(
                body_bytes(body, boundary),
                node_pairs(column_nodes(b.columns)),
                buffer_pairs(body, boundary),
            );
            columns_at(b.schema.fields, b.rows, start) matches Ok(cs) && cs.len() == b.columns.len() && forall|k: int|
                #![trigger cs[k]]
                0 <= k < cs.len() ==> cs[k].wf() && same_array(cs[k], b.columns[k]) && cs[k].nulls()
                    == b.columns[k].nulls()
        }),
{
    let fs = b.schema.fields;
    let n = fs.len();
    let boundary = used_alignment(alignment);
    crate::ipc::message::lemma_used_alignment(alignment);
    lemma_batch_carried(b, boundary);
    lemma_column_lists(fs, b.columns, n);
    assert(b.columns.take(n as int) =~= b.columns);
    assert(fs.take(n as int) =~= fs);
    lemma_wire_counts_all(fs, b.columns);
    let start = first(
        body_bytes(column_buffers(b.columns), boundary),
        node_pairs(column_nodes(b.columns)),
        buffer_pairs(column_buffers(b.columns), boundary),
    );
    lemma_columns_rebuilt(fs, b.columns, b.rows, start, 1);
    assert(columns_at(fs, b.rows, start) == Ok::<Seq<ArrayV>, IpcErrorModel>(canon_all(fs, b.columns)));
    lemma_kept_batch(b);
    lemma_canon_all(fs, b.columns, b.rows);
    let cs = canon_all(fs, b.columns);
    assert forall|k: int| #![trigger cs[k]] 0 <= k < cs.len() implies cs[k].wf() && same_array(cs[k], b.columns[k])
        && cs[k].nulls() == b.columns[k].nulls() by {
        assert(kept_batch(b).columns[k] == cs[k]);
        assert(b.columns[k].wf());
    }
}

/// The metadata of a batch message, padding included.
pub open spec fn batch_block(b: BatchV, alignment: int) -> Seq<u8> {
    let table = batch_message(b, alignment);
    table + zeros((envelope_len(table.len() as int, alignment) - PREFIX_LEN - table.len()) as nat)
}

/// A batch message says that it is one and how long its body is, and its header
/// and its body give the batch.
proof fn lemma_batch_block(b: BatchV, alignment: int, limits: MessageLimits, metadata: int)
    requires
        carriable(b, alignment, limits),
    ensures
        ({
            let total = body_total(column_buffers(b.columns), used_alignment(alignment));
            let body = body_bytes(column_buffers(b.columns), used_alignment(alignment));
            let block = batch_block(b, alignment);
            &&& body_length_of(block) == Ok::<i64, IpcErrorModel>(total as i64)
            &&& info_of(block) matches Ok(info) && info.header_type == message_header::RECORD_BATCH && batch_of(
                info.header,
                body,
                b.schema,
                metadata,
            ) == Ok::<BatchV, IpcErrorModel>(kept_batch(b))
            &&& batch_message(b, alignment).len() > 0
        }),
{
    let boundary = used_alignment(alignment);
    let body = column_buffers(b.columns);
    let nodes = node_pairs(column_nodes(b.columns));
    let buffers = buffer_pairs(body, boundary);
    let total = body_total(body, boundary);
    let e = FbModel::empty();
    lemma_write_batch(e, row_count(b.rows), nodes, buffers);
    let (m, header) = write_batch(e, row_count(b.rows), nodes, buffers);
    let (wrapped, root) = write_header(m, message_header::RECORD_BATCH, header, total as i64);
    let table = wrapped.finish(root).bytes;
    assert(table == batch_message(b, alignment));
    let size = envelope_len(table.len() as int, alignment);
    crate::le::lemma_padded(PREFIX_LEN + table.len(), boundary);
    let pad = (size - PREFIX_LEN - table.len()) as nat;
    lemma_near_message(m, message_header::RECORD_BATCH, header, total as i64);
    lemma_message_block(m, message_header::RECORD_BATCH, header, total as i64, pad);
    let block = table + zeros(pad);
    let site = Site { buf: block, end: table.len() as int, far: false };
    assert(reads_batch(site, header as int, row_count(b.rows), nodes, buffers));
    lemma_batch_of(b, boundary, site, header as int, metadata);
}

/// A batch is read where its message was written, whatever is before and after
/// it.
#[verifier::rlimit(40)]
proof fn lemma_frame_found(before: Seq<u8>, b: BatchV, alignment: int, after: Seq<u8>, limits: MessageLimits)
    requires
        carriable(b, alignment, limits),
        before.len() + frame(b, alignment).len() + after.len() <= usize::MAX,
    ensures
        batch_at(before + frame(b, alignment) + after, before.len() as int, b.schema, limits) == Ok::<
            Option<(BatchV, int)>,
            IpcErrorModel,
        >(Some((kept_batch(b), (before.len() + frame(b, alignment).len()) as int))),
        frame(b, alignment).len() > 0,
{
    let boundary = used_alignment(alignment);
    let body = column_buffers(b.columns);
    let total = body_total(body, boundary);
    let table = batch_message(b, alignment);
    let size = envelope_len(table.len() as int, alignment);
    let head = envelope(table, alignment);
    let stream = before + frame(b, alignment) + after;
    let pos = before.len() as int;
    lemma_body_len(body, boundary);
    crate::le::lemma_padded(PREFIX_LEN + table.len(), boundary);
    lemma_batch_block(b, alignment, limits, pos + PREFIX_LEN);
    assert(head.len() == size);
    assert(stream.subrange(pos, pos + size) =~= head);
    lemma_message_found(stream, pos, table, alignment, total, limits);
    let block = stream.subrange(pos + PREFIX_LEN, pos + size);
    assert(block == batch_block(b, alignment));
    assert(stream.subrange(pos + size, pos + size + total) =~= body_bytes(body, boundary));
    assert(batch_at(stream, pos, b.schema, limits) == Ok::<Option<(BatchV, int)>, IpcErrorModel>(
        Some((kept_batch(b), pos + size + total)),
    )) by {
        reveal(batch_at);
    }
}

/// Every batch kept.
pub open spec fn kept_batches(batches: Seq<BatchV>) -> Seq<BatchV> {
    Seq::new(batches.len(), |i: int| kept_batch(batches[i]))
}

/// The batches of a stream of schema `s` that can be carried.
pub open spec fn all_carriable(s: SchemaModel, batches: Seq<BatchV>, alignment: int, limits: MessageLimits) -> bool {
    forall|i: int|
        #![trigger batches[i]]
        0 <= i < batches.len() ==> batches[i].schema == s && carriable(batches[i], alignment, limits)
}

/// Batches, the first taken off the front.
proof fn lemma_frames_front(batches: Seq<BatchV>, alignment: int)
    requires
        batches.len() > 0,
    ensures
        frames(batches, alignment) == frame(batches[0], alignment) + frames(batches.skip(1), alignment),
    decreases batches.len(),
{
    let rest = batches.skip(1);
    if batches.len() == 1 {
        assert(batches.drop_last() =~= Seq::<BatchV>::empty());
        assert(rest =~= Seq::<BatchV>::empty());
        assert(frames(batches.drop_last(), alignment) =~= Seq::<u8>::empty());
        assert(frames(batches, alignment) =~= frame(batches[0], alignment) + frames(rest, alignment));
    } else {
        lemma_frames_front(batches.drop_last(), alignment);
        assert(batches.drop_last().skip(1) =~= rest.drop_last());
        assert(rest.last() == batches.last());
        assert(frames(batches, alignment) =~= frame(batches[0], alignment) + frames(rest, alignment));
    }
}

/// Batches up to an end of the stream are read, in order.
#[verifier::rlimit(40)]
proof fn lemma_rest_found(
    before: Seq<u8>,
    s: SchemaModel,
    batches: Seq<BatchV>,
    alignment: int,
    after: Seq<u8>,
    limits: MessageLimits,
)
    requires
        all_carriable(s, batches, alignment, limits),
        before.len() + frames(batches, alignment).len() + after.len() <= usize::MAX,
        after.len() == 0 || (exists|tail: Seq<u8>| after == #[trigger] (end_of_stream() + tail)),
    ensures
        ({
            let stream = before + frames(batches, alignment) + after;
            rest_at(stream, before.len() as int, s, limits) == (RestV {
                batches: kept_batches(batches),
                end: (before.len() + frames(batches, alignment).len()) as int,
                error: None,
            })
        }),
    decreases batches.len(),
{
    let all = frames(batches, alignment);
    let stream = before + all + after;
    let pos = before.len() as int;
    if batches.len() == 0 {
        assert(kept_batches(batches) =~= Seq::<BatchV>::empty());
        if after.len() == 0 {
            assert(stream =~= before);
        } else {
            let tail = choose|tail: Seq<u8>| after == #[trigger] (end_of_stream() + tail);
            law_end_marker_ends_the_stream(before, tail, limits);
            assert(stream =~= before + end_of_stream() + tail);
        }
        assert(batch_at(stream, pos, s, limits) == Ok::<Option<(BatchV, int)>, IpcErrorModel>(None)) by {
            reveal(batch_at);
        }
    } else {
        let b = batches[0];
        let rest = batches.skip(1);
        lemma_frames_front(batches, alignment);
        let f = frame(b, alignment);
        assert(b.schema == s);
        lemma_frame_found(before, b, alignment, frames(rest, alignment) + after, limits);
        assert(stream =~= before + f + (frames(rest, alignment) + after));
        assert forall|i: int| #![trigger rest[i]] 0 <= i < rest.len() implies rest[i].schema == s
            && carriable(rest[i], alignment, limits) by {
            assert(rest[i] == batches[i + 1]);
        }
        lemma_rest_found(before + f, s, rest, alignment, after, limits);
        assert(stream =~= (before + f) + frames(rest, alignment) + after);
        assert(kept_batches(batches) =~= seq![kept_batch(b)] + kept_batches(rest));
    }
}

/// A stream begins with its schema.
proof fn lemma_opening(s: SchemaModel, alignment: int, after: Seq<u8>, limits: MessageLimits)
    requires
        encodable(s),
        can_open(s, alignment),
        envelope_len(schema_message(s).len() as int, alignment) - PREFIX_LEN <= limits.max_metadata_bytes,
        envelope(schema_message(s), alignment).len() + after.len() <= usize::MAX,
    ensures
        opening(envelope(schema_message(s), alignment) + after, limits) == Ok::<(SchemaModel, int), IpcErrorModel>(
            (s, envelope(schema_message(s), alignment).len() as int),
        ),
{
    let head = envelope(schema_message(s), alignment);
    crate::le::lemma_padded(PREFIX_LEN + schema_message(s).len(), used_alignment(alignment));
    law_schema_message_round_trips(Seq::empty(), s, alignment, after, limits);
    assert(head + after =~= Seq::<u8>::empty() + head + after);
}

/// Kept batches hold the same rows.
proof fn lemma_kept_batches(s: SchemaModel, batches: Seq<BatchV>, alignment: int, limits: MessageLimits)
    requires
        all_carriable(s, batches, alignment, limits),
    ensures
        forall|i: int|
            #![trigger kept_batches(batches)[i]]
            0 <= i < batches.len() ==> same_batch(kept_batches(batches)[i], batches[i]),
{
    assert forall|i: int| #![trigger kept_batches(batches)[i]] 0 <= i < batches.len() implies same_batch(
        kept_batches(batches)[i],
        batches[i],
    ) by {
        assert(batches[i].schema == s);
        lemma_kept_batch(batches[i]);
    }
}

/// Parts one behind the other, however grouped.
proof fn lemma_regrouped(head: Seq<u8>, all: Seq<u8>, end: Seq<u8>, after: Seq<u8>)
    ensures
        head + all + end + after == head + (all + (end + after)),
        head + all + end + after == head + all + (end + after),
{
    assert(head + all + end + after =~= head + (all + (end + after)));
    assert(head + all + end + after =~= head + all + (end + after));
}

/// A stream as it stands, whatever follows its end marker, is read back: the
/// schema, and every batch, each with the same rows.
#[verifier::rlimit(50)]
#[verifier::spinoff_prover]
pub proof fn law_stream_round_trips(
    s: SchemaModel,
    batches: Seq<BatchV>,
    alignment: int,
    after: Seq<u8>,
    limits: MessageLimits,
)
    requires
        encodable(s),
        can_open(s, alignment),
        envelope_len(schema_message(s).len() as int, alignment) - PREFIX_LEN <= limits.max_metadata_bytes,
        all_carriable(s, batches, alignment, limits),
        stream_bytes(s, batches, alignment).len() + after.len() <= usize::MAX,
    ensures
        whole_stream(stream_bytes(s, batches, alignment) + after, limits) matches Ok((schema, read))
            && schema == s && read.len() == batches.len() && forall|i: int|
            #![trigger read[i]]
            0 <= i < read.len() ==> same_batch(read[i], batches[i]),
        whole_stream(stream_bytes(s, batches, alignment) + after, limits) == Ok::<
            (SchemaModel, Seq<BatchV>),
            IpcErrorModel,
        >((s, kept_batches(batches))),
{
    let head = envelope(schema_message(s), alignment);
    let all = frames(batches, alignment);
    let stream = stream_bytes(s, batches, alignment) + after;
    let tail = end_of_stream() + after;
    lemma_regrouped(head, all, end_of_stream(), after);
    assert(stream == head + (all + tail));
    lemma_opening(s, alignment, all + tail, limits);
    lemma_rest_found(head, s, batches, alignment, tail, limits);
    lemma_kept_batches(s, batches, alignment, limits);
}

/// A stream whose writer was not finished is read back all the same.
#[verifier::rlimit(50)]
#[verifier::spinoff_prover]
pub proof fn law_unfinished_stream_round_trips(
    s: SchemaModel,
    batches: Seq<BatchV>,
    alignment: int,
    limits: MessageLimits,
)
    requires
        encodable(s),
        can_open(s, alignment),
        envelope_len(schema_message(s).len() as int, alignment) - PREFIX_LEN <= limits.max_metadata_bytes,
        all_carriable(s, batches, alignment, limits),
        (envelope(schema_message(s), alignment) + frames(batches, alignment)).len() <= usize::MAX,
    ensures
        whole_stream(envelope(schema_message(s), alignment) + frames(batches, alignment), limits) matches Ok(
            (schema, read),
        ) && schema == s && read.len() == batches.len() && forall|i: int|
            #![trigger read[i]]
            0 <= i < read.len() ==> same_batch(read[i], batches[i]),
{
    let head = envelope(schema_message(s), alignment);
    let all = frames(batches, alignment);
    let stream = head + all;
    lemma_opening(s, alignment, all, limits);
    lemma_rest_found(head, s, batches, alignment, Seq::empty(), limits);
    assert(stream =~= head + all + Seq::<u8>::empty());
    lemma_kept_batches(s, batches, alignment, limits);
}

/// A stream under the cap is under it with its padding too.
proof fn lemma_payload_len(n: int)
    requires
        0 <= n <= crate::MAX_PAYLOAD_BYTES,
    ensures
        0 <= pad_to(n, PAYLOAD_ALIGNMENT as int),
        n + pad_to(n, PAYLOAD_ALIGNMENT as int) <= crate::MAX_PAYLOAD_BYTES,
{
}

/// A payload is decoded to the batch it was encoded from.
#[verifier::rlimit(50)]
#[verifier::spinoff_prover]
pub proof fn law_payload_round_trips(b: BatchV, alignment: int)
    requires
        encodable(b.schema),
        can_open(b.schema, alignment),
        envelope_len(schema_message(b.schema).len() as int, alignment) - PREFIX_LEN
            <= payload_limits().max_metadata_bytes,
        carriable(b, alignment, payload_limits()),
        one_batch_stream(b, alignment).len() <= crate::MAX_PAYLOAD_BYTES,
    ensures
        payload_of(payload_bytes(b, alignment)) matches Ok(read) && same_batch(read, b),
{
    let stream = one_batch_stream(b, alignment);
    lemma_payload_len(stream.len() as int);
    let tail = zeros(pad_to(stream.len() as int, PAYLOAD_ALIGNMENT as int) as nat);
    let one = seq![b];
    assert(one[0] == b);
    law_stream_round_trips(b.schema, one, alignment, tail, payload_limits());
    lemma_kept_batch(b);
    assert(kept_batches(one)[0] == kept_batch(b));
}

/// Messages start on the alignment boundary: what is before each of them is a
/// multiple of it.
pub proof fn law_messages_are_aligned(s: SchemaModel, batches: Seq<BatchV>, alignment: int)
    requires
        8 <= alignment,
    ensures
        (envelope(schema_message(s), alignment) + frames(batches, alignment)).len() as int % alignment == 0,
{
    lemma_envelope_aligned(schema_message(s), alignment);
    lemma_frames_aligned(batches, alignment);
    let x = envelope(schema_message(s), alignment).len() as int;
    let y = frames(batches, alignment).len() as int;
    vstd::arithmetic::div_mod::lemma_add_mod_noop(x, y, alignment);
    vstd::arithmetic::div_mod::lemma_small_mod(0, alignment as nat);
}

/// The buffers of a batch start on the alignment boundary: the envelope before
/// the body is a multiple of it, and so is every offset in the body.
pub proof fn law_buffers_are_aligned(b: BatchV, i: int, alignment: int)
    requires
        8 <= alignment,
        0 <= i < column_buffers(b.columns).len(),
    ensures
        envelope(batch_message(b, alignment), alignment).len() as int % alignment == 0,
        body_offset(column_buffers(b.columns), i, alignment) % alignment == 0,
{
    lemma_envelope_aligned(batch_message(b, alignment), alignment);
    lemma_body_buffer(column_buffers(b.columns), i, alignment);
}

} // verus!
