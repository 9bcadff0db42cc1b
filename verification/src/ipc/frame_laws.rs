//! What the bytes of messages and streams say, read by the layout of the format
//! alone.
//!
//! A message is a marker of four set bytes, the length of its metadata, the
//! metadata and its body. Older streams leave out the marker. A length of zero
//! ends a stream.
use vstd::prelude::*;
use vstd::bytes::{spec_u32_from_le_bytes, spec_u32_to_le_bytes};
use crate::array::model::ArrayV;
use crate::datatype::SchemaModel;
use crate::ipc::body_laws::{buffer_start, law_columns_are_read_by_the_format, node_start, says_column};
use crate::ipc::decode::{columns_at, first};
use crate::ipc::error::IpcErrorModel;
use crate::ipc::fb::reader::{table_at, root_at, SpanModel, TableModel};
use crate::ipc::format::MetadataVersion;
use crate::ipc::format_laws::{
    byte_in, count_in, element_in, law_tables_say_schemas, lemma_table, lemma_vector, long_in, referred, says_schema,
    short_in, slot, table_in, word32, word64,
};
use crate::ipc::message::{
    end_of_stream, envelope, envelope_len, info_of, message_at, schema_message, InfoModel, MessageLimits,
    RawModel,
};
use crate::ipc::reader::{batch_at, batch_of, pairs_at, pairs_of, rest_at, whole_stream};
use crate::ipc::schema_laws::encodable;
use crate::ipc::stream_laws::{all_carriable, kept_batches, law_stream_round_trips};
use crate::ipc::writer::{can_open, stream_bytes};
use crate::record_batch::{same_batch, BatchV};

verus! {

/// Whether a message starts at a position: its metadata from `metadata` to `body`,
/// its body from there to `next`, as long as the metadata's fourth field says.
pub open spec fn framed(bytes: Seq<u8>, pos: int, metadata: int, body: int, next: int) -> bool {
    let m = bytes.subrange(metadata, body);
    &&& if word32(bytes, pos) == 0xFFFF_FFFF {
        metadata == pos + 8 && word32(bytes, pos + 4) as i32 == body - metadata
    } else {
        metadata == pos + 4 && word32(bytes, pos) == body - metadata
    }
    &&& pos < metadata < body <= next <= bytes.len()
    &&& long_in(m, referred(m, 0), 3) == next - body
}

/// Whether a stream ends at a position: with the bytes, or with a length of zero.
pub open spec fn ended_at(bytes: Seq<u8>, pos: int) -> bool {
    ||| pos >= bytes.len()
    ||| word32(bytes, pos) == 0xFFFF_FFFF && word32(bytes, pos + 4) as i32 == 0
    ||| word32(bytes, pos) == 0
}

/// A message that is found is the one that is framed there; where none is found,
/// the stream ends.
pub proof fn law_messages_are_found_by_the_format(bytes: Seq<u8>, pos: int, limits: MessageLimits)
    requires
        0 <= pos,
    ensures
        message_at(bytes, pos, limits) matches Ok(Some(m)) ==> framed(bytes, pos, m.metadata, m.body, m.next)
            && m.continued == (word32(bytes, pos) == 0xFFFF_FFFF) && m.body - m.metadata <= limits.max_metadata_bytes
            && m.next - m.body <= limits.max_body_bytes,
        message_at(bytes, pos, limits) matches Ok(None) ==> ended_at(bytes, pos),
{
    if let Ok(Some(m)) = message_at(bytes, pos, limits) {
        let metadata = bytes.subrange(m.metadata, m.body);
        let t = root_at(metadata)->Ok_0;
        lemma_table(metadata, referred(metadata, 0), t);
        assert(t.field_at(3) matches Ok(at) ==> at == slot(metadata, referred(metadata, 0), 3));
    }
}

/// Whether metadata says a message: its first field the version, its second the
/// kind of header, its third the header, its fourth the length of the body.
pub open spec fn says_message(m: Seq<u8>, info: InfoModel) -> bool {
    let root = referred(m, 0);
    &&& short_in(m, root, 0, 0) == match info.version {
        MetadataVersion::V4 => 3i16,
        MetadataVersion::V5 => 4i16,
    }
    &&& info.header_type == byte_in(m, root, 1)
    &&& slot(m, root, 2) is Some
    &&& table_at(m, table_in(m, root, 2)) == Ok::<TableModel, IpcErrorModel>(info.header)
    &&& info.body_length == long_in(m, root, 3)
}

/// A message that is read is the one that its metadata says.
pub proof fn law_messages_are_read_by_the_format(m: Seq<u8>, info: InfoModel)
    requires
        info_of(m) == Ok::<InfoModel, IpcErrorModel>(info),
    ensures
        says_message(m, info),
{
    let root = referred(m, 0);
    let t = root_at(m)->Ok_0;
    lemma_table(m, root, t);
    assert(t.field_at(0) matches Ok(at) ==> at == slot(m, root, 0));
    assert(t.field_at(1) matches Ok(at) ==> at == slot(m, root, 1));
    assert(t.field_at(2) matches Ok(at) ==> at == slot(m, root, 2));
    assert(t.field_at(3) matches Ok(at) ==> at == slot(m, root, 3));
}

/// Whether pairs of integers are those in the vector in field `n` of a table.
pub open spec fn says_pairs(m: Seq<u8>, table: int, n: int, pairs: Seq<(i64, i64)>) -> bool {
    &&& pairs.len() == count_in(m, table, n)
    &&& forall|i: int|
        #![trigger pairs[i]]
        0 <= i < pairs.len() ==> {
            let at = element_in(m, table, n, 16, i);
            pairs[i] == (word64(m, at) as i64, word64(m, at + 8) as i64)
        }
}

/// Pairs that are read are those that stand there.
proof fn lemma_pairs_of(span: SpanModel, count: nat)
    requires
        span.stride == 16,
        count <= span.len,
        pairs_of(span, count) is Ok,
    ensures
        pairs_of(span, count)->Ok_0.len() == count,
        forall|i: int|
            #![trigger pairs_of(span, count)->Ok_0[i]]
            0 <= i < count ==> pairs_of(span, count)->Ok_0[i] == (
                word64(span.buf, span.start + 16 * i) as i64,
                word64(span.buf, span.start + 16 * i + 8) as i64,
            ),
    decreases count,
{
    if count > 0 {
        lemma_pairs_of(span, (count - 1) as nat);
        assert(span.element_at(count - 1) == span.start + 16 * (count - 1));
    }
}

/// Pairs that are read from a field are those that its vector holds.
proof fn lemma_pairs(m: Seq<u8>, pos: int, t: TableModel, n: int, pairs: Seq<(i64, i64)>)
    requires
        table_at(m, pos) == Ok::<TableModel, IpcErrorModel>(t),
        n >= 0,
        pairs_at(t, n) == Ok::<Seq<(i64, i64)>, IpcErrorModel>(pairs),
    ensures
        says_pairs(m, pos, n, pairs),
{
    lemma_vector(m, pos, t, n, 16);
    if let Some(span) = t.vector_field(n, 16)->Ok_0 {
        lemma_pairs_of(span, span.len as nat);
        assert forall|i: int| #![trigger pairs[i]] 0 <= i < pairs.len() implies pairs[i] == (
            word64(m, element_in(m, pos, n, 16, i)) as i64,
            word64(m, element_in(m, pos, n, 16, i) + 8) as i64,
        ) by {
            assert(span.start + 16 * i == element_in(m, pos, n, 16, i));
        }
    }
}

/// Whether a message says a batch under a schema: a header of the third kind,
/// whose fields are the rows, the nodes and the buffers, not compressed; and
/// columns that the nodes, the buffers and the body say.
pub open spec fn says_batch(m: Seq<u8>, body: Seq<u8>, s: SchemaModel, b: BatchV) -> bool {
    let root = referred(m, 0);
    let header = table_in(m, root, 2);
    &&& short_in(m, root, 0, 0) == 3 || short_in(m, root, 0, 0) == 4
    &&& byte_in(m, root, 1) == 3
    &&& slot(m, root, 2) is Some
    &&& slot(m, header, 3) is None
    &&& b.schema == s
    &&& b.rows == long_in(m, header, 0)
    &&& exists|nodes: Seq<(i64, i64)>, buffers: Seq<(i64, i64)>|
        #![trigger says_pairs(m, header, 1, nodes), says_pairs(m, header, 2, buffers)]
        says_pairs(m, header, 1, nodes) && says_pairs(m, header, 2, buffers) && says_columns(body, nodes, buffers, b)
}

/// Whether nodes, buffers and a body say the columns of a batch, nothing left over.
pub open spec fn says_columns(body: Seq<u8>, nodes: Seq<(i64, i64)>, buffers: Seq<(i64, i64)>, b: BatchV) -> bool {
    let fs = b.schema.fields;
    &&& nodes.len() == node_start(fs, fs.len())
    &&& buffers.len() == buffer_start(fs, fs.len())
    &&& b.columns.len() == fs.len()
    &&& forall|k: int|
        #![trigger fs[k]]
        0 <= k < fs.len() ==> b.columns[k].len == b.rows && says_column(
            body,
            nodes,
            buffers,
            node_start(fs, k as nat) as int,
            buffer_start(fs, k as nat) as int,
            fs[k].data_type,
            b.columns[k],
        )
}

/// Whether a message that starts at a position says a batch, and the next starts at
/// `next`.
pub open spec fn batch_said_at(bytes: Seq<u8>, pos: int, next: int, s: SchemaModel, b: BatchV) -> bool {
    exists|metadata: int, body: int|
        #![trigger framed(bytes, pos, metadata, body, next)]
        framed(bytes, pos, metadata, body, next) && says_batch(
            bytes.subrange(metadata, body),
            bytes.subrange(body, next),
            s,
            b,
        )
}

/// A batch that is read is the one that the message there says.
pub proof fn law_batches_are_read_by_the_format(
    bytes: Seq<u8>,
    pos: int,
    s: SchemaModel,
    limits: MessageLimits,
    b: BatchV,
    next: int,
)
    requires
        0 <= pos,
        bytes.len() < usize::MAX,
        batch_at(bytes, pos, s, limits) == Ok::<Option<(BatchV, int)>, IpcErrorModel>(Some((b, next))),
    ensures
        batch_said_at(bytes, pos, next, s, b),
{
    reveal(batch_at);
    let found = message_at(bytes, pos, limits);
    assert(found is Ok && found->Ok_0 is Some);
    let raw = found->Ok_0->0;
    let m = bytes.subrange(raw.metadata, raw.body);
    let body = bytes.subrange(raw.body, raw.next);
    assert(info_of(m) is Ok);
    let info = info_of(m)->Ok_0;
    assert(info.header_type == 3);
    assert(batch_of(info.header, body, s, raw.metadata) == Ok::<BatchV, IpcErrorModel>(b));
    assert(raw.next == next);
    assert(framed(bytes, pos, raw.metadata, raw.body, next)) by {
        law_messages_are_found_by_the_format(bytes, pos, limits);
    }
    assert(body.len() < usize::MAX);
    assert(says_batch(m, body, s, b)) by {
        law_messages_are_read_by_the_format(m, info);
        lemma_batch(m, info.header, body, s, raw.metadata, b);
    }
}

/// A batch that is read from a header and a body is the one that they say.
proof fn lemma_batch(m: Seq<u8>, header: TableModel, body: Seq<u8>, s: SchemaModel, from: int, b: BatchV)
    requires
        ({
            let root = referred(m, 0);
            &&& short_in(m, root, 0, 0) == 3 || short_in(m, root, 0, 0) == 4
            &&& byte_in(m, root, 1) == 3
            &&& slot(m, root, 2) is Some
            &&& table_at(m, table_in(m, root, 2)) == Ok::<TableModel, IpcErrorModel>(header)
        }),
        body.len() < usize::MAX,
        batch_of(header, body, s, from) == Ok::<BatchV, IpcErrorModel>(b),
    ensures
        says_batch(m, body, s, b),
{
    let at = table_in(m, referred(m, 0), 2);
    let nodes = pairs_at(header, 1)->Ok_0;
    let buffers = pairs_at(header, 2)->Ok_0;
    assert(pairs_at(header, 1) is Ok && pairs_at(header, 2) is Ok);
    assert(says_pairs(m, at, 1, nodes)) by {
        lemma_pairs(m, at, header, 1, nodes);
    }
    assert(says_pairs(m, at, 2, buffers)) by {
        lemma_pairs(m, at, header, 2, buffers);
    }
    assert(b.schema == s && columns_at(s.fields, b.rows, first(body, nodes, buffers)) == Ok::<
        Seq<ArrayV>,
        IpcErrorModel,
    >(b.columns));
    assert(says_columns(body, nodes, buffers, b)) by {
        law_columns_are_read_by_the_format(s.fields, b.rows, body, nodes, buffers, b.columns);
    }
    lemma_table(m, at, header);
    assert(header.field_at(0) matches Ok(p) ==> p == slot(m, at, 0));
    assert(header.field_at(3) matches Ok(p) ==> p == slot(m, at, 3));
}

/// Whether the bytes from a position on say batches one after the other, up to the
/// end of the stream.
pub open spec fn batches_said_at(bytes: Seq<u8>, pos: int, s: SchemaModel, batches: Seq<BatchV>) -> bool
    decreases batches.len(),
{
    if batches.len() == 0 {
        ended_at(bytes, pos)
    } else {
        exists|next: int|
            #![trigger batch_said_at(bytes, pos, next, s, batches[0])]
            batch_said_at(bytes, pos, next, s, batches[0]) && batches_said_at(bytes, next, s, batches.skip(1))
    }
}

/// Batches that are read are those that the bytes say.
proof fn lemma_rest(bytes: Seq<u8>, pos: int, s: SchemaModel, limits: MessageLimits)
    requires
        0 <= pos,
        bytes.len() < usize::MAX,
        rest_at(bytes, pos, s, limits).error is None,
    ensures
        batches_said_at(bytes, pos, s, rest_at(bytes, pos, s, limits).batches),
    decreases bytes.len() - pos,
{
    match batch_at(bytes, pos, s, limits) {
        Ok(Some((b, next))) => {
            law_batches_are_read_by_the_format(bytes, pos, s, limits, b, next);
            assert(pos < next <= bytes.len());
            lemma_rest(bytes, next, s, limits);
            let all = rest_at(bytes, pos, s, limits).batches;
            assert(all.skip(1) =~= rest_at(bytes, next, s, limits).batches);
            assert(batch_said_at(bytes, pos, next, s, all[0]));
        },
        Ok(None) => {
            reveal(batch_at);
            assert(message_at(bytes, pos, limits) == Ok::<Option<RawModel>, IpcErrorModel>(None));
            law_messages_are_found_by_the_format(bytes, pos, limits);
        },
        Err(_) => {},
    }
}

/// Whether bytes say a stream: a message whose header is of the first kind and
/// says the schema, then a message for each batch, then the end.
pub open spec fn stream_said(bytes: Seq<u8>, s: SchemaModel, batches: Seq<BatchV>) -> bool {
    exists|metadata: int, body: int, next: int|
        #![trigger framed(bytes, 0, metadata, body, next)]
        framed(bytes, 0, metadata, body, next) && says_opening(bytes.subrange(metadata, body), s) && batches_said_at(
            bytes,
            next,
            s,
            batches,
        )
}

/// Whether metadata says that a stream opens with a schema.
pub open spec fn says_opening(m: Seq<u8>, s: SchemaModel) -> bool {
    let root = referred(m, 0);
    &&& short_in(m, root, 0, 0) == 3 || short_in(m, root, 0, 0) == 4
    &&& byte_in(m, root, 1) == 1
    &&& slot(m, root, 2) is Some
    &&& says_schema(m, table_in(m, root, 2), s)
}

/// A stream that is read whole is the one that its bytes say by the layout of the
/// format.
pub proof fn law_streams_are_read_by_the_format(
    bytes: Seq<u8>,
    limits: MessageLimits,
    s: SchemaModel,
    batches: Seq<BatchV>,
)
    requires
        bytes.len() < usize::MAX,
        whole_stream(bytes, limits) == Ok::<(SchemaModel, Seq<BatchV>), IpcErrorModel>((s, batches)),
    ensures
        stream_said(bytes, s, batches),
{
    law_messages_are_found_by_the_format(bytes, 0, limits);
    let raw = message_at(bytes, 0, limits)->Ok_0->0;
    let m = bytes.subrange(raw.metadata, raw.body);
    let info = info_of(m)->Ok_0;
    law_messages_are_read_by_the_format(m, info);
    law_tables_say_schemas(m, table_in(m, referred(m, 0), 2), info.header, s);
    assert(says_opening(m, s));
    lemma_rest(bytes, raw.next, s, limits);
    assert(framed(bytes, 0, raw.metadata, raw.body, raw.next));
}

/// The bytes that a stream is written as say its schema and its batches by the
/// layout of the format: each batch with the same rows.
pub proof fn law_streams_are_written_by_the_format(
    s: SchemaModel,
    batches: Seq<BatchV>,
    alignment: int,
    limits: MessageLimits,
)
    requires
        encodable(s),
        can_open(s, alignment),
        envelope_len(schema_message(s).len() as int, alignment) - 8 <= limits.max_metadata_bytes,
        all_carriable(s, batches, alignment, limits),
        stream_bytes(s, batches, alignment).len() < usize::MAX,
    ensures
        exists|kept: Seq<BatchV>|
            #![trigger stream_said(stream_bytes(s, batches, alignment), s, kept)]
            kept.len() == batches.len() && (forall|i: int|
                #![trigger kept[i]]
                0 <= i < kept.len() ==> same_batch(kept[i], batches[i])) && stream_said(
                stream_bytes(s, batches, alignment),
                s,
                kept,
            ),
{
    let bytes = stream_bytes(s, batches, alignment);
    law_stream_round_trips(s, batches, alignment, Seq::empty(), limits);
    assert(bytes + Seq::<u8>::empty() =~= bytes);
    let kept = kept_batches(batches);
    law_streams_are_read_by_the_format(bytes, limits, s, kept);
}

/// Four bytes that are written as an integer are read as it.
proof fn lemma_words(x: u32, y: i32)
    ensures
        spec_u32_from_le_bytes(spec_u32_to_le_bytes(x)) == x,
        spec_u32_from_le_bytes(spec_u32_to_le_bytes(y as u32)) as i32 == y,
        spec_u32_to_le_bytes(x).len() == 4,
        spec_u32_to_le_bytes(y as u32).len() == 4,
{
    crate::le::lemma_le_u32(x);
    crate::le::lemma_le_i32(y);
}

/// What frames metadata is the marker, the length of what follows, the metadata as
/// it is, and zeros up to the boundary.
pub proof fn law_envelopes_frame_metadata(metadata: Seq<u8>, alignment: int)
    requires
        8 <= alignment,
        envelope_len(metadata.len() as int, alignment) - 8 <= i32::MAX,
    ensures
        ({
            let out = envelope(metadata, alignment);
            &&& word32(out, 0) == 0xFFFF_FFFF
            &&& word32(out, 4) as i32 == out.len() - 8
            &&& out.subrange(8, (8 + metadata.len()) as int) == metadata
            &&& forall|i: int| #![trigger out[i]] 8 + metadata.len() <= i < out.len() ==> out[i] == 0
            &&& out.len() as int % alignment == 0
            &&& 8 + metadata.len() <= out.len() < 8 + metadata.len() + alignment
        }),
{
    let out = envelope(metadata, alignment);
    let total = envelope_len(metadata.len() as int, alignment);
    crate::le::lemma_padded((8 + metadata.len()) as int, alignment);
    lemma_words(0xFFFF_FFFF, (total - 8) as i32);
    assert(out.len() == total);
    assert(out.subrange(0, 4) =~= spec_u32_to_le_bytes(0xFFFF_FFFF));
    assert(out.subrange(4, 8) =~= spec_u32_to_le_bytes(((total - 8) as i32) as u32));
    assert(out.subrange(8, (8 + metadata.len()) as int) =~= metadata);
}

/// The end of a stream is the marker and a length of zero.
pub proof fn law_the_end_is_a_length_of_zero()
    ensures
        end_of_stream().len() == 8,
        word32(end_of_stream(), 0) == 0xFFFF_FFFF,
        word32(end_of_stream(), 4) == 0,
{
    lemma_words(0xFFFF_FFFF, 0);
    lemma_words(0, 0);
    assert(end_of_stream().subrange(0, 4) =~= spec_u32_to_le_bytes(0xFFFF_FFFF));
    assert(end_of_stream().subrange(4, 8) =~= spec_u32_to_le_bytes(0i32 as u32));
}

} // verus!
