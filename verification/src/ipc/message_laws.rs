//! What is found again of a written message.
use vstd::prelude::*;
use crate::datatype::SchemaModel;
use crate::ipc::cut_laws::law_cut_message_is_refused;
use crate::ipc::error::{malformed_model, IpcErrorModel};
use crate::ipc::fb::builder::FbModel;
use crate::ipc::fb::content::{
    addressable, holds_table, lemma_end_table, lemma_extends_refl, lemma_extends_trans, lemma_finish, lemma_i16_at, lemma_i64_at,
    lemma_lookup_push, lemma_placed, lemma_sits, lemma_slot_i16, lemma_slot_i64, lemma_slot_offset, lemma_slot_u8,
    lemma_start_table, lemma_u8_at, lookup, reachable, sits, table_reads, Site,
};
use crate::ipc::fb::reader::{deref_at, table_at, TableModel};
use crate::ipc::format::{message, message_header, MetadataVersion, CONTINUATION_MARKER};
use crate::ipc::message::{
    body_length_of, end_of_stream, envelope, envelope_len, info_of, message_at, message_slots, prefix_at,
    schema_message, used_alignment, write_header, InfoModel, MessageLimits, RawModel, LEGACY_PREFIX_LEN, PREFIX_LEN,
};
use crate::ipc::schema::{closed_table, schema_at, write_schema};
use crate::ipc::schema_laws::{
    all_sizes_positive, encodable, grown, lemma_slot_read, lemma_write_schema, reads_schema, writable,
};
use crate::le::{le_i16, le_i32, le_i64, le_u32, zeros};

verus! {

broadcast use {crate::le::group_le, lemma_lookup_push};

/// A message table at distance `d` of `b` is read with these fields.
pub open spec fn reads_header(b: Site, d: int, header_type: u8, header: int, body_length: i64) -> bool {
    match table_at(b.buf, b.end - d) {
        Ok(t) => {
            &&& t.i16_field(message::VERSION as int, 0) == Ok::<i16, IpcErrorModel>(4)
            &&& t.u8_field(message::HEADER_TYPE as int, message_header::NONE) == Ok::<u8, IpcErrorModel>(
                header_type,
            )
            &&& t.table_field(message::HEADER as int) == match table_at(b.buf, b.end - header) {
                Ok(h) => Ok::<Option<TableModel>, IpcErrorModel>(Some(h)),
                Err(e) => Err(e),
            }
            &&& t.i64_field(message::BODY_LENGTH as int, 0) == Ok::<i64, IpcErrorModel>(body_length)
        },
        Err(_) => false,
    }
}

/// A message table is read back.
#[verifier::rlimit(40)]
pub proof fn lemma_write_header(m: FbModel, header_type: u8, header: nat, body_length: i64)
    requires
        m.wf(),
        0 < header <= m.bytes.len(),
    ensures
        ({
            let (done, d) = write_header(m, header_type, header, body_length);
            &&& grown(m, done, d)
            &&& forall|b: Site| #[trigger]
                sits(done, b) && addressable(b) ==> reads_header(
                    b,
                    d as int,
                    header_type,
                    header as int,
                    body_length,
                )
        }),
{
    reveal(closed_table);
    let start = m.bytes.len();
    lemma_start_table(m);
    let o0 = m.start_table();
    lemma_slot_i16(o0, start as int, message::VERSION as nat, 4);
    let o1 = o0.slot_i16(message::VERSION as nat, 4, 0);
    let o2 = o1.slot_u8(message::HEADER_TYPE as nat, header_type, message_header::NONE);
    if header_type != message_header::NONE {
        lemma_slot_u8(o1, start as int, message::HEADER_TYPE as nat, header_type);
    } else {
        lemma_extends_refl(o1);
    }
    lemma_slot_offset(o2, start as int, message::HEADER as nat, header);
    let o3 = o2.slot_offset(message::HEADER as nat, header);
    let o4 = o3.slot_i64(message::BODY_LENGTH as nat, body_length, 0);
    if body_length != 0 {
        lemma_slot_i64(o3, start as int, message::BODY_LENGTH as nat, body_length);
    } else {
        lemma_extends_refl(o3);
    }
    assert(o4 == message_slots(o0, header_type, header, body_length));
    lemma_end_table(o4, start);
    let (done, d) = write_header(m, header_type, header, body_length);
    assert(done == o4.end_table(start));
    lemma_extends_trans(o3, o4, done);
    lemma_extends_trans(o2, o3, done);
    lemma_extends_trans(o1, o2, done);
    lemma_extends_trans(o0, o1, done);
    assert(lookup(o0.locs, message::VERSION as int) is None);
    assert(lookup(o0.locs, message::HEADER_TYPE as int) is None);
    assert(lookup(o0.locs, message::HEADER as int) is None);
    assert(lookup(o0.locs, message::BODY_LENGTH as int) is None);
    let locs = o4.locs;
    assert(lookup(locs, message::VERSION as int) == Some(o1.bytes.len()));
    assert(lookup(locs, message::HEADER as int) == Some(o3.bytes.len()));
    assert forall|b: Site| #[trigger] sits(done, b) && addressable(b) implies reads_header(
        b,
        d as int,
        header_type,
        header as int,
        body_length,
    ) by {
        lemma_slot_read(b, d as int, locs, message::VERSION as int);
        lemma_slot_read(b, d as int, locs, message::HEADER_TYPE as int);
        lemma_slot_read(b, d as int, locs, message::HEADER as int);
        lemma_slot_read(b, d as int, locs, message::BODY_LENGTH as int);
        lemma_sits(o4, done, b);
        lemma_sits(o3, done, b);
        lemma_sits(o2, done, b);
        lemma_sits(o1, done, b);
        lemma_placed(o1, b, o1.bytes.len() as int, le_i16(4));
        lemma_i16_at(b, o1.bytes.len() as int, 4, "i16 field"@);
        if header_type != message_header::NONE {
            lemma_placed(o2, b, o2.bytes.len() as int, seq![header_type]);
            lemma_u8_at(b, o2.bytes.len() as int, header_type, "u8 field"@);
        }
        assert(deref_at(b.buf, b.end - o3.bytes.len(), "nested table offset"@) == Ok::<int, IpcErrorModel>(
            b.end - header,
        ));
        if body_length != 0 {
            lemma_placed(o4, b, o4.bytes.len() as int, le_i64(body_length));
            lemma_i64_at(b, o4.bytes.len() as int, body_length, "i64 field"@);
        }
    }
}

/// In a message that an envelope can carry no table is far from its vtable.
pub proof fn lemma_near_message(m: FbModel, header_type: u8, header: nat, body_length: i64)
    requires
        m.wf(),
        !m.open,
        0 < header <= m.bytes.len(),
        ({
            let (wrapped, root) = write_header(m, header_type, header, body_length);
            wrapped.finish(root).bytes.len() <= i32::MAX
        }),
    ensures
        ({
            let (wrapped, root) = write_header(m, header_type, header, body_length);
            !wrapped.finish(root).far
        }),
{
    lemma_write_header(m, header_type, header, body_length);
    let (wrapped, root) = write_header(m, header_type, header, body_length);
    lemma_finish(wrapped, root);
}

/// A finished message, padded, says what it was built from: version, header
/// type, where the header is, body length.
pub proof fn lemma_message_block(m: FbModel, header_type: u8, header: nat, body_length: i64, padding: nat)
    requires
        m.wf(),
        !m.open,
        0 < header <= m.bytes.len(),
        ({
            let (wrapped, root) = write_header(m, header_type, header, body_length);
            wrapped.finish(root).bytes.len() + padding <= u32::MAX && !wrapped.finish(root).far
        }),
    ensures
        ({
            let (wrapped, root) = write_header(m, header_type, header, body_length);
            let table = wrapped.finish(root).bytes;
            let block = table + zeros(padding);
            let b = Site { buf: block, end: table.len() as int, far: false };
            &&& sits(m, b)
            &&& body_length_of(block) == Ok::<i64, IpcErrorModel>(body_length)
            &&& info_of(block) == match table_at(block, b.end - header) {
                Ok(h) => Ok::<InfoModel, IpcErrorModel>(
                    InfoModel { version: MetadataVersion::V5, header_type, header: h, body_length },
                ),
                Err(e) => Err(e),
            }
        }),
{
    lemma_write_header(m, header_type, header, body_length);
    let (wrapped, root) = write_header(m, header_type, header, body_length);
    lemma_finish(wrapped, root);
    let table = wrapped.finish(root).bytes;
    let block = table + zeros(padding);
    let b = Site { buf: block, end: table.len() as int, far: false };
    assert(block.subrange(0, table.len() as int) =~= table);
    let last = wrapped.finish(root);
    assert(sits(last, b));
    lemma_sits(wrapped, last, b);
    lemma_extends_trans(m, wrapped, last);
    lemma_sits(m, last, b);
    assert(reads_header(b, root as int, header_type, header as int, body_length));
}

/// A message is found where its envelope was written, with its body after it.
pub proof fn lemma_message_found(
    stream: Seq<u8>,
    pos: int,
    metadata: Seq<u8>,
    alignment: int,
    body_length: int,
    limits: MessageLimits,
)
    requires
        0 <= pos,
        ({
            let total = envelope_len(metadata.len() as int, alignment);
            &&& pos + total + body_length <= stream.len() <= usize::MAX
            &&& stream.subrange(pos, pos + total) == envelope(metadata, alignment)
            &&& 0 < total - PREFIX_LEN <= i32::MAX
            &&& total - PREFIX_LEN <= limits.max_metadata_bytes
            &&& body_length_of(metadata + zeros((total - PREFIX_LEN - metadata.len()) as nat)) == Ok::<
                i64,
                IpcErrorModel,
            >(body_length as i64)
        }),
        0 <= body_length <= i64::MAX,
        body_length <= limits.max_body_bytes,
    ensures
        ({
            let total = envelope_len(metadata.len() as int, alignment);
            &&& message_at(stream, pos, limits) == Ok::<Option<RawModel>, IpcErrorModel>(
                Some(
                    RawModel {
                        metadata: pos + PREFIX_LEN,
                        body: pos + total,
                        next: pos + total + body_length,
                        continued: true,
                    },
                ),
            )
            &&& stream.subrange(pos + PREFIX_LEN, pos + total) == metadata + zeros(
                (total - PREFIX_LEN - metadata.len()) as nat,
            )
        }),
{
    let total = envelope_len(metadata.len() as int, alignment);
    crate::le::lemma_padded(PREFIX_LEN + metadata.len(), used_alignment(alignment));
    let pad = (total - PREFIX_LEN - metadata.len()) as nat;
    let whole = stream.subrange(pos, pos + total);
    let declared = (total - PREFIX_LEN) as i32;
    assert(whole == envelope(metadata, alignment));
    assert(stream.subrange(pos, pos + 4) =~= whole.subrange(0, 4));
    assert(whole.subrange(0, 4) =~= le_u32(CONTINUATION_MARKER));
    assert(stream.subrange(pos + 4, pos + 8) =~= whole.subrange(4, 8));
    assert(whole.subrange(4, 8) =~= le_i32(declared));
    assert(prefix_at(stream, pos) == Ok::<(int, i32, bool), IpcErrorModel>((pos + 8, declared, true)));
    let block = stream.subrange(pos + PREFIX_LEN, pos + total);
    assert(block =~= whole.subrange(8, total));
    assert(whole.subrange(8, total) =~= metadata + zeros(pad));
}

/// The end marker ends a stream, whatever follows it.
pub proof fn law_end_marker_ends_the_stream(before: Seq<u8>, after: Seq<u8>, limits: MessageLimits)
    ensures
        message_at(before + end_of_stream() + after, before.len() as int, limits) == Ok::<
            Option<RawModel>,
            IpcErrorModel,
        >(None),
{
    let stream = before + end_of_stream() + after;
    let pos = before.len() as int;
    assert(stream.subrange(pos, pos + 4) =~= le_u32(CONTINUATION_MARKER));
    assert(stream.subrange(pos + 4, pos + 8) =~= le_i32(0));
}

/// The end of the bytes at a message boundary ends a stream.
pub proof fn law_clean_end_ends_the_stream(stream: Seq<u8>, limits: MessageLimits)
    ensures
        message_at(stream, stream.len() as int, limits) == Ok::<Option<RawModel>, IpcErrorModel>(None),
{
}

/// A message framed without the marker is found like one framed with it: the
/// length comes first, then the same metadata and body.
pub proof fn law_legacy_framing_is_read(metadata: Seq<u8>, body: Seq<u8>, after: Seq<u8>, limits: MessageLimits)
    requires
        0 < metadata.len() <= i32::MAX,
        metadata.len() <= limits.max_metadata_bytes,
        body_length_of(metadata) == Ok::<i64, IpcErrorModel>(body.len() as i64),
        body.len() <= i64::MAX,
        body.len() <= limits.max_body_bytes,
        LEGACY_PREFIX_LEN + metadata.len() + body.len() + after.len() <= usize::MAX,
    ensures
        message_at(le_u32(metadata.len() as u32) + metadata + body + after, 0, limits) == Ok::<
            Option<RawModel>,
            IpcErrorModel,
        >(
            Some(
                RawModel {
                    metadata: LEGACY_PREFIX_LEN as int,
                    body: LEGACY_PREFIX_LEN + metadata.len(),
                    next: LEGACY_PREFIX_LEN + metadata.len() + body.len(),
                    continued: false,
                },
            ),
        ),
{
    let stream = le_u32(metadata.len() as u32) + metadata + body + after;
    assert(stream.subrange(0, 4) =~= le_u32(metadata.len() as u32));
    assert(stream.subrange(4, 4 + metadata.len() as int) =~= metadata);
}

/// The metadata of a schema message, padding included.
pub open spec fn schema_block(s: SchemaModel, alignment: int) -> Seq<u8> {
    let table = schema_message(s);
    table + zeros((envelope_len(table.len() as int, alignment) - PREFIX_LEN - table.len()) as nat)
}

/// A schema message says that it is one, of the current version, without a
/// body, and its header is the schema, where the sizes in it are positive.
pub proof fn lemma_schema_block(s: SchemaModel, alignment: int)
    requires
        writable(s),
        envelope_len(schema_message(s).len() as int, alignment) - PREFIX_LEN <= i32::MAX,
    ensures
        body_length_of(schema_block(s, alignment)) == Ok::<i64, IpcErrorModel>(0),
        info_of(schema_block(s, alignment)) matches Ok(info) && info.version == MetadataVersion::V5
            && info.header_type == message_header::SCHEMA && info.body_length == 0 && (all_sizes_positive(s.fields)
            ==> schema_at(info.header) == Ok::<SchemaModel, IpcErrorModel>(s)),
        0 < schema_message(s).len(),
{
    let e = FbModel::empty();
    lemma_write_schema(e, s);
    let (m, header) = write_schema(e, s);
    let (wrapped, root) = write_header(m, message_header::SCHEMA, header, 0);
    let table = wrapped.finish(root).bytes;
    assert(table == schema_message(s));
    let total = envelope_len(table.len() as int, alignment);
    crate::le::lemma_padded(PREFIX_LEN + table.len(), used_alignment(alignment));
    let pad = (total - PREFIX_LEN - table.len()) as nat;
    lemma_near_message(m, message_header::SCHEMA, header, 0);
    lemma_message_block(m, message_header::SCHEMA, header, 0, pad);
    let block = table + zeros(pad);
    let b = Site { buf: block, end: table.len() as int, far: false };
    assert(reads_schema(b, header as int, s));
}

/// A finished message decodes as it was built: version, header type, body
/// length, and the header is the table that was handed over, with its fields
/// where they were written.
pub proof fn law_built_message_decodes(
    m: FbModel,
    header_type: u8,
    header: nat,
    locs: Seq<(nat, nat)>,
    body_length: i64,
)
    requires
        m.wf(),
        !m.open,
        holds_table(m, header as int, locs),
        ({
            let (wrapped, root) = write_header(m, header_type, header, body_length);
            reachable(wrapped.finish(root))
        }),
    ensures
        ({
            let (wrapped, root) = write_header(m, header_type, header, body_length);
            let metadata = wrapped.finish(root).bytes;
            info_of(metadata) matches Ok(info) && {
                &&& info.version == MetadataVersion::V5
                &&& info.header_type == header_type
                &&& info.body_length == body_length
                &&& table_at(metadata, metadata.len() - header) == Ok::<TableModel, IpcErrorModel>(info.header)
                &&& table_reads(Site { buf: metadata, end: metadata.len() as int, far: false }, header as int, locs)
            }
        }),
{
    lemma_message_block(m, header_type, header, body_length, 0);
    let (wrapped, root) = write_header(m, header_type, header, body_length);
    let metadata = wrapped.finish(root).bytes;
    assert(metadata + zeros(0) =~= metadata);
    let b = Site { buf: metadata, end: metadata.len() as int, far: false };
    assert(sits(m, b));
    assert(table_reads(b, header as int, locs));
}

/// A written schema message is scanned whole: with the marker, without a body,
/// up to its end. Cut anywhere within, it ends unexpectedly.
pub proof fn law_schema_message_is_scanned(s: SchemaModel, alignment: int, limits: MessageLimits)
    requires
        writable(s),
        ({
            let total = envelope_len(schema_message(s).len() as int, alignment);
            &&& total - PREFIX_LEN <= i32::MAX
            &&& total - PREFIX_LEN <= limits.max_metadata_bytes
            &&& total <= usize::MAX
        }),
    ensures
        ({
            let written = envelope(schema_message(s), alignment);
            let end = written.len() as int;
            &&& message_at(written, 0, limits) == Ok::<Option<RawModel>, IpcErrorModel>(
                Some(RawModel { metadata: PREFIX_LEN as int, body: end, next: end, continued: true }),
            )
            &&& forall|cut: int|
                0 < cut < end ==> (#[trigger] message_at(written.take(cut), 0, limits) matches Err(e)
                    && e is UnexpectedEndOfStream && malformed_model(e))
        }),
{
    let table = schema_message(s);
    let written = envelope(table, alignment);
    let total = envelope_len(table.len() as int, alignment);
    crate::le::lemma_padded(PREFIX_LEN + table.len(), used_alignment(alignment));
    assert(written.len() == total);
    lemma_schema_block(s, alignment);
    assert(written.subrange(0, total) =~= written);
    lemma_message_found(written, 0, table, alignment, 0, limits);
    assert forall|cut: int| 0 < cut < written.len() implies (#[trigger] message_at(
        written.take(cut),
        0,
        limits,
    ) matches Err(e) && e is UnexpectedEndOfStream && malformed_model(e)) by {
        law_cut_message_is_refused(written, 0, cut, limits);
    }
}

/// A written schema message, whatever is before and after it, is found at its
/// place, and decoding it gives the schema back.
pub proof fn law_schema_message_round_trips(
    before: Seq<u8>,
    s: SchemaModel,
    alignment: int,
    after: Seq<u8>,
    limits: MessageLimits,
)
    requires
        encodable(s),
        ({
            let total = envelope_len(schema_message(s).len() as int, alignment);
            &&& total - PREFIX_LEN <= i32::MAX
            &&& total - PREFIX_LEN <= limits.max_metadata_bytes
            &&& before.len() + total + after.len() <= usize::MAX
        }),
    ensures
        ({
            let written = envelope(schema_message(s), alignment);
            let stream = before + written + after;
            let start = before.len() + PREFIX_LEN;
            let end = (before.len() + written.len()) as int;
            &&& message_at(stream, before.len() as int, limits) == Ok::<Option<RawModel>, IpcErrorModel>(
                Some(RawModel { metadata: start as int, body: end, next: end, continued: true }),
            )
            &&& info_of(stream.subrange(start as int, end)) matches Ok(info) && info.header_type
                == message_header::SCHEMA && schema_at(info.header) == Ok::<SchemaModel, IpcErrorModel>(s)
        }),
{
    let table = schema_message(s);
    let written = envelope(table, alignment);
    let stream = before + written + after;
    let total = envelope_len(table.len() as int, alignment);
    crate::le::lemma_padded(PREFIX_LEN + table.len(), used_alignment(alignment));
    assert(written.len() == total);
    lemma_schema_block(s, alignment);
    let pos = before.len() as int;
    assert(stream.subrange(pos, pos + total) =~= written);
    lemma_message_found(stream, pos, table, alignment, 0, limits);
}

} // verus!
