//! Reading a stream: a schema, then batches until the end.
//!
//! A stream ends at its marker, or at the end of the bytes where a message
//! could begin. Decoded columns are windows of the bytes the reader was given.
use vstd::prelude::*;
use vstd::slice::slice_subrange;
use std::sync::Arc;
use crate::buffer::{share, Buffer};
use crate::datatype::SchemaModel;
use crate::ipc::decode::{assemble_batch, columns_at, decode_columns, decoded, first};
use crate::ipc::error::{IpcError, IpcErrorModel};
use crate::ipc::fb::reader::{bad, SpanModel, Table, TableModel};
use crate::ipc::format::{body_compression, message_header, record_batch};
use crate::ipc::message::{
    decode_message, info_of, message_at, over_cap, scan_message, MessageLimits, MAX_METADATA_BYTES,
};
use crate::ipc::schema::{decode_schema, schema_at};
use crate::le::{copy_bytes, extend};
use crate::record_batch::{make_batch, BatchV, RecordBatch};
use crate::schema::Schema;

verus! {

/// The default cap on a stream read from a source.
pub const DEFAULT_MAX_STREAM_BYTES: usize = 1_073_741_824;

/// How much is read from a source at a time.
pub const READ_CHUNK: usize = 65_536;

/// What a reader accepts.
#[derive(Debug, Clone, Copy, PartialEq, Eq)]
#[non_exhaustive]
pub struct ReadOptions {
    /// Caps on one message.
    pub limits: MessageLimits,
    /// Cap on a whole stream read from a source.
    pub max_stream_bytes: usize,
}

/// The default options.
pub open spec fn default_options() -> ReadOptions {
    ReadOptions {
        limits: MessageLimits {
            max_metadata_bytes: MAX_METADATA_BYTES,
            max_body_bytes: crate::MAX_PAYLOAD_BYTES,
        },
        max_stream_bytes: DEFAULT_MAX_STREAM_BYTES,
    }
}

impl Default for ReadOptions {
    fn default() -> (r: Self)
        ensures
            r == default_options(),
    {
        ReadOptions { limits: MessageLimits::default(), max_stream_bytes: DEFAULT_MAX_STREAM_BYTES }
    }
}

impl ReadOptions {
    /// The defaults.
    #[must_use]
    pub fn new() -> (r: Self)
        ensures
            r == default_options(),
    {
        ReadOptions::default()
    }

    /// Sets the caps on one message.
    #[must_use]
    pub fn with_limits(self, limits: MessageLimits) -> (r: Self)
        ensures
            r == (ReadOptions { limits, ..self }),
    {
        ReadOptions { limits, max_stream_bytes: self.max_stream_bytes }
    }

    /// Sets the cap on a whole stream read from a source.
    #[must_use]
    pub fn with_max_stream_bytes(self, bytes: usize) -> (r: Self)
        ensures
            r == (ReadOptions { max_stream_bytes: bytes, ..self }),
    {
        ReadOptions { limits: self.limits, max_stream_bytes: bytes }
    }
}

/// The first `count` pairs of a vector.
pub open spec fn pairs_of(span: SpanModel, count: nat) -> Result<Seq<(i64, i64)>, IpcErrorModel>
    decreases count,
{
    if count == 0 {
        Ok(Seq::empty())
    } else {
        match pairs_of(span, (count - 1) as nat) {
            Err(e) => Err(e),
            Ok(before) => match span.pair_item(count - 1) {
                Err(e) => Err(e),
                Ok(pair) => Ok(before.push(pair)),
            },
        }
    }
}

/// The pairs in a slot of a table, none where the slot is empty.
pub open spec fn pairs_at(t: TableModel, slot: int) -> Result<Seq<(i64, i64)>, IpcErrorModel> {
    match t.vector_field(slot, 16) {
        Err(e) => Err(e),
        Ok(None) => Ok(Seq::empty()),
        Ok(Some(span)) => pairs_of(span, span.len as nat),
    }
}

proof fn lemma_pairs_error(span: SpanModel, count: nat, all: nat, e: IpcErrorModel)
    requires
        count <= all,
        pairs_of(span, count) == Err::<Seq<(i64, i64)>, IpcErrorModel>(e),
    ensures
        pairs_of(span, all) == Err::<Seq<(i64, i64)>, IpcErrorModel>(e),
    decreases all,
{
    if count < all {
        lemma_pairs_error(span, count, (all - 1) as nat, e);
    }
}

/// Reads the pairs in a slot of a table.
fn read_pairs(table: &Table<'_>, slot: usize) -> (r: Result<Vec<(i64, i64)>, IpcError>)
    ensures
        match r {
            Ok(v) => pairs_at(table@, slot as int) == Ok::<Seq<(i64, i64)>, IpcErrorModel>(v@),
            Err(e) => pairs_at(table@, slot as int) == Err::<Seq<(i64, i64)>, IpcErrorModel>(e@),
        },
{
    let vector = match table.vector(slot, 16) {
        Ok(Some(vector)) => vector,
        Ok(None) => {
            return Ok(Vec::new());
        },
        Err(e) => {
            return Err(e);
        },
    };
    let count: usize = vector.len();
    let ghost span = vector@;
    let mut pairs: Vec<(i64, i64)> = Vec::with_capacity(count);
    let mut i: usize = 0;
    while i < count
        invariant
            0 <= i <= count,
            span == vector@,
            count == span.len,
            pairs_of(span, i as nat) == Ok::<Seq<(i64, i64)>, IpcErrorModel>(pairs@),
            pairs_at(table@, slot as int) == pairs_of(span, count as nat),
        decreases count - i,
    {
        match vector.struct_pair(i) {
            Ok(pair) => {
                pairs.push(pair);
            },
            Err(e) => {
                proof {
                    lemma_pairs_error(span, (i + 1) as nat, count as nat, e@);
                }
                return Err(e);
            },
        }
        i = i + 1;
    }
    Ok(pairs)
}

/// Why a message that is no record batch is refused.
pub open spec fn header_error(header_type: u8) -> Option<IpcErrorModel> {
    if header_type == message_header::RECORD_BATCH {
        None
    } else if header_type == message_header::DICTIONARY_BATCH {
        Some(IpcErrorModel::UnsupportedDictionary)
    } else if header_type == message_header::SCHEMA {
        Some(IpcErrorModel::UnexpectedMessage { expected: "RecordBatch"@, found: "Schema"@ })
    } else {
        Some(
            IpcErrorModel::UnsupportedMessageHeader {
                header: header_type,
                name: message_header::name_model(header_type),
            },
        )
    }
}

/// The batch a record batch header and a body say.
pub open spec fn batch_of(header: TableModel, body: Seq<u8>, s: SchemaModel, metadata: int) -> Result<
    BatchV,
    IpcErrorModel,
> {
    match header.table_field(record_batch::COMPRESSION as int) {
        Err(e) => Err(e),
        Ok(Some(compression)) => match compression.i8_field(body_compression::CODEC as int, 0) {
            Err(e) => Err(e),
            Ok(codec) => Err(IpcErrorModel::UnsupportedCompression { codec }),
        },
        Ok(None) => match header.i64_field(record_batch::LENGTH as int, 0) {
            Err(e) => Err(e),
            Ok(rows) => if rows < 0 || rows > usize::MAX {
                Err(bad("RecordBatch.length"@, metadata))
            } else {
                match pairs_at(header, record_batch::NODES as int) {
                    Err(e) => Err(e),
                    Ok(nodes) => match pairs_at(header, record_batch::BUFFERS as int) {
                        Err(e) => Err(e),
                        Ok(buffers) => match columns_at(s.fields, rows as nat, first(body, nodes, buffers)) {
                            Err(e) => Err(e),
                            Ok(columns) => match make_batch(s, columns, decoded(rows as nat)) {
                                Err(e) => Err(IpcErrorModel::Data(e)),
                                Ok(b) => Ok(b),
                            },
                        },
                    },
                }
            },
        },
    }
}

/// The batch at `pos` of a stream and where the next message starts, or nothing
/// where the stream ends.
#[verifier::opaque]
pub open spec fn batch_at(bytes: Seq<u8>, pos: int, s: SchemaModel, limits: MessageLimits) -> Result<
    Option<(BatchV, int)>,
    IpcErrorModel,
> {
    match message_at(bytes, pos, limits) {
        Err(e) => Err(e),
        Ok(None) => Ok(None),
        Ok(Some(m)) => match info_of(bytes.subrange(m.metadata, m.body)) {
            Err(e) => Err(e),
            Ok(info) => match header_error(info.header_type) {
                Some(e) => Err(e),
                None => match batch_of(info.header, bytes.subrange(m.body, m.next), s, m.metadata) {
                    Err(e) => Err(e),
                    Ok(b) => Ok(Some((b, m.next))),
                },
            },
        },
    }
}

/// The schema a stream begins with, and where its batches begin.
pub open spec fn opening(bytes: Seq<u8>, limits: MessageLimits) -> Result<(SchemaModel, int), IpcErrorModel> {
    match message_at(bytes, 0, limits) {
        Err(e) => Err(e),
        Ok(None) => Err(IpcErrorModel::EmptyStream),
        Ok(Some(m)) => match info_of(bytes.subrange(m.metadata, m.body)) {
            Err(e) => Err(e),
            Ok(info) => if info.header_type != message_header::SCHEMA {
                Err(
                    IpcErrorModel::UnexpectedMessage {
                        expected: "Schema"@,
                        found: message_header::name_model(info.header_type),
                    },
                )
            } else {
                match schema_at(info.header) {
                    Err(e) => Err(e),
                    Ok(s) => Ok((s, m.next)),
                }
            },
        },
    }
}

/// What follows in a stream: batches, where they end, and why they end before
/// the stream does.
pub struct RestV {
    pub batches: Seq<BatchV>,
    pub end: int,
    pub error: Option<IpcErrorModel>,
}

/// What follows from `pos` on.
pub open spec fn rest_at(bytes: Seq<u8>, pos: int, s: SchemaModel, limits: MessageLimits) -> RestV
    decreases bytes.len() - pos,
{
    match batch_at(bytes, pos, s, limits) {
        Err(e) => RestV { batches: Seq::empty(), end: pos, error: Some(e) },
        Ok(None) => RestV { batches: Seq::empty(), end: pos, error: None },
        Ok(Some((b, next))) => if pos < next <= bytes.len() {
            let rest = rest_at(bytes, next, s, limits);
            RestV { batches: seq![b] + rest.batches, ..rest }
        } else {
            RestV { batches: Seq::empty(), end: pos, error: None }
        },
    }
}

/// A reader's state.
pub struct ReaderV {
    pub bytes: Seq<u8>,
    pub schema: SchemaModel,
    pub position: nat,
    pub limits: MessageLimits,
    pub batches: nat,
    pub finished: bool,
}

/// The state of a reader that was just opened.
pub open spec fn reader_at(bytes: Seq<u8>, s: SchemaModel, position: int, limits: MessageLimits) -> ReaderV {
    ReaderV { bytes, schema: s, position: position as nat, limits, batches: 0, finished: false }
}

/// Reads a stream held in memory.
#[derive(Debug)]
pub struct IpcStreamReader {
    bytes: Buffer,
    schema: Arc<Schema>,
    position: usize,
    options: ReadOptions,
    batches_read: usize,
    finished: bool,
}

impl View for IpcStreamReader {
    type V = ReaderV;

    closed spec fn view(&self) -> ReaderV {
        ReaderV {
            bytes: self.bytes@,
            schema: self.schema@,
            position: self.position as nat,
            limits: self.options.limits,
            batches: self.batches_read as nat,
            finished: self.finished,
        }
    }
}

/// What opening a reader does.
pub open spec fn reader_opened(
    r: Result<IpcStreamReader, IpcError>,
    bytes: Seq<u8>,
    limits: MessageLimits,
) -> bool {
    match r {
        Ok(reader) => opening(bytes, limits) matches Ok((s, position)) && reader@ == reader_at(
            bytes,
            s,
            position,
            limits,
        ),
        Err(e) => opening(bytes, limits) == Err::<(SchemaModel, int), IpcErrorModel>(e@),
    }
}

/// How much of a source was read when the cap was passed: whole chunks, the
/// last one cut at the end of the source.
pub open spec fn read_when_over(len: int, cap: int) -> int {
    let chunks = (cap / READ_CHUNK as int + 1) * READ_CHUNK;
    if chunks < len {
        chunks
    } else {
        len
    }
}

/// Appends what a source gave to what was read before, under the cap.
pub fn take_chunk(buffer: &mut Vec<u8>, chunk: &[u8], options: ReadOptions) -> (r: Result<(), IpcError>)
    ensures
        match r {
            Ok(_) => old(buffer)@.len() + chunk@.len() <= options.max_stream_bytes && final(buffer)@
                == old(buffer)@ + chunk@,
            Err(e) => old(buffer)@.len() + chunk@.len() > options.max_stream_bytes && final(buffer)@
                == old(buffer)@ && e@ == over_cap(
                "stream"@,
                (old(buffer)@.len() + chunk@.len()) as int,
                options.max_stream_bytes as int,
            ),
        },
{
    let total: u128 = buffer.len() as u128 + chunk.len() as u128;
    if total > options.max_stream_bytes as u128 {
        return Err(
            IpcError::TooLarge {
                what: "stream",
                length: #[verifier::truncate] (total as u64),
                cap: options.max_stream_bytes as u64,
            },
        );
    }
    extend(buffer, chunk);
    Ok(())
}

/// Reads a source chunk by chunk.
fn read_source(source: &[u8], options: ReadOptions) -> (r: Result<Vec<u8>, IpcError>)
    ensures
        match r {
            Ok(bytes) => source@.len() <= options.max_stream_bytes && bytes@ == source@,
            Err(e) => source@.len() > options.max_stream_bytes && e@ == over_cap(
                "stream"@,
                read_when_over(source@.len() as int, options.max_stream_bytes as int),
                options.max_stream_bytes as int,
            ),
        },
{
    let mut buffer: Vec<u8> = Vec::new();
    let mut at: usize = 0;
    assert(buffer@ =~= source@.take(0));
    while at < source.len()
        invariant
            0 <= at <= source@.len(),
            at % READ_CHUNK == 0 || at == source@.len(),
            at <= options.max_stream_bytes,
            buffer@ == source@.take(at as int),
        decreases source@.len() - at,
    {
        let left: usize = source.len() - at;
        let count: usize = if left < READ_CHUNK {
            left
        } else {
            READ_CHUNK
        };
        match take_chunk(&mut buffer, slice_subrange(source, at, at + count), options) {
            Ok(_) => {},
            Err(e) => {
                return Err(e);
            },
        }
        assert(buffer@ =~= source@.take(at + count));
        at = at + count;
    }
    assert(source@.take(at as int) =~= source@);
    Ok(buffer)
}

impl IpcStreamReader {
    /// No more batches were read than bytes passed.
    #[verifier::type_invariant]
    closed spec fn counted(self) -> bool {
        self.batches_read <= self.position <= self.bytes@.len()
    }

    /// Opens a stream in memory, bytes shared.
    pub fn new(bytes: Buffer) -> (r: Result<IpcStreamReader, IpcError>)
        ensures
            reader_opened(r, bytes@, default_options().limits),
    {
        IpcStreamReader::with_options(bytes, ReadOptions::new())
    }

    /// The same with options.
    pub fn with_options(bytes: Buffer, options: ReadOptions) -> (r: Result<IpcStreamReader, IpcError>)
        ensures
            reader_opened(r, bytes@, options.limits),
    {
        let stream = bytes.as_slice();
        let message = match scan_message(stream, 0, &options.limits) {
            Ok(Some(message)) => message,
            Ok(None) => {
                return Err(IpcError::EmptyStream);
            },
            Err(e) => {
                return Err(e);
            },
        };
        let info = match decode_message(slice_subrange(stream, message.metadata.start, message.metadata.end)) {
            Ok(info) => info,
            Err(e) => {
                return Err(e);
            },
        };
        if info.header_type != message_header::SCHEMA {
            return Err(
                IpcError::UnexpectedMessage {
                    expected: "Schema",
                    found: message_header::name(info.header_type),
                },
            );
        }
        let schema = match decode_schema(&info.header) {
            Ok(schema) => schema,
            Err(e) => {
                return Err(e);
            },
        };
        Ok(
            IpcStreamReader {
                bytes,
                schema: Arc::new(schema),
                position: message.next,
                options,
                batches_read: 0,
                finished: false,
            },
        )
    }

    /// Opens a stream in memory, bytes copied.
    pub fn from_slice(bytes: &[u8]) -> (r: Result<IpcStreamReader, IpcError>)
        ensures
            reader_opened(r, bytes@, default_options().limits),
    {
        IpcStreamReader::new(Buffer::from_vec(copy_bytes(bytes)))
    }

    /// Reads a source whole and opens the stream in it.
    pub fn from_reader(source: &[u8]) -> (r: Result<IpcStreamReader, IpcError>)
        ensures
            source_opened(r, source@, default_options()),
    {
        IpcStreamReader::from_reader_with_options(source, ReadOptions::new())
    }

    /// The same with options: a source over the cap is refused.
    pub fn from_reader_with_options(source: &[u8], options: ReadOptions) -> (r: Result<IpcStreamReader, IpcError>)
        ensures
            source_opened(r, source@, options),
    {
        match read_source(source, options) {
            Ok(bytes) => IpcStreamReader::with_options(Buffer::from_vec(bytes), options),
            Err(e) => Err(e),
        }
    }

    /// The stream's schema.
    #[must_use]
    pub fn schema(&self) -> (r: &Arc<Schema>)
        ensures
            r@ == self@.schema,
    {
        &self.schema
    }

    /// Another handle to the schema.
    #[must_use]
    pub fn schema_ref(&self) -> (r: Arc<Schema>)
        ensures
            r@ == self@.schema,
    {
        share(&self.schema)
    }

    /// Where the next message starts.
    #[must_use]
    pub fn position(&self) -> (r: usize)
        ensures
            r == self@.position,
    {
        self.position
    }

    /// Batches read.
    #[must_use]
    pub fn batches_read(&self) -> (r: usize)
        ensures
            r == self@.batches,
    {
        self.batches_read
    }

    /// Whether the stream has ended.
    #[must_use]
    pub fn is_finished(&self) -> (r: bool)
        ensures
            r == self@.finished,
    {
        self.finished
    }

    /// The stream.
    #[must_use]
    pub fn bytes(&self) -> (r: &Buffer)
        ensures
            r@ == self@.bytes,
    {
        &self.bytes
    }

    /// Decodes the message at the position.
    fn batch_here(&self) -> (r: Result<Option<(RecordBatch, usize)>, IpcError>)
        ensures
            match r {
                Ok(Some((b, next))) => batch_at(
                    self@.bytes,
                    self@.position as int,
                    self@.schema,
                    self@.limits,
                ) == Ok::<Option<(BatchV, int)>, IpcErrorModel>(Some((b@, next as int))) && self@.position
                    < next <= self@.bytes.len(),
                Ok(None) => batch_at(
                    self@.bytes,
                    self@.position as int,
                    self@.schema,
                    self@.limits,
                ) == Ok::<Option<(BatchV, int)>, IpcErrorModel>(None),
                Err(e) => batch_at(self@.bytes, self@.position as int, self@.schema, self@.limits) == Err::<
                    Option<(BatchV, int)>,
                    IpcErrorModel,
                >(e@),
            },
    {
        reveal(batch_at);
        let stream = self.bytes.as_slice();
        let message = match scan_message(stream, self.position, &self.options.limits) {
            Ok(Some(message)) => message,
            Ok(None) => {
                return Ok(None);
            },
            Err(e) => {
                return Err(e);
            },
        };
        let info = match decode_message(slice_subrange(stream, message.metadata.start, message.metadata.end)) {
            Ok(info) => info,
            Err(e) => {
                return Err(e);
            },
        };
        if info.header_type == message_header::DICTIONARY_BATCH {
            return Err(IpcError::UnsupportedDictionary);
        }
        if info.header_type == message_header::SCHEMA {
            return Err(IpcError::UnexpectedMessage { expected: "RecordBatch", found: "Schema" });
        }
        if info.header_type != message_header::RECORD_BATCH {
            return Err(
                IpcError::UnsupportedMessageHeader {
                    header: info.header_type,
                    name: message_header::name(info.header_type),
                },
            );
        }
        let body = self.bytes.slice(message.body.start, message.body.end - message.body.start);
        assert(body@ =~= self.bytes@.subrange(message.body.start as int, message.body.end as int));
        match read_batch(&info.header, &body, &self.schema, message.metadata.start) {
            Ok(batch) => Ok(Some((batch, message.next))),
            Err(e) => Err(e),
        }
    }

    /// Decodes the next batch. `Ok(None)` is the end of the stream.
    pub fn next_batch(&mut self) -> (r: Result<Option<RecordBatch>, IpcError>)
        ensures
            next_read(old(self)@, final(self)@, r),
    {
        if self.finished {
            return Ok(None);
        }
        proof {
            use_type_invariant(&*self);
        }
        match self.batch_here() {
            Ok(Some((batch, next))) => {
                self.position = next;
                self.batches_read = self.batches_read + 1;
                Ok(Some(batch))
            },
            Ok(None) => {
                self.finished = true;
                Ok(None)
            },
            Err(e) => Err(e),
        }
    }

    /// Decodes every batch that is left.
    pub fn read_all(&mut self) -> (r: Result<Vec<RecordBatch>, IpcError>)
        ensures
            ({
                let v = old(self)@;
                let rest = if v.finished {
                    RestV { batches: Seq::empty(), end: v.position as int, error: None }
                } else {
                    rest_at(v.bytes, v.position as int, v.schema, v.limits)
                };
                &&& final(self)@ == (ReaderV {
                    position: rest.end as nat,
                    batches: v.batches + rest.batches.len(),
                    finished: v.finished || rest.error is None,
                    ..v
                })
                &&& match r {
                    Ok(batches) => rest.error is None && batches_of(batches@) == rest.batches,
                    Err(e) => rest.error == Some(e@),
                }
            }),
    {
        let mut batches: Vec<RecordBatch> = Vec::new();
        let ghost v = self@;
        let ghost rest = rest_at(v.bytes, v.position as int, v.schema, v.limits);
        if self.finished {
            assert(batches_of(batches@) =~= Seq::<BatchV>::empty());
            return Ok(batches);
        }
        proof {
            assert(batches_of(batches@) + rest.batches =~= rest.batches);
        }
        loop
            invariant
                v == old(self)@,
                !v.finished,
                rest == rest_at(v.bytes, v.position as int, v.schema, v.limits),
                !self@.finished,
                self@.bytes == v.bytes,
                self@.schema == v.schema,
                self@.limits == v.limits,
                self@.batches == v.batches + batches@.len(),
                ({
                    let left = rest_at(v.bytes, self@.position as int, v.schema, v.limits);
                    &&& rest.batches == batches_of(batches@) + left.batches
                    &&& rest.end == left.end
                    &&& rest.error == left.error
                }),
            decreases self@.bytes.len() - self@.position,
        {
            let ghost before = batches@;
            let ghost at = self@.position as int;
            proof {
                use_type_invariant(&*self);
            }
            match self.next_batch() {
                Ok(Some(batch)) => {
                    batches.push(batch);
                    proof {
                        let left = rest_at(v.bytes, at, v.schema, v.limits);
                        let further = rest_at(v.bytes, self@.position as int, v.schema, v.limits);
                        assert(left.batches == seq![batch@] + further.batches);
                        assert(batches_of(batches@) =~= batches_of(before) + seq![batch@]);
                        assert(batches_of(before) + left.batches =~= batches_of(batches@) + further.batches);
                    }
                },
                Ok(None) => {
                    proof {
                        assert(rest.batches =~= batches_of(batches@));
                    }
                    return Ok(batches);
                },
                Err(e) => {
                    proof {
                        assert(rest.batches =~= batches_of(batches@));
                    }
                    return Err(e);
                },
            }
        }
    }

    /// Decodes the next batch, and nothing more after an error.
    pub fn next(&mut self) -> (r: Option<Result<RecordBatch, IpcError>>)
        ensures
            match r {
                None => next_read(old(self)@, final(self)@, Ok(None)),
                Some(Ok(b)) => next_read(old(self)@, final(self)@, Ok(Some(b))),
                Some(Err(e)) => !old(self)@.finished && next_read(
                    old(self)@,
                    old(self)@,
                    Err::<Option<RecordBatch>, IpcError>(e),
                ) && final(self)@ == (ReaderV { finished: true, ..old(self)@ }),
            },
    {
        match self.next_batch() {
            Ok(Some(batch)) => Some(Ok(batch)),
            Ok(None) => None,
            Err(e) => {
                proof {
                    use_type_invariant(&*self);
                }
                self.finished = true;
                Some(Err(e))
            },
        }
    }
}

/// What batches hold.
pub open spec fn batches_of(batches: Seq<RecordBatch>) -> Seq<BatchV> {
    Seq::new(batches.len(), |i: int| batches[i]@)
}

/// What opening a stream in a source does.
pub open spec fn source_opened(
    r: Result<IpcStreamReader, IpcError>,
    source: Seq<u8>,
    options: ReadOptions,
) -> bool {
    if source.len() > options.max_stream_bytes {
        r matches Err(e) && e@ == over_cap(
            "stream"@,
            read_when_over(source.len() as int, options.max_stream_bytes as int),
            options.max_stream_bytes as int,
        )
    } else {
        reader_opened(r, source, options.limits)
    }
}

/// What asking a reader for a batch does. A failed message leaves the reader
/// where it was.
pub open spec fn next_read(v: ReaderV, w: ReaderV, r: Result<Option<RecordBatch>, IpcError>) -> bool {
    let here = batch_at(v.bytes, v.position as int, v.schema, v.limits);
    if v.finished {
        w == v && r is Ok && r->Ok_0 is None
    } else {
        match r {
            Ok(Some(b)) => here matches Ok(Some((batch, next))) && batch == b@ && v.position < next
                <= v.bytes.len() && w == (ReaderV { position: next as nat, batches: v.batches + 1, ..v }),
            Ok(None) => here == Ok::<Option<(BatchV, int)>, IpcErrorModel>(None) && w == (ReaderV {
                finished: true,
                ..v
            }),
            Err(e) => here == Err::<Option<(BatchV, int)>, IpcErrorModel>(e@) && w == v,
        }
    }
}

/// Decodes a batch out of its header and its body.
fn read_batch(header: &Table<'_>, body: &Buffer, schema: &Arc<Schema>, metadata: usize) -> (r: Result<
    RecordBatch,
    IpcError,
>)
    ensures
        match r {
            Ok(b) => batch_of(header@, body@, schema@, metadata as int) == Ok::<BatchV, IpcErrorModel>(b@),
            Err(e) => batch_of(header@, body@, schema@, metadata as int) == Err::<BatchV, IpcErrorModel>(
                e@,
            ),
        },
{
    match header.table(record_batch::COMPRESSION) {
        Ok(None) => {},
        Ok(Some(compression)) => {
            return match compression.i8(body_compression::CODEC, 0) {
                Ok(codec) => Err(IpcError::UnsupportedCompression { codec }),
                Err(e) => Err(e),
            };
        },
        Err(e) => {
            return Err(e);
        },
    }
    let length: i64 = match header.i64(record_batch::LENGTH, 0) {
        Ok(length) => length,
        Err(e) => {
            return Err(e);
        },
    };
    if length < 0 || length as u64 > usize::MAX as u64 {
        return Err(IpcError::malformed("RecordBatch.length", metadata));
    }
    let rows: usize = length as usize;
    let nodes = match read_pairs(header, record_batch::NODES) {
        Ok(nodes) => nodes,
        Err(e) => {
            return Err(e);
        },
    };
    let buffers = match read_pairs(header, record_batch::BUFFERS) {
        Ok(buffers) => buffers,
        Err(e) => {
            return Err(e);
        },
    };
    let columns = match decode_columns(schema.fields(), rows, body, nodes.as_slice(), buffers.as_slice()) {
        Ok(columns) => columns,
        Err(e) => {
            return Err(e);
        },
    };
    assemble_batch(schema, columns, rows)
}

/// What decoding a whole stream gives.
pub open spec fn whole_stream(bytes: Seq<u8>, limits: MessageLimits) -> Result<
    (SchemaModel, Seq<BatchV>),
    IpcErrorModel,
> {
    match opening(bytes, limits) {
        Err(e) => Err(e),
        Ok((s, position)) => {
            let rest = rest_at(bytes, position, s, limits);
            match rest.error {
                Some(e) => Err(e),
                None => Ok((s, rest.batches)),
            }
        },
    }
}

/// What reading a whole stream does.
pub open spec fn stream_read(
    r: Result<(Arc<Schema>, Vec<RecordBatch>), IpcError>,
    bytes: Seq<u8>,
    limits: MessageLimits,
) -> bool {
    match r {
        Ok((s, batches)) => whole_stream(bytes, limits) == Ok::<(SchemaModel, Seq<BatchV>), IpcErrorModel>(
            (s@, batches_of(batches@)),
        ),
        Err(e) => whole_stream(bytes, limits) == Err::<(SchemaModel, Seq<BatchV>), IpcErrorModel>(e@),
    }
}

/// Decodes a whole stream.
pub fn read_ipc_stream(bytes: &[u8]) -> (r: Result<(Arc<Schema>, Vec<RecordBatch>), IpcError>)
    ensures
        stream_read(r, bytes@, default_options().limits),
{
    match IpcStreamReader::from_slice(bytes) {
        Ok(mut reader) => match reader.read_all() {
            Ok(batches) => Ok((reader.schema_ref(), batches)),
            Err(e) => Err(e),
        },
        Err(e) => Err(e),
    }
}

/// Decodes a whole stream out of a source.
pub fn read_ipc_stream_from(source: &[u8]) -> (r: Result<(Arc<Schema>, Vec<RecordBatch>), IpcError>)
    ensures
        if source@.len() > DEFAULT_MAX_STREAM_BYTES {
            r matches Err(e) && e@ == over_cap(
                "stream"@,
                read_when_over(source@.len() as int, DEFAULT_MAX_STREAM_BYTES as int),
                DEFAULT_MAX_STREAM_BYTES as int,
            )
        } else {
            stream_read(r, source@, default_options().limits)
        },
{
    match IpcStreamReader::from_reader(source) {
        Ok(mut reader) => match reader.read_all() {
            Ok(batches) => Ok((reader.schema_ref(), batches)),
            Err(e) => Err(e),
        },
        Err(e) => Err(e),
    }
}

} // verus!
