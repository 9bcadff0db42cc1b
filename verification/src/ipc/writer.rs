//! Writing a stream: a schema message, batch messages, the end marker.
//!
//! Every message and every buffer in a body starts on the alignment boundary.
use vstd::prelude::*;
use std::sync::Arc;
use crate::datatype::SchemaModel;
use crate::ipc::encode::{plan_error, plan_fits, BatchLayout};
use crate::ipc::error::{IpcError, IpcErrorModel};
use crate::ipc::fb::builder::{FbBuilder, FbModel};
use crate::ipc::format::{message_header, record_batch, DEFAULT_MESSAGE_ALIGNMENT};
use crate::ipc::layout::{depth_of_all, MAX_NESTING_DEPTH};
use crate::ipc::message::{
    build_message, build_schema_message, end_of_stream, envelope, envelope_len, over_cap, schema_message,
    used_alignment, write_end_of_stream, write_header, write_message, PREFIX_LEN,
};
use crate::ipc::schema::{closed_table, too_deep};
use crate::ipc::wire::{body_bytes, body_offset, body_total, column_buffers, column_depth, column_nodes, lemma_body_len};
use crate::record_batch::{BatchV, RecordBatch};
use crate::schema::Schema;

verus! {

/// The first of `p`, twice `p`, and so on that is no less than `n`.
pub open spec fn doubled_to(p: nat, n: nat) -> nat
    decreases 2 * n - p,
{
    if p >= n || p == 0 {
        p
    } else {
        doubled_to(2 * p, n)
    }
}

/// The smallest power of two that is no less than `alignment`, eight at least.
pub open spec fn rounded_alignment(alignment: nat) -> nat {
    doubled_to(8, alignment)
}

/// How a stream is framed.
#[derive(Debug, Clone, Copy, PartialEq, Eq, Hash)]
#[non_exhaustive]
pub struct WriteOptions {
    alignment: usize,
}

impl View for WriteOptions {
    type V = nat;

    /// The boundary messages and buffers start on.
    closed spec fn view(&self) -> nat {
        self.alignment as nat
    }
}

impl Default for WriteOptions {
    fn default() -> (r: Self)
        ensures
            r@ == DEFAULT_MESSAGE_ALIGNMENT,
    {
        WriteOptions { alignment: DEFAULT_MESSAGE_ALIGNMENT }
    }
}

impl WriteOptions {
    #[verifier::type_invariant]
    closed spec fn inv(self) -> bool {
        self.alignment >= 8 && self.alignment % 8 == 0
    }

    /// The defaults.
    #[must_use]
    pub fn new() -> (r: Self)
        ensures
            r@ == DEFAULT_MESSAGE_ALIGNMENT,
    {
        WriteOptions::default()
    }

    /// Sets the alignment, rounded up to a power of two, eight at least.
    #[must_use]
    pub fn with_alignment(self, alignment: usize) -> (r: Self)
        requires
            alignment <= usize::MAX / 2 + 1,
        ensures
            r@ == rounded_alignment(alignment as nat),
    {
        let mut rounded: usize = 8;
        while rounded < alignment
            invariant
                8 <= rounded,
                rounded % 8 == 0,
                alignment <= usize::MAX / 2 + 1,
                doubled_to(rounded as nat, alignment as nat) == rounded_alignment(alignment as nat),
            decreases 2 * alignment - rounded,
        {
            rounded = rounded * 2;
        }
        WriteOptions { alignment: rounded }
    }

    /// The alignment: a multiple of eight.
    #[must_use]
    pub fn alignment(&self) -> (r: usize)
        ensures
            r == self@,
            r >= 8,
            r % 8 == 0,
    {
        proof {
            use_type_invariant(self);
        }
        self.alignment
    }
}

/// A row count as the header holds it.
pub open spec fn row_count(rows: nat) -> i64 {
    if rows > i64::MAX {
        i64::MAX
    } else {
        rows as i64
    }
}

/// Nodes as the header holds them.
pub open spec fn node_pairs(nodes: Seq<(nat, nat)>) -> Seq<(i64, i64)> {
    Seq::new(nodes.len(), |i: int| (nodes[i].0 as i64, nodes[i].1 as i64))
}

/// Where the buffers of a body are, as the header holds it.
pub open spec fn buffer_pairs(body: Seq<Seq<u8>>, alignment: int) -> Seq<(i64, i64)> {
    Seq::new(body.len(), |i: int| (body_offset(body, i, alignment) as i64, body[i].len() as i64))
}

/// The fields of a record batch table.
pub open spec fn batch_slots(m: FbModel, rows: i64, nodes: nat, buffers: nat) -> FbModel {
    m.slot_i64(record_batch::LENGTH as nat, rows, 0).slot_offset(
        record_batch::NODES as nat,
        nodes,
    ).slot_offset(record_batch::BUFFERS as nat, buffers)
}

/// The state with a record batch table written, and its distance.
pub open spec fn write_batch(m: FbModel, rows: i64, nodes: Seq<(i64, i64)>, buffers: Seq<(i64, i64)>) -> (
    FbModel,
    nat,
) {
    let m1 = m.create_struct_pair_vector(nodes);
    let m2 = m1.create_struct_pair_vector(buffers);
    closed_table(
        batch_slots(m2.start_table(), rows, m1.bytes.len(), m2.bytes.len()),
        m2.bytes.len(),
    )
}

/// The finished message of a batch.
pub open spec fn batch_message_state(b: BatchV, alignment: int) -> FbModel {
    let body = column_buffers(b.columns);
    let boundary = used_alignment(alignment);
    let (m, header) = write_batch(
        FbModel::empty(),
        row_count(b.rows),
        node_pairs(column_nodes(b.columns)),
        buffer_pairs(body, boundary),
    );
    let (wrapped, root) = write_header(
        m,
        message_header::RECORD_BATCH,
        header,
        body_total(body, boundary) as i64,
    );
    wrapped.finish(root)
}

/// The message table of a batch, as bytes.
pub open spec fn batch_message(b: BatchV, alignment: int) -> Seq<u8> {
    batch_message_state(b, alignment).bytes
}

/// A batch in a stream: the envelope, then the body.
pub open spec fn frame(b: BatchV, alignment: int) -> Seq<u8> {
    envelope(batch_message(b, alignment), alignment) + body_bytes(
        column_buffers(b.columns),
        used_alignment(alignment),
    )
}

/// Batches in a stream.
pub open spec fn frames(batches: Seq<BatchV>, alignment: int) -> Seq<u8>
    decreases batches.len(),
{
    if batches.len() == 0 {
        Seq::empty()
    } else {
        frames(batches.drop_last(), alignment) + frame(batches.last(), alignment)
    }
}

/// A whole stream.
pub open spec fn stream_bytes(s: SchemaModel, batches: Seq<BatchV>, alignment: int) -> Seq<u8> {
    envelope(schema_message(s), alignment) + frames(batches, alignment) + end_of_stream()
}

/// Whether an envelope's length fits its prefix.
pub open spec fn envelope_fits(metadata_len: int, alignment: int) -> bool {
    envelope_len(metadata_len, alignment) - PREFIX_LEN <= i32::MAX
}

/// The error of an envelope whose length does not fit.
pub open spec fn envelope_error(metadata_len: int, alignment: int) -> IpcErrorModel {
    over_cap("metadata"@, envelope_len(metadata_len, alignment) - PREFIX_LEN, i32::MAX as int)
}

/// Whether a stream with this schema can be opened.
pub open spec fn can_open(s: SchemaModel, alignment: int) -> bool {
    depth_of_all(s.fields) <= MAX_NESTING_DEPTH && envelope_fits(
        schema_message(s).len() as int,
        alignment,
    )
}

/// Why a stream with this schema is not opened.
pub open spec fn open_error(s: SchemaModel, alignment: int) -> IpcErrorModel {
    if depth_of_all(s.fields) > MAX_NESTING_DEPTH {
        too_deep(1)
    } else {
        envelope_error(schema_message(s).len() as int, alignment)
    }
}

/// Whether a batch can be written into a stream of this schema.
pub open spec fn can_write(s: SchemaModel, b: BatchV, alignment: int) -> bool {
    &&& b.schema == s
    &&& column_depth(b.columns) <= MAX_NESTING_DEPTH
    &&& plan_fits(column_nodes(b.columns), column_buffers(b.columns), used_alignment(alignment))
    &&& envelope_fits(batch_message(b, alignment).len() as int, alignment)
}

/// Why batch number `index` is not written: another schema, or what has no
/// place in a message.
pub open spec fn write_error(s: SchemaModel, b: BatchV, index: int, alignment: int) -> IpcErrorModel {
    if b.schema != s {
        IpcErrorModel::SchemaMismatch { index: index as usize }
    } else {
        match plan_error(b.columns, used_alignment(alignment)) {
            Some(e) => e,
            None => envelope_error(batch_message(b, alignment).len() as int, alignment),
        }
    }
}

/// What batches hold.
pub open spec fn batches_model(batches: Seq<RecordBatch>) -> Seq<BatchV> {
    Seq::new(batches.len(), |i: int| batches[i]@)
}

/// Every batch can be written into a stream of this schema.
pub open spec fn all_written(s: SchemaModel, batches: Seq<BatchV>, alignment: int) -> bool {
    forall|i: int| #![trigger batches[i]] 0 <= i < batches.len() ==> can_write(s, batches[i], alignment)
}

/// The batches up to `k` can be written, batch `k` is refused.
pub open spec fn refused_at(
    e: IpcErrorModel,
    s: SchemaModel,
    batches: Seq<BatchV>,
    k: int,
    first: int,
    alignment: int,
) -> bool {
    &&& 0 <= k < batches.len()
    &&& all_written(s, batches.take(k), alignment)
    &&& !can_write(s, batches[k], alignment)
    &&& e == write_error(s, batches[k], first + k, alignment)
}

/// Writes the schema message of a stream.
pub fn open_stream(sink: &mut Vec<u8>, builder: &mut FbBuilder, schema: &Schema, options: WriteOptions) -> (r: Result<
    usize,
    IpcError,
>)
    requires
        old(builder).wf(),
    ensures
        final(builder).wf(),
        match r {
            Ok(n) => can_open(schema@, options@ as int) && final(sink)@ == old(sink)@ + envelope(
                schema_message(schema@),
                options@ as int,
            ) && n == envelope(schema_message(schema@), options@ as int).len(),
            Err(e) => !can_open(schema@, options@ as int) && final(sink)@ == old(sink)@ && e@ == open_error(
                schema@,
                options@ as int,
            ),
        },
{
    broadcast use crate::le::group_le;
    match build_schema_message(builder, schema) {
        Ok(_) => {
            proof {
                crate::le::lemma_padded(
                    PREFIX_LEN + schema_message(schema@).len(),
                    used_alignment(options@ as int),
                );
            }
            write_message(sink, builder.finished_bytes(), options.alignment)
        },
        Err(e) => Err(e),
    }
}

/// Builds the message table of a planned batch.
fn build_batch_message(builder: &mut FbBuilder, batch: &RecordBatch, layout: &BatchLayout)
    requires
        old(builder).wf(),
        layout.wf(),
        layout@.nodes == column_nodes(batch@.columns),
        layout@.body == column_buffers(batch@.columns),
        layout@.alignment == used_alignment(layout@.alignment),
        plan_fits(layout@.nodes, layout@.body, layout@.alignment),
    ensures
        final(builder).wf(),
        final(builder)@ == batch_message_state(batch@, layout@.alignment),
{
    reveal(closed_table);
    builder.reset();
    let node_list = layout.nodes();
    let buffer_list = layout.buffers();
    proof {
        lemma_pairs(layout@.nodes, layout@.body, layout@.alignment, node_list@, buffer_list@);
    }
    let nodes = builder.create_struct_pair_vector(node_list);
    let buffers = builder.create_struct_pair_vector(buffer_list);
    let rows: usize = batch.num_rows();
    let length: i64 = if rows as u64 > 0x7FFF_FFFF_FFFF_FFFF {
        0x7FFF_FFFF_FFFF_FFFF
    } else {
        rows as i64
    };
    let table = builder.start_table();
    builder.push_slot_i64(record_batch::LENGTH, length, 0);
    builder.push_slot_offset(record_batch::NODES, nodes);
    builder.push_slot_offset(record_batch::BUFFERS, buffers);
    let header = builder.end_table(table);
    let root = build_message(builder, message_header::RECORD_BATCH, header, layout.body_length());
    builder.finish(root);
}

/// The lists of a plan are those of the header.
proof fn lemma_pairs(
    nodes: Seq<(nat, nat)>,
    body: Seq<Seq<u8>>,
    alignment: int,
    node_list: Seq<(i64, i64)>,
    buffer_list: Seq<(i64, i64)>,
)
    requires
        node_list.len() == nodes.len(),
        forall|i: int|
            #![trigger node_list[i]]
            0 <= i < node_list.len() ==> node_list[i].0 == nodes[i].0 && node_list[i].1 == nodes[i].1,
        buffer_list.len() == body.len(),
        forall|i: int|
            #![trigger buffer_list[i]]
            0 <= i < buffer_list.len() ==> buffer_list[i].0 == body_offset(body, i, alignment)
                && buffer_list[i].1 == body[i].len(),
    ensures
        node_list == node_pairs(nodes),
        buffer_list == buffer_pairs(body, alignment),
{
    assert(node_list =~= node_pairs(nodes)) by {
        assert forall|i: int| 0 <= i < nodes.len() implies node_list[i] == node_pairs(nodes)[i] by {
            assert(node_list[i].0 == nodes[i].0);
            assert(node_list[i] == (node_list[i].0, node_list[i].1));
        }
    }
    assert(buffer_list =~= buffer_pairs(body, alignment)) by {
        assert forall|i: int| 0 <= i < body.len() implies buffer_list[i] == buffer_pairs(body, alignment)[i] by {
            assert(buffer_list[i].0 == body_offset(body, i, alignment));
            assert(buffer_list[i] == (buffer_list[i].0, buffer_list[i].1));
        }
    }
}

/// Writes one batch message into a stream of `schema` that holds `index`
/// batches. The sink need not hold what was written before.
pub fn write_frame(
    sink: &mut Vec<u8>,
    builder: &mut FbBuilder,
    schema: &Schema,
    batch: &RecordBatch,
    index: usize,
    options: WriteOptions,
) -> (r: Result<usize, IpcError>)
    requires
        old(builder).wf(),
    ensures
        final(builder).wf(),
        match r {
            Ok(n) => can_write(schema@, batch@, options@ as int) && final(sink)@ == old(sink)@ + frame(
                batch@,
                options@ as int,
            ) && n == frame(batch@, options@ as int).len() && n >= PREFIX_LEN && options@ >= 8 && n as int
                % options@ as int == 0,
            Err(e) => final(sink)@ == old(sink)@ && !can_write(schema@, batch@, options@ as int)
                && e@ == write_error(schema@, batch@, index as int, options@ as int),
        },
{
    broadcast use crate::le::group_le;
    if !schema.equal(batch.schema()) {
        return Err(IpcError::SchemaMismatch { index });
    }
    let layout = match BatchLayout::plan(batch, options.alignment) {
        Ok(layout) => layout,
        Err(e) => {
            return Err(e);
        },
    };
    let ghost al = options@ as int;
    let ghost boundary = used_alignment(al);
    proof {
        use_type_invariant(&options);
        lemma_frame_aligned(batch@, al);
    }
    build_batch_message(builder, batch, &layout);
    proof {
        assert(batch_message_state(batch@, boundary) == batch_message_state(batch@, al));
        crate::le::lemma_padded(PREFIX_LEN + batch_message(batch@, al).len(), boundary);
        lemma_body_len(column_buffers(batch@.columns), boundary);
    }
    let head: usize = match write_message(sink, builder.finished_bytes(), options.alignment) {
        Ok(n) => n,
        Err(e) => {
            return Err(e);
        },
    };
    let _body = layout.write_body(sink);
    let body: usize = match _body {
        Ok(n) => n,
        Err(_) => 0,
    };
    assert(sink@ =~= old(sink)@ + frame(batch@, al));
    assert(sink.len() == sink@.len());
    Ok(head + body)
}

/// Writes batches one after another, as far as they can be written.
fn write_frames(
    sink: &mut Vec<u8>,
    builder: &mut FbBuilder,
    schema: &Schema,
    batches: &[RecordBatch],
    first: usize,
    options: WriteOptions,
) -> (r: (usize, Result<(), IpcError>))
    requires
        old(builder).wf(),
        first <= old(sink)@.len(),
    ensures
        final(builder).wf(),
        r.0 <= batches@.len(),
        first + r.0 <= final(sink)@.len(),
        final(sink)@ == old(sink)@ + frames(batches_model(batches@).take(r.0 as int), options@ as int),
        match r.1 {
            Ok(_) => r.0 == batches@.len() && all_written(
                schema@,
                batches_model(batches@),
                options@ as int,
            ),
            Err(e) => refused_at(
                e@,
                schema@,
                batches_model(batches@),
                r.0 as int,
                first as int,
                options@ as int,
            ),
        },
{
    let ghost all = batches_model(batches@);
    let ghost al = options@ as int;
    let mut i: usize = 0;
    proof {
        assert(all.take(0) =~= Seq::<BatchV>::empty());
        assert(sink@ =~= old(sink)@ + frames(all.take(0), al));
    }
    while i < batches.len()
        invariant
            0 <= i <= batches@.len(),
            builder.wf(),
            all == batches_model(batches@),
            al == options@,
            first + i <= sink@.len(),
            sink@ == old(sink)@ + frames(all.take(i as int), al),
            all_written(schema@, all.take(i as int), al),
        decreases batches@.len() - i,
    {
        proof {
            assert(all.take(i + 1).drop_last() =~= all.take(i as int));
            assert(all.take(i + 1).last() == batches@[i as int]@);
            assert(sink.len() == sink@.len());
        }
        let ghost before = sink@;
        match write_frame(sink, builder, schema, &batches[i], first + i, options) {
            Ok(_) => {},
            Err(e) => {
                return (i, Err(e));
            },
        }
        proof {
            assert(sink@ =~= old(sink)@ + frames(all.take(i + 1), al));
            assert forall|k: int| #![trigger all.take(i + 1)[k]] 0 <= k < i + 1 implies can_write(
                schema@,
                all.take(i + 1)[k],
                al,
            ) by {
                if k < i {
                    assert(all.take(i as int)[k] == all[k]);
                }
            }
        }
        i = i + 1;
    }
    assert(all.take(i as int) =~= all);
    (i, Ok(()))
}

/// A writer's state.
pub struct WriterV {
    pub sink: Seq<u8>,
    pub schema: SchemaModel,
    pub alignment: nat,
    pub written: nat,
    pub batches: nat,
    pub finished: bool,
}

/// Writes a stream message by message into a vector.
///
/// A stream whose writer was not finished lacks the end marker. It is still
/// readable: the end of the bytes at a message boundary ends a stream too.
#[derive(Debug)]
pub struct IpcStreamWriter {
    sink: Vec<u8>,
    schema: Arc<Schema>,
    options: WriteOptions,
    builder: FbBuilder,
    written: usize,
    batches: usize,
    finished: bool,
}

impl View for IpcStreamWriter {
    type V = WriterV;

    closed spec fn view(&self) -> WriterV {
        WriterV {
            sink: self.sink@,
            schema: self.schema@,
            alignment: self.options@,
            written: self.written as nat,
            batches: self.batches as nat,
            finished: self.finished,
        }
    }
}

impl IpcStreamWriter {
    /// What was counted lies in the sink.
    pub closed spec fn wf(&self) -> bool {
        &&& self.builder.wf()
        &&& self.batches <= self.written
        &&& self.written <= self.sink@.len()
    }

    /// Opens a stream at the end of `sink`: the schema message is written.
    pub fn try_new(sink: Vec<u8>, schema: Arc<Schema>) -> (r: Result<IpcStreamWriter, IpcError>)
        ensures
            match r {
                Ok(w) => {
                    let al = DEFAULT_MESSAGE_ALIGNMENT as int;
                    &&& w.wf()
                    &&& can_open(schema@, al)
                    &&& w@ == opened(sink@, schema@, al)
                },
                Err(e) => {
                    let al = DEFAULT_MESSAGE_ALIGNMENT as int;
                    !can_open(schema@, al) && e@ == open_error(schema@, al)
                },
            },
    {
        IpcStreamWriter::try_new_with_options(sink, schema, WriteOptions::new())
    }

    /// The same, framed as the options say.
    pub fn try_new_with_options(sink: Vec<u8>, schema: Arc<Schema>, options: WriteOptions) -> (r: Result<
        IpcStreamWriter,
        IpcError,
    >)
        ensures
            match r {
                Ok(w) => w.wf() && can_open(schema@, options@ as int) && w@ == opened(
                    sink@,
                    schema@,
                    options@ as int,
                ) && options@ >= 8 && w@.written as int % options@ as int == 0,
                Err(e) => !can_open(schema@, options@ as int) && e@ == open_error(schema@, options@ as int),
            },
    {
        let mut out = sink;
        let mut builder = FbBuilder::new();
        let alignment: usize = options.alignment();
        proof {
            lemma_envelope_aligned(schema_message(schema@), alignment as int);
        }
        let written: usize = match open_stream(&mut out, &mut builder, &schema, options) {
            Ok(n) => n,
            Err(e) => {
                return Err(e);
            },
        };
        Ok(
            IpcStreamWriter {
                sink: out,
                schema,
                options,
                builder,
                written,
                batches: 0,
                finished: false,
            },
        )
    }

    /// The schema every batch must have.
    #[must_use]
    pub fn schema(&self) -> (r: &Arc<Schema>)
        ensures
            r@ == self@.schema,
    {
        &self.schema
    }

    /// Bytes written, schema message included.
    #[must_use]
    pub fn bytes_written(&self) -> (r: usize)
        ensures
            r == self@.written,
    {
        self.written
    }

    /// Batches written.
    #[must_use]
    pub fn batches_written(&self) -> (r: usize)
        ensures
            r == self@.batches,
    {
        self.batches
    }

    /// How the stream is framed.
    #[must_use]
    pub fn options(&self) -> (r: WriteOptions)
        ensures
            r@ == self@.alignment,
            r@ >= 8,
    {
        let alignment: usize = self.options.alignment();
        self.options
    }

    /// What the sink holds so far.
    #[must_use]
    pub fn sink(&self) -> (r: &[u8])
        ensures
            r@ == self@.sink,
    {
        self.sink.as_slice()
    }

    /// Appends a batch. Returns the bytes it took.
    pub fn write(&mut self, batch: &RecordBatch) -> (r: Result<usize, IpcError>)
        requires
            old(self).wf(),
        ensures
            final(self).wf(),
            ({
                let al = old(self)@.alignment as int;
                match r {
                    Ok(n) => {
                        &&& can_write(old(self)@.schema, batch@, al)
                        &&& n == frame(batch@, al).len()
                        &&& al >= 8 && n as int % al == 0
                        &&& final(self)@ == (WriterV {
                            sink: old(self)@.sink + frame(batch@, al),
                            written: old(self)@.written + n as nat,
                            batches: old(self)@.batches + 1,
                            ..old(self)@
                        })
                    },
                    Err(e) => {
                        &&& !can_write(old(self)@.schema, batch@, al)
                        &&& final(self)@ == old(self)@
                        &&& e@ == write_error(old(self)@.schema, batch@, old(self)@.batches as int, al)
                    },
                }
            }),
    {
        assert(self.sink.len() == self.sink@.len());
        let written: usize = match write_frame(
            &mut self.sink,
            &mut self.builder,
            &self.schema,
            batch,
            self.batches,
            self.options,
        ) {
            Ok(n) => n,
            Err(e) => {
                return Err(e);
            },
        };
        assert(self.sink.len() == self.sink@.len());
        self.written = self.written + written;
        self.batches = self.batches + 1;
        Ok(written)
    }

    /// Appends batches. Returns the bytes they took. Where one is refused, the
    /// ones before it are written.
    pub fn write_all(&mut self, batches: &[RecordBatch]) -> (r: Result<usize, IpcError>)
        requires
            old(self).wf(),
        ensures
            final(self).wf(),
            ({
                let al = old(self)@.alignment as int;
                let all = batches_model(batches@);
                match r {
                    Ok(n) => {
                        &&& all_written(old(self)@.schema, all, al)
                        &&& n == frames(all, al).len()
                        &&& al >= 8 && n as int % al == 0
                        &&& final(self)@ == after_frames(old(self)@, all)
                    },
                    Err(e) => exists|k: int|
                        {
                            &&& #[trigger] refused_at(
                                e@,
                                old(self)@.schema,
                                all,
                                k,
                                old(self)@.batches as int,
                                al,
                            )
                            &&& final(self)@ == after_frames(old(self)@, all.take(k))
                        },
                }
            }),
    {
        assert(self.sink.len() == self.sink@.len());
        let before: usize = self.sink.len();
        let ghost all = batches_model(batches@);
        let (count, outcome) = write_frames(
            &mut self.sink,
            &mut self.builder,
            &self.schema,
            batches,
            self.batches,
            self.options,
        );
        let alignment: usize = self.options.alignment();
        proof {
            lemma_frames_len(all.take(count as int), alignment as int);
            lemma_frames_aligned(all.take(count as int), alignment as int);
        }
        let grown: usize = self.sink.len() - before;
        self.written = self.written + grown;
        self.batches = self.batches + count;
        match outcome {
            Ok(_) => {
                assert(all.take(count as int) =~= all);
                Ok(grown)
            },
            Err(e) => {
                proof {
                    assert(refused_at(
                        e@,
                        old(self)@.schema,
                        all,
                        count as int,
                        old(self)@.batches as int,
                        old(self)@.alignment as int,
                    ));
                }
                Err(e)
            },
        }
    }

    /// Writes the end marker, once. Returns the bytes written.
    pub fn finish(&mut self) -> (r: Result<usize, IpcError>)
        requires
            old(self).wf(),
        ensures
            final(self).wf(),
            final(self)@ == ended(old(self)@),
            r matches Ok(n) && n == (if old(self)@.finished {
                0
            } else {
                PREFIX_LEN
            }),
    {
        broadcast use crate::le::group_le;
        if self.finished {
            return Ok(0);
        }
        let _end = write_end_of_stream(&mut self.sink);
        assert(self.sink.len() == self.sink@.len());
        self.written = self.written + PREFIX_LEN;
        self.finished = true;
        Ok(PREFIX_LEN)
    }

    /// Finishes the stream and gives the sink back.
    pub fn into_inner(self) -> (r: Result<Vec<u8>, IpcError>)
        requires
            self.wf(),
        ensures
            r matches Ok(sink) && sink@ == ended(self@).sink,
    {
        let mut writer = self;
        match writer.finish() {
            Ok(_) => Ok(writer.sink),
            Err(e) => Err(e),
        }
    }
}

/// The state of a writer that was just opened.
pub open spec fn opened(sink: Seq<u8>, s: SchemaModel, alignment: int) -> WriterV {
    let head = envelope(schema_message(s), alignment);
    WriterV {
        sink: sink + head,
        schema: s,
        alignment: alignment as nat,
        written: head.len(),
        batches: 0,
        finished: false,
    }
}

/// The state of a writer after it wrote batches.
pub open spec fn after_frames(w: WriterV, batches: Seq<BatchV>) -> WriterV {
    let added = frames(batches, w.alignment as int);
    WriterV {
        sink: w.sink + added,
        written: w.written + added.len(),
        batches: w.batches + batches.len(),
        ..w
    }
}

/// The state of a writer after it was finished.
pub open spec fn ended(w: WriterV) -> WriterV {
    if w.finished {
        w
    } else {
        WriterV {
            sink: w.sink + end_of_stream(),
            written: w.written + PREFIX_LEN as nat,
            finished: true,
            ..w
        }
    }
}

/// An envelope is a multiple of the alignment.
pub proof fn lemma_envelope_aligned(metadata: Seq<u8>, alignment: int)
    requires
        8 <= alignment,
    ensures
        envelope(metadata, alignment).len() == envelope_len(metadata.len() as int, alignment),
        envelope(metadata, alignment).len() as int % alignment == 0,
{
    broadcast use crate::le::group_le;
    crate::le::lemma_padded(PREFIX_LEN + metadata.len(), alignment);
}

/// A batch takes a multiple of the alignment.
pub proof fn lemma_frame_aligned(b: BatchV, alignment: int)
    requires
        8 <= alignment,
    ensures
        frame(b, alignment).len() as int % alignment == 0,
{
    lemma_envelope_aligned(batch_message(b, alignment), alignment);
    lemma_body_len(column_buffers(b.columns), alignment);
    let y = envelope(batch_message(b, alignment), alignment).len() as int;
    let z = body_total(column_buffers(b.columns), alignment);
    vstd::arithmetic::div_mod::lemma_add_mod_noop(y, z, alignment);
    vstd::arithmetic::div_mod::lemma_small_mod(0, alignment as nat);
}

/// Batches take a multiple of the alignment.
pub proof fn lemma_frames_aligned(batches: Seq<BatchV>, alignment: int)
    requires
        8 <= alignment,
    ensures
        frames(batches, alignment).len() as int % alignment == 0,
    decreases batches.len(),
{
    vstd::arithmetic::div_mod::lemma_small_mod(0, alignment as nat);
    if batches.len() > 0 {
        lemma_frames_aligned(batches.drop_last(), alignment);
        lemma_frame_aligned(batches.last(), alignment);
        let x = frames(batches.drop_last(), alignment).len() as int;
        let y = frame(batches.last(), alignment).len() as int;
        vstd::arithmetic::div_mod::lemma_add_mod_noop(x, y, alignment);
    }
}

/// A batch takes its prefix at least.
proof fn lemma_frames_len(batches: Seq<BatchV>, alignment: int)
    ensures
        batches.len() <= frames(batches, alignment).len(),
    decreases batches.len(),
{
    broadcast use crate::le::group_le;
    if batches.len() > 0 {
        lemma_frames_len(batches.drop_last(), alignment);
        let b = batches.last();
        assert(frame(b, alignment).len() >= 4) by {
            assert(crate::le::le_u32(crate::ipc::format::CONTINUATION_MARKER).len() == 4);
        }
    }
}

/// Writes a whole stream at the end of `sink`, its schema the first batch's.
/// Returns the bytes written.
pub fn write_ipc_stream(sink: &mut Vec<u8>, batches: &[RecordBatch]) -> (r: Result<usize, IpcError>)
    ensures
        ({
            let all = batches_model(batches@);
            if all.len() == 0 {
                &&& r matches Err(e) && e@ == IpcErrorModel::MissingSchema
                &&& final(sink)@ == old(sink)@
            } else {
                stream_written(
                    old(sink)@,
                    final(sink)@,
                    r,
                    all[0].schema,
                    all,
                    DEFAULT_MESSAGE_ALIGNMENT as int,
                )
            }
        }),
{
    if batches.len() == 0 {
        return Err(IpcError::MissingSchema);
    }
    let schema = batches[0].schema_ref();
    assert(batches_model(batches@)[0] == batches@[0]@);
    write_ipc_stream_with(sink, schema, batches, WriteOptions::new())
}

/// What writing a stream does: append it whole, or the part before what is
/// refused.
pub open spec fn stream_written(
    before: Seq<u8>,
    after: Seq<u8>,
    r: Result<usize, IpcError>,
    s: SchemaModel,
    batches: Seq<BatchV>,
    alignment: int,
) -> bool {
    match r {
        Ok(n) => {
            &&& can_open(s, alignment)
            &&& all_written(s, batches, alignment)
            &&& after == before + stream_bytes(s, batches, alignment)
            &&& n == stream_bytes(s, batches, alignment).len()
        },
        Err(e) => if !can_open(s, alignment) {
            after == before && e@ == open_error(s, alignment)
        } else {
            exists|k: int|
                {
                    &&& #[trigger] refused_at(e@, s, batches, k, 0, alignment)
                    &&& after == before + envelope(schema_message(s), alignment) + frames(
                        batches.take(k),
                        alignment,
                    )
                }
        },
    }
}

/// The same with a schema and options. Without batches the stream holds the
/// schema alone.
pub fn write_ipc_stream_with(
    sink: &mut Vec<u8>,
    schema: Arc<Schema>,
    batches: &[RecordBatch],
    options: WriteOptions,
) -> (r: Result<usize, IpcError>)
    ensures
        stream_written(
            old(sink)@,
            final(sink)@,
            r,
            schema@,
            batches_model(batches@),
            options@ as int,
        ),
{
    broadcast use crate::le::group_le;
    let ghost all = batches_model(batches@);
    let ghost al = options@ as int;
    let mut builder = FbBuilder::new();
    let before: usize = sink.len();
    match open_stream(sink, &mut builder, &schema, options) {
        Ok(_) => {},
        Err(e) => {
            return Err(e);
        },
    }
    let ghost head = sink@;
    let (count, outcome) = write_frames(sink, &mut builder, &schema, batches, 0, options);
    match outcome {
        Ok(_) => {},
        Err(e) => {
            proof {
                assert(refused_at(e@, schema@, all, count as int, 0, al));
            }
            return Err(e);
        },
    }
    assert(all.take(count as int) =~= all);
    let _end = write_end_of_stream(sink);
    assert(sink@ =~= old(sink)@ + stream_bytes(schema@, all, al));
    Ok(sink.len() - before)
}

/// What writing a stream into a fresh vector does.
pub open spec fn stream_made(
    r: Result<Vec<u8>, IpcError>,
    s: SchemaModel,
    batches: Seq<BatchV>,
    alignment: int,
) -> bool {
    match r {
        Ok(bytes) => can_open(s, alignment) && all_written(s, batches, alignment) && bytes@ == stream_bytes(
            s,
            batches,
            alignment,
        ),
        Err(e) => if !can_open(s, alignment) {
            e@ == open_error(s, alignment)
        } else {
            exists|k: int| #[trigger] refused_at(e@, s, batches, k, 0, alignment)
        },
    }
}

/// A whole stream as bytes, its schema the first batch's.
pub fn to_ipc_bytes(batches: &[RecordBatch]) -> (r: Result<Vec<u8>, IpcError>)
    ensures
        ({
            let all = batches_model(batches@);
            if all.len() == 0 {
                r matches Err(e) && e@ == IpcErrorModel::MissingSchema
            } else {
                stream_made(r, all[0].schema, all, DEFAULT_MESSAGE_ALIGNMENT as int)
            }
        }),
{
    if batches.len() == 0 {
        return Err(IpcError::MissingSchema);
    }
    let schema = batches[0].schema_ref();
    assert(batches_model(batches@)[0] == batches@[0]@);
    to_ipc_bytes_with(schema, batches, WriteOptions::new())
}

/// The same with a schema and options.
pub fn to_ipc_bytes_with(schema: Arc<Schema>, batches: &[RecordBatch], options: WriteOptions) -> (r: Result<
    Vec<u8>,
    IpcError,
>)
    ensures
        stream_made(r, schema@, batches_model(batches@), options@ as int),
{
    let mut bytes: Vec<u8> = Vec::new();
    match write_ipc_stream_with(&mut bytes, schema, batches, options) {
        Ok(_) => {
            assert(Seq::<u8>::empty() + stream_bytes(schema@, batches_model(batches@), options@ as int)
                =~= stream_bytes(schema@, batches_model(batches@), options@ as int));
            Ok(bytes)
        },
        Err(e) => Err(e),
    }
}

} // verus!
