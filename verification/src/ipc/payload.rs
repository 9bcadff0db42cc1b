//! One batch in, one padded stream out.
//!
//! A payload is a whole stream of one batch, padded with zeros after the end
//! marker, so that payloads kept back to back stay on their boundary. Batches
//! built with [`RecordBatch::from_payload`] hold one column, named
//! [`DATA_COLUMN`](crate::DATA_COLUMN).
use vstd::prelude::*;
use crate::array::memory::memory_all;
use crate::buffer::Buffer;
use crate::capped;
use crate::ipc::error::{IpcError, IpcErrorModel};
use crate::ipc::format::DEFAULT_MESSAGE_ALIGNMENT;
use crate::ipc::message::{over_cap, MessageLimits, MAX_METADATA_BYTES};
use crate::ipc::reader::{whole_stream, IpcStreamReader, ReadOptions};
use crate::ipc::writer::{
    all_written, batches_model, can_open, can_write, open_error, refused_at, stream_bytes, to_ipc_bytes_with,
    write_error, WriteOptions,
};
use crate::le::{copy_bytes, extend_zeros, pad_to, zeros};
use crate::record_batch::{BatchV, RecordBatch};

verus! {

/// The boundary a payload is padded to.
pub const PAYLOAD_ALIGNMENT: usize = 128;

/// The error of a payload over the cap.
pub open spec fn payload_error(length: int) -> IpcErrorModel {
    over_cap("payload"@, length, crate::MAX_PAYLOAD_BYTES as int)
}

/// The stream of one batch.
pub open spec fn one_batch_stream(b: BatchV, alignment: int) -> Seq<u8> {
    stream_bytes(b.schema, seq![b], alignment)
}

/// The payload of a batch.
pub open spec fn payload_bytes(b: BatchV, alignment: int) -> Seq<u8> {
    let stream = one_batch_stream(b, alignment);
    stream + zeros(pad_to(stream.len() as int, PAYLOAD_ALIGNMENT as int) as nat)
}

/// What encoding a payload does: a batch whose buffers or whose stream are over
/// the cap is refused.
pub open spec fn payload_made(r: Result<Vec<u8>, IpcError>, b: BatchV, alignment: int) -> bool {
    let estimate = capped(memory_all(b.columns));
    let stream = one_batch_stream(b, alignment);
    if estimate > crate::MAX_PAYLOAD_BYTES {
        r matches Err(e) && e@ == payload_error(estimate)
    } else if !can_open(b.schema, alignment) {
        r matches Err(e) && e@ == open_error(b.schema, alignment)
    } else if !can_write(b.schema, b, alignment) {
        r matches Err(e) && e@ == write_error(b.schema, b, 0, alignment)
    } else if stream.len() > crate::MAX_PAYLOAD_BYTES {
        r matches Err(e) && e@ == payload_error(stream.len() as int)
    } else {
        r matches Ok(bytes) && bytes@ == payload_bytes(b, alignment) && bytes@.len() as int
            % PAYLOAD_ALIGNMENT as int == 0
    }
}

/// Encodes a batch as a stream of its own, padded to the payload boundary.
pub fn encode_payload(batch: &RecordBatch) -> (r: Result<Vec<u8>, IpcError>)
    ensures
        payload_made(r, batch@, DEFAULT_MESSAGE_ALIGNMENT as int),
{
    encode_payload_with(batch, WriteOptions::new())
}

/// The same, framed as the options say.
pub fn encode_payload_with(batch: &RecordBatch, options: WriteOptions) -> (r: Result<Vec<u8>, IpcError>)
    ensures
        payload_made(r, batch@, options@ as int),
{
    let estimate: usize = batch.buffer_memory_size();
    if estimate > crate::MAX_PAYLOAD_BYTES {
        return Err(
            IpcError::TooLarge {
                what: "payload",
                length: estimate as u64,
                cap: crate::MAX_PAYLOAD_BYTES as u64,
            },
        );
    }
    let mut one: Vec<RecordBatch> = Vec::new();
    one.push(batch.clone());
    let ghost all = batches_model(one@);
    let ghost al = options@ as int;
    proof {
        assert(all =~= seq![batch@]);
        assert(all[0] == batch@);
    }
    let mut bytes = match to_ipc_bytes_with(batch.schema_ref(), one.as_slice(), options) {
        Ok(bytes) => bytes,
        Err(e) => {
            proof {
                if can_open(batch@.schema, al) {
                    let k = choose|k: int| #[trigger] refused_at(e@, batch@.schema, all, k, 0, al);
                    assert(k == 0);
                    if can_write(batch@.schema, batch@, al) {
                        assert(all_written(batch@.schema, all, al));
                    }
                }
            }
            return Err(e);
        },
    };
    assert(can_write(batch@.schema, all[0], al));
    if bytes.len() > crate::MAX_PAYLOAD_BYTES {
        return Err(
            IpcError::TooLarge {
                what: "payload",
                length: bytes.len() as u64,
                cap: crate::MAX_PAYLOAD_BYTES as u64,
            },
        );
    }
    proof {
        crate::le::lemma_padded(bytes@.len() as int, PAYLOAD_ALIGNMENT as int);
    }
    let over: usize = bytes.len() % PAYLOAD_ALIGNMENT;
    let pad: usize = if over == 0 {
        0
    } else {
        PAYLOAD_ALIGNMENT - over
    };
    extend_zeros(&mut bytes, pad);
    Ok(bytes)
}

/// The caps under which a payload is read.
pub open spec fn payload_limits() -> MessageLimits {
    MessageLimits { max_metadata_bytes: MAX_METADATA_BYTES, max_body_bytes: crate::MAX_PAYLOAD_BYTES }
}

/// The batch of a payload: the only one of its stream.
pub open spec fn payload_of(bytes: Seq<u8>) -> Result<BatchV, IpcErrorModel> {
    if bytes.len() > crate::MAX_PAYLOAD_BYTES {
        Err(payload_error(bytes.len() as int))
    } else {
        match whole_stream(bytes, payload_limits()) {
            Err(e) => Err(e),
            Ok((_, batches)) => if batches.len() != 1 {
                Err(IpcErrorModel::NotASinglePayload { count: batches.len() as usize })
            } else {
                Ok(batches[0])
            },
        }
    }
}

/// Decodes a payload, bytes copied.
pub fn decode_payload(bytes: &[u8]) -> (r: Result<RecordBatch, IpcError>)
    ensures
        match r {
            Ok(b) => payload_of(bytes@) == Ok::<BatchV, IpcErrorModel>(b@),
            Err(e) => payload_of(bytes@) == Err::<BatchV, IpcErrorModel>(e@),
        },
{
    match check_payload_size(bytes.len()) {
        Ok(_) => decode_payload_buffer(Buffer::from_vec(copy_bytes(bytes))),
        Err(e) => Err(e),
    }
}

/// Decodes a payload, bytes shared.
pub fn decode_payload_buffer(buffer: Buffer) -> (r: Result<RecordBatch, IpcError>)
    ensures
        match r {
            Ok(b) => payload_of(buffer@) == Ok::<BatchV, IpcErrorModel>(b@),
            Err(e) => payload_of(buffer@) == Err::<BatchV, IpcErrorModel>(e@),
        },
{
    match check_payload_size(buffer.len()) {
        Ok(_) => {},
        Err(e) => {
            return Err(e);
        },
    }
    let options = ReadOptions::new().with_limits(
        MessageLimits::default().with_max_body_bytes(crate::MAX_PAYLOAD_BYTES),
    ).with_max_stream_bytes(crate::MAX_PAYLOAD_BYTES);
    let mut reader = match IpcStreamReader::with_options(buffer, options) {
        Ok(reader) => reader,
        Err(e) => {
            return Err(e);
        },
    };
    let ghost v = reader@;
    let mut batches = match reader.read_all() {
        Ok(batches) => batches,
        Err(e) => {
            return Err(e);
        },
    };
    let count: usize = batches.len();
    if count != 1 {
        return Err(IpcError::NotASinglePayload { count });
    }
    match batches.pop() {
        Some(batch) => Ok(batch),
        None => Err(IpcError::NotASinglePayload { count: 0 }),
    }
}

/// Refuses a payload over the cap.
pub fn check_payload_size(len: usize) -> (r: Result<(), IpcError>)
    ensures
        match r {
            Ok(_) => len <= crate::MAX_PAYLOAD_BYTES,
            Err(e) => len > crate::MAX_PAYLOAD_BYTES && e@ == payload_error(len as int),
        },
{
    if len > crate::MAX_PAYLOAD_BYTES {
        return Err(
            IpcError::TooLarge {
                what: "payload",
                length: len as u64,
                cap: crate::MAX_PAYLOAD_BYTES as u64,
            },
        );
    }
    Ok(())
}

} // verus!
