//! A stream cut short is refused or short; it never says anything else.
use vstd::prelude::*;
use crate::datatype::SchemaModel;
use crate::ipc::error::IpcErrorModel;
use crate::ipc::message::{message_at, prefix_at, MessageLimits, RawModel};
use crate::ipc::reader::{batch_at, opening, rest_at};

verus! {

/// A prefix found in a stream cut short is there in the whole.
proof fn lemma_prefix_stays(bytes: Seq<u8>, pos: int, cut: int)
    requires
        0 <= pos < cut <= bytes.len(),
    ensures
        match prefix_at(bytes.take(cut), pos) {
            Ok(p) => prefix_at(bytes, pos) == Ok::<(int, i32, bool), IpcErrorModel>(p),
            Err(e) => e is UnexpectedEndOfStream || prefix_at(bytes, pos) is Err,
        },
{
    let part = bytes.take(cut);
    if pos + 4 <= cut {
        assert(part.subrange(pos, pos + 4) =~= bytes.subrange(pos, pos + 4));
    }
    if pos + 8 <= cut {
        assert(part.subrange(pos + 4, pos + 8) =~= bytes.subrange(pos + 4, pos + 8));
    }
}

/// A message found in a stream cut short is there in the whole.
proof fn lemma_message_stays(bytes: Seq<u8>, pos: int, cut: int, limits: MessageLimits)
    requires
        0 <= pos,
        0 <= cut <= bytes.len(),
        message_at(bytes.take(cut), pos, limits) matches Ok(Some(_)),
    ensures
        message_at(bytes, pos, limits) == message_at(bytes.take(cut), pos, limits),
        message_at(bytes, pos, limits)->Ok_0->0.next <= cut,
        pos < message_at(bytes, pos, limits)->Ok_0->0.metadata,
        message_at(bytes, pos, limits)->Ok_0->0.metadata <= message_at(bytes, pos, limits)->Ok_0->0.body,
        message_at(bytes, pos, limits)->Ok_0->0.body <= message_at(bytes, pos, limits)->Ok_0->0.next,
{
    let part = bytes.take(cut);
    lemma_prefix_stays(bytes, pos, cut);
    let (start, length, _) = prefix_at(part, pos)->Ok_0;
    assert(part.subrange(start, start + length) =~= bytes.subrange(start, start + length));
}

/// A message in a stream cut behind it stands as it stood. Cut within it, it
/// ends unexpectedly; cut before it, the stream ends.
pub proof fn law_cut_message_is_refused(bytes: Seq<u8>, pos: int, cut: int, limits: MessageLimits)
    requires
        0 <= pos,
        0 <= cut <= bytes.len(),
        message_at(bytes, pos, limits) matches Ok(Some(_)),
    ensures
        ({
            let whole = message_at(bytes, pos, limits);
            let part = message_at(bytes.take(cut), pos, limits);
            &&& whole->Ok_0->0.next <= cut ==> part == whole
            &&& pos < cut < whole->Ok_0->0.next ==> (part matches Err(e) && e is UnexpectedEndOfStream)
            &&& cut <= pos ==> part == Ok::<Option<RawModel>, IpcErrorModel>(None)
        }),
{
    let part = bytes.take(cut);
    if pos < cut {
        lemma_prefix_stays(bytes, pos, cut);
        if let Ok((start, length, _)) = prefix_at(part, pos) {
            if start + length <= cut {
                assert(part.subrange(start, start + length) =~= bytes.subrange(start, start + length));
            }
        }
    }
}

/// A batch found in a stream cut short is there in the whole.
proof fn lemma_batch_stays(bytes: Seq<u8>, pos: int, cut: int, s: SchemaModel, limits: MessageLimits)
    requires
        0 <= pos,
        0 <= cut <= bytes.len(),
        batch_at(bytes.take(cut), pos, s, limits) matches Ok(Some(_)),
    ensures
        batch_at(bytes, pos, s, limits) == batch_at(bytes.take(cut), pos, s, limits),
        pos < (batch_at(bytes, pos, s, limits)->Ok_0->0).1 <= cut,
{
    reveal(batch_at);
    let part = bytes.take(cut);
    lemma_message_stays(bytes, pos, cut, limits);
    let m = message_at(part, pos, limits)->Ok_0->0;
    assert(part.subrange(m.metadata, m.body) =~= bytes.subrange(m.metadata, m.body));
    assert(part.subrange(m.body, m.next) =~= bytes.subrange(m.body, m.next));
}

/// The batches of a stream cut short are the first ones of the whole.
proof fn lemma_rest_stays(bytes: Seq<u8>, pos: int, cut: int, s: SchemaModel, limits: MessageLimits)
    requires
        0 <= pos,
        0 <= cut <= bytes.len(),
    ensures
        rest_at(bytes.take(cut), pos, s, limits).batches.is_prefix_of(rest_at(bytes, pos, s, limits).batches),
    decreases bytes.len() - pos,
{
    let part = bytes.take(cut);
    if let Ok(Some((b, next))) = batch_at(part, pos, s, limits) {
        lemma_batch_stays(bytes, pos, cut, s, limits);
        lemma_rest_stays(bytes, next, cut, s, limits);
        let short = rest_at(part, next, s, limits).batches;
        let long = rest_at(bytes, next, s, limits).batches;
        assert((seq![b] + short).is_prefix_of(seq![b] + long)) by {
            assert forall|i: int| 0 <= i < (seq![b] + short).len() implies (seq![b] + short)[i] == (seq![b]
                + long)[i] by {
                if i > 0 {
                    assert(short[i - 1] == long[i - 1]);
                }
            }
            assert((seq![b] + long).take((seq![b] + short).len() as int) =~= seq![b] + short);
        }
    }
}

/// A stream cut anywhere is refused, as empty where nothing is left and as
/// ending unexpectedly otherwise, or has the schema of the whole and the first
/// of its batches.
pub proof fn law_cut_stream_is_short(bytes: Seq<u8>, cut: int, limits: MessageLimits)
    requires
        0 <= cut <= bytes.len(),
        opening(bytes, limits) is Ok,
    ensures
        match opening(bytes.take(cut), limits) {
            Ok((s, at)) => opening(bytes, limits) == Ok::<(SchemaModel, int), IpcErrorModel>((s, at)) && rest_at(
                bytes.take(cut),
                at,
                s,
                limits,
            ).batches.is_prefix_of(rest_at(bytes, at, s, limits).batches),
            Err(e) => if cut == 0 {
                e == IpcErrorModel::EmptyStream
            } else {
                e is UnexpectedEndOfStream
            },
        },
{
    let part = bytes.take(cut);
    let m = message_at(bytes, 0, limits)->Ok_0->0;
    law_cut_message_is_refused(bytes, 0, cut, limits);
    if m.next <= cut {
        lemma_message_stays(bytes, 0, cut, limits);
        assert(part.subrange(m.metadata, m.body) =~= bytes.subrange(m.metadata, m.body));
        let (s, at) = opening(bytes, limits)->Ok_0;
        lemma_rest_stays(bytes, at, cut, s, limits);
    }
}

} // verus!
