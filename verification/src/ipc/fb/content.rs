//! What is read back from what a builder wrote.
//!
//! A builder only ever writes in front of what it holds, so whatever can be
//! read from its bytes can be read, at the same distance from the end, from
//! every later state and from the finished buffer. The `holds_*` predicates
//! say this of each kind of object.
use vstd::prelude::*;
use vstd::utf8::{encode_utf8_decode_utf8, encode_utf8, encode_utf8_valid_utf8};
use crate::ipc::error::IpcErrorModel;
use crate::ipc::fb::builder::{
    bytes_at, entries_bytes, entry_of, find_vtable, max_nat, pairs_bytes, slot_count, vtable_bytes, FbModel, MAX_SLOT,
};
use crate::ipc::fb::reader::{
    deref_at, i16_at, i32_at, i64_at, root_at, span_at, string_at, table_at, u8_at, SpanModel, TableModel,
};
use crate::le::{le_i16, le_i32, le_i64, le_u16, le_u32, pad_to, zeros};

verus! {

broadcast use crate::le::group_le;

/// Whether `b` is `c` with something in front.
pub open spec fn fronted(c: Seq<u8>, b: Seq<u8>) -> bool {
    c.len() <= b.len() && b.skip(b.len() - c.len()) == c
}

/// Whether `e` is a later state than `c`: something was written in front.
pub open spec fn extends(c: FbModel, e: FbModel) -> bool {
    fronted(c.bytes, e.bytes) && (c.far ==> e.far)
}

/// A buffer, where in it a builder's bytes end, and whether some table of theirs
/// is farther from its vtable than its first word tells.
pub struct Site {
    pub buf: Seq<u8>,
    pub end: int,
    pub far: bool,
}

/// Whether what `c` holds stands in the buffer, up to the end named.
pub open spec fn sits(c: FbModel, b: Site) -> bool {
    &&& c.bytes.len() <= b.end <= b.buf.len()
    &&& b.buf.subrange(b.end - c.bytes.len(), b.end) == c.bytes
    &&& c.far ==> b.far
}

/// Whether the buffer's distances fit what they are stored in: a `u32` for a
/// reference, an `i32` from a table to its vtable.
pub open spec fn addressable(b: Site) -> bool {
    b.buf.len() <= u32::MAX && !b.far
}

/// Whether the distances of a finished state fit what they are stored in.
pub open spec fn reachable(m: FbModel) -> bool {
    m.bytes.len() <= u32::MAX && !m.far
}

/// Whether `object` stands at distance `d` from the end named.
pub open spec fn placed(b: Site, d: int, object: Seq<u8>) -> bool {
    &&& object.len() <= d <= b.end <= b.buf.len()
    &&& b.buf.subrange(b.end - d, b.end - d + object.len()) == object
}

pub proof fn lemma_extends_refl(c: FbModel)
    ensures
        extends(c, c),
{
    assert(c.bytes.skip(0) =~= c.bytes);
}

pub proof fn lemma_fronted(front: Seq<u8>, c: Seq<u8>)
    ensures
        fronted(c, front + c),
{
    assert((front + c).skip((front + c).len() - c.len()) =~= c);
}

proof fn lemma_fronted_trans(a: Seq<u8>, b: Seq<u8>, c: Seq<u8>)
    requires
        fronted(a, b),
        fronted(b, c),
    ensures
        fronted(a, c),
{
    assert(c.skip(c.len() - a.len()) =~= b.skip(b.len() - a.len()));
}

pub proof fn lemma_extends_trans(a: FbModel, b: FbModel, c: FbModel)
    requires
        extends(a, b),
        extends(b, c),
    ensures
        extends(a, c),
{
    lemma_fronted_trans(a.bytes, b.bytes, c.bytes);
}

/// An object stays where it is.
pub proof fn lemma_bytes_at(c: Seq<u8>, b: Seq<u8>, d: int, object: Seq<u8>)
    requires
        fronted(c, b),
        bytes_at(c, d, object),
    ensures
        bytes_at(b, d, object),
{
    let n = object.len();
    let here = b.subrange(b.len() - d, b.len() - d + n);
    let there = c.subrange(c.len() - d, c.len() - d + n);
    assert forall|k: int| 0 <= k < n implies here[k] == there[k] by {
        assert(c[c.len() - d + k] == b.skip(b.len() - c.len())[c.len() - d + k]);
    }
    assert(here =~= there);
}

/// What stands in the buffer has every earlier state standing in it.
pub proof fn lemma_sits(a: FbModel, c: FbModel, b: Site)
    requires
        extends(a, c),
        sits(c, b),
    ensures
        sits(a, b),
{
    let n = a.bytes.len();
    assert(b.buf.subrange(b.end - n, b.end) =~= c.bytes.skip(c.bytes.len() - n)) by {
        assert(c.bytes == b.buf.subrange(b.end - c.bytes.len(), b.end));
    }
}

/// An object is where the bytes it stands in are.
pub proof fn lemma_placed(c: FbModel, b: Site, d: int, object: Seq<u8>)
    requires
        sits(c, b),
        bytes_at(c.bytes, d, object),
    ensures
        placed(b, d, object),
{
    let n = object.len();
    let l = c.bytes.len();
    let here = b.buf.subrange(b.end - d, b.end - d + n);
    let there = c.bytes.subrange(l - d, l - d + n);
    assert forall|k: int| 0 <= k < n implies here[k] == there[k] by {
        assert(c.bytes[l - d + k] == b.buf.subrange(b.end - l, b.end)[l - d + k]);
    }
    assert(here =~= there);
}

/// Text at distance `d`.
pub open spec fn holds_text(c: FbModel, d: int, text: Seq<char>) -> bool {
    &&& 4 <= d <= c.bytes.len()
    &&& forall|b: Site| #[trigger]
        sits(c, b) && addressable(b) ==> string_at(b.buf, b.end - d) == Ok::<Seq<char>, IpcErrorModel>(text)
}

/// A reference at distance `d` to what is at distance `target`.
pub open spec fn holds_reference(c: FbModel, d: int, target: int) -> bool {
    &&& 0 < target < d <= c.bytes.len()
    &&& forall|b: Site, context: Seq<char>|
        #![trigger sits(c, b), deref_at(b.buf, b.end - d, context)]
        sits(c, b) && addressable(b) ==> deref_at(b.buf, b.end - d, context) == Ok::<
            int,
            IpcErrorModel,
        >(b.end - target)
}

/// A vector of references at distance `d`.
pub open spec fn holds_references(c: FbModel, d: int, targets: Seq<nat>) -> bool {
    &&& 4 <= d <= c.bytes.len()
    &&& forall|b: Site| #[trigger]
        sits(c, b) && addressable(b) ==> {
            &&& span_at(b.buf, b.end - d, 4) == Ok::<SpanModel, IpcErrorModel>(
                SpanModel { buf: b.buf, start: b.end - d + 4, len: targets.len() as int, stride: 4 },
            )
            &&& forall|i: int, context: Seq<char>|
                0 <= i < targets.len() ==> #[trigger] deref_at(b.buf, b.end - d + 4 + i * 4, context)
                    == Ok::<int, IpcErrorModel>(b.end - targets[i])
        }
}

/// A vector of pairs at distance `d`.
pub open spec fn holds_pairs(c: FbModel, d: int, items: Seq<(i64, i64)>) -> bool {
    &&& 4 <= d <= c.bytes.len()
    &&& forall|b: Site| #[trigger]
        sits(c, b) && addressable(b) ==> {
            let span = SpanModel { buf: b.buf, start: b.end - d + 4, len: items.len() as int, stride: 16 };
            &&& span_at(b.buf, b.end - d, 16) == Ok::<SpanModel, IpcErrorModel>(span)
            &&& forall|i: int|
                0 <= i < items.len() ==> #[trigger] span.pair_item(i) == Ok::<(i64, i64), IpcErrorModel>(items[i])
        }
}

/// The distance of the field of a slot.
pub open spec fn lookup(locs: Seq<(nat, nat)>, slot: int) -> Option<nat>
    decreases locs.len(),
{
    if locs.len() == 0 {
        None
    } else if locs.last().0 == slot {
        Some(locs.last().1)
    } else {
        lookup(locs.drop_last(), slot)
    }
}

/// A field written last is the one its slot has.
pub broadcast proof fn lemma_lookup_push(locs: Seq<(nat, nat)>, at: (nat, nat), slot: int)
    ensures
        #[trigger] lookup(locs.push(at), slot) == if at.0 == slot {
            Some(at.1)
        } else {
            lookup(locs, slot)
        },
{
    assert(locs.push(at).drop_last() =~= locs);
}

/// A table at distance `d` with its fields where `locs` says.
pub open spec fn holds_table(c: FbModel, d: int, locs: Seq<(nat, nat)>) -> bool {
    &&& 4 <= d <= c.bytes.len()
    &&& forall|b: Site| #[trigger] sits(c, b) && addressable(b) ==> table_reads(b, d, locs)
}

/// The table at distance `d` of `b` is read, with its fields where `locs` says.
pub open spec fn table_reads(b: Site, d: int, locs: Seq<(nat, nat)>) -> bool {
    match table_at(b.buf, b.end - d) {
        Ok(t) => {
            &&& t.buf == b.buf
            &&& t.pos == b.end - d
            &&& forall|slot: int|
                0 <= slot ==> #[trigger] t.field_at(slot) == Ok::<Option<int>, IpcErrorModel>(
                    match lookup(locs, slot) {
                        None => None,
                        Some(at) => Some(b.end - at),
                    },
                )
        },
        Err(_) => false,
    }
}

pub proof fn lemma_i16_at(b: Site, d: int, value: i16, context: Seq<char>)
    requires
        placed(b, d, le_i16(value)),
    ensures
        i16_at(b.buf, b.end - d, context) == Ok::<i16, IpcErrorModel>(value),
{
}

pub proof fn lemma_i32_at(b: Site, d: int, value: i32, context: Seq<char>)
    requires
        placed(b, d, le_i32(value)),
    ensures
        i32_at(b.buf, b.end - d, context) == Ok::<i32, IpcErrorModel>(value),
{
}

pub proof fn lemma_i64_at(b: Site, d: int, value: i64, context: Seq<char>)
    requires
        placed(b, d, le_i64(value)),
    ensures
        i64_at(b.buf, b.end - d, context) == Ok::<i64, IpcErrorModel>(value),
{
}

pub proof fn lemma_u8_at(b: Site, d: int, value: u8, context: Seq<char>)
    requires
        placed(b, d, seq![value]),
    ensures
        u8_at(b.buf, b.end - d, context) == Ok::<u8, IpcErrorModel>(value),
{
    assert(b.buf.subrange(b.end - d, b.end - d + 1)[0] == b.buf[b.end - d]);
}

/// What is in front stands at the full distance.
pub proof fn lemma_front(object: Seq<u8>, c: Seq<u8>)
    ensures
        bytes_at(object + c, (object + c).len() as int, object),
{
    assert((object + c).subrange(0, object.len() as int) =~= object);
}

/// Padding only writes in front.
pub proof fn lemma_pre_align(m: FbModel, additional: int, alignment: nat)
    requires
        m.wf(),
        0 <= additional,
        alignment == 2 || alignment == 4 || alignment == 8,
    ensures
        m.pre_align(additional, alignment).wf(),
        m.pre_align(additional, alignment).open == m.open,
        m.pre_align(additional, alignment).locs == m.locs,
        m.pre_align(additional, alignment).vtables == m.vtables,
        m.pre_align(additional, alignment).far == m.far,
        extends(m, m.pre_align(additional, alignment)),
        m.bytes.len() <= m.pre_align(additional, alignment).bytes.len() < m.bytes.len() + alignment,
        (m.pre_align(additional, alignment).bytes.len() + additional) % (alignment as int) == 0,
{
    reveal(FbModel::pre_align);
    crate::le::lemma_padded(m.bytes.len() + additional, alignment as int);
    let pad = pad_to(m.bytes.len() + additional, alignment as int);
    lemma_fronted(zeros(pad as nat), m.bytes);
    assert(m.pre_align(additional, alignment).bytes.len() == m.bytes.len() + pad);
}

/// Writing in front keeps well-formedness.
pub proof fn lemma_push_bytes(m: FbModel, object: Seq<u8>)
    requires
        m.wf(),
    ensures
        m.push_bytes(object).wf(),
        extends(m, m.push_bytes(object)),
        bytes_at(m.push_bytes(object).bytes, m.push_bytes(object).bytes.len() as int, object),
{
    lemma_fronted(object, m.bytes);
    lemma_front(object, m.bytes);
}

/// A reference is read back.
pub proof fn lemma_push_offset(m: FbModel, target: nat)
    requires
        m.wf(),
        0 < target <= m.bytes.len(),
    ensures
        m.push_offset(target).wf(),
        m.push_offset(target).open == m.open,
        m.push_offset(target).locs == m.locs,
        m.push_offset(target).far == m.far,
        extends(m, m.push_offset(target)),
        m.bytes.len() + 4 <= m.push_offset(target).bytes.len() <= m.bytes.len() + 7,
        m.push_offset(target).bytes.len() % 4 == 0,
        m.bytes.len() % 4 == 0 ==> m.push_offset(target).bytes.len() == m.bytes.len() + 4,
        holds_reference(
            m.push_offset(target),
            m.push_offset(target).bytes.len() as int,
            target as int,
        ),
{
    reveal(FbModel::push_offset);
    lemma_pre_align(m, 4, 4);
    let aligned = m.pre_align(4, 4);
    let ahead = aligned.bytes.len() + 4 - target;
    let object = le_u32(ahead as u32);
    lemma_push_bytes(aligned, object);
    let done = m.push_offset(target);
    let d = done.bytes.len() as int;
    lemma_extends_trans(m, aligned, done);
    assert forall|b: Site, context: Seq<char>|
        #![trigger sits(done, b), deref_at(b.buf, b.end - d, context)]
        sits(done, b) && addressable(b) implies deref_at(b.buf, b.end - d, context) == Ok::<
        int,
        IpcErrorModel,
    >(b.end - target) by {
        lemma_placed(done, b, d, object);
    }
}

/// Text is read back.
pub proof fn lemma_create_string(m: FbModel, text: Seq<char>)
    requires
        m.wf(),
    ensures
        m.create_string(text).wf(),
        m.create_string(text).open == m.open,
        m.create_string(text).locs == m.locs,
        extends(m, m.create_string(text)),
        holds_text(m.create_string(text), m.create_string(text).bytes.len() as int, text),
{
    reveal(FbModel::create_string);
    reveal(FbModel::pre_align);
    reveal(FbModel::push_u8);
    reveal(FbModel::push_u32);
    let bytes = encode_utf8(text);
    let n = bytes.len() as int;
    lemma_pre_align(m, n + 1, 4);
    let m1 = m.pre_align(n + 1, 4);
    lemma_push_bytes(m1, seq![0u8]);
    let m2 = m1.push_u8(0);
    lemma_push_bytes(m2, bytes);
    let m3 = m2.push_bytes(bytes);
    lemma_pre_align(m3, 4, 4);
    let m4 = m3.pre_align(4, 4);
    assert(pad_to(m3.bytes.len() as int + 4, 4) == 0);
    assert(m4.bytes =~= m3.bytes);
    let prefix = le_u32(n as u32);
    lemma_push_bytes(m4, prefix);
    let done = m.create_string(text);
    assert(done == m4.push_bytes(prefix));
    lemma_extends_trans(m, m1, m2);
    lemma_extends_trans(m, m2, m3);
    lemma_extends_trans(m, m3, done);
    let d = done.bytes.len() as int;
    assert forall|b: Site| #[trigger] sits(done, b) && addressable(b) implies string_at(b.buf,
        b.end - d,
    ) == Ok::<Seq<char>, IpcErrorModel>(text) by {
        lemma_placed(done, b, d, prefix);
        lemma_sits(m3, done, b);
        lemma_placed(m3, b, d - 4, bytes);
        encode_utf8_valid_utf8(text);
        encode_utf8_decode_utf8(text);
    }
}

/// Several references in a row.
proof fn lemma_push_offsets(m: FbModel, targets: Seq<nat>)
    requires
        m.wf(),
        m.bytes.len() % 4 == 0,
        forall|i: int| 0 <= i < targets.len() ==> 0 < #[trigger] targets[i] <= m.bytes.len(),
    ensures
        m.push_offsets(targets).wf(),
        m.push_offsets(targets).open == m.open,
        m.push_offsets(targets).locs == m.locs,
        extends(m, m.push_offsets(targets)),
        m.push_offsets(targets).bytes.len() == m.bytes.len() + 4 * targets.len(),
        forall|i: int|
            #![trigger targets[i]]
            0 <= i < targets.len() ==> holds_reference(
                m.push_offsets(targets),
                m.bytes.len() + 4 * (targets.len() - i),
                targets[i] as int,
            ),
    decreases targets.len(),
{
    if targets.len() == 0 {
        lemma_extends_refl(m);
    } else {
        let last = targets.last();
        let rest = targets.drop_last();
        lemma_push_offset(m, last);
        let next = m.push_offset(last);
        assert forall|i: int| 0 <= i < rest.len() implies 0 < #[trigger] rest[i] <= next.bytes.len() by {
            assert(rest[i] == targets[i]);
        }
        lemma_push_offsets(next, rest);
        let done = m.push_offsets(targets);
        assert(done == next.push_offsets(rest));
        lemma_extends_trans(m, next, done);
        assert forall|i: int|
            #![trigger targets[i]]
            0 <= i < targets.len() implies holds_reference(
            done,
            m.bytes.len() + 4 * (targets.len() - i),
            targets[i] as int,
        ) by {
            if i < rest.len() {
                assert(rest[i] == targets[i]);
                assert(m.bytes.len() + 4 * (targets.len() - i) == next.bytes.len() + 4 * (rest.len() - i));
            } else {
                lemma_reference_extends(next, done, next.bytes.len() as int, last as int);
            }
        }
    }
}

/// A reference stays where it is.
pub proof fn lemma_reference_extends(c: FbModel, e: FbModel, d: int, target: int)
    requires
        extends(c, e),
        holds_reference(c, d, target),
    ensures
        holds_reference(e, d, target),
{
    assert forall|b: Site, context: Seq<char>|
        #![trigger sits(e, b), deref_at(b.buf, b.end - d, context)]
        sits(e, b) && addressable(b) implies deref_at(b.buf, b.end - d, context) == Ok::<
        int,
        IpcErrorModel,
    >(b.end - target) by {
        lemma_sits(c, e, b);
    }
}

/// A vector of references is read back.
pub proof fn lemma_create_offset_vector(m: FbModel, targets: Seq<nat>)
    requires
        m.wf(),
        forall|i: int| 0 <= i < targets.len() ==> 0 < #[trigger] targets[i] <= m.bytes.len(),
    ensures
        m.create_offset_vector(targets).wf(),
        m.create_offset_vector(targets).open == m.open,
        m.create_offset_vector(targets).locs == m.locs,
        extends(m, m.create_offset_vector(targets)),
        holds_references(
            m.create_offset_vector(targets),
            m.create_offset_vector(targets).bytes.len() as int,
            targets,
        ),
{
    reveal(FbModel::create_offset_vector);
    reveal(FbModel::pre_align);
    reveal(FbModel::push_u32);
    let n = targets.len() as int;
    lemma_pre_align(m, n * 4, 4);
    let m1 = m.pre_align(n * 4, 4);
    assert(m1.bytes.len() % 4 == 0);
    lemma_push_offsets(m1, targets);
    let m2 = m1.push_offsets(targets);
    lemma_pre_align(m2, 4, 4);
    let m3 = m2.pre_align(4, 4);
    assert(pad_to(m2.bytes.len() as int + 4, 4) == 0);
    assert(m3.bytes =~= m2.bytes);
    let prefix = le_u32(n as u32);
    lemma_push_bytes(m3, prefix);
    let done = m.create_offset_vector(targets);
    assert(done == m3.push_bytes(prefix));
    lemma_extends_trans(m, m1, m2);
    lemma_extends_trans(m, m2, done);
    let d = done.bytes.len() as int;
    assert forall|b: Site| #[trigger] sits(done, b) && addressable(b) implies {
        &&& span_at(b.buf, b.end - d, 4) == Ok::<SpanModel, IpcErrorModel>(
            SpanModel { buf: b.buf, start: b.end - d + 4, len: targets.len() as int, stride: 4 },
        )
        &&& forall|i: int, context: Seq<char>|
            0 <= i < targets.len() ==> #[trigger] deref_at(b.buf, b.end - d + 4 + i * 4, context) == Ok::<
                int,
                IpcErrorModel,
            >(b.end - targets[i])
    } by {
        lemma_placed(done, b, d, prefix);
        assert(n <= u32::MAX);
        lemma_sits(m2, done, b);
        assert forall|i: int, context: Seq<char>| 0 <= i < targets.len() implies #[trigger] deref_at(b.buf,
            b.end - d + 4 + i * 4,
            context,
        ) == Ok::<int, IpcErrorModel>(b.end - targets[i]) by {
            let at = m1.bytes.len() + 4 * (targets.len() - i);
            assert(holds_reference(m2, at, targets[i] as int));
            assert(b.end - d + 4 + i * 4 == b.end - at);
            assert(deref_at(b.buf, b.end - at, context) == Ok::<int, IpcErrorModel>(b.end - targets[i]));
        }
    }
}

proof fn lemma_pairs_bytes(items: Seq<(i64, i64)>)
    ensures
        pairs_bytes(items).len() == 16 * items.len(),
        forall|i: int|
            #![trigger items[i]]
            0 <= i < items.len() ==> pairs_bytes(items).subrange(16 * i, 16 * i + 8) == le_i64(items[i].0)
                && pairs_bytes(items).subrange(16 * i + 8, 16 * i + 16) == le_i64(items[i].1),
    decreases items.len(),
{
    if items.len() > 0 {
        let rest = items.drop_first();
        lemma_pairs_bytes(rest);
        let head = le_i64(items[0].0) + le_i64(items[0].1);
        let all = pairs_bytes(items);
        assert(all == head + pairs_bytes(rest));
        assert forall|i: int|
            #![trigger items[i]]
            0 <= i < items.len() implies all.subrange(16 * i, 16 * i + 8) == le_i64(items[i].0)
            && all.subrange(16 * i + 8, 16 * i + 16) == le_i64(items[i].1) by {
            if i == 0 {
                assert(all.subrange(0, 8) =~= le_i64(items[0].0));
                assert(all.subrange(8, 16) =~= le_i64(items[0].1));
            } else {
                assert(rest[i - 1] == items[i]);
                assert(all.subrange(16 * i, 16 * i + 8) =~= pairs_bytes(rest).subrange(
                    16 * (i - 1),
                    16 * (i - 1) + 8,
                ));
                assert(all.subrange(16 * i + 8, 16 * i + 16) =~= pairs_bytes(rest).subrange(
                    16 * (i - 1) + 8,
                    16 * (i - 1) + 16,
                ));
            }
        }
    }
}

/// A vector of pairs is read back.
pub proof fn lemma_create_struct_pair_vector(m: FbModel, items: Seq<(i64, i64)>)
    requires
        m.wf(),
    ensures
        m.create_struct_pair_vector(items).wf(),
        m.create_struct_pair_vector(items).open == m.open,
        m.create_struct_pair_vector(items).locs == m.locs,
        extends(m, m.create_struct_pair_vector(items)),
        holds_pairs(
            m.create_struct_pair_vector(items),
            m.create_struct_pair_vector(items).bytes.len() as int,
            items,
        ),
{
    reveal(FbModel::create_struct_pair_vector);
    reveal(FbModel::pre_align);
    reveal(FbModel::push_u32);
    let n = items.len() as int;
    lemma_pre_align(m, n * 16, 8);
    let m1 = m.pre_align(n * 16, 8);
    let body = pairs_bytes(items);
    lemma_pairs_bytes(items);
    lemma_push_bytes(m1, body);
    let m2 = m1.push_bytes(body);
    lemma_pre_align(m2, 4, 4);
    let m3 = m2.pre_align(4, 4);
    assert(m1.bytes.len() % 8 == 0);
    assert(pad_to(m2.bytes.len() as int + 4, 4) == 0);
    assert(m3.bytes =~= m2.bytes);
    let prefix = le_u32(n as u32);
    lemma_push_bytes(m3, prefix);
    let done = m.create_struct_pair_vector(items);
    assert(done == m3.push_bytes(prefix));
    lemma_extends_trans(m, m1, m2);
    lemma_extends_trans(m, m2, done);
    let d = done.bytes.len() as int;
    assert forall|b: Site| #[trigger] sits(done, b) && addressable(b) implies {
        let span = SpanModel { buf: b.buf, start: b.end - d + 4, len: items.len() as int, stride: 16 };
        &&& span_at(b.buf, b.end - d, 16) == Ok::<SpanModel, IpcErrorModel>(span)
        &&& forall|i: int|
            0 <= i < items.len() ==> #[trigger] span.pair_item(i) == Ok::<(i64, i64), IpcErrorModel>(items[i])
    } by {
        lemma_placed(done, b, d, prefix);
        lemma_sits(m2, done, b);
        lemma_placed(m2, b, d - 4, body);
        lemma_pairs_read(b, d, items);
    }
}

/// What the reader sees of a length prefix and pairs.
proof fn lemma_pairs_read(b: Site, d: int, items: Seq<(i64, i64)>)
    requires
        addressable(b),
        placed(b, d, le_u32(items.len() as u32)),
        placed(b, d - 4, pairs_bytes(items)),
    ensures
        ({
            let span = SpanModel { buf: b.buf, start: b.end - d + 4, len: items.len() as int, stride: 16 };
            &&& span_at(b.buf, b.end - d, 16) == Ok::<SpanModel, IpcErrorModel>(span)
            &&& forall|i: int|
                0 <= i < items.len() ==> #[trigger] span.pair_item(i) == Ok::<(i64, i64), IpcErrorModel>(items[i])
        }),
{
    lemma_pairs_bytes(items);
    let body = pairs_bytes(items);
    let span = SpanModel { buf: b.buf, start: b.end - d + 4, len: items.len() as int, stride: 16 };
    assert(span_at(b.buf, b.end - d, 16) == Ok::<SpanModel, IpcErrorModel>(span));
    assert forall|i: int| 0 <= i < items.len() implies #[trigger] span.pair_item(i) == Ok::<
        (i64, i64),
        IpcErrorModel,
    >(items[i]) by {
        lemma_pair_read(b, d, items, i);
    }
}

proof fn lemma_pair_read(b: Site, d: int, items: Seq<(i64, i64)>, i: int)
    requires
        placed(b, d - 4, pairs_bytes(items)),
        0 <= i < items.len(),
    ensures
        (SpanModel { buf: b.buf, start: b.end - d + 4, len: items.len() as int, stride: 16 }).pair_item(i)
            == Ok::<(i64, i64), IpcErrorModel>(items[i]),
{
    lemma_pairs_bytes(items);
    let body = pairs_bytes(items);
    let at = b.end - d + 4 + i * 16;
    let whole = b.buf.subrange(b.end - (d - 4), b.end - (d - 4) + body.len());
    assert(whole == body);
    assert(0 <= 16 * i && 16 * i + 16 <= body.len());
    assert(b.buf.subrange(at, at + 8) =~= whole.subrange(16 * i, 16 * i + 8));
    assert(b.buf.subrange(at + 8, at + 16) =~= whole.subrange(16 * i + 8, 16 * i + 16));
    assert(items[i].0 == items[i].0);
}

proof fn lemma_lookup(locs: Seq<(nat, nat)>, slot: nat, table: int)
    ensures
        entry_of(locs, slot, table) == match lookup(locs, slot as int) {
            None => 0u16,
            Some(at) => (table - at) as u16,
        },
        lookup(locs, slot as int) matches Some(at) ==> exists|i: int|
            0 <= i < locs.len() && #[trigger] locs[i] == (slot, at),
        slot >= slot_count(locs) ==> lookup(locs, slot as int) is None,
    decreases locs.len(),
{
    if locs.len() > 0 {
        let rest = locs.drop_last();
        lemma_lookup(rest, slot, table);
        if locs.last().0 == slot {
            assert(locs[locs.len() - 1] == (slot, locs.last().1));
        } else if let Some(at) = lookup(rest, slot as int) {
            let i = choose|i: int| 0 <= i < rest.len() && #[trigger] rest[i] == (slot, at);
            assert(locs[i] == (slot, at));
        }
    }
}

proof fn lemma_slot_count(locs: Seq<(nat, nat)>, bound: nat)
    requires
        forall|i: int| 0 <= i < locs.len() ==> (#[trigger] locs[i]).0 < bound,
    ensures
        slot_count(locs) <= bound,
    decreases locs.len(),
{
    if locs.len() > 0 {
        let rest = locs.drop_last();
        assert forall|i: int| 0 <= i < rest.len() implies (#[trigger] rest[i]).0 < bound by {
            assert(rest[i] == locs[i]);
        }
        lemma_slot_count(rest, bound);
        assert(locs[locs.len() - 1].0 < bound);
    }
}

proof fn lemma_entries_bytes(locs: Seq<(nat, nat)>, count: nat, table: int)
    ensures
        entries_bytes(locs, count, table).len() == 2 * count,
        forall|slot: int|
            0 <= slot < count ==> #[trigger] entries_bytes(locs, count, table).subrange(
                2 * slot,
                2 * slot + 2,
            ) == le_u16(entry_of(locs, slot as nat, table)),
    decreases count,
{
    if count > 0 {
        let before = entries_bytes(locs, (count - 1) as nat, table);
        lemma_entries_bytes(locs, (count - 1) as nat, table);
        let all = entries_bytes(locs, count, table);
        assert forall|slot: int| 0 <= slot < count implies #[trigger] all.subrange(2 * slot, 2 * slot + 2)
            == le_u16(entry_of(locs, slot as nat, table)) by {
            if slot < count - 1 {
                assert(all.subrange(2 * slot, 2 * slot + 2) =~= before.subrange(2 * slot, 2 * slot + 2));
            } else {
                assert(all.subrange(2 * slot, 2 * slot + 2) =~= le_u16(entry_of(locs, slot as nat, table)));
            }
        }
    }
}

/// How many fields a table may have here.
pub open spec fn max_fields() -> nat {
    1000
}

/// A table is open, with few and small fields.
pub open spec fn table_open(m: FbModel, start: int) -> bool {
    &&& m.wf()
    &&& 0 <= start <= m.bytes.len() <= start + 15 * m.locs.len()
    &&& m.locs.len() <= max_fields()
    &&& forall|i: int|
        #![trigger m.locs[i]]
        0 <= i < m.locs.len() ==> m.locs[i].0 < max_fields() && start < m.locs[i].1 <= m.bytes.len()
}

/// The state after a field of at most eight bytes was pushed and recorded.
proof fn lemma_track(m: FbModel, pushed: FbModel, start: int, slot: nat)
    requires
        table_open(m, start),
        pushed.wf(),
        pushed.locs == m.locs,
        m.bytes.len() < pushed.bytes.len() <= m.bytes.len() + 15,
        m.locs.len() < max_fields(),
        slot < max_fields(),
    ensures
        table_open(pushed.track(slot), start),
{
    let done = pushed.track(slot);
    assert forall|i: int| #![trigger done.locs[i]] 0 <= i < done.locs.len() implies done.locs[i].0
        < max_fields() && start < done.locs[i].1 <= done.bytes.len() by {
        if i < m.locs.len() {
            assert(done.locs[i] == m.locs[i]);
        }
    }
    assert(max_fields() <= MAX_SLOT);
}

pub proof fn lemma_start_table(m: FbModel)
    requires
        m.wf(),
    ensures
        table_open(m.start_table(), m.bytes.len() as int),
{
}

pub proof fn lemma_slot_offset(m: FbModel, start: int, slot: nat, target: nat)
    requires
        table_open(m, start),
        m.locs.len() < max_fields(),
        slot < max_fields(),
        0 < target <= m.bytes.len(),
    ensures
        ({
            let done = m.slot_offset(slot, target);
            &&& table_open(done, start)
            &&& done.locs == m.locs.push((slot, done.bytes.len()))
            &&& extends(m, done)
            &&& holds_reference(done, done.bytes.len() as int, target as int)
        }),
{
    lemma_push_offset(m, target);
    let pushed = m.push_offset(target);
    lemma_track(m, pushed, start, slot);
    lemma_extends_refl(pushed);
    lemma_reference_extends(pushed, pushed.track(slot), pushed.bytes.len() as int, target as int);
}

pub proof fn lemma_slot_u8(m: FbModel, start: int, slot: nat, value: u8)
    requires
        table_open(m, start),
        m.locs.len() < max_fields(),
        slot < max_fields(),
    ensures
        ({
            let done = m.push_u8(value).track(slot);
            &&& table_open(done, start)
            &&& done.locs == m.locs.push((slot, done.bytes.len()))
            &&& extends(m, done)
            &&& bytes_at(done.bytes, done.bytes.len() as int, seq![value])
        }),
{
    reveal(FbModel::push_u8);
    lemma_push_bytes(m, seq![value]);
    lemma_track(m, m.push_u8(value), start, slot);
}

pub proof fn lemma_slot_i16(m: FbModel, start: int, slot: nat, value: i16)
    requires
        table_open(m, start),
        m.locs.len() < max_fields(),
        slot < max_fields(),
    ensures
        ({
            let done = m.push_i16(value).track(slot);
            &&& table_open(done, start)
            &&& done.locs == m.locs.push((slot, done.bytes.len()))
            &&& extends(m, done)
            &&& bytes_at(done.bytes, done.bytes.len() as int, le_i16(value))
        }),
{
    reveal(FbModel::push_i16);
    lemma_pre_align(m, 2, 2);
    lemma_push_bytes(m.pre_align(2, 2), le_i16(value));
    lemma_extends_trans(m, m.pre_align(2, 2), m.push_i16(value));
    lemma_track(m, m.push_i16(value), start, slot);
}

pub proof fn lemma_slot_i32(m: FbModel, start: int, slot: nat, value: i32)
    requires
        table_open(m, start),
        m.locs.len() < max_fields(),
        slot < max_fields(),
    ensures
        ({
            let done = m.push_i32(value).track(slot);
            &&& table_open(done, start)
            &&& done.locs == m.locs.push((slot, done.bytes.len()))
            &&& extends(m, done)
            &&& bytes_at(done.bytes, done.bytes.len() as int, le_i32(value))
        }),
{
    reveal(FbModel::push_i32);
    lemma_pre_align(m, 4, 4);
    lemma_push_bytes(m.pre_align(4, 4), le_i32(value));
    lemma_extends_trans(m, m.pre_align(4, 4), m.push_i32(value));
    lemma_track(m, m.push_i32(value), start, slot);
}

pub proof fn lemma_slot_i64(m: FbModel, start: int, slot: nat, value: i64)
    requires
        table_open(m, start),
        m.locs.len() < max_fields(),
        slot < max_fields(),
    ensures
        ({
            let done = m.push_i64(value).track(slot);
            &&& table_open(done, start)
            &&& done.locs == m.locs.push((slot, done.bytes.len()))
            &&& extends(m, done)
            &&& bytes_at(done.bytes, done.bytes.len() as int, le_i64(value))
        }),
{
    reveal(FbModel::push_i64);
    lemma_pre_align(m, 8, 8);
    lemma_push_bytes(m.pre_align(8, 8), le_i64(value));
    lemma_extends_trans(m, m.pre_align(8, 8), m.push_i64(value));
    lemma_track(m, m.push_i64(value), start, slot);
}

proof fn lemma_find_vtable(vtables: Seq<nat>, bytes: Seq<u8>, candidate: Seq<u8>)
    ensures
        find_vtable(vtables, bytes, candidate) matches Some(d) ==> bytes_at(bytes, d as int, candidate)
            && vtables.contains(d),
    decreases vtables.len(),
{
    if vtables.len() > 0 {
        let rest = vtables.drop_first();
        lemma_find_vtable(rest, bytes, candidate);
        if bytes_at(bytes, vtables[0] as int, candidate) {
            assert(vtables.contains(vtables[0]));
        } else if let Some(d) = find_vtable(rest, bytes, candidate) {
            let i = choose|i: int| 0 <= i < rest.len() && rest[i] == d;
            assert(vtables[i + 1] == d);
        }
    }
}

/// A finished table is read back.
pub proof fn lemma_end_table(m: FbModel, start: nat)
    requires
        table_open(m, start as int),
    ensures
        m.end_table(start).wf(),
        !m.end_table(start).open,
        extends(m, m.end_table(start)),
        m.bytes.len() < m.table_word().bytes.len() <= m.end_table(start).bytes.len(),
        holds_table(m.end_table(start), m.table_word().bytes.len() as int, m.locs),
{
    reveal(FbModel::end_table);
    reveal(FbModel::table_word);
    reveal(FbModel::pre_align);
    lemma_pre_align(m, 4, 4);
    let aligned = m.pre_align(4, 4);
    lemma_push_bytes(aligned, zeros(4));
    let word = m.table_word();
    let table = word.bytes.len() as int;
    let vtable = m.table_vtable(start);
    let done = m.end_table(start);
    let full = m.with_vtable(start);
    let vd = m.vtable_distance(start) as int;
    let stored = le_i32((vd - table) as i32);
    lemma_find_vtable(word.vtables, word.bytes, vtable);
    let found = find_vtable(word.vtables, word.bytes, vtable);
    let padding = if found is None {
        zeros(pad_to(word.bytes.len() + vtable.len() as int, 2) as nat)
    } else {
        Seq::empty()
    };
    let front = if found is None {
        vtable + padding
    } else {
        Seq::empty()
    };
    crate::le::lemma_padded(word.bytes.len() + vtable.len() as int, 2);
    assert(full.bytes =~= front + word.bytes);
    assert(done.bytes =~= front + (stored + aligned.bytes));
    lemma_fronted(stored, aligned.bytes);
    lemma_fronted(front, stored + aligned.bytes);
    lemma_fronted_trans(m.bytes, aligned.bytes, stored + aligned.bytes);
    lemma_fronted_trans(m.bytes, stored + aligned.bytes, done.bytes);
    lemma_front(stored, aligned.bytes);
    lemma_bytes_at(stored + aligned.bytes, done.bytes, table, stored);
    assert(bytes_at(done.bytes, vd, vtable)) by {
        if found is None {
            assert(done.bytes =~= vtable + (padding + (stored + aligned.bytes)));
            lemma_front(vtable, padding + (stored + aligned.bytes));
        } else {
            let i = choose|i: int| 0 <= i < m.vtables.len() && m.vtables[i] == vd;
            assert(m.vtables[i] <= m.bytes.len());
            assert(word.bytes.subrange(word.bytes.len() - vd, word.bytes.len() - vd + vtable.len())
                =~= done.bytes.subrange(done.bytes.len() - vd, done.bytes.len() - vd + vtable.len()));
        }
    }
    assert(done.wf()) by {
        assert forall|i: int| #![trigger done.vtables[i]] 0 <= i < done.vtables.len() implies done.vtables[i]
            <= done.bytes.len() by {
            if i < m.vtables.len() {
                assert(done.vtables[i] == m.vtables[i]);
            }
        }
    }
    assert forall|i: int| 0 <= i < m.locs.len() implies (#[trigger] m.locs[i]).0 < max_fields() by {}
    lemma_slot_count(m.locs, max_fields());
    let count = slot_count(m.locs);
    lemma_entries_bytes(m.locs, count, table);
    assert(vtable.len() == 4 + 2 * count);
    assert forall|b: Site| #[trigger] sits(done, b) && addressable(b) implies table_reads(
        b,
        table,
        m.locs,
    ) by {
        lemma_placed(done, b, table, stored);
        lemma_placed(done, b, vd, vtable);
        lemma_table_reads(b, m.locs, start as int, table, vd);
    }
}

/// What the reader sees of a table and its vtable.
proof fn lemma_table_reads(b: Site, locs: Seq<(nat, nat)>, start: int, table: int, vd: int)
    requires
        addressable(b),
        i32::MIN <= vd - table <= i32::MAX,
        placed(b, table, le_i32((vd - table) as i32)),
        placed(b, vd, vtable_bytes(locs, table, table - start)),
        table <= start + 15 * locs.len() + 7,
        locs.len() <= max_fields(),
        forall|i: int|
            #![trigger locs[i]]
            0 <= i < locs.len() ==> locs[i].0 < max_fields() && start < locs[i].1 < table,
        0 <= start,
    ensures
        table_reads(b, table, locs),
{
    lemma_slot_count(locs, max_fields());
    let count = slot_count(locs);
    lemma_entries_bytes(locs, count, table);
    let vtable = vtable_bytes(locs, table, table - start);
    let pos = b.end - table;
    let at = b.end - vd;
    assert(b.buf.subrange(pos, pos + 4) == le_i32((vd - table) as i32));
    let whole = b.buf.subrange(at, at + vtable.len());
    assert(whole == vtable);
    assert(b.buf.subrange(at, at + 2) =~= whole.subrange(0, 2));
    assert(whole.subrange(0, 2) =~= le_u16((4 + 2 * count) as u16));
    let t = TableModel { buf: b.buf, pos, vtable: at, vt_len: 4 + 2 * (count as int) };
    assert(table_at(b.buf, pos) == Ok::<TableModel, IpcErrorModel>(t));
    assert forall|slot: int| 0 <= slot implies #[trigger] t.field_at(slot) == Ok::<Option<int>, IpcErrorModel>(
        match lookup(locs, slot) {
            None => None,
            Some(d) => Some(b.end - d),
        },
    ) by {
        lemma_lookup(locs, slot as nat, table);
        if slot < count {
            let entry_at = at + 4 + 2 * slot;
            let entries = entries_bytes(locs, count, table);
            let read = b.buf.subrange(entry_at, entry_at + 2);
            let written = entries.subrange(2 * slot, 2 * slot + 2);
            assert forall|k: int| 0 <= k < 2 implies read[k] == written[k] by {
                assert(whole[4 + 2 * slot + k] == entries[2 * slot + k]);
            }
            assert(read =~= written);
            if let Some(d) = lookup(locs, slot) {
                let i = choose|i: int| 0 <= i < locs.len() && #[trigger] locs[i] == (slot as nat, d);
                assert(start < locs[i].1 < table);
                assert(0 < table - d <= 65535);
            }
        }
    }
}

/// The finished buffer's root is the table named.
pub proof fn lemma_finish(m: FbModel, root: nat)
    requires
        m.wf(),
        0 < root <= m.bytes.len(),
    ensures
        m.finish(root).wf(),
        m.finish(root).far == m.far,
        extends(m, m.finish(root)),
        forall|b: Site| #[trigger]
            sits(m.finish(root), b) && addressable(b) && b.end == m.finish(root).bytes.len()
                ==> root_at(b.buf) == table_at(b.buf, b.end - root),
{
    reveal(FbModel::finish);
    let alignment = max_nat(m.min_align, 4);
    lemma_pre_align(m, 4, alignment);
    let aligned = m.pre_align(4, alignment);
    lemma_push_offset(aligned, root);
    let done = m.finish(root);
    if alignment == 4 {
        assert((aligned.bytes.len() + 4) % 4 == 0);
    } else {
        assert((aligned.bytes.len() + 4) % 8 == 0);
    }
    assert(aligned.bytes.len() % 4 == 0);
    lemma_extends_trans(m, aligned, done);
    assert(done.bytes.len() == aligned.bytes.len() + 4);
    assert forall|b: Site| #[trigger]
        sits(done, b) && addressable(b) && b.end == done.bytes.len() implies root_at(b.buf) == table_at(
        b.buf,
        b.end - root,
    ) by {
        assert(deref_at(b.buf, b.end - done.bytes.len(), "root offset"@) == Ok::<int, IpcErrorModel>(
            b.end - root,
        ));
    }
}

} // verus!
