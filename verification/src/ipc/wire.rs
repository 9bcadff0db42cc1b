//! What a column is on the wire: its nodes and its buffers, depth first.
//!
//! A column without nulls has an empty validity buffer. Offsets start at zero,
//! and what lies outside them is left out. A list's child is narrowed to what
//! the offsets cover.
use vstd::prelude::*;
use crate::array::model::{ArrayV, BodyV};
use crate::buffer::{packed, unset};
use crate::datatype::{FieldModel, TypeModel};
use crate::ipc::layout::{depth_of, offset_width};
use crate::le::{le_i32, le_i64, padded, pad_to, zeros};

verus! {

/// The validity buffer: empty without nulls.
pub open spec fn wire_validity(a: ArrayV) -> Seq<u8> {
    match a.validity {
        None => Seq::empty(),
        Some(v) => if unset(v) > 0 {
            packed(v)
        } else {
            Seq::empty()
        },
    }
}

/// One offset entry of a width.
pub open spec fn entry_bytes(value: i64, width: nat) -> Seq<u8> {
    if width == 4 {
        le_i32(value as i32)
    } else {
        le_i64(value)
    }
}

/// Offsets counted from the first one, as bytes.
pub open spec fn wire_offsets(offsets: Seq<i64>, width: nat) -> Seq<u8> {
    rebased_bytes(offsets, offsets.len(), width)
}

/// The first `count` of them.
pub open spec fn rebased_bytes(offsets: Seq<i64>, count: nat, width: nat) -> Seq<u8>
    decreases count,
{
    if count == 0 {
        Seq::empty()
    } else {
        rebased_bytes(offsets, (count - 1) as nat, width) + entry_bytes(
            (offsets[count - 1] - offsets[0]) as i64,
            width,
        )
    }
}

/// The width of a type's offsets.
pub open spec fn width_of(t: TypeModel) -> nat {
    match offset_width(t) {
        Some(w) => w,
        None => 0,
    }
}

/// The part of a list's child that its offsets cover.
pub open spec fn covered(offsets: Seq<i64>, child: ArrayV) -> ArrayV {
    child.sliced(offsets[0] as int, offsets.last() - offsets[0])
}

/// The nodes of a column of type `t`: length and null count, parents first.
pub open spec fn wire_nodes(t: TypeModel, a: ArrayV) -> Seq<(nat, nat)>
    decreases t, 0int,
{
    let own = seq![(a.len, a.nulls())];
    match (t, a.body) {
        (TypeModel::List(f), BodyV::List { offsets, child }) => own + wire_nodes(
            f.data_type,
            covered(offsets, *child),
        ),
        (TypeModel::FixedSizeList(f, _), BodyV::FixedList(child)) => own + wire_nodes(f.data_type, *child),
        (TypeModel::Struct(fs), BodyV::Struct(columns)) => own + wire_nodes_all(fs, columns),
        _ => own,
    }
}

/// The nodes of a list of columns.
pub open spec fn wire_nodes_all(fs: Seq<FieldModel>, columns: Seq<ArrayV>) -> Seq<(nat, nat)>
    decreases fs, 1int,
{
    if fs.len() == 0 {
        Seq::empty()
    } else {
        wire_nodes_all(fs.drop_last(), columns) + wire_nodes(
            fs.last().data_type,
            columns[fs.len() - 1],
        )
    }
}

/// The buffers of a column of type `t`, parents first.
pub open spec fn wire_buffers(t: TypeModel, a: ArrayV) -> Seq<Seq<u8>>
    decreases t, 0int,
{
    match (t, a.body) {
        (TypeModel::Null, _) => Seq::empty(),
        (_, BodyV::Bits(bits)) => seq![wire_validity(a), packed(bits)],
        (_, BodyV::Fixed(bytes)) => seq![wire_validity(a), bytes],
        (_, BodyV::Var { offsets, values }) => seq![
            wire_validity(a),
            wire_offsets(offsets, width_of(t)),
            values.subrange(offsets[0] as int, offsets.last() as int),
        ],
        (TypeModel::List(f), BodyV::List { offsets, child }) => seq![
            wire_validity(a),
            wire_offsets(offsets, width_of(t)),
        ] + wire_buffers(f.data_type, covered(offsets, *child)),
        (TypeModel::FixedSizeList(f, _), BodyV::FixedList(child)) => seq![wire_validity(a)] + wire_buffers(
            f.data_type,
            *child,
        ),
        (TypeModel::Struct(fs), BodyV::Struct(columns)) => seq![wire_validity(a)] + wire_buffers_all(
            fs,
            columns,
        ),
        _ => Seq::empty(),
    }
}

/// The buffers of a list of columns.
pub open spec fn wire_buffers_all(fs: Seq<FieldModel>, columns: Seq<ArrayV>) -> Seq<Seq<u8>>
    decreases fs, 1int,
{
    if fs.len() == 0 {
        Seq::empty()
    } else {
        wire_buffers_all(fs.drop_last(), columns) + wire_buffers(
            fs.last().data_type,
            columns[fs.len() - 1],
        )
    }
}

/// The nodes of columns, each by its own type.
pub open spec fn column_nodes(columns: Seq<ArrayV>) -> Seq<(nat, nat)>
    decreases columns.len(),
{
    if columns.len() == 0 {
        Seq::empty()
    } else {
        column_nodes(columns.drop_last()) + wire_nodes(columns.last().ty, columns.last())
    }
}

/// The buffers of columns, each by its own type.
pub open spec fn column_buffers(columns: Seq<ArrayV>) -> Seq<Seq<u8>>
    decreases columns.len(),
{
    if columns.len() == 0 {
        Seq::empty()
    } else {
        column_buffers(columns.drop_last()) + wire_buffers(columns.last().ty, columns.last())
    }
}

/// How many levels the deepest of the columns has.
pub open spec fn column_depth(columns: Seq<ArrayV>) -> nat
    decreases columns.len(),
{
    if columns.len() == 0 {
        0
    } else {
        let before = column_depth(columns.drop_last());
        let last = depth_of(columns.last().ty);
        if last > before {
            last
        } else {
            before
        }
    }
}

/// The length of a body of buffers, each on the alignment boundary.
pub open spec fn body_total(buffers: Seq<Seq<u8>>, alignment: int) -> int
    decreases buffers.len(),
{
    if buffers.len() == 0 {
        0
    } else {
        padded(body_total(buffers.drop_last(), alignment) + buffers.last().len(), alignment)
    }
}

/// Where each buffer of a body starts.
pub open spec fn body_offset(buffers: Seq<Seq<u8>>, i: int, alignment: int) -> int {
    body_total(buffers.take(i), alignment)
}

/// A body: every buffer, padded to the alignment.
pub open spec fn body_bytes(buffers: Seq<Seq<u8>>, alignment: int) -> Seq<u8>
    decreases buffers.len(),
{
    if buffers.len() == 0 {
        Seq::empty()
    } else {
        let before = body_total(buffers.drop_last(), alignment);
        body_bytes(buffers.drop_last(), alignment) + buffers.last() + zeros(
            pad_to(before + buffers.last().len(), alignment) as nat,
        )
    }
}

/// A body is as long as its total, which is a multiple of the alignment.
pub proof fn lemma_body_len(buffers: Seq<Seq<u8>>, alignment: int)
    requires
        0 < alignment,
    ensures
        body_bytes(buffers, alignment).len() == body_total(buffers, alignment),
        0 <= body_total(buffers, alignment),
        body_total(buffers, alignment) % alignment == 0,
    decreases buffers.len(),
{
    if buffers.len() > 0 {
        lemma_body_len(buffers.drop_last(), alignment);
        crate::le::lemma_padded(
            body_total(buffers.drop_last(), alignment) + buffers.last().len(),
            alignment,
        );
    } else {
        vstd::arithmetic::div_mod::lemma_small_mod(0, alignment as nat);
    }
}

/// Every buffer of a body is found at its offset.
pub proof fn lemma_body_buffer(buffers: Seq<Seq<u8>>, i: int, alignment: int)
    requires
        0 < alignment,
        0 <= i < buffers.len(),
    ensures
        0 <= body_offset(buffers, i, alignment),
        body_offset(buffers, i, alignment) % alignment == 0,
        body_offset(buffers, i, alignment) + buffers[i].len() <= body_total(buffers, alignment),
        body_bytes(buffers, alignment).subrange(
            body_offset(buffers, i, alignment),
            body_offset(buffers, i, alignment) + buffers[i].len(),
        ) == buffers[i],
    decreases buffers.len(),
{
    let rest = buffers.drop_last();
    lemma_body_len(buffers, alignment);
    lemma_body_len(rest, alignment);
    lemma_body_len(buffers.take(i), alignment);
    let before = body_total(rest, alignment);
    crate::le::lemma_padded(before + buffers.last().len(), alignment);
    let all = body_bytes(buffers, alignment);
    if i == buffers.len() - 1 {
        assert(buffers.take(i) =~= rest);
        assert(all.subrange(before, before + buffers.last().len()) =~= buffers.last());
    } else {
        lemma_body_buffer(rest, i, alignment);
        assert(rest.take(i) =~= buffers.take(i));
        assert(rest[i] == buffers[i]);
        let at = body_offset(buffers, i, alignment);
        let part = body_bytes(rest, alignment);
        assert(all.subrange(at, at + buffers[i].len()) =~= part.subrange(at, at + buffers[i].len()));
    }
}

/// A longer body is no shorter.
pub proof fn lemma_body_total_grows(buffers: Seq<Seq<u8>>, more: Seq<Seq<u8>>, alignment: int)
    requires
        0 < alignment,
    ensures
        body_total(buffers, alignment) <= body_total(buffers + more, alignment),
    decreases more.len(),
{
    if more.len() == 0 {
        assert(buffers + more =~= buffers);
    } else {
        lemma_body_total_grows(buffers, more.drop_last(), alignment);
        assert((buffers + more).drop_last() =~= buffers + more.drop_last());
        lemma_body_len(buffers + more.drop_last(), alignment);
        crate::le::lemma_padded(
            body_total(buffers + more.drop_last(), alignment) + (buffers + more).last().len(),
            alignment,
        );
    }
}

/// Whether every length among the nodes fits an `i64`.
#[verifier::opaque]
pub open spec fn nodes_fit(nodes: Seq<(nat, nat)>) -> bool {
    forall|i: int| #![trigger nodes[i]] 0 <= i < nodes.len() ==> nodes[i].0 <= i64::MAX
}

/// Whether every offset and every length of a body fits an `i64`, and the
/// body a `usize`.
#[verifier::opaque]
pub open spec fn body_fits(buffers: Seq<Seq<u8>>, alignment: int) -> bool {
    &&& body_total(buffers, alignment) <= usize::MAX
    &&& forall|i: int|
        #![trigger buffers[i]]
        0 <= i < buffers.len() ==> buffers[i].len() <= i64::MAX && body_offset(buffers, i, alignment)
            <= i64::MAX
}

/// What fits a longer body fits a shorter one.
pub proof fn lemma_body_fits_prefix(buffers: Seq<Seq<u8>>, more: Seq<Seq<u8>>, alignment: int)
    requires
        0 < alignment,
        body_fits(buffers + more, alignment),
    ensures
        body_fits(buffers, alignment),
{
    reveal(body_fits);
    let all = buffers + more;
    lemma_body_total_grows(buffers, more, alignment);
    assert forall|i: int| #![trigger buffers[i]] 0 <= i < buffers.len() implies buffers[i].len() <= i64::MAX
        && body_offset(buffers, i, alignment) <= i64::MAX by {
        assert(all[i] == buffers[i]);
        assert(all.take(i) =~= buffers.take(i));
    }
}

/// What fits a longer list of nodes fits its parts.
pub proof fn lemma_nodes_fit_parts(a: Seq<(nat, nat)>, b: Seq<(nat, nat)>)
    ensures
        nodes_fit(a + b) <==> nodes_fit(a) && nodes_fit(b),
{
    reveal(nodes_fit);
    if nodes_fit(a + b) {
        assert forall|i: int| #![trigger a[i]] 0 <= i < a.len() implies a[i].0 <= i64::MAX by {
            assert((a + b)[i] == a[i]);
        }
        assert forall|i: int| #![trigger b[i]] 0 <= i < b.len() implies b[i].0 <= i64::MAX by {
            assert((a + b)[a.len() + i] == b[i]);
        }
    }
}

/// One node fits when its length does.
pub proof fn lemma_node_fits(node: (nat, nat))
    ensures
        nodes_fit(seq![node]) <==> node.0 <= i64::MAX,
        nodes_fit(Seq::empty()),
{
    reveal(nodes_fit);
    assert(seq![node][0] == node);
}

/// A body of no buffers fits.
pub proof fn lemma_empty_body_fits(alignment: int)
    ensures
        body_fits(Seq::empty(), alignment),
{
    reveal(body_fits);
}

} // verus!
