//! Flattening a batch into nodes, buffers and body bytes.
//!
//! Buffers are shared with the arrays where the wire form is the array's own.
//! Bitmaps are repacked from their first bit, offsets counted from their first
//! entry.
use vstd::prelude::*;
use vstd::bytes::{u32_to_le_bytes, u64_to_le_bytes};
use crate::array::column::{arrays_model, lemma_struct_body, slice_array, Array, ArrayRef, Body};
use crate::array::model::{offsets_ok, ArrayV, BodyV};
use crate::buffer::{packed, Bitmap, Buffer, Offsets};
use crate::datatype::{DataType, FieldModel, TypeModel};
use crate::ipc::error::{IpcError, IpcErrorModel};
use crate::ipc::layout::{depth_of, depth_of_all, law_counts_are_depth_first, offset_byte_width, MAX_NESTING_DEPTH};
use crate::ipc::message::{boundary_of, used_alignment, write_all, write_padding};
use crate::ipc::schema::too_deep;
use crate::ipc::wire::{
    body_bytes, body_fits, body_offset, body_total, column_buffers, column_depth, column_nodes, covered, entry_bytes,
    lemma_body_fits_prefix, lemma_body_len, lemma_empty_body_fits, lemma_node_fits, lemma_nodes_fit_parts, nodes_fit,
    rebased_bytes, wire_buffers, wire_buffers_all, wire_nodes, wire_nodes_all, wire_offsets, wire_validity, width_of,
};
use crate::le::{extend, pad_to, padded, zeros};
use crate::record_batch::RecordBatch;

verus! {

/// A plan: nodes, buffers, and the boundary every buffer starts on.
pub struct LayoutV {
    pub nodes: Seq<(nat, nat)>,
    pub body: Seq<Seq<u8>>,
    pub alignment: int,
}

/// The nodes, buffers and body bytes of a batch.
#[derive(Debug)]
pub struct BatchLayout {
    nodes: Vec<(i64, i64)>,
    buffers: Vec<(i64, i64)>,
    body: Vec<Buffer>,
    body_length: usize,
    alignment: usize,
}

/// What a list of buffers holds.
pub open spec fn buffers_model(body: Seq<Buffer>) -> Seq<Seq<u8>> {
    Seq::new(body.len(), |i: int| body[i]@)
}

impl View for BatchLayout {
    type V = LayoutV;

    closed spec fn view(&self) -> LayoutV {
        LayoutV {
            nodes: Seq::new(
                self.nodes@.len(),
                |i: int| (self.nodes@[i].0 as nat, self.nodes@[i].1 as nat),
            ),
            body: buffers_model(self.body@),
            alignment: self.alignment as int,
        }
    }
}

/// A length that no `i64` holds.
pub open spec fn length_error() -> IpcErrorModel {
    IpcErrorModel::TooLarge { what: "length"@, length: u64::MAX, cap: i64::MAX as u64 }
}

/// A body that no `usize` holds.
pub open spec fn body_error() -> IpcErrorModel {
    IpcErrorModel::TooLarge { what: "body"@, length: u64::MAX, cap: crate::MAX_PAYLOAD_BYTES as u64 }
}

/// Whether nodes and a body can be written.
pub open spec fn plan_fits(nodes: Seq<(nat, nat)>, body: Seq<Seq<u8>>, alignment: int) -> bool {
    nodes_fit(nodes) && body_fits(body, alignment)
}

/// Why nodes and a body of a given depth are refused.
pub open spec fn plan_refused(
    e: IpcErrorModel,
    levels: int,
    depth: int,
    nodes: Seq<(nat, nat)>,
    body: Seq<Seq<u8>>,
    alignment: int,
) -> bool {
    ||| e == too_deep(depth) && levels > MAX_NESTING_DEPTH
    ||| (e == length_error() || e == body_error()) && !plan_fits(nodes, body, alignment)
}

/// Why a buffer is not placed behind others: an offset or a length that no
/// `i64` holds, or a body that no `usize` holds.
pub open spec fn place_error(body: Seq<Seq<u8>>, next: Seq<u8>, alignment: int) -> Option<IpcErrorModel> {
    let at = body_total(body, alignment);
    if at > i64::MAX || next.len() > i64::MAX {
        Some(length_error())
    } else if padded(at + next.len(), alignment) > usize::MAX {
        Some(body_error())
    } else {
        None
    }
}

/// Why the first of some buffers that is not placed is not.
pub open spec fn buffers_error(body: Seq<Seq<u8>>, more: Seq<Seq<u8>>, alignment: int) -> Option<IpcErrorModel>
    decreases more.len(),
{
    if more.len() == 0 {
        None
    } else {
        match buffers_error(body, more.drop_last(), alignment) {
            Some(e) => Some(e),
            None => place_error(body + more.drop_last(), more.last(), alignment),
        }
    }
}

/// Why a column of type `t` at a depth is not placed behind a body: the first
/// thing that goes wrong, depth first.
pub open spec fn array_error(t: TypeModel, a: ArrayV, depth: int, body: Seq<Seq<u8>>, alignment: int) -> Option<
    IpcErrorModel,
>
    decreases t, 0int,
{
    if depth > MAX_NESTING_DEPTH {
        Some(too_deep(depth))
    } else if a.len > i64::MAX {
        Some(length_error())
    } else {
        match (t, a.body) {
            (TypeModel::List(f), BodyV::List { offsets, child }) => {
                let own = seq![wire_validity(a), wire_offsets(offsets, width_of(t))];
                match buffers_error(body, own, alignment) {
                    Some(e) => Some(e),
                    None => array_error(f.data_type, covered(offsets, *child), depth + 1, body + own, alignment),
                }
            },
            (TypeModel::FixedSizeList(f, _), BodyV::FixedList(child)) => {
                let own = seq![wire_validity(a)];
                match buffers_error(body, own, alignment) {
                    Some(e) => Some(e),
                    None => array_error(f.data_type, *child, depth + 1, body + own, alignment),
                }
            },
            (TypeModel::Struct(fs), BodyV::Struct(columns)) => {
                let own = seq![wire_validity(a)];
                match buffers_error(body, own, alignment) {
                    Some(e) => Some(e),
                    None => arrays_error(fs, columns, depth + 1, body + own, alignment),
                }
            },
            _ => buffers_error(body, wire_buffers(t, a), alignment),
        }
    }
}

/// Why the first of a struct's columns that is not placed is not.
pub open spec fn arrays_error(
    fs: Seq<FieldModel>,
    columns: Seq<ArrayV>,
    depth: int,
    body: Seq<Seq<u8>>,
    alignment: int,
) -> Option<IpcErrorModel>
    decreases fs, 1int,
{
    if fs.len() == 0 {
        None
    } else {
        match arrays_error(fs.drop_last(), columns, depth, body, alignment) {
            Some(e) => Some(e),
            None => array_error(
                fs.last().data_type,
                columns[fs.len() - 1],
                depth,
                body + wire_buffers_all(fs.drop_last(), columns),
                alignment,
            ),
        }
    }
}

/// Why the first of a batch's columns that is not placed is not.
pub open spec fn plan_error(columns: Seq<ArrayV>, alignment: int) -> Option<IpcErrorModel>
    decreases columns.len(),
{
    if columns.len() == 0 {
        None
    } else {
        match plan_error(columns.drop_last(), alignment) {
            Some(e) => Some(e),
            None => array_error(
                columns.last().ty,
                columns.last(),
                1,
                column_buffers(columns.drop_last()),
                alignment,
            ),
        }
    }
}

/// The first of some buffers is placed before the others.
proof fn lemma_buffers_front(body: Seq<Seq<u8>>, more: Seq<Seq<u8>>, alignment: int)
    requires
        more.len() > 0,
    ensures
        buffers_error(body, more, alignment) == match place_error(body, more[0], alignment) {
            Some(e) => Some(e),
            None => buffers_error(body.push(more[0]), more.skip(1), alignment),
        },
    decreases more.len(),
{
    let rest = more.skip(1);
    if more.len() == 1 {
        assert(more.drop_last() =~= Seq::empty());
        assert(body + more.drop_last() =~= body);
        assert(rest =~= Seq::empty());
    } else {
        lemma_buffers_front(body, more.drop_last(), alignment);
        assert(more.drop_last().skip(1) =~= rest.drop_last());
        assert(body + more.drop_last() =~= body.push(more[0]) + rest.drop_last());
        assert(rest.last() == more.last());
    }
}

/// One buffer is placed or not by itself.
proof fn lemma_buffers_one(body: Seq<Seq<u8>>, next: Seq<u8>, alignment: int)
    ensures
        buffers_error(body, seq![next], alignment) == place_error(body, next, alignment),
{
    lemma_buffers_front(body, seq![next], alignment);
    assert(seq![next].skip(1) =~= Seq::empty());
}

/// Of columns, the first refusal is the refusal.
proof fn lemma_plan_error_stays(columns: Seq<ArrayV>, n: int, alignment: int)
    requires
        0 <= n <= columns.len(),
        plan_error(columns.take(n), alignment) is Some,
    ensures
        plan_error(columns, alignment) == plan_error(columns.take(n), alignment),
    decreases columns.len(),
{
    if n < columns.len() {
        assert(columns.drop_last().take(n) =~= columns.take(n));
        lemma_plan_error_stays(columns.drop_last(), n, alignment);
    } else {
        assert(columns.take(n) =~= columns);
    }
}

/// Of a struct's columns, the first refusal is the refusal.
proof fn lemma_arrays_error_stays(
    fs: Seq<FieldModel>,
    columns: Seq<ArrayV>,
    n: int,
    depth: int,
    body: Seq<Seq<u8>>,
    alignment: int,
)
    requires
        0 <= n <= fs.len(),
        arrays_error(fs.take(n), columns, depth, body, alignment) is Some,
    ensures
        arrays_error(fs, columns, depth, body, alignment) == arrays_error(
            fs.take(n),
            columns,
            depth,
            body,
            alignment,
        ),
    decreases fs.len(),
{
    if n < fs.len() {
        assert(fs.drop_last().take(n) =~= fs.take(n));
        lemma_arrays_error_stays(fs.drop_last(), columns, n, depth, body, alignment);
    } else {
        assert(fs.take(n) =~= fs);
    }
}

/// Widens a length.
fn to_i64(value: usize) -> (r: Result<i64, IpcError>)
    ensures
        match r {
            Ok(v) => v == value,
            Err(e) => value > i64::MAX && e@ == length_error(),
        },
{
    if value as u64 > 0x7FFF_FFFF_FFFF_FFFF {
        return Err(
            IpcError::TooLarge { what: "length", length: u64::MAX, cap: 0x7FFF_FFFF_FFFF_FFFF },
        );
    }
    Ok(value as i64)
}

/// Offsets counted from the first one, as bytes.
fn offsets_window(offsets: &Offsets, width: usize) -> (r: Buffer)
    requires
        width == 4 || width == 8,
        offsets@.len() > 0,
        offsets@[0] >= 0,
        forall|i: int, j: int|
            #![trigger offsets@[i], offsets@[j]]
            0 <= i <= j < offsets@.len() ==> offsets@[i] <= offsets@[j],
        width == 4 ==> offsets@.last() <= i32::MAX,
    ensures
        r@ == wire_offsets(offsets@, width as nat),
{
    let count: usize = offsets.len();
    let first: i64 = offsets.at(0);
    let mut out: Vec<u8> = Vec::new();
    let mut i: usize = 0;
    while i < count
        invariant
            0 <= i <= count == offsets@.len(),
            width == 4 || width == 8,
            first == offsets@[0],
            first >= 0,
            forall|i: int, j: int|
                #![trigger offsets@[i], offsets@[j]]
                0 <= i <= j < offsets@.len() ==> offsets@[i] <= offsets@[j],
            width == 4 ==> offsets@.last() <= i32::MAX,
            out@ == rebased_bytes(offsets@, i as nat, width as nat),
        decreases count - i,
    {
        assert(offsets@[0] <= offsets@[i as int]);
        assert(offsets@[i as int] <= offsets@[count - 1]);
        let value: i64 = offsets.at(i) - first;
        let entry = if width == 4 {
            u32_to_le_bytes(value as u32)
        } else {
            u64_to_le_bytes(value as u64)
        };
        assert(entry@ == entry_bytes(value, width as nat)) by {
            if width == 4 {
                assert((value as i32) as u32 == value as u32);
            }
        }
        extend(&mut out, entry.as_slice());
        i = i + 1;
    }
    Buffer::from_vec(out)
}

/// The packed bytes of a bitmap, from its first bit on.
fn canonical_bits(bits: &Bitmap) -> (r: Buffer)
    ensures
        r@ == packed(bits@),
{
    let canonical = bits.to_canonical();
    canonical.buffer().share()
}

impl BatchLayout {
    /// The lists fit one another.
    pub closed spec fn wf(&self) -> bool {
        &&& self.alignment >= 8
        &&& self.buffers@.len() == self.body@.len()
        &&& self.body_length == body_total(self@.body, self.alignment as int)
        &&& forall|i: int|
            #![trigger self.nodes@[i]]
            0 <= i < self.nodes@.len() ==> self.nodes@[i].0 >= 0 && self.nodes@[i].1 >= 0
        &&& forall|i: int|
            #![trigger self.buffers@[i]]
            0 <= i < self.buffers@.len() ==> {
                &&& self.buffers@[i].0 == body_offset(self@.body, i, self.alignment as int)
                &&& self.buffers@[i].1 == self.body@[i]@.len()
            }
    }

    /// Plans the body of a batch, every buffer on an `alignment` boundary.
    pub fn plan(batch: &RecordBatch, alignment: usize) -> (r: Result<BatchLayout, IpcError>)
        ensures
            ({
                let nodes = column_nodes(batch@.columns);
                let body = column_buffers(batch@.columns);
                let boundary = used_alignment(alignment as int);
                let levels = column_depth(batch@.columns);
                match r {
                    Ok(layout) => {
                        &&& layout.wf()
                        &&& layout@ == (LayoutV { nodes, body, alignment: boundary })
                        &&& levels <= MAX_NESTING_DEPTH
                        &&& plan_fits(nodes, body, boundary)
                        &&& plan_error(batch@.columns, boundary) is None
                    },
                    Err(e) => {
                        &&& plan_refused(e@, levels as int, 1, nodes, body, boundary)
                        &&& plan_error(batch@.columns, boundary) == Some(e@)
                    },
                }
            }),
    {
        let boundary: usize = boundary_of(alignment);
        let mut layout = BatchLayout {
            nodes: Vec::new(),
            buffers: Vec::new(),
            body: Vec::new(),
            body_length: 0,
            alignment: boundary,
        };
        let columns = batch.columns();
        let ghost cs = batch@.columns;
        proof {
            assert(cs.take(0) =~= Seq::<ArrayV>::empty());
            assert(layout@.nodes =~= Seq::<(nat, nat)>::empty());
            assert(layout@.body =~= Seq::<Seq<u8>>::empty());
            lemma_empty_body_fits(boundary as int);
            lemma_node_fits((0, 0));
        }
        let mut i: usize = 0;
        while i < columns.len()
            invariant
                0 <= i <= columns@.len(),
                cs == arrays_model(columns@),
                cs == batch@.columns,
                boundary >= 8,
                layout.wf(),
                layout@ == (LayoutV {
                    nodes: column_nodes(cs.take(i as int)),
                    body: column_buffers(cs.take(i as int)),
                    alignment: boundary as int,
                }),
                column_depth(cs.take(i as int)) <= MAX_NESTING_DEPTH,
                plan_fits(layout@.nodes, layout@.body, boundary as int),
                plan_error(cs.take(i as int), boundary as int) is None,
                boundary == used_alignment(alignment as int),
            decreases columns@.len() - i,
        {
            proof {
                assert(cs.take(i + 1).drop_last() =~= cs.take(i as int));
                assert(cs.take(i + 1).last() == columns@[i as int]@);
            }
            let ghost before = layout@;
            match layout.push_array(&columns[i], 1) {
                Ok(_) => {
                    proof {
                        let c = columns@[i as int]@;
                        lemma_nodes_fit_parts(before.nodes, wire_nodes(c.ty, c));
                    }
                },
                Err(e) => {
                    proof {
                        lemma_columns_refused(cs, i + 1, boundary as int, e@);
                        lemma_plan_error_stays(cs, i + 1, boundary as int);
                    }
                    return Err(e);
                },
            }
            i = i + 1;
        }
        assert(cs.take(i as int) =~= cs);
        Ok(layout)
    }

    /// Length and null count per array, parents first.
    #[must_use]
    pub fn nodes(&self) -> (r: &[(i64, i64)])
        requires
            self.wf(),
        ensures
            r@.len() == self@.nodes.len(),
            forall|i: int|
                #![trigger r@[i]]
                0 <= i < r@.len() ==> r@[i].0 == self@.nodes[i].0 && r@[i].1 == self@.nodes[i].1,
    {
        self.nodes.as_slice()
    }

    /// Offset and length per buffer, in the order of the nodes.
    #[must_use]
    pub fn buffers(&self) -> (r: &[(i64, i64)])
        requires
            self.wf(),
        ensures
            r@.len() == self@.body.len(),
            forall|i: int|
                #![trigger r@[i]]
                0 <= i < r@.len() ==> r@[i].0 == body_offset(self@.body, i, self@.alignment) && r@[i].1
                    == self@.body[i].len(),
    {
        self.buffers.as_slice()
    }

    /// The bytes of every buffer.
    #[must_use]
    pub fn body_buffers(&self) -> (r: &[Buffer])
        ensures
            buffers_model(r@) == self@.body,
    {
        self.body.as_slice()
    }

    /// The length of the body, padding included.
    #[must_use]
    pub fn body_length(&self) -> (r: i64)
        requires
            self.wf(),
        ensures
            r == body_total(self@.body, self@.alignment) as i64,
    {
        #[verifier::truncate] (self.body_length as i64)
    }

    /// The length of the body, padding left out, cut to the largest `usize`.
    #[must_use]
    pub fn payload_bytes(&self) -> (r: usize)
        ensures
            r == crate::capped(data_total(self@.body)),
    {
        let mut total: usize = 0;
        let mut i: usize = 0;
        let ghost all = self@.body;
        assert(all.take(0) =~= Seq::<Seq<u8>>::empty());
        while i < self.body.len()
            invariant
                0 <= i <= self.body@.len(),
                all == buffers_model(self.body@),
                total == crate::capped(data_total(all.take(i as int))),
            decreases self.body@.len() - i,
        {
            proof {
                assert(all.take(i + 1).drop_last() =~= all.take(i as int));
                assert(all.take(i + 1).last() == self.body@[i as int]@);
                lemma_data_total(all.take(i as int));
            }
            total = crate::sum_capped(total, self.body[i].len());
            i = i + 1;
        }
        assert(all.take(i as int) =~= all);
        total
    }

    /// Appends the body to `sink`, padding included. Returns the body's length.
    pub fn write_body(&self, sink: &mut Vec<u8>) -> (r: Result<usize, IpcError>)
        requires
            self.wf(),
        ensures
            final(sink)@ == old(sink)@ + body_bytes(self@.body, self@.alignment),
            r matches Ok(n) && n == body_total(self@.body, self@.alignment),
    {
        let ghost all = self@.body;
        let ghost al = self.alignment as int;
        let mut cursor: usize = 0;
        let mut i: usize = 0;
        proof {
            assert(all.take(0) =~= Seq::<Seq<u8>>::empty());
            assert(sink@ =~= old(sink)@ + Seq::<u8>::empty());
        }
        // What was written is every buffer so far, the last one not yet padded.
        while i < self.body.len()
            invariant
                0 <= i <= self.body@.len(),
                self.wf(),
                all == self@.body,
                al == self.alignment,
                cursor <= body_total(all.take(i as int), al) <= self.body_length,
                sink@ + zeros((body_total(all.take(i as int), al) - cursor) as nat) == old(sink)@ + body_bytes(
                    all.take(i as int),
                    al,
                ),
            decreases self.body@.len() - i,
        {
            proof {
                assert(all.take(i + 1).drop_last() =~= all.take(i as int));
                assert(all.take(i + 1).last() == self.body@[i as int]@);
                assert(self.buffers@[i as int].0 == body_offset(all, i as int, al));
                lemma_body_len(all.take(i as int), al);
                lemma_body_len(all.take(i + 1), al);
                assert(all.take(i + 1) + all.skip(i + 1) =~= all);
                crate::ipc::wire::lemma_body_total_grows(all.take(i + 1), all.skip(i + 1), al);
                crate::le::lemma_padded(
                    body_total(all.take(i as int), al) + self.body@[i as int]@.len(),
                    al,
                );
            }
            let offset: usize = self.buffers[i].0 as usize;
            let gap: usize = offset - cursor;
            let ghost start = sink@;
            let _w1 = write_padding(sink, gap, "body buffer alignment");
            let _w2 = write_all(sink, self.body[i].as_slice(), "record batch body");
            cursor = offset + self.body[i].len();
            proof {
                let pad = pad_to(cursor as int, al) as nat;
                assert(start + zeros(gap as nat) == old(sink)@ + body_bytes(all.take(i as int), al));
                assert(sink@ + zeros(pad) =~= old(sink)@ + body_bytes(all.take(i + 1), al));
            }
            i = i + 1;
        }
        assert(all.take(i as int) =~= all);
        let tail: usize = self.body_length - cursor;
        let _w = write_padding(sink, tail, "body tail alignment");
        Ok(self.body_length)
    }

    /// Appends one buffer, padded to the boundary.
    fn push_buffer(&mut self, bytes: Buffer) -> (r: Result<(), IpcError>)
        requires
            old(self).wf(),
            body_fits(old(self)@.body, old(self)@.alignment),
        ensures
            final(self).wf(),
            match r {
                Ok(_) => final(self)@ == (LayoutV { body: old(self)@.body.push(bytes@), ..old(self)@ })
                    && body_fits(final(self)@.body, final(self)@.alignment) && place_error(
                    old(self)@.body,
                    bytes@,
                    old(self)@.alignment,
                ) is None,
                Err(e) => (e@ == length_error() || e@ == body_error()) && !body_fits(
                    old(self)@.body.push(bytes@),
                    old(self)@.alignment,
                ) && place_error(old(self)@.body, bytes@, old(self)@.alignment) == Some(e@),
            },
    {
        reveal(body_fits);
        let offset: usize = self.body_length;
        let len: usize = bytes.len();
        let ghost before = self@;
        let ghost after = self@.body.push(bytes@);
        let ghost al = self@.alignment;
        proof {
            lemma_body_len(before.body, al);
            assert(after.drop_last() =~= before.body);
            assert(after.take(before.body.len() as int) =~= before.body);
            assert(after[before.body.len() as int] == bytes@);
            crate::le::lemma_padded(offset + len, al);
        }
        let start: i64 = match to_i64(offset) {
            Ok(v) => v,
            Err(e) => {
                return Err(e);
            },
        };
        let size: i64 = match to_i64(len) {
            Ok(v) => v,
            Err(e) => {
                return Err(e);
            },
        };
        let end: usize = match offset.checked_add(len) {
            Some(end) => end,
            None => {
                return Err(
                    IpcError::TooLarge {
                        what: "body",
                        length: u64::MAX,
                        cap: crate::MAX_PAYLOAD_BYTES as u64,
                    },
                );
            },
        };
        let over: usize = end % self.alignment;
        let pad: usize = if over == 0 {
            0
        } else {
            self.alignment - over
        };
        let total: usize = match end.checked_add(pad) {
            Some(total) => total,
            None => {
                return Err(
                    IpcError::TooLarge {
                        what: "body",
                        length: u64::MAX,
                        cap: crate::MAX_PAYLOAD_BYTES as u64,
                    },
                );
            },
        };
        self.buffers.push((start, size));
        self.body.push(bytes);
        self.body_length = total;
        proof {
            assert(self@.body =~= after);
            assert(self@.nodes =~= before.nodes);
            assert forall|i: int| #![trigger after[i]] 0 <= i < after.len() implies after[i].len() <= i64::MAX
                && body_offset(after, i, al) <= i64::MAX by {
                if i < before.body.len() {
                    assert(after.take(i) =~= before.body.take(i));
                    assert(after[i] == before.body[i]);
                }
            }
            assert forall|i: int| #![trigger self.buffers@[i]] 0 <= i < self.buffers@.len() implies {
                &&& self.buffers@[i].0 == body_offset(self@.body, i, al)
                &&& self.buffers@[i].1 == self.body@[i]@.len()
            } by {
                if i < before.body.len() {
                    assert(after.take(i) =~= before.body.take(i));
                    assert(old(self).buffers@[i] == self.buffers@[i]);
                    assert(old(self).body@[i] == self.body@[i]);
                }
            }
        }
        Ok(())
    }

    /// Appends one node.
    fn push_node(&mut self, len: usize, nulls: usize) -> (r: Result<(), IpcError>)
        requires
            old(self).wf(),
            nulls <= len,
        ensures
            final(self).wf(),
            match r {
                Ok(_) => len <= i64::MAX && final(self)@ == (LayoutV {
                    nodes: old(self)@.nodes.push((len as nat, nulls as nat)),
                    ..old(self)@
                }),
                Err(e) => e@ == length_error() && len > i64::MAX,
            },
    {
        let rows: i64 = match to_i64(len) {
            Ok(v) => v,
            Err(e) => {
                return Err(e);
            },
        };
        let count: i64 = match to_i64(nulls) {
            Ok(v) => v,
            Err(e) => {
                return Err(e);
            },
        };
        self.nodes.push((rows, count));
        proof {
            assert(self@.nodes =~= old(self)@.nodes.push((len as nat, nulls as nat)));
            assert(self@.body =~= old(self)@.body);
        }
        Ok(())
    }

    /// Appends the validity buffer: empty without nulls.
    fn push_validity(&mut self, array: &Array) -> (r: Result<(), IpcError>)
        requires
            old(self).wf(),
            body_fits(old(self)@.body, old(self)@.alignment),
        ensures
            final(self).wf(),
            match r {
                Ok(_) => final(self)@ == (LayoutV {
                    body: old(self)@.body.push(wire_validity(array@)),
                    ..old(self)@
                }) && body_fits(final(self)@.body, final(self)@.alignment) && place_error(
                    old(self)@.body,
                    wire_validity(array@),
                    old(self)@.alignment,
                ) is None,
                Err(e) => (e@ == length_error() || e@ == body_error()) && !body_fits(
                    old(self)@.body.push(wire_validity(array@)),
                    old(self)@.alignment,
                ) && place_error(old(self)@.body, wire_validity(array@), old(self)@.alignment) == Some(e@),
            },
    {
        match array.validity() {
            Some(bits) => {
                if bits.count_unset() > 0 {
                    return self.push_buffer(canonical_bits(bits));
                }
            },
            None => {},
        }
        self.push_buffer(Buffer::new())
    }
}

/// The bytes of buffers, padding left out.
pub open spec fn data_total(body: Seq<Seq<u8>>) -> int
    decreases body.len(),
{
    if body.len() == 0 {
        0
    } else {
        data_total(body.drop_last()) + body.last().len()
    }
}

proof fn lemma_data_total(body: Seq<Seq<u8>>)
    ensures
        0 <= data_total(body),
    decreases body.len(),
{
    if body.len() > 0 {
        lemma_data_total(body.drop_last());
    }
}

/// A refusal of the first columns is one of all.
proof fn lemma_columns_refused(cs: Seq<ArrayV>, n: int, alignment: int, e: IpcErrorModel)
    requires
        0 < n <= cs.len(),
        0 < alignment,
        plan_refused(
            e,
            depth_of(cs[n - 1].ty) as int,
            1,
            wire_nodes(cs[n - 1].ty, cs[n - 1]),
            column_buffers(cs.take(n - 1)) + wire_buffers(cs[n - 1].ty, cs[n - 1]),
            alignment,
        ),
    ensures
        plan_refused(
            e,
            column_depth(cs) as int,
            1,
            column_nodes(cs),
            column_buffers(cs),
            alignment,
        ),
    decreases cs.len(),
{
    let c = cs[n - 1];
    assert(cs.take(n).drop_last() =~= cs.take(n - 1));
    assert(cs.take(n).last() == c);
    lemma_nodes_fit_parts(column_nodes(cs.take(n - 1)), wire_nodes(c.ty, c));
    lemma_column_prefix(cs, n, alignment);
}

/// What is said of the first columns is part of what is said of all.
proof fn lemma_column_prefix(cs: Seq<ArrayV>, n: int, alignment: int)
    requires
        0 <= n <= cs.len(),
        0 < alignment,
    ensures
        column_depth(cs.take(n)) <= column_depth(cs),
        nodes_fit(column_nodes(cs)) ==> nodes_fit(column_nodes(cs.take(n))),
        body_fits(column_buffers(cs), alignment) ==> body_fits(column_buffers(cs.take(n)), alignment),
    decreases cs.len(),
{
    if n == cs.len() {
        assert(cs.take(n) =~= cs);
    } else {
        let rest = cs.drop_last();
        lemma_column_prefix(rest, n, alignment);
        assert(rest.take(n) =~= cs.take(n));
        lemma_nodes_fit_parts(column_nodes(rest), wire_nodes(cs.last().ty, cs.last()));
        if body_fits(column_buffers(cs), alignment) {
            lemma_body_fits_prefix(
                column_buffers(rest),
                wire_buffers(cs.last().ty, cs.last()),
                alignment,
            );
        }
    }
}

/// What is said of the first fields is part of what is said of all.
proof fn lemma_fields_prefix(
    fs: Seq<FieldModel>,
    cs: Seq<ArrayV>,
    n: int,
    before: Seq<Seq<u8>>,
    alignment: int,
)
    requires
        0 <= n <= fs.len(),
        0 < alignment,
    ensures
        depth_of_all(fs.take(n)) <= depth_of_all(fs),
        nodes_fit(wire_nodes_all(fs, cs)) ==> nodes_fit(wire_nodes_all(fs.take(n), cs)),
        body_fits(before + wire_buffers_all(fs, cs), alignment) ==> body_fits(
            before + wire_buffers_all(fs.take(n), cs),
            alignment,
        ),
    decreases fs.len(),
{
    if n == fs.len() {
        assert(fs.take(n) =~= fs);
    } else {
        let rest = fs.drop_last();
        lemma_fields_prefix(rest, cs, n, before, alignment);
        assert(rest.take(n) =~= fs.take(n));
        let t = fs.last().data_type;
        let c = cs[fs.len() - 1];
        lemma_nodes_fit_parts(wire_nodes_all(rest, cs), wire_nodes(t, c));
        if body_fits(before + wire_buffers_all(fs, cs), alignment) {
            assert(before + wire_buffers_all(fs, cs) =~= (before + wire_buffers_all(rest, cs)) + wire_buffers(
                t,
                c,
            ));
            lemma_body_fits_prefix(before + wire_buffers_all(rest, cs), wire_buffers(t, c), alignment);
        }
    }
}

/// The levels of a list of one field are that field's.
proof fn lemma_only_child_depth(f: FieldModel)
    ensures
        depth_of_all(seq![f]) == depth_of(f.data_type),
{
    reveal_with_fuel(depth_of_all, 2);
    assert(seq![f].drop_last() =~= Seq::<FieldModel>::empty());
    assert(seq![f].last() == f);
}

/// The nulls of an array are among its slots.
proof fn lemma_nulls(a: ArrayV)
    requires
        a.wf(),
    ensures
        a.nulls() <= a.len,
{
    if let Some(v) = a.validity {
        crate::buffer::lemma_unset(v);
    }
}

/// What an array is refused for, its length aside: its validity, then the rest.
proof fn lemma_error_starts(t: TypeModel, a: ArrayV, depth: int, body: Seq<Seq<u8>>, alignment: int)
    requires
        a.wf(),
        a.ty == t,
        !(t is Null),
        depth <= MAX_NESTING_DEPTH,
        a.len <= i64::MAX,
    ensures
        array_error(t, a, depth, body, alignment) == match place_error(body, wire_validity(a), alignment) {
            Some(e) => Some(e),
            None => match a.body {
                BodyV::List { offsets, child } => match place_error(
                    body.push(wire_validity(a)),
                    wire_offsets(offsets, 4),
                    alignment,
                ) {
                    Some(e) => Some(e),
                    None => array_error(
                        t->List_0.data_type,
                        covered(offsets, *child),
                        depth + 1,
                        body.push(wire_validity(a)).push(wire_offsets(offsets, 4)),
                        alignment,
                    ),
                },
                BodyV::FixedList(child) => array_error(
                    t->FixedSizeList_0.data_type,
                    *child,
                    depth + 1,
                    body.push(wire_validity(a)),
                    alignment,
                ),
                BodyV::Struct(columns) => arrays_error(
                    t->Struct_0,
                    columns,
                    depth + 1,
                    body.push(wire_validity(a)),
                    alignment,
                ),
                _ => buffers_error(body.push(wire_validity(a)), wire_buffers(t, a).skip(1), alignment),
            },
        },
{
    let v = wire_validity(a);
    match a.body {
        BodyV::List { offsets, child } => {
            let own = seq![v, wire_offsets(offsets, 4)];
            lemma_buffers_front(body, own, alignment);
            assert(own.skip(1) =~= seq![wire_offsets(offsets, 4)]);
            lemma_buffers_one(body.push(v), wire_offsets(offsets, 4), alignment);
            assert(body + own =~= body.push(v).push(wire_offsets(offsets, 4)));
        },
        BodyV::FixedList(_) | BodyV::Struct(_) => {
            lemma_buffers_one(body, v, alignment);
            assert(body + seq![v] =~= body.push(v));
        },
        _ => {
            assert(wire_buffers(t, a)[0] == v);
            lemma_buffers_front(body, wire_buffers(t, a), alignment);
        },
    }
}

impl BatchLayout {
    /// Appends the offsets and the bytes of byte strings.
    fn push_strings(&mut self, offsets: &Offsets, values: &Buffer, len: usize, width: usize) -> (r: Result<
        (),
        IpcError,
    >)
        requires
            old(self).wf(),
            body_fits(old(self)@.body, old(self)@.alignment),
            width == 4 || width == 8,
            offsets_ok(
                offsets@,
                len as nat,
                values@.len() as int,
                if width == 4 {
                    i32::MAX as int
                } else {
                    i64::MAX as int
                },
            ),
        ensures
            final(self).wf(),
            ({
                let more = seq![
                    wire_offsets(offsets@, width as nat),
                    values@.subrange(offsets@[0] as int, offsets@.last() as int),
                ];
                match r {
                    Ok(_) => body_fits(old(self)@.body + more, old(self)@.alignment) && final(self)@ == (
                    LayoutV { body: old(self)@.body + more, ..old(self)@ }) && buffers_error(
                        old(self)@.body,
                        more,
                        old(self)@.alignment,
                    ) is None,
                    Err(e) => (e@ == length_error() || e@ == body_error()) && !body_fits(
                        old(self)@.body + more,
                        old(self)@.alignment,
                    ) && buffers_error(old(self)@.body, more, old(self)@.alignment) == Some(e@),
                }
            }),
    {
        let ghost start = self@.body;
        let ghost al = self@.alignment;
        let ghost wo = wire_offsets(offsets@, width as nat);
        let ghost part = values@.subrange(offsets@[0] as int, offsets@.last() as int);
        proof {
            assert(start.push(wo).push(part) =~= start + seq![wo, part]);
            assert(start.push(wo) + seq![part] =~= start + seq![wo, part]);
            if body_fits(start + seq![wo, part], al) {
                lemma_body_fits_prefix(start.push(wo), seq![part], al);
            }
            assert(offsets@[0] <= offsets@[len as int]);
            lemma_buffers_front(start, seq![wo, part], al);
            assert(seq![wo, part].skip(1) =~= seq![part]);
            lemma_buffers_one(start.push(wo), part, al);
        }
        match self.push_buffer(offsets_window(offsets, width)) {
            Ok(_) => {},
            Err(e) => {
                return Err(e);
            },
        }
        let first: usize = offsets.at(0) as usize;
        let last: usize = offsets.at(len) as usize;
        let total: usize = values.len();
        let region = values.slice(first, last - first);
        assert(region@ =~= part);
        self.push_buffer(region)
    }

    /// Appends the buffers of an array without children, validity left out.
    fn push_flat(&mut self, array: &Array) -> (r: Result<(), IpcError>)
        requires
            old(self).wf(),
            body_fits(old(self)@.body, old(self)@.alignment),
            !(array@.body is List || array@.body is FixedList || array@.body is Struct || array@.body is Null),
        ensures
            final(self).wf(),
            ({
                let body = old(self)@.body + wire_buffers(array@.ty, array@).skip(1);
                match r {
                    Ok(_) => body_fits(body, old(self)@.alignment) && final(self)@ == (LayoutV {
                        body,
                        ..old(self)@
                    }) && buffers_error(
                        old(self)@.body,
                        wire_buffers(array@.ty, array@).skip(1),
                        old(self)@.alignment,
                    ) is None,
                    Err(e) => (e@ == length_error() || e@ == body_error()) && !body_fits(
                        body,
                        old(self)@.alignment,
                    ) && buffers_error(
                        old(self)@.body,
                        wire_buffers(array@.ty, array@).skip(1),
                        old(self)@.alignment,
                    ) == Some(e@),
                }
            }),
    {
        let ghost a = array@;
        let ghost bufs = wire_buffers(a.ty, a);
        let ghost start = self@.body;
        let len: usize = array.len();
        let width: usize = match offset_byte_width(array.data_type()) {
            Some(w) => w,
            None => 0,
        };
        match array.body() {
            Body::Bits(bits) => {
                proof {
                    assert(start.push(packed(bits@)) =~= start + bufs.skip(1));
                    assert(bufs.skip(1) =~= seq![packed(bits@)]);
                    lemma_buffers_one(start, packed(bits@), self@.alignment);
                }
                self.push_buffer(canonical_bits(bits))
            },
            Body::Fixed(bytes) => {
                proof {
                    assert(start.push(bytes@) =~= start + bufs.skip(1));
                    assert(bufs.skip(1) =~= seq![bytes@]);
                    lemma_buffers_one(start, bytes@, self@.alignment);
                }
                self.push_buffer(bytes.share())
            },
            Body::Var { offsets, values } => {
                proof {
                    assert(bufs.skip(1) =~= seq![
                        wire_offsets(offsets@, width as nat),
                        values@.subrange(offsets@[0] as int, offsets@.last() as int),
                    ]);
                }
                self.push_strings(offsets, values, len, width)
            },
            _ => Ok(()),
        }
    }

    /// Appends the offsets of a list and its child, narrowed to what they cover.
    fn push_list(&mut self, array: &Array, offsets: &Offsets, child: &ArrayRef, depth: usize) -> (r: Result<
        (),
        IpcError,
    >)
        requires
            old(self).wf(),
            body_fits(old(self)@.body, old(self)@.alignment),
            1 <= depth <= MAX_NESTING_DEPTH,
            array@.wf(),
            array@.ty is List,
            array@.body == (BodyV::List { offsets: offsets@, child: Box::new(child@) }),
        ensures
            final(self).wf(),
            ({
                let nodes = wire_nodes(array@.ty, array@).skip(1);
                let body = old(self)@.body + wire_buffers(array@.ty, array@).skip(1);
                let al = old(self)@.alignment;
                let levels = depth + depth_of(array@.ty->List_0.data_type);
                let error = match place_error(old(self)@.body, wire_offsets(offsets@, 4), al) {
                    Some(e) => Some(e),
                    None => array_error(
                        array@.ty->List_0.data_type,
                        covered(offsets@, child@),
                        depth + 1,
                        old(self)@.body.push(wire_offsets(offsets@, 4)),
                        al,
                    ),
                };
                match r {
                    Ok(_) => {
                        &&& error is None
                        &&& levels <= MAX_NESTING_DEPTH
                        &&& nodes_fit(nodes)
                        &&& body_fits(body, al)
                        &&& final(self)@ == (LayoutV { nodes: old(self)@.nodes + nodes, body, alignment: al })
                    },
                    Err(e) => {
                        &&& plan_refused(e@, levels, depth as int, nodes, body, al)
                        &&& error == Some(e@)
                    },
                }
            }),
        decreases MAX_NESTING_DEPTH + 1 - depth, 2int,
    {
        let ghost a = array@;
        let ghost st = self@;
        let ghost al = st.alignment;
        let ghost f = a.ty->List_0;
        let ghost wo = wire_offsets(offsets@, 4);
        let ghost cov = covered(offsets@, child@);
        let ghost child_nodes = wire_nodes(f.data_type, cov);
        let ghost child_bufs = wire_buffers(f.data_type, cov);
        let len: usize = array.len();
        proof {
            assert(wire_nodes(a.ty, a).skip(1) =~= child_nodes);
            assert(wire_buffers(a.ty, a).skip(1) =~= seq![wo] + child_bufs);
            assert(st.body.push(wo) + child_bufs =~= st.body + (seq![wo] + child_bufs));
            if body_fits(st.body.push(wo) + child_bufs, al) {
                lemma_body_fits_prefix(st.body.push(wo), child_bufs, al);
            }
            assert(offsets@[0] <= offsets@[a.len as int]);
        }
        match self.push_buffer(offsets_window(offsets, 4)) {
            Ok(_) => {},
            Err(e) => {
                return Err(e);
            },
        }
        let first: usize = offsets.at(0) as usize;
        let last: usize = offsets.at(len) as usize;
        let whole: usize = child.len();
        let part = slice_array(child, first, last - first);
        assert(part@ == cov);
        self.push_array(&part, depth + 1)
    }

    /// Appends an array's node, buffers and children.
    fn push_array(&mut self, array: &Array, depth: usize) -> (r: Result<(), IpcError>)
        requires
            old(self).wf(),
            body_fits(old(self)@.body, old(self)@.alignment),
            1 <= depth,
        ensures
            final(self).wf(),
            ({
                let nodes = wire_nodes(array@.ty, array@);
                let body = old(self)@.body + wire_buffers(array@.ty, array@);
                let al = old(self)@.alignment;
                let levels = depth - 1 + depth_of(array@.ty);
                let error = array_error(array@.ty, array@, depth as int, old(self)@.body, al);
                match r {
                    Ok(_) => {
                        &&& error is None
                        &&& levels <= MAX_NESTING_DEPTH
                        &&& nodes_fit(nodes)
                        &&& body_fits(body, al)
                        &&& final(self)@ == (LayoutV { nodes: old(self)@.nodes + nodes, body, alignment: al })
                    },
                    Err(e) => {
                        &&& plan_refused(e@, levels, depth as int, nodes, body, al)
                        &&& error == Some(e@)
                    },
                }
            }),
        decreases MAX_NESTING_DEPTH + 2 - depth, 0int,
    {
        let ghost a = array@;
        let ghost t = a.ty;
        let ghost st = self@;
        let ghost al = st.alignment;
        let ghost nodes = wire_nodes(t, a);
        let ghost bufs = wire_buffers(t, a);
        let ghost own = seq![(a.len, a.nulls())];
        if depth > MAX_NESTING_DEPTH {
            proof {
                law_counts_are_depth_first(t);
            }
            return Err(IpcError::NestingTooDeep { depth, limit: MAX_NESTING_DEPTH });
        }
        let len: usize = array.len();
        let nulls: usize = array.null_count();
        proof {
            lemma_nulls(a);
            assert(nodes =~= own + nodes.skip(1));
            lemma_nodes_fit_parts(own, nodes.skip(1));
            lemma_node_fits((a.len, a.nulls()));
        }
        match self.push_node(len, nulls) {
            Ok(_) => {},
            Err(e) => {
                return Err(e);
            },
        }
        assert(self@.nodes =~= st.nodes + own);
        match array.data_type() {
            DataType::Null => {
                assert(st.body + bufs =~= st.body);
                assert(nodes.skip(1) =~= Seq::<(nat, nat)>::empty());
                assert(nodes =~= own);
                return Ok(());
            },
            _ => {},
        }
        proof {
            assert(bufs[0] == wire_validity(a));
            assert(st.body + bufs =~= st.body.push(wire_validity(a)) + bufs.skip(1));
            if body_fits(st.body + bufs, al) {
                lemma_body_fits_prefix(st.body.push(wire_validity(a)), bufs.skip(1), al);
            }
        }
        proof {
            lemma_error_starts(t, a, depth as int, st.body, al);
        }
        match self.push_validity(array) {
            Ok(_) => {},
            Err(e) => {
                return Err(e);
            },
        }
        self.push_rest(array, depth, Ghost(st))
    }

    /// Appends what follows an array's node and validity.
    fn push_rest(&mut self, array: &Array, depth: usize, Ghost(st): Ghost<LayoutV>) -> (r: Result<(), IpcError>)
        requires
            old(self).wf(),
            body_fits(old(self)@.body, old(self)@.alignment),
            1 <= depth <= MAX_NESTING_DEPTH,
            array@.wf(),
            !(array@.ty is Null),
            array@.len <= i64::MAX,
            old(self)@ == (LayoutV {
                nodes: st.nodes + seq![(array@.len, array@.nulls())],
                body: st.body.push(wire_validity(array@)),
                alignment: st.alignment,
            }),
            st.body + wire_buffers(array@.ty, array@) == st.body.push(wire_validity(array@)) + wire_buffers(
                array@.ty,
                array@,
            ).skip(1),
            place_error(st.body, wire_validity(array@), st.alignment) is None,
        ensures
            final(self).wf(),
            ({
                let nodes = wire_nodes(array@.ty, array@);
                let body = st.body + wire_buffers(array@.ty, array@);
                let al = st.alignment;
                let levels = depth - 1 + depth_of(array@.ty);
                let error = array_error(array@.ty, array@, depth as int, st.body, al);
                match r {
                    Ok(_) => {
                        &&& error is None
                        &&& levels <= MAX_NESTING_DEPTH
                        &&& nodes_fit(nodes)
                        &&& body_fits(body, al)
                        &&& final(self)@ == (LayoutV { nodes: st.nodes + nodes, body, alignment: al })
                    },
                    Err(e) => {
                        &&& plan_refused(e@, levels, depth as int, nodes, body, al)
                        &&& error == Some(e@)
                    },
                }
            }),
        decreases MAX_NESTING_DEPTH + 1 - depth, 3int,
    {
        broadcast use lemma_struct_body;
        let ghost a = array@;
        let ghost t = a.ty;
        let ghost nodes = wire_nodes(t, a);
        let ghost own = seq![(a.len, a.nulls())];
        let ghost marked = self@;
        proof {
            assert(nodes =~= own + nodes.skip(1));
            lemma_nodes_fit_parts(own, nodes.skip(1));
            lemma_node_fits((a.len, a.nulls()));
            law_counts_are_depth_first(t);
            lemma_error_starts(t, a, depth as int, st.body, st.alignment);
            assert(st.nodes + own + nodes.skip(1) =~= st.nodes + nodes);
        }
        match array.body() {
            Body::List { offsets, child } => {
                proof {
                    lemma_only_child_depth(*(t->List_0));
                }
                self.push_list(array, offsets, child, depth)
            },
            Body::FixedList { child } => {
                proof {
                    let f = t->FixedSizeList_0;
                    lemma_only_child_depth(*f);
                    assert(nodes.skip(1) =~= wire_nodes(f.data_type, child@));
                    assert(wire_buffers(t, a).skip(1) =~= wire_buffers(f.data_type, child@));
                }
                self.push_array(child, depth + 1)
            },
            Body::Struct { columns } => {
                let ghost fs = t->Struct_0;
                let ghost cs = arrays_model(columns@);
                proof {
                    assert(a.body == BodyV::Struct(cs));
                    assert(nodes.skip(1) =~= wire_nodes_all(fs, cs));
                    assert(wire_buffers(t, a).skip(1) =~= wire_buffers_all(fs, cs));
                    assert forall|k: int| #![trigger columns@[k]] 0 <= k < columns@.len() implies columns@[k]@.ty
                        == fs[k].data_type by {
                        assert(cs[k] == columns@[k]@);
                    }
                }
                self.push_columns(columns, Ghost(fs), depth + 1)
            },
            _ => {
                proof {
                    assert(nodes.skip(1) =~= Seq::<(nat, nat)>::empty());
                    assert(nodes =~= own);
                }
                self.push_flat(array)
            },
        }
    }

    /// Appends the columns of a struct, one after another.
    fn push_columns(&mut self, columns: &Vec<ArrayRef>, Ghost(fs): Ghost<Seq<FieldModel>>, depth: usize) -> (r:
        Result<(), IpcError>)
        requires
            old(self).wf(),
            body_fits(old(self)@.body, old(self)@.alignment),
            2 <= depth <= MAX_NESTING_DEPTH + 1,
            columns@.len() == fs.len(),
            forall|k: int|
                #![trigger columns@[k]]
                0 <= k < columns@.len() ==> columns@[k]@.ty == fs[k].data_type,
        ensures
            final(self).wf(),
            ({
                let cs = arrays_model(columns@);
                let nodes = wire_nodes_all(fs, cs);
                let body = old(self)@.body + wire_buffers_all(fs, cs);
                let al = old(self)@.alignment;
                let levels = depth - 1 + depth_of_all(fs);
                let error = arrays_error(fs, cs, depth as int, old(self)@.body, al);
                match r {
                    Ok(_) => {
                        &&& error is None
                        &&& levels <= MAX_NESTING_DEPTH
                        &&& nodes_fit(nodes)
                        &&& body_fits(body, al)
                        &&& final(self)@ == (LayoutV { nodes: old(self)@.nodes + nodes, body, alignment: al })
                    },
                    Err(e) => {
                        &&& plan_refused(e@, levels, depth as int, nodes, body, al)
                        &&& error == Some(e@)
                    },
                }
            }),
        decreases MAX_NESTING_DEPTH + 2 - depth, 1int,
    {
        let ghost cs = arrays_model(columns@);
        let ghost st = self@;
        let ghost al = st.alignment;
        let mut i: usize = 0;
        proof {
            assert(fs.take(0) =~= Seq::<FieldModel>::empty());
            lemma_node_fits((0, 0));
            assert(st.nodes + wire_nodes_all(fs.take(0), cs) =~= st.nodes);
            assert(st.body + wire_buffers_all(fs.take(0), cs) =~= st.body);
        }
        while i < columns.len()
            invariant
                0 <= i <= columns@.len(),
                self.wf(),
                2 <= depth <= MAX_NESTING_DEPTH + 1,
                cs == arrays_model(columns@),
                columns@.len() == fs.len(),
                al == st.alignment,
                al >= 8,
                st == old(self)@,
                forall|k: int|
                    #![trigger columns@[k]]
                    0 <= k < columns@.len() ==> columns@[k]@.ty == fs[k].data_type,
                self@ == (LayoutV {
                    nodes: st.nodes + wire_nodes_all(fs.take(i as int), cs),
                    body: st.body + wire_buffers_all(fs.take(i as int), cs),
                    alignment: al,
                }),
                depth - 1 + depth_of_all(fs.take(i as int)) <= MAX_NESTING_DEPTH,
                nodes_fit(wire_nodes_all(fs.take(i as int), cs)),
                body_fits(self@.body, al),
                arrays_error(fs.take(i as int), cs, depth as int, st.body, al) is None,
            decreases columns@.len() - i,
        {
            let ghost done = fs.take(i as int);
            let ghost next = fs.take(i + 1);
            let ghost c = columns@[i as int]@;
            let ghost t = fs[i as int].data_type;
            proof {
                assert(next.drop_last() =~= done);
                assert(next.last() == fs[i as int]);
                assert(cs[i as int] == c);
                assert(wire_nodes_all(next, cs) == wire_nodes_all(done, cs) + wire_nodes(t, c));
                assert(wire_buffers_all(next, cs) == wire_buffers_all(done, cs) + wire_buffers(t, c));
                lemma_nodes_fit_parts(wire_nodes_all(done, cs), wire_nodes(t, c));
                lemma_fields_prefix(fs, cs, i + 1, st.body, al);
                assert(st.body + wire_buffers_all(next, cs) =~= (st.body + wire_buffers_all(done, cs))
                    + wire_buffers(t, c));
                assert(st.nodes + wire_nodes_all(next, cs) =~= (st.nodes + wire_nodes_all(done, cs))
                    + wire_nodes(t, c));
            }
            match self.push_array(&columns[i], depth) {
                Ok(_) => {},
                Err(e) => {
                    proof {
                        lemma_arrays_error_stays(fs, cs, i + 1, depth as int, st.body, al);
                    }
                    return Err(e);
                },
            }
            i = i + 1;
        }
        assert(fs.take(i as int) =~= fs);
        Ok(())
    }
}

} // verus!
