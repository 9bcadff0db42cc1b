//! Rebuilding columns from nodes, buffers and body bytes.
//!
//! The schema says which nodes and buffers come next. What they give goes
//! through the checked array constructors, so a malformed batch is an error and
//! never a wrong array. Buffers are windows of the body.
//!
//! A validity buffer is read only where the node declares nulls.
use vstd::prelude::*;
use std::sync::Arc;
use crate::{capped, product_capped, sum_capped};
use crate::array::column::{arrays_model, bits_model, Array, ArrayRef};
use crate::array::model::{is_var, ArrayV};
use crate::array::parts::{make_boolean, make_fixed, make_fixed_list, make_list, make_struct, make_var, null_array};
use crate::buffer::{bits_of, share, Bitmap, Buffer, Offsets};
use crate::datatype::{clone_field, clone_fields, clone_type, fields_model, DataType, Field, FieldModel, TypeModel};
use crate::error::{DataError, DataErrorModel};
use crate::ipc::error::{IpcError, IpcErrorModel};
use crate::ipc::layout::{
    buffers_of_all, bytes_for_bits, nodes_of_all, schema_buffer_count, schema_node_count, validity_byte_len,
    value_byte_width, value_width, BufferRole, MAX_NESTING_DEPTH,
};
use crate::ipc::schema::too_deep;
use crate::ipc::wire::width_of;
use crate::le::{get_u32, get_u64, of_i32, of_i64};
use crate::record_batch::{make_batch, strict, BatchV, RecordBatch, RecordBatchOptions};
use crate::schema::Schema;

verus! {

/// A batch's lists and how much of them was consumed.
pub struct DecoderV {
    pub body: Seq<u8>,
    pub nodes: Seq<(i64, i64)>,
    pub buffers: Seq<(i64, i64)>,
    pub node_index: nat,
    pub buffer_index: nat,
}

/// A node: slots, and nulls unless they were not counted.
pub struct NodeV {
    pub rows: nat,
    pub nulls: Option<nat>,
}

/// There are more or fewer entries than the schema needs.
pub open spec fn count_mismatch(what: Seq<char>, expected: int, actual: int) -> IpcErrorModel {
    IpcErrorModel::LayoutCountMismatch { what, expected: expected as usize, actual: actual as usize }
}

/// A buffer is shorter than its slots need.
pub open spec fn too_short(index: nat, role: BufferRole, actual: int, required: int, rows: nat) -> IpcErrorModel {
    IpcErrorModel::BufferTooShort {
        index: index as usize,
        role: role.name_model(),
        actual: actual as usize,
        required: required as usize,
        rows: rows as usize,
    }
}

impl DecoderV {
    /// The next node: slots not negative, nulls not negative and no more than
    /// slots, or minus one for nulls not counted.
    pub open spec fn next_node(self) -> Result<(NodeV, DecoderV), IpcErrorModel> {
        let i = self.node_index;
        if i >= self.nodes.len() {
            Err(count_mismatch("field node(s)"@, capped((i + 1) as int), self.nodes.len() as int))
        } else {
            let (length, null_count) = self.nodes[i as int];
            let invalid = IpcErrorModel::InvalidFieldNode { index: i as usize, length, null_count };
            let after = DecoderV { node_index: i + 1, ..self };
            if length < 0 || length > usize::MAX {
                Err(invalid)
            } else if null_count == -1 {
                Ok((NodeV { rows: length as nat, nulls: None }, after))
            } else if null_count < 0 || null_count > length {
                Err(invalid)
            } else {
                Ok((NodeV { rows: length as nat, nulls: Some(null_count as nat) }, after))
            }
        }
    }

    /// The state behind the next node, whether it is in order or not; the same
    /// where there is none.
    pub open spec fn past_node(self) -> DecoderV {
        if self.node_index < self.nodes.len() {
            DecoderV { node_index: self.node_index + 1, ..self }
        } else {
            self
        }
    }

    /// The state behind the next buffer, whether it is in order or not; the same
    /// where there is none.
    pub open spec fn past_buffer(self) -> DecoderV {
        if self.buffer_index < self.buffers.len() {
            DecoderV { buffer_index: self.buffer_index + 1, ..self }
        } else {
            self
        }
    }

    /// The next buffer: a window of the body.
    pub open spec fn next_buffer(self) -> Result<(Seq<u8>, DecoderV), IpcErrorModel> {
        let i = self.buffer_index;
        if i >= self.buffers.len() {
            Err(count_mismatch("buffer(s)"@, capped((i + 1) as int), self.buffers.len() as int))
        } else {
            let (offset, length) = self.buffers[i as int];
            if offset < 0 || length < 0 || offset + length > self.body.len() {
                Err(
                    IpcErrorModel::BufferOutOfBounds {
                        index: i as usize,
                        offset,
                        length,
                        body_len: self.body.len() as usize,
                    },
                )
            } else {
                Ok(
                    (
                        self.body.subrange(offset as int, offset + length),
                        DecoderV { buffer_index: i + 1, ..self },
                    ),
                )
            }
        }
    }

    /// The first `required` bytes of the next buffer, which carries `role` for
    /// `rows` slots.
    pub open spec fn next_sized(self, role: BufferRole, required: int, rows: nat) -> Result<
        (Seq<u8>, DecoderV),
        IpcErrorModel,
    > {
        match self.next_buffer() {
            Err(e) => Err(e),
            Ok((bytes, after)) => if bytes.len() < required {
                Err(too_short(self.buffer_index, role, bytes.len() as int, required, rows))
            } else {
                Ok((bytes.take(required), after))
            },
        }
    }

    /// The validity of a node: none for a type without a validity buffer, none
    /// without nulls, and the bitmap decides where nulls were not counted.
    pub open spec fn next_validity(self, t: TypeModel, node: NodeV) -> Result<
        (Option<Seq<bool>>, DecoderV),
        IpcErrorModel,
    > {
        if t is Null {
            Ok((None, self))
        } else {
            match self.next_buffer() {
                Err(e) => Err(e),
                Ok((bytes, after)) => {
                    let wanted = match node.nulls {
                        Some(n) => n != 0,
                        None => bytes.len() > 0,
                    };
                    let required = bytes_for_bits(node.rows as int);
                    if !wanted {
                        Ok((None, after))
                    } else if bytes.len() < required {
                        Err(
                            too_short(
                                self.buffer_index,
                                BufferRole::Validity,
                                bytes.len() as int,
                                required,
                                node.rows,
                            ),
                        )
                    } else {
                        Ok((Some(bits_of(bytes.take(required), 0, node.rows as int)), after))
                    }
                },
            }
        }
    }

    /// The offsets of `rows` slots. An empty buffer stands for the offsets of no
    /// slots.
    pub open spec fn next_offsets(self, width: nat, rows: nat) -> Result<(Seq<i64>, DecoderV), IpcErrorModel> {
        let required = capped(capped((rows + 1) as int) * width);
        match self.next_buffer() {
            Err(e) => Err(e),
            Ok((bytes, after)) => if bytes.len() == 0 && rows == 0 {
                Ok((seq![0i64], after))
            } else if bytes.len() < required {
                Err(too_short(self.buffer_index, BufferRole::Offsets, bytes.len() as int, required, rows))
            } else {
                Ok((entries_of(bytes.take(required), width), after))
            },
        }
    }

    /// The bytes that offsets address: the next buffer, as long as the last
    /// offset at least.
    pub open spec fn next_region(self, offsets: Seq<i64>, rows: nat) -> Result<(Seq<u8>, DecoderV), IpcErrorModel> {
        let needed = if rows < offsets.len() && offsets[rows as int] >= 0 {
            offsets[rows as int] as int
        } else {
            0
        };
        match self.next_buffer() {
            Err(e) => Err(e),
            Ok((bytes, after)) => if bytes.len() < needed {
                Err(too_short(self.buffer_index, BufferRole::Values, bytes.len() as int, needed, rows))
            } else {
                Ok((bytes, after))
            },
        }
    }
}

/// The entries of a width that bytes are.
pub open spec fn entries_of(bytes: Seq<u8>, width: nat) -> Seq<i64> {
    Seq::new(bytes.len() / width, |i: int| entry_at(bytes, i, width))
}

/// Entry `i` of a width.
pub open spec fn entry_at(bytes: Seq<u8>, i: int, width: nat) -> i64 {
    if width == 4 {
        of_i32(bytes.subrange(i * 4, i * 4 + 4)) as i64
    } else {
        of_i64(bytes.subrange(i * 8, i * 8 + 8))
    }
}

/// A result of the array layer as one of the codec, with the state after it.
pub open spec fn lifted(r: Result<ArrayV, DataErrorModel>, after: DecoderV) -> Result<
    (ArrayV, DecoderV),
    IpcErrorModel,
> {
    match r {
        Ok(a) => Ok((a, after)),
        Err(e) => Err(IpcErrorModel::Data(e)),
    }
}

/// A column or child has another length than it was declared with.
pub open spec fn row_mismatch(declared: int, column: int, actual: nat) -> IpcErrorModel {
    IpcErrorModel::RowCountMismatch {
        declared: declared as usize,
        column: column as usize,
        actual: actual as usize,
    }
}

/// The index of the last of `n` entries, or none.
pub open spec fn before_last(n: nat) -> int {
    if n == 0 {
        0
    } else {
        n - 1
    }
}

/// The size of a fixed-size list or value, none for a negative one.
pub open spec fn size_or_none(n: i32) -> nat {
    if n < 0 {
        0
    } else {
        n as nat
    }
}

/// The column of type `t` that comes next.
pub open spec fn column_at(t: TypeModel, depth: int, d: DecoderV) -> Result<(ArrayV, DecoderV), IpcErrorModel>
    decreases t, 2int,
{
    if depth > MAX_NESTING_DEPTH {
        Err(too_deep(depth))
    } else {
        match d.next_node() {
            Err(e) => Err(e),
            Ok((node, d1)) => match d1.next_validity(t, node) {
                Err(e) => Err(e),
                Ok((validity, d2)) => values_at(t, depth, node.rows, validity, d2),
            },
        }
    }
}

/// The values of a column of `rows` slots.
pub open spec fn values_at(
    t: TypeModel,
    depth: int,
    rows: nat,
    validity: Option<Seq<bool>>,
    d: DecoderV,
) -> Result<(ArrayV, DecoderV), IpcErrorModel>
    decreases t, 1int,
{
    match t {
        TypeModel::Null => Ok((null_array(rows), d)),
        TypeModel::Bool => match d.next_sized(BufferRole::Values, bytes_for_bits(rows as int), rows) {
            Err(e) => Err(e),
            Ok((bytes, after)) => lifted(make_boolean(bits_of(bytes, 0, rows as int), validity), after),
        },
        TypeModel::Binary | TypeModel::LargeBinary | TypeModel::Utf8 | TypeModel::LargeUtf8 => match d.next_offsets(
            width_of(t),
            rows,
        ) {
            Err(e) => Err(e),
            Ok((offsets, d1)) => match d1.next_region(offsets, rows) {
                Err(e) => Err(e),
                Ok((values, after)) => lifted(make_var(t, offsets, values, validity), after),
            },
        },
        TypeModel::List(f) => match d.next_offsets(4, rows) {
            Err(e) => Err(e),
            Ok((offsets, d1)) => match column_at(f.data_type, depth + 1, d1) {
                Err(e) => Err(e),
                Ok((child, after)) => lifted(make_list(*f, offsets, child, validity), after),
            },
        },
        TypeModel::FixedSizeList(f, n) => match column_at(f.data_type, depth + 1, d) {
            Err(e) => Err(e),
            Ok((child, after)) => {
                let expected = capped((rows * size_or_none(n)) as int);
                if child.len != expected {
                    Err(row_mismatch(expected, before_last(after.node_index), child.len))
                } else {
                    lifted(make_fixed_list(*f, n, child, validity), after)
                }
            },
        },
        TypeModel::Struct(fs) => match struct_columns_at(fs, rows, depth + 1, d) {
            Err(e) => Err(e),
            Ok((columns, after)) => lifted(make_struct(fs, columns, rows, validity), after),
        },
        _ => {
            let width = match t {
                TypeModel::FixedSizeBinary(w) => size_or_none(w),
                _ => value_width(t).unwrap(),
            };
            match d.next_sized(BufferRole::Values, capped((rows * width) as int), rows) {
                Err(e) => Err(e),
                Ok((bytes, after)) => lifted(make_fixed(t, bytes, validity), after),
            }
        },
    }
}

/// The columns that come next, each of `rows` slots.
pub open spec fn struct_columns_at(fs: Seq<FieldModel>, rows: nat, depth: int, d: DecoderV) -> Result<
    (Seq<ArrayV>, DecoderV),
    IpcErrorModel,
>
    decreases fs, 3int,
{
    if fs.len() == 0 {
        Ok((Seq::empty(), d))
    } else {
        match struct_columns_at(fs.drop_last(), rows, depth, d) {
            Err(e) => Err(e),
            Ok((before, d1)) => match column_at(fs.last().data_type, depth, d1) {
                Err(e) => Err(e),
                Ok((column, after)) => if column.len != rows {
                    Err(row_mismatch(rows as int, fs.len() - 1, column.len))
                } else {
                    Ok((before.push(column), after))
                },
            },
        }
    }
}

/// The state that decoding a column leaves, whether it is decoded or refused:
/// what was looked at is consumed.
pub open spec fn column_end(t: TypeModel, depth: int, d: DecoderV) -> DecoderV
    decreases t, 2int,
{
    if depth > MAX_NESTING_DEPTH {
        d
    } else {
        match d.next_node() {
            Err(_) => d.past_node(),
            Ok((node, d1)) => match d1.next_validity(t, node) {
                Err(_) => d1.past_buffer(),
                Ok((_, d2)) => values_end(t, depth, node.rows, d2),
            },
        }
    }
}

/// The state that decoding the values of a column leaves.
pub open spec fn values_end(t: TypeModel, depth: int, rows: nat, d: DecoderV) -> DecoderV
    decreases t, 1int,
{
    match t {
        TypeModel::Null => d,
        TypeModel::Binary | TypeModel::LargeBinary | TypeModel::Utf8 | TypeModel::LargeUtf8 => match d.next_offsets(
            width_of(t),
            rows,
        ) {
            Err(_) => d.past_buffer(),
            Ok((_, d1)) => d1.past_buffer(),
        },
        TypeModel::List(f) => match d.next_offsets(4, rows) {
            Err(_) => d.past_buffer(),
            Ok((_, d1)) => column_end(f.data_type, depth + 1, d1),
        },
        TypeModel::FixedSizeList(f, _) => column_end(f.data_type, depth + 1, d),
        TypeModel::Struct(fs) => struct_end(fs, rows, depth + 1, d),
        _ => d.past_buffer(),
    }
}

/// The state that decoding columns leaves: that of the first that is refused,
/// or of the last.
pub open spec fn struct_end(fs: Seq<FieldModel>, rows: nat, depth: int, d: DecoderV) -> DecoderV
    decreases fs, 3int,
{
    if fs.len() == 0 {
        d
    } else {
        match struct_columns_at(fs.drop_last(), rows, depth, d) {
            Err(_) => struct_end(fs.drop_last(), rows, depth, d),
            Ok((_, d1)) => column_end(fs.last().data_type, depth, d1),
        }
    }
}

/// Why entries are left over, or nothing when none is.
pub open spec fn leftover(d: DecoderV) -> Option<IpcErrorModel> {
    if d.node_index != d.nodes.len() {
        Some(count_mismatch("field node(s)"@, d.node_index as int, d.nodes.len() as int))
    } else if d.buffer_index != d.buffers.len() {
        Some(count_mismatch("buffer(s)"@, d.buffer_index as int, d.buffers.len() as int))
    } else {
        None
    }
}

/// The columns of a batch of `rows` rows.
pub open spec fn columns_at(fs: Seq<FieldModel>, rows: nat, d: DecoderV) -> Result<Seq<ArrayV>, IpcErrorModel> {
    if d.nodes.len() != capped(nodes_of_all(fs) as int) {
        Err(count_mismatch("field node(s)"@, capped(nodes_of_all(fs) as int), d.nodes.len() as int))
    } else if d.buffers.len() != capped(buffers_of_all(fs) as int) {
        Err(count_mismatch("buffer(s)"@, capped(buffers_of_all(fs) as int), d.buffers.len() as int))
    } else {
        match struct_columns_at(fs, rows, 1, d) {
            Err(e) => Err(e),
            Ok((columns, after)) => match leftover(after) {
                Some(e) => Err(e),
                None => Ok(columns),
            },
        }
    }
}

/// The state at the first node and the first buffer.
pub open spec fn first(body: Seq<u8>, nodes: Seq<(i64, i64)>, buffers: Seq<(i64, i64)>) -> DecoderV {
    DecoderV { body, nodes, buffers, node_index: 0, buffer_index: 0 }
}

/// Consumes a batch's nodes and buffers in order.
#[derive(Debug)]
pub struct BatchDecoder<'a> {
    body: &'a Buffer,
    nodes: &'a [(i64, i64)],
    buffers: &'a [(i64, i64)],
    node_index: usize,
    buffer_index: usize,
}

impl<'a> View for BatchDecoder<'a> {
    type V = DecoderV;

    closed spec fn view(&self) -> DecoderV {
        DecoderV {
            body: self.body@,
            nodes: self.nodes@,
            buffers: self.buffers@,
            node_index: self.node_index as nat,
            buffer_index: self.buffer_index as nat,
        }
    }
}

/// A node.
struct NodeInfo {
    rows: usize,
    null_count: Option<usize>,
}

impl NodeInfo {
    spec fn model(self) -> NodeV {
        NodeV {
            rows: self.rows as nat,
            nulls: match self.null_count {
                None => None,
                Some(n) => Some(n as nat),
            },
        }
    }
}

/// Reads the entries of a width out of bytes.
fn read_entries(bytes: &[u8], width: usize) -> (r: Vec<i64>)
    requires
        width == 4 || width == 8,
    ensures
        r@ == entries_of(bytes@, width as nat),
{
    let count: usize = bytes.len() / width;
    let mut out: Vec<i64> = Vec::with_capacity(count);
    let mut i: usize = 0;
    while i < count
        invariant
            0 <= i <= count,
            width == 4 || width == 8,
            count == bytes@.len() / width as nat,
            out@.len() == i,
            forall|k: int| 0 <= k < i ==> out@[k] == entry_at(bytes@, k, width as nat),
        decreases count - i,
    {
        assert(bytes.len() == bytes@.len());
        let entry: i64 = if width == 4 {
            get_u32(bytes, i * 4) as i32 as i64
        } else {
            get_u64(bytes, i * 8) as i64
        };
        out.push(entry);
        i = i + 1;
    }
    assert(out@ =~= entries_of(bytes@, width as nat));
    out
}

/// Shares a made array, or lifts the error.
fn lift(r: Result<Array, DataError>) -> (out: Result<ArrayRef, IpcError>)
    ensures
        match (r, out) {
            (Ok(a), Ok(b)) => b@ == a@,
            (Err(e), Err(f)) => f@ == IpcErrorModel::Data(e@),
            _ => false,
        },
{
    match r {
        Ok(a) => Ok(Arc::new(a)),
        Err(e) => Err(IpcError::Data(e)),
    }
}

impl<'a> BatchDecoder<'a> {
    /// No more was consumed than there is.
    #[verifier::type_invariant]
    closed spec fn inside(self) -> bool {
        self.node_index <= self.nodes@.len() && self.buffer_index <= self.buffers@.len()
    }

    /// Starts at the first node and the first buffer.
    #[must_use]
    pub fn new(body: &'a Buffer, nodes: &'a [(i64, i64)], buffers: &'a [(i64, i64)]) -> (r: Self)
        ensures
            r@ == first(body@, nodes@, buffers@),
    {
        BatchDecoder { body, nodes, buffers, node_index: 0, buffer_index: 0 }
    }

    /// Nodes consumed.
    #[must_use]
    pub fn nodes_consumed(&self) -> (r: usize)
        ensures
            r == self@.node_index,
    {
        self.node_index
    }

    /// Buffers consumed.
    #[must_use]
    pub fn buffers_consumed(&self) -> (r: usize)
        ensures
            r == self@.buffer_index,
    {
        self.buffer_index
    }

    /// Fails where a node or a buffer is left over.
    pub fn finish(&self) -> (r: Result<(), IpcError>)
        ensures
            match r {
                Ok(_) => leftover(self@) is None,
                Err(e) => leftover(self@) == Some(e@),
            },
    {
        assert(self.nodes.len() == self.nodes@.len());
        assert(self.buffers.len() == self.buffers@.len());
        if self.node_index != self.nodes.len() {
            return Err(
                IpcError::LayoutCountMismatch {
                    what: "field node(s)",
                    expected: self.node_index,
                    actual: self.nodes.len(),
                },
            );
        }
        if self.buffer_index != self.buffers.len() {
            return Err(
                IpcError::LayoutCountMismatch {
                    what: "buffer(s)",
                    expected: self.buffer_index,
                    actual: self.buffers.len(),
                },
            );
        }
        Ok(())
    }

    /// Reads the next node.
    fn next_node(&mut self) -> (r: Result<NodeInfo, IpcError>)
        ensures
            final(self)@ == old(self)@.past_node(),
            match r {
                Ok(n) => old(self)@.next_node() == Ok::<(NodeV, DecoderV), IpcErrorModel>(
                    (n.model(), final(self)@),
                ),
                Err(e) => old(self)@.next_node() == Err::<(NodeV, DecoderV), IpcErrorModel>(e@),
            },
    {
        proof {
            use_type_invariant(&*self);
        }
        assert(self.nodes.len() == self.nodes@.len());
        let index: usize = self.node_index;
        if index >= self.nodes.len() {
            return Err(
                IpcError::LayoutCountMismatch {
                    what: "field node(s)",
                    expected: sum_capped(index, 1),
                    actual: self.nodes.len(),
                },
            );
        }
        let (length, null_count) = self.nodes[index];
        self.node_index = index + 1;
        if length < 0 || length as u64 > usize::MAX as u64 {
            return Err(IpcError::InvalidFieldNode { index, length, null_count });
        }
        let rows: usize = length as usize;
        if null_count == -1 {
            return Ok(NodeInfo { rows, null_count: None });
        }
        if null_count < 0 || null_count > length {
            return Err(IpcError::InvalidFieldNode { index, length, null_count });
        }
        Ok(NodeInfo { rows, null_count: Some(null_count as usize) })
    }

    /// Reads the next buffer.
    fn next_buffer(&mut self) -> (r: Result<Buffer, IpcError>)
        ensures
            final(self)@ == old(self)@.past_buffer(),
            match r {
                Ok(b) => old(self)@.next_buffer() == Ok::<(Seq<u8>, DecoderV), IpcErrorModel>(
                    (b@, final(self)@),
                ),
                Err(e) => old(self)@.next_buffer() == Err::<(Seq<u8>, DecoderV), IpcErrorModel>(e@),
            },
    {
        proof {
            use_type_invariant(&*self);
        }
        assert(self.buffers.len() == self.buffers@.len());
        let index: usize = self.buffer_index;
        if index >= self.buffers.len() {
            return Err(
                IpcError::LayoutCountMismatch {
                    what: "buffer(s)",
                    expected: sum_capped(index, 1),
                    actual: self.buffers.len(),
                },
            );
        }
        let (offset, length) = self.buffers[index];
        self.buffer_index = index + 1;
        let body_len: usize = self.body.len();
        if offset < 0 || length < 0 || offset as u128 + length as u128 > body_len as u128 {
            return Err(IpcError::BufferOutOfBounds { index, offset, length, body_len });
        }
        let part = self.body.slice(offset as usize, length as usize);
        assert(part@ =~= self.body@.subrange(offset as int, offset + length));
        Ok(part)
    }

    /// Reads the first `required` bytes of the next buffer.
    fn next_sized(&mut self, role: BufferRole, required: usize, rows: usize) -> (r: Result<Buffer, IpcError>)
        ensures
            final(self)@ == old(self)@.past_buffer(),
            match r {
                Ok(b) => old(self)@.next_sized(role, required as int, rows as nat) == Ok::<
                    (Seq<u8>, DecoderV),
                    IpcErrorModel,
                >((b@, final(self)@)),
                Err(e) => old(self)@.next_sized(role, required as int, rows as nat) == Err::<
                    (Seq<u8>, DecoderV),
                    IpcErrorModel,
                >(e@),
            },
    {
        let index: usize = self.buffer_index;
        let buffer = match self.next_buffer() {
            Ok(buffer) => buffer,
            Err(e) => {
                return Err(e);
            },
        };
        if buffer.len() < required {
            return Err(
                IpcError::BufferTooShort {
                    index,
                    role: role.name(),
                    actual: buffer.len(),
                    required,
                    rows,
                },
            );
        }
        let part = buffer.slice(0, required);
        assert(part@ =~= buffer@.take(required as int));
        Ok(part)
    }

    /// Reads the validity of a node.
    fn next_validity(&mut self, data_type: &DataType, node: &NodeInfo) -> (r: Result<Option<Bitmap>, IpcError>)
        ensures
            final(self)@ == (if data_type@ is Null {
                old(self)@
            } else {
                old(self)@.past_buffer()
            }),
            match r {
                Ok(v) => old(self)@.next_validity(data_type@, node.model()) == Ok::<
                    (Option<Seq<bool>>, DecoderV),
                    IpcErrorModel,
                >((bits_model(v), final(self)@)),
                Err(e) => old(self)@.next_validity(data_type@, node.model()) == Err::<
                    (Option<Seq<bool>>, DecoderV),
                    IpcErrorModel,
                >(e@),
            },
    {
        match data_type {
            DataType::Null => {
                return Ok(None);
            },
            _ => {},
        }
        let index: usize = self.buffer_index;
        let buffer = match self.next_buffer() {
            Ok(buffer) => buffer,
            Err(e) => {
                return Err(e);
            },
        };
        let wanted = match node.null_count {
            Some(n) => n != 0,
            None => !buffer.is_empty(),
        };
        if !wanted {
            return Ok(None);
        }
        let required: usize = validity_byte_len(node.rows);
        if buffer.len() < required {
            return Err(
                IpcError::BufferTooShort {
                    index,
                    role: BufferRole::Validity.name(),
                    actual: buffer.len(),
                    required,
                    rows: node.rows,
                },
            );
        }
        let part = buffer.slice(0, required);
        assert(part@ =~= buffer@.take(required as int));
        match Bitmap::try_new(part, 0, node.rows) {
            Ok(bits) => Ok(Some(bits)),
            Err(e) => Err(IpcError::Data(e)),
        }
    }

    /// Reads the offsets of `rows` slots.
    fn next_offsets(&mut self, width: usize, rows: usize) -> (r: Result<Vec<i64>, IpcError>)
        requires
            width == 4 || width == 8,
        ensures
            final(self)@ == old(self)@.past_buffer(),
            match r {
                Ok(o) => old(self)@.next_offsets(width as nat, rows as nat) == Ok::<
                    (Seq<i64>, DecoderV),
                    IpcErrorModel,
                >((o@, final(self)@)),
                Err(e) => old(self)@.next_offsets(width as nat, rows as nat) == Err::<
                    (Seq<i64>, DecoderV),
                    IpcErrorModel,
                >(e@),
            },
    {
        let index: usize = self.buffer_index;
        let required: usize = product_capped(sum_capped(rows, 1), width);
        let buffer = match self.next_buffer() {
            Ok(buffer) => buffer,
            Err(e) => {
                return Err(e);
            },
        };
        if buffer.is_empty() && rows == 0 {
            let mut offsets: Vec<i64> = Vec::new();
            offsets.push(0);
            assert(offsets@ =~= seq![0i64]);
            return Ok(offsets);
        }
        if buffer.len() < required {
            return Err(
                IpcError::BufferTooShort {
                    index,
                    role: BufferRole::Offsets.name(),
                    actual: buffer.len(),
                    required,
                    rows,
                },
            );
        }
        let part = buffer.slice(0, required);
        assert(part@ =~= buffer@.take(required as int));
        Ok(read_entries(part.as_slice(), width))
    }

    /// Reads the bytes that offsets address.
    fn next_region(&mut self, offsets: &Vec<i64>, rows: usize) -> (r: Result<Buffer, IpcError>)
        ensures
            final(self)@ == old(self)@.past_buffer(),
            match r {
                Ok(b) => old(self)@.next_region(offsets@, rows as nat) == Ok::<
                    (Seq<u8>, DecoderV),
                    IpcErrorModel,
                >((b@, final(self)@)),
                Err(e) => old(self)@.next_region(offsets@, rows as nat) == Err::<
                    (Seq<u8>, DecoderV),
                    IpcErrorModel,
                >(e@),
            },
    {
        let index: usize = self.buffer_index;
        let needed: u64 = if rows < offsets.len() && offsets[rows] >= 0 {
            offsets[rows] as u64
        } else {
            0
        };
        let buffer = match self.next_buffer() {
            Ok(buffer) => buffer,
            Err(e) => {
                return Err(e);
            },
        };
        if (buffer.len() as u64) < needed {
            return Err(
                IpcError::BufferTooShort {
                    index,
                    role: BufferRole::Values.name(),
                    actual: buffer.len(),
                    required: #[verifier::truncate] (needed as usize),
                    rows,
                },
            );
        }
        Ok(buffer)
    }

    /// Decodes the column a field declares.
    pub fn decode_column(&mut self, field: &Field, depth: usize) -> (r: Result<ArrayRef, IpcError>)
        ensures
            final(self)@ == column_end(field@.data_type, depth as int, old(self)@),
            match r {
                Ok(a) => column_at(field@.data_type, depth as int, old(self)@) == Ok::<
                    (ArrayV, DecoderV),
                    IpcErrorModel,
                >((a@, final(self)@)),
                Err(e) => column_at(field@.data_type, depth as int, old(self)@) == Err::<
                    (ArrayV, DecoderV),
                    IpcErrorModel,
                >(e@),
            },
        decreases MAX_NESTING_DEPTH + 2 - depth, 2int,
    {
        if depth > MAX_NESTING_DEPTH {
            return Err(IpcError::NestingTooDeep { depth, limit: MAX_NESTING_DEPTH });
        }
        let node = match self.next_node() {
            Ok(node) => node,
            Err(e) => {
                return Err(e);
            },
        };
        let validity = match self.next_validity(field.data_type(), &node) {
            Ok(validity) => validity,
            Err(e) => {
                return Err(e);
            },
        };
        self.decode_values(field.data_type(), depth, node.rows, validity)
    }

    /// Decodes the values of a column of `rows` slots.
    fn decode_values(&mut self, data_type: &DataType, depth: usize, rows: usize, validity: Option<Bitmap>) -> (r:
        Result<ArrayRef, IpcError>)
        requires
            depth <= MAX_NESTING_DEPTH,
        ensures
            final(self)@ == values_end(data_type@, depth as int, rows as nat, old(self)@),
            match r {
                Ok(a) => values_at(
                    data_type@,
                    depth as int,
                    rows as nat,
                    bits_model(validity),
                    old(self)@,
                ) == Ok::<(ArrayV, DecoderV), IpcErrorModel>((a@, final(self)@)),
                Err(e) => values_at(
                    data_type@,
                    depth as int,
                    rows as nat,
                    bits_model(validity),
                    old(self)@,
                ) == Err::<(ArrayV, DecoderV), IpcErrorModel>(e@),
            },
        decreases MAX_NESTING_DEPTH + 2 - depth, 1int,
    {
        broadcast use crate::datatype::lemma_struct_model;
        match data_type {
            DataType::Null => Ok(Arc::new(Array::null(rows))),
            DataType::Bool => {
                let bytes = match self.next_sized(BufferRole::Values, validity_byte_len(rows), rows) {
                    Ok(bytes) => bytes,
                    Err(e) => {
                        return Err(e);
                    },
                };
                match Bitmap::try_new(bytes, 0, rows) {
                    Ok(bits) => lift(Array::boolean(bits, validity)),
                    Err(e) => Err(IpcError::Data(e)),
                }
            },
            DataType::Binary | DataType::Utf8 => self.decode_strings(data_type, 4, rows, validity),
            DataType::LargeBinary | DataType::LargeUtf8 => self.decode_strings(data_type, 8, rows, validity),
            DataType::List(item) => {
                let offsets = match self.next_offsets(4, rows) {
                    Ok(offsets) => offsets,
                    Err(e) => {
                        return Err(e);
                    },
                };
                let child = match self.decode_column(item, depth + 1) {
                    Ok(child) => child,
                    Err(e) => {
                        return Err(e);
                    },
                };
                lift(Array::list(clone_field(item), Offsets::from_vec(offsets), child, validity))
            },
            DataType::FixedSizeList(item, size) => {
                let child = match self.decode_column(item, depth + 1) {
                    Ok(child) => child,
                    Err(e) => {
                        return Err(e);
                    },
                };
                let n: usize = if *size < 0 {
                    0
                } else {
                    *size as usize
                };
                let expected: usize = product_capped(rows, n);
                if child.len() != expected {
                    let column: usize = if self.node_index > 0 {
                        self.node_index - 1
                    } else {
                        0
                    };
                    return Err(
                        IpcError::RowCountMismatch { declared: expected, column, actual: child.len() },
                    );
                }
                lift(Array::fixed_list(clone_field(item), *size, child, validity))
            },
            DataType::Struct(fields) => {
                let columns = match self.decode_struct_columns(fields, rows, depth + 1) {
                    Ok(columns) => columns,
                    Err(e) => {
                        return Err(e);
                    },
                };
                lift(Array::strukt(clone_fields(fields), columns, rows, validity))
            },
            _ => {
                let width: usize = match data_type {
                    DataType::FixedSizeBinary(w) => if *w < 0 {
                        0
                    } else {
                        *w as usize
                    },
                    _ => match value_byte_width(data_type) {
                        Some(w) => w,
                        None => 0,
                    },
                };
                let bytes = match self.next_sized(BufferRole::Values, product_capped(rows, width), rows) {
                    Ok(bytes) => bytes,
                    Err(e) => {
                        return Err(e);
                    },
                };
                lift(Array::fixed(clone_type(data_type), bytes, validity))
            },
        }
    }

    /// Decodes byte strings or texts.
    fn decode_strings(&mut self, data_type: &DataType, width: usize, rows: usize, validity: Option<Bitmap>) -> (r:
        Result<ArrayRef, IpcError>)
        requires
            is_var(data_type@),
            width == width_of(data_type@),
        ensures
            final(self)@ == values_end(data_type@, 0, rows as nat, old(self)@),
            match r {
                Ok(a) => values_at(data_type@, 0, rows as nat, bits_model(validity), old(self)@) == Ok::<
                    (ArrayV, DecoderV),
                    IpcErrorModel,
                >((a@, final(self)@)),
                Err(e) => values_at(data_type@, 0, rows as nat, bits_model(validity), old(self)@) == Err::<
                    (ArrayV, DecoderV),
                    IpcErrorModel,
                >(e@),
            },
    {
        let offsets = match self.next_offsets(width, rows) {
            Ok(offsets) => offsets,
            Err(e) => {
                return Err(e);
            },
        };
        let values = match self.next_region(&offsets, rows) {
            Ok(values) => values,
            Err(e) => {
                return Err(e);
            },
        };
        lift(Array::var(clone_type(data_type), Offsets::from_vec(offsets), values, validity))
    }

    /// Decodes columns, one after another, each of `rows` slots.
    fn decode_struct_columns(&mut self, fields: &Vec<Field>, rows: usize, depth: usize) -> (r: Result<
        Vec<ArrayRef>,
        IpcError,
    >)
        requires
            depth <= MAX_NESTING_DEPTH + 1,
        ensures
            final(self)@ == struct_end(fields_model(fields@), rows as nat, depth as int, old(self)@),
            match r {
                Ok(cs) => struct_columns_at(
                    fields_model(fields@),
                    rows as nat,
                    depth as int,
                    old(self)@,
                ) == Ok::<(Seq<ArrayV>, DecoderV), IpcErrorModel>((arrays_model(cs@), final(self)@)),
                Err(e) => struct_columns_at(
                    fields_model(fields@),
                    rows as nat,
                    depth as int,
                    old(self)@,
                ) == Err::<(Seq<ArrayV>, DecoderV), IpcErrorModel>(e@),
            },
        decreases MAX_NESTING_DEPTH + 2 - depth, 3int,
    {
        let ghost fs = fields_model(fields@);
        let ghost start = self@;
        let mut columns: Vec<ArrayRef> = Vec::new();
        let mut i: usize = 0;
        proof {
            assert(fs.take(0) =~= Seq::<FieldModel>::empty());
            assert(arrays_model(columns@) =~= Seq::<ArrayV>::empty());
        }
        while i < fields.len()
            invariant
                0 <= i <= fields@.len(),
                fs == fields_model(fields@),
                start == old(self)@,
                depth <= MAX_NESTING_DEPTH + 1,
                self@ == struct_end(fs.take(i as int), rows as nat, depth as int, start),
                columns@.len() == i,
                struct_columns_at(fs.take(i as int), rows as nat, depth as int, start) == Ok::<
                    (Seq<ArrayV>, DecoderV),
                    IpcErrorModel,
                >((arrays_model(columns@), self@)),
            decreases fields@.len() - i,
        {
            let ghost before = columns@;
            proof {
                assert(fs.take(i + 1).drop_last() =~= fs.take(i as int));
                assert(fs.take(i + 1).last() == fields@[i as int]@);
            }
            let column = match self.decode_column(&fields[i], depth) {
                Ok(column) => column,
                Err(e) => {
                    proof {
                        lemma_struct_error(fs, i + 1, rows as nat, depth as int, start, e@);
                    }
                    return Err(e);
                },
            };
            if column.len() != rows {
                proof {
                    lemma_struct_error(
                        fs,
                        i + 1,
                        rows as nat,
                        depth as int,
                        start,
                        row_mismatch(rows as int, i as int, column@.len),
                    );
                }
                return Err(
                    IpcError::RowCountMismatch { declared: rows, column: i, actual: column.len() },
                );
            }
            columns.push(column);
            proof {
                assert(arrays_model(columns@) =~= arrays_model(before).push(column@));
            }
            i = i + 1;
        }
        assert(fs.take(i as int) =~= fs);
        Ok(columns)
    }
}

/// The first error is the whole list's.
proof fn lemma_struct_error(fs: Seq<FieldModel>, n: int, rows: nat, depth: int, d: DecoderV, e: IpcErrorModel)
    requires
        0 <= n <= fs.len(),
        struct_columns_at(fs.take(n), rows, depth, d) == Err::<(Seq<ArrayV>, DecoderV), IpcErrorModel>(e),
    ensures
        struct_columns_at(fs, rows, depth, d) == Err::<(Seq<ArrayV>, DecoderV), IpcErrorModel>(e),
        struct_end(fs, rows, depth, d) == struct_end(fs.take(n), rows, depth, d),
    decreases fs.len(),
{
    if n == fs.len() {
        assert(fs.take(n) =~= fs);
    } else {
        assert(fs.drop_last().take(n) =~= fs.take(n));
        lemma_struct_error(fs.drop_last(), n, rows, depth, d, e);
    }
}

/// Decodes every column of a batch of `rows` rows.
pub fn decode_columns(
    fields: &Vec<Field>,
    rows: usize,
    body: &Buffer,
    nodes: &[(i64, i64)],
    buffers: &[(i64, i64)],
) -> (r: Result<Vec<ArrayRef>, IpcError>)
    ensures
        match r {
            Ok(cs) => columns_at(fields_model(fields@), rows as nat, first(body@, nodes@, buffers@)) == Ok::<
                Seq<ArrayV>,
                IpcErrorModel,
            >(arrays_model(cs@)),
            Err(e) => columns_at(fields_model(fields@), rows as nat, first(body@, nodes@, buffers@)) == Err::<
                Seq<ArrayV>,
                IpcErrorModel,
            >(e@),
        },
{
    let expected_nodes: usize = schema_node_count(fields);
    if nodes.len() != expected_nodes {
        return Err(
            IpcError::LayoutCountMismatch {
                what: "field node(s)",
                expected: expected_nodes,
                actual: nodes.len(),
            },
        );
    }
    let expected_buffers: usize = schema_buffer_count(fields);
    if buffers.len() != expected_buffers {
        return Err(
            IpcError::LayoutCountMismatch {
                what: "buffer(s)",
                expected: expected_buffers,
                actual: buffers.len(),
            },
        );
    }
    let mut decoder = BatchDecoder::new(body, nodes, buffers);
    let columns = match decoder.decode_struct_columns(fields, rows, 1) {
        Ok(columns) => columns,
        Err(e) => {
            return Err(e);
        },
    };
    match decoder.finish() {
        Ok(_) => Ok(columns),
        Err(e) => Err(e),
    }
}

/// The options under which decoded columns become a batch: types exactly, nulls
/// anywhere.
pub open spec fn decoded(rows: nat) -> RecordBatchOptions {
    RecordBatchOptions { row_count: Some(rows as usize), check_nullability: false, ..strict() }
}

/// Makes decoded columns a batch. A column may hold nulls though its field
/// admits none: the format allows it.
pub fn assemble_batch(schema: &Arc<Schema>, columns: Vec<ArrayRef>, rows: usize) -> (r: Result<
    RecordBatch,
    IpcError,
>)
    ensures
        match r {
            Ok(b) => make_batch(schema@, arrays_model(columns@), decoded(rows as nat)) == Ok::<
                BatchV,
                DataErrorModel,
            >(b@),
            Err(e) => e@ is Data && make_batch(schema@, arrays_model(columns@), decoded(rows as nat)) == Err::<
                BatchV,
                DataErrorModel,
            >(e@->Data_0),
        },
{
    let options = RecordBatchOptions::default().with_row_count(rows).with_nullability_check(false);
    match RecordBatch::try_new_with_options(share(schema), columns, options) {
        Ok(batch) => Ok(batch),
        Err(e) => Err(IpcError::Data(e)),
    }
}

} // verus!
