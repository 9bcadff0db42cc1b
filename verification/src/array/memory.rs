//! How many bytes an array's buffers take.
use vstd::prelude::*;
use crate::array::column::{arrays_model, lemma_struct_body, Array, ArrayRef, Body};
use crate::array::model::{ArrayV, BodyV};
use crate::{capped, product_capped, sum_capped};
use crate::ipc::layout::{bytes_for_bits, offset_byte_width, offset_width, validity_byte_len};

verus! {

/// The bytes of a validity bitmap, where there is one.
pub open spec fn validity_bytes(a: ArrayV) -> int {
    match a.validity {
        None => 0,
        Some(v) => bytes_for_bits(v.len() as int),
    }
}

/// The bytes of an offsets buffer.
pub open spec fn offset_bytes(a: ArrayV, count: int) -> int {
    match offset_width(a.ty) {
        Some(w) => count * w,
        None => 0,
    }
}

/// The bytes of an array's buffers, children included.
pub open spec fn memory(a: ArrayV) -> int
    decreases a, 0int,
{
    validity_bytes(a) + match a.body {
        BodyV::Null => 0,
        BodyV::Bits(bits) => bytes_for_bits(bits.len() as int),
        BodyV::Fixed(bytes) => bytes.len() as int,
        BodyV::Var { offsets, values } => offset_bytes(a, offsets.len() as int) + values.len(),
        BodyV::List { offsets, child } => offset_bytes(a, offsets.len() as int) + memory(*child),
        BodyV::FixedList(child) => memory(*child),
        BodyV::Struct(columns) => memory_all(columns),
    }
}

/// The bytes of a list of arrays.
pub open spec fn memory_all(columns: Seq<ArrayV>) -> int
    decreases columns, 1int,
{
    if columns.len() == 0 {
        0
    } else {
        memory_all(columns.drop_last()) + memory(columns.last())
    }
}

/// Bytes are never negative.
pub proof fn lemma_memory(a: ArrayV)
    ensures
        0 <= memory(a),
    decreases a, 0int,
{
    match a.body {
        BodyV::List { offsets, child } => {
            lemma_memory(*child);
        },
        BodyV::FixedList(child) => {
            lemma_memory(*child);
        },
        BodyV::Struct(columns) => {
            lemma_memory_all(columns);
        },
        _ => {},
    }
}

/// Bytes are never negative.
pub proof fn lemma_memory_all(columns: Seq<ArrayV>)
    ensures
        0 <= memory_all(columns),
    decreases columns, 1int,
{
    if columns.len() > 0 {
        lemma_memory_all(columns.drop_last());
        lemma_memory(columns.last());
    }
}

impl Array {
    /// The bytes of the buffers, children included, cut to the largest `usize`.
    pub fn buffer_memory_size(&self) -> (r: usize)
        ensures
            r == capped(memory(self@)),
        decreases self,
    {
        broadcast use lemma_struct_body;
        let len: usize = self.len();
        let own: usize = match self.validity() {
            None => 0,
            Some(bits) => validity_byte_len(bits.len()),
        };
        let width: usize = match offset_byte_width(self.data_type()) {
            Some(w) => w,
            None => 0,
        };
        proof {
            lemma_memory(self@);
        }
        let rest: usize = match self.body() {
            Body::Null => 0,
            Body::Bits(bits) => validity_byte_len(bits.len()),
            Body::Fixed(bytes) => bytes.len(),
            Body::Var { offsets, values } => {
                let entries: usize = product_capped(offsets.len(), width);
                sum_capped(entries, values.len())
            },
            Body::List { offsets, child } => {
                let entries: usize = product_capped(offsets.len(), width);
                proof {
                    lemma_memory(child@);
                }
                sum_capped(entries, child.buffer_memory_size())
            },
            Body::FixedList { child } => {
                proof {
                    lemma_memory(child@);
                }
                child.buffer_memory_size()
            },
            Body::Struct { columns } => {
                proof {
                    lemma_memory_all(arrays_model(columns@));
                }
                arrays_memory(columns)
            },
        };
        sum_capped(own, rest)
    }
}

/// The bytes of a list of arrays, cut to the largest `usize`.
pub fn arrays_memory(columns: &Vec<ArrayRef>) -> (r: usize)
    ensures
        r == capped(memory_all(arrays_model(columns@))),
    decreases columns,
{
    let ghost cs = arrays_model(columns@);
    let mut total: usize = 0;
    let mut i: usize = 0;
    assert(cs.take(0) =~= Seq::<ArrayV>::empty());
    while i < columns.len()
        invariant
            0 <= i <= columns@.len(),
            cs == arrays_model(columns@),
            total == capped(memory_all(cs.take(i as int))),
        decreases columns@.len() - i,
    {
        proof {
            assert(cs.take(i + 1).drop_last() =~= cs.take(i as int));
            assert(cs.take(i + 1).last() == columns@[i as int]@);
            lemma_memory_all(cs.take(i as int));
            lemma_memory(columns@[i as int]@);
        }
        total = sum_capped(total, columns[i].buffer_memory_size());
        i = i + 1;
    }
    assert(cs.take(i as int) =~= cs);
    total
}

} // verus!
