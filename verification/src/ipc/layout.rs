//! Which buffers and nodes each type contributes to a record batch.
//!
//! A batch describes its body with two flat lists: one node per array, parents
//! before children, and one entry per buffer in the same order. Writer and
//! reader both take the counts from here.
//!
//! | Type | Own buffers | Children |
//! |---|---|---|
//! | `Null` | none | 0 |
//! | `Bool` | validity, values (bits) | 0 |
//! | fixed-width types | validity, values | 0 |
//! | `Binary`, `Utf8` | validity, 32-bit offsets, values | 0 |
//! | `LargeBinary`, `LargeUtf8` | validity, 64-bit offsets, values | 0 |
//! | `List` | validity, 32-bit offsets | 1 |
//! | `FixedSizeList` | validity | 1 |
//! | `Struct` | validity | one per field |
use vstd::prelude::*;
use crate::datatype::{children_model, fields_model, primitive_width_model, DataType, Field, FieldModel, TypeModel};
use crate::ipc::error::{IpcError, IpcErrorModel};
use crate::{capped, product_capped, sum_capped};

verus! {

/// How deeply a type may be nested.
pub const MAX_NESTING_DEPTH: usize = 64;

/// What a buffer of a batch carries.
#[derive(Debug, Clone, Copy, PartialEq, Eq, Hash, Structural)]
#[non_exhaustive]
pub enum BufferRole {
    /// One bit per slot, set for a valid one.
    Validity,
    /// One more entry than there are slots.
    Offsets,
    /// The values.
    Values,
}

impl BufferRole {
    /// The role's name.
    pub open spec fn name_model(self) -> Seq<char> {
        match self {
            BufferRole::Validity => "validity"@,
            BufferRole::Offsets => "offsets"@,
            BufferRole::Values => "values"@,
        }
    }

    /// The role's name.
    #[must_use]
    pub fn name(self) -> (r: &'static str)
        ensures
            r@ == self.name_model(),
    {
        match self {
            BufferRole::Validity => "validity",
            BufferRole::Offsets => "offsets",
            BufferRole::Values => "values",
        }
    }
}

/// The buffers a type contributes itself.
pub open spec fn roles_of(t: TypeModel) -> Seq<BufferRole> {
    match t {
        TypeModel::Null => seq![],
        TypeModel::Binary | TypeModel::LargeBinary | TypeModel::Utf8 | TypeModel::LargeUtf8 => seq![
            BufferRole::Validity,
            BufferRole::Offsets,
            BufferRole::Values,
        ],
        TypeModel::List(_) => seq![BufferRole::Validity, BufferRole::Offsets],
        TypeModel::FixedSizeList(_, _) | TypeModel::Struct(_) => seq![BufferRole::Validity],
        _ => seq![BufferRole::Validity, BufferRole::Values],
    }
}

/// The buffers a type contributes itself, children left out.
#[must_use]
pub fn buffer_roles(data_type: &DataType) -> (r: Vec<BufferRole>)
    ensures
        r@ == roles_of(data_type@),
{
    let mut out: Vec<BufferRole> = Vec::new();
    match data_type {
        DataType::Null => {},
        DataType::Binary | DataType::LargeBinary | DataType::Utf8 | DataType::LargeUtf8 => {
            out.push(BufferRole::Validity);
            out.push(BufferRole::Offsets);
            out.push(BufferRole::Values);
        },
        DataType::List(_) => {
            out.push(BufferRole::Validity);
            out.push(BufferRole::Offsets);
        },
        DataType::FixedSizeList(_, _) | DataType::Struct(_) => {
            out.push(BufferRole::Validity);
        },
        _ => {
            out.push(BufferRole::Validity);
            out.push(BufferRole::Values);
        },
    }
    assert(out@ =~= roles_of(data_type@));
    out
}

/// The children of a type, in the order of their nodes and buffers.
#[must_use]
pub fn children_of(data_type: &DataType) -> (r: Vec<&Field>)
    ensures
        Seq::new(r@.len(), |i: int| r@[i]@) == children_model(data_type@),
{
    data_type.children()
}

/// How many nodes a type contributes: itself and every descendant.
pub open spec fn nodes_of(t: TypeModel) -> nat
    decreases t, 0int,
{
    match t {
        TypeModel::FixedSizeList(f, _) => 1 + nodes_of(f.data_type),
        TypeModel::List(f) => 1 + nodes_of(f.data_type),
        TypeModel::Struct(fs) => 1 + nodes_of_all(fs),
        _ => 1,
    }
}

/// How many nodes a list of fields contributes.
pub open spec fn nodes_of_all(fs: Seq<FieldModel>) -> nat
    decreases fs, 1int,
{
    if fs.len() == 0 {
        0
    } else {
        nodes_of_all(fs.drop_last()) + nodes_of(fs.last().data_type)
    }
}

/// How many buffers a type contributes, descendants included.
pub open spec fn buffers_of(t: TypeModel) -> nat
    decreases t, 0int,
{
    match t {
        TypeModel::FixedSizeList(f, _) => roles_of(t).len() + buffers_of(f.data_type),
        TypeModel::List(f) => roles_of(t).len() + buffers_of(f.data_type),
        TypeModel::Struct(fs) => roles_of(t).len() + buffers_of_all(fs),
        _ => roles_of(t).len(),
    }
}

/// How many buffers a list of fields contributes.
pub open spec fn buffers_of_all(fs: Seq<FieldModel>) -> nat
    decreases fs, 1int,
{
    if fs.len() == 0 {
        0
    } else {
        buffers_of_all(fs.drop_last()) + buffers_of(fs.last().data_type)
    }
}

/// How many levels a type has, itself included.
pub open spec fn depth_of(t: TypeModel) -> nat
    decreases t, 0int,
{
    match t {
        TypeModel::FixedSizeList(f, _) => 1 + depth_of(f.data_type),
        TypeModel::List(f) => 1 + depth_of(f.data_type),
        TypeModel::Struct(fs) => 1 + depth_of_all(fs),
        _ => 1,
    }
}

/// How many levels the deepest of a list of fields has.
pub open spec fn depth_of_all(fs: Seq<FieldModel>) -> nat
    decreases fs, 1int,
{
    if fs.len() == 0 {
        0
    } else {
        let before = depth_of_all(fs.drop_last());
        let last = depth_of(fs.last().data_type);
        if last > before {
            last
        } else {
            before
        }
    }
}

/// A child is no deeper than its list.
pub proof fn lemma_child_depth(fs: Seq<FieldModel>, i: int)
    requires
        0 <= i < fs.len(),
    ensures
        depth_of(fs[i].data_type) <= depth_of_all(fs),
    decreases fs.len(),
{
    if i < fs.len() - 1 {
        lemma_child_depth(fs.drop_last(), i);
        assert(fs.drop_last()[i] == fs[i]);
    }
}

/// Number of nodes of a type, cut to the largest `usize`.
#[must_use]
pub fn node_count(data_type: &DataType) -> (r: usize)
    ensures
        r == capped(nodes_of(data_type@) as int),
    decreases data_type,
{
    broadcast use crate::datatype::lemma_struct_model;
    match data_type {
        DataType::FixedSizeList(f, _) => sum_capped(1, node_count(f.data_type())),
        DataType::List(f) => sum_capped(1, node_count(f.data_type())),
        DataType::Struct(fs) => sum_capped(1, schema_node_count(fs)),
        _ => 1,
    }
}

/// Number of nodes of a list of fields, cut to the largest `usize`.
#[must_use]
pub fn schema_node_count(fields: &Vec<Field>) -> (r: usize)
    ensures
        r == capped(nodes_of_all(fields_model(fields@)) as int),
    decreases fields,
{
    let ghost fs = fields_model(fields@);
    let mut total: usize = 0;
    let mut i: usize = 0;
    while i < fields.len()
        invariant
            0 <= i <= fields@.len(),
            fs == fields_model(fields@),
            total == capped(nodes_of_all(fs.take(i as int)) as int),
        decreases fields@.len() - i,
    {
        proof {
            assert(fs.take(i + 1).drop_last() =~= fs.take(i as int));
            assert(fs.take(i + 1).last() == fields@[i as int]@);
        }
        total = sum_capped(total, node_count(fields[i].data_type()));
        i = i + 1;
    }
    assert(fs.take(i as int) =~= fs);
    total
}

/// Number of buffers of a type, descendants included, cut to the largest
/// `usize`.
#[must_use]
pub fn buffer_count(data_type: &DataType) -> (r: usize)
    ensures
        r == capped(buffers_of(data_type@) as int),
    decreases data_type,
{
    broadcast use crate::datatype::lemma_struct_model;
    let own: usize = buffer_roles(data_type).len();
    match data_type {
        DataType::FixedSizeList(f, _) => sum_capped(own, buffer_count(f.data_type())),
        DataType::List(f) => sum_capped(own, buffer_count(f.data_type())),
        DataType::Struct(fs) => sum_capped(own, schema_buffer_count(fs)),
        _ => own,
    }
}

/// Number of buffers of a list of fields, cut to the largest `usize`.
#[must_use]
pub fn schema_buffer_count(fields: &Vec<Field>) -> (r: usize)
    ensures
        r == capped(buffers_of_all(fields_model(fields@)) as int),
    decreases fields,
{
    let ghost fs = fields_model(fields@);
    let mut total: usize = 0;
    let mut i: usize = 0;
    while i < fields.len()
        invariant
            0 <= i <= fields@.len(),
            fs == fields_model(fields@),
            total == capped(buffers_of_all(fs.take(i as int)) as int),
        decreases fields@.len() - i,
    {
        proof {
            assert(fs.take(i + 1).drop_last() =~= fs.take(i as int));
            assert(fs.take(i + 1).last() == fields@[i as int]@);
        }
        total = sum_capped(total, buffer_count(fields[i].data_type()));
        i = i + 1;
    }
    assert(fs.take(i as int) =~= fs);
    total
}

/// How many levels a type has, itself included, cut to the largest `usize`.
#[must_use]
pub fn nesting_depth(data_type: &DataType) -> (r: usize)
    ensures
        r == capped(depth_of(data_type@) as int),
    decreases data_type,
{
    broadcast use crate::datatype::lemma_struct_model;
    match data_type {
        DataType::FixedSizeList(f, _) => sum_capped(1, nesting_depth(f.data_type())),
        DataType::List(f) => sum_capped(1, nesting_depth(f.data_type())),
        DataType::Struct(fs) => sum_capped(1, fields_depth(fs)),
        _ => 1,
    }
}

/// How many levels the deepest of a list of fields has.
fn fields_depth(fields: &Vec<Field>) -> (r: usize)
    ensures
        r == capped(depth_of_all(fields_model(fields@)) as int),
    decreases fields,
{
    let ghost fs = fields_model(fields@);
    let mut deepest: usize = 0;
    let mut i: usize = 0;
    while i < fields.len()
        invariant
            0 <= i <= fields@.len(),
            fs == fields_model(fields@),
            deepest == capped(depth_of_all(fs.take(i as int)) as int),
        decreases fields@.len() - i,
    {
        proof {
            assert(fs.take(i + 1).drop_last() =~= fs.take(i as int));
            assert(fs.take(i + 1).last() == fields@[i as int]@);
        }
        let depth: usize = nesting_depth(fields[i].data_type());
        if depth > deepest {
            deepest = depth;
        }
        i = i + 1;
    }
    assert(fs.take(i as int) =~= fs);
    deepest
}

/// Refuses a type nested deeper than [`MAX_NESTING_DEPTH`].
pub fn check_nesting_depth(data_type: &DataType) -> (r: Result<(), IpcError>)
    ensures
        match r {
            Ok(_) => depth_of(data_type@) <= MAX_NESTING_DEPTH,
            Err(e) => depth_of(data_type@) > MAX_NESTING_DEPTH && e@ == (IpcErrorModel::NestingTooDeep {
                depth: capped(depth_of(data_type@) as int) as usize,
                limit: MAX_NESTING_DEPTH,
            }),
        },
{
    let depth: usize = nesting_depth(data_type);
    if depth > MAX_NESTING_DEPTH {
        return Err(IpcError::NestingTooDeep { depth, limit: MAX_NESTING_DEPTH });
    }
    Ok(())
}

/// The byte width of one value of a fixed-width type.
pub open spec fn value_width(t: TypeModel) -> Option<nat> {
    match t {
        TypeModel::FixedSizeBinary(w) => if w >= 0 {
            Some(w as nat)
        } else {
            None
        },
        _ => primitive_width_model(t),
    }
}

/// The byte width of one value, or `None` for bit-packed, variable-length and
/// nested types.
#[must_use]
pub fn value_byte_width(data_type: &DataType) -> (r: Option<usize>)
    ensures
        match r {
            Some(w) => value_width(data_type@) == Some(w as nat),
            None => value_width(data_type@) is None,
        },
{
    match data_type {
        DataType::FixedSizeBinary(w) => if *w >= 0 {
            Some(*w as usize)
        } else {
            None
        },
        other => other.primitive_width(),
    }
}

/// The least whole number of eights that hold `bits`.
pub open spec fn bytes_for_bits(bits: int) -> int {
    (bits + 7) / 8
}

/// The byte length of the values of `rows` slots, capped at the largest
/// `usize`, where it does not depend on the data.
pub open spec fn values_len(t: TypeModel, rows: nat) -> Option<nat> {
    match t {
        TypeModel::Bool => Some(bytes_for_bits(rows as int) as nat),
        _ => match value_width(t) {
            Some(w) => Some(capped((w * rows) as int) as nat),
            None => None,
        },
    }
}

/// The byte length of the values of `rows` slots, or `None` where it depends on
/// the data.
#[must_use]
pub fn values_byte_len(data_type: &DataType, rows: usize) -> (r: Option<usize>)
    ensures
        match r {
            Some(n) => values_len(data_type@, rows as nat) == Some(n as nat),
            None => values_len(data_type@, rows as nat) is None,
        },
{
    match data_type {
        DataType::Bool => Some(validity_byte_len(rows)),
        other => match value_byte_width(other) {
            Some(width) => Some(product_capped(width, rows)),
            None => None,
        },
    }
}

/// The byte width of an offset entry, for the types that have offsets.
pub open spec fn offset_width(t: TypeModel) -> Option<nat> {
    match t {
        TypeModel::Binary | TypeModel::Utf8 | TypeModel::List(_) => Some(4),
        TypeModel::LargeBinary | TypeModel::LargeUtf8 => Some(8),
        _ => None,
    }
}

/// The byte width of an offset entry, or `None` for types without offsets.
#[must_use]
pub fn offset_byte_width(data_type: &DataType) -> (r: Option<usize>)
    ensures
        match r {
            Some(w) => offset_width(data_type@) == Some(w as nat),
            None => offset_width(data_type@) is None,
        },
{
    match data_type {
        DataType::Binary | DataType::Utf8 | DataType::List(_) => Some(4),
        DataType::LargeBinary | DataType::LargeUtf8 => Some(8),
        _ => None,
    }
}

/// The bytes a validity bitmap of `rows` slots takes.
#[must_use]
pub fn validity_byte_len(rows: usize) -> (r: usize)
    ensures
        r == bytes_for_bits(rows as int),
{
    if rows % 8 == 0 {
        rows / 8
    } else {
        rows / 8 + 1
    }
}

/// The node count is one for a type without children, and otherwise one more
/// than its children's; the buffer count is its own buffers and its children's.
pub proof fn law_counts_are_depth_first(t: TypeModel)
    ensures
        nodes_of(t) == 1 + nodes_of_all(children_model(t)),
        buffers_of(t) == roles_of(t).len() + buffers_of_all(children_model(t)),
        depth_of(t) == 1 + depth_of_all(children_model(t)),
{
    reveal_with_fuel(nodes_of_all, 2);
    reveal_with_fuel(buffers_of_all, 2);
    reveal_with_fuel(depth_of_all, 2);
    match t {
        TypeModel::FixedSizeList(f, _) => {
            assert(seq![*f].drop_last() =~= Seq::<FieldModel>::empty());
            assert(seq![*f].last() == *f);
        },
        TypeModel::List(f) => {
            assert(seq![*f].drop_last() =~= Seq::<FieldModel>::empty());
            assert(seq![*f].last() == *f);
        },
        _ => {},
    }
}

} // verus!
