//! The schema and field tables.
//!
//! Every type has one spelling, so encoding is total up to the nesting limit.
//! Decoding is narrow: what the closed type set does not hold is refused with
//! an error that names the field.
//!
//! | Table | Type | Refused when |
//! |---|---|---|
//! | `Null`, `Bool`, `Binary`, `LargeBinary`, `Utf8`, `LargeUtf8` | the same | never |
//! | `Int` | `Int8`..`UInt64` | the width is not 8, 16, 32 or 64 |
//! | `FloatingPoint` | `Float16`..`Float64` | the precision is unknown |
//! | `FixedSizeBinary` | the same | the width is not positive |
//! | `FixedSizeList` | the same | the size is not positive, or not one child |
//! | `List` | the same | not one child |
//! | `Struct_` | `Struct` | never |
//! | `Timestamp` | the same | the unit is not nanoseconds, or there is a zone |
//! | `Duration` | the same | the unit is not nanoseconds |
//! | others | none | always |
//!
//! Metadata of a schema is kept; metadata of a field is read and dropped.
use vstd::prelude::*;
use vstd::string::StringExecFns;
use crate::datatype::{children_model, fields_model, DataType, Field, FieldModel, SchemaModel, TypeModel};
use crate::ipc::error::{IpcError, IpcErrorModel};
use crate::ipc::fb::builder::{distances, FbBuilder, FbModel, WipOffset};
use crate::ipc::fb::reader::{root_at, root_table, SpanModel, Table, TableModel, VectorSpan, SIZE_UOFFSET};
use crate::ipc::format::{endianness, field, key_value, precision, schema as schema_slot, time_unit, type_code, type_table};
use crate::ipc::layout::{depth_of, depth_of_all, nodes_of, nodes_of_all, MAX_NESTING_DEPTH};
use crate::le::copy_bytes;
use crate::lex::text_equal;
use crate::schema::{entries_set, Metadata, Schema};
use crate::text::{append_int, decimal, quote, quoted};

verus! {

/// The open table closed: the state, and the table's distance.
#[verifier::opaque]
pub open spec fn closed_table(open: FbModel, start: nat) -> (FbModel, nat) {
    (open.end_table(start), open.table_word().bytes.len())
}

/// The discriminant of a type.
pub open spec fn code_of(t: TypeModel) -> u8 {
    match t {
        TypeModel::Null => type_code::NULL,
        TypeModel::Bool => type_code::BOOL,
        TypeModel::Int8 | TypeModel::Int16 | TypeModel::Int32 | TypeModel::Int64 | TypeModel::UInt8
        | TypeModel::UInt16 | TypeModel::UInt32 | TypeModel::UInt64 => type_code::INT,
        TypeModel::Float16 | TypeModel::Float32 | TypeModel::Float64 => type_code::FLOATING_POINT,
        TypeModel::Binary => type_code::BINARY,
        TypeModel::LargeBinary => type_code::LARGE_BINARY,
        TypeModel::Utf8 => type_code::UTF8,
        TypeModel::LargeUtf8 => type_code::LARGE_UTF8,
        TypeModel::Timestamp => type_code::TIMESTAMP,
        TypeModel::Duration => type_code::DURATION,
        TypeModel::FixedSizeBinary(_) => type_code::FIXED_SIZE_BINARY,
        TypeModel::FixedSizeList(_, _) => type_code::FIXED_SIZE_LIST,
        TypeModel::List(_) => type_code::LIST,
        TypeModel::Struct(_) => type_code::STRUCT,
    }
}

/// The fields of an integer type's table.
pub open spec fn int_slots(m: FbModel, width: i32, signed: bool) -> FbModel {
    m.slot_i32(type_table::INT_BIT_WIDTH as nat, width, 0).slot_bool(
        type_table::INT_IS_SIGNED as nat,
        signed,
        false,
    )
}

/// The fields of a type's table.
pub open spec fn type_slots(m: FbModel, t: TypeModel) -> FbModel {
    match t {
        TypeModel::Int8 => int_slots(m, 8, true),
        TypeModel::Int16 => int_slots(m, 16, true),
        TypeModel::Int32 => int_slots(m, 32, true),
        TypeModel::Int64 => int_slots(m, 64, true),
        TypeModel::UInt8 => int_slots(m, 8, false),
        TypeModel::UInt16 => int_slots(m, 16, false),
        TypeModel::UInt32 => int_slots(m, 32, false),
        TypeModel::UInt64 => int_slots(m, 64, false),
        TypeModel::Float16 => m.slot_i16(
            type_table::FLOAT_PRECISION as nat,
            precision::HALF,
            precision::HALF,
        ),
        TypeModel::Float32 => m.slot_i16(
            type_table::FLOAT_PRECISION as nat,
            precision::SINGLE,
            precision::HALF,
        ),
        TypeModel::Float64 => m.slot_i16(
            type_table::FLOAT_PRECISION as nat,
            precision::DOUBLE,
            precision::HALF,
        ),
        TypeModel::FixedSizeBinary(w) => m.slot_i32(type_table::FIXED_SIZE_BINARY_BYTE_WIDTH as nat, w, 0),
        TypeModel::FixedSizeList(_, n) => m.slot_i32(type_table::FIXED_SIZE_LIST_LIST_SIZE as nat, n, 0),
        TypeModel::Timestamp => m.slot_i16(
            type_table::TIMESTAMP_UNIT as nat,
            time_unit::NANOSECOND,
            time_unit::SECOND,
        ),
        TypeModel::Duration => m.slot_i16(
            type_table::DURATION_UNIT as nat,
            time_unit::NANOSECOND,
            time_unit::MILLISECOND,
        ),
        _ => m,
    }
}

/// The state with a type's table written, and the table's distance.
pub open spec fn write_type(m: FbModel, t: TypeModel) -> (FbModel, nat) {
    closed_table(type_slots(m.start_table(), t), m.bytes.len())
}

/// The fields of a field's table.
pub open spec fn field_slots(m: FbModel, f: FieldModel, name: nat, kind: nat, children: nat) -> FbModel {
    m.slot_offset(field::NAME as nat, name).slot_bool(field::NULLABLE as nat, f.nullable, false).slot_u8(
        field::TYPE_TYPE as nat,
        code_of(f.data_type),
        type_code::NONE,
    ).slot_offset(field::TYPE as nat, kind).slot_offset(field::CHILDREN as nat, children)
}

/// The state with a field written, name, children and type first, and the
/// field's distance.
pub open spec fn write_field(m: FbModel, f: FieldModel) -> (FbModel, nat)
    decreases nodes_of(f.data_type), 0int,
{
    proof {
        crate::ipc::layout::law_counts_are_depth_first(f.data_type);
    }
    let named = m.create_string(f.name);
    let (parents, child_distances) = write_fields(named, children_model(f.data_type));
    let listed = parents.create_offset_vector(child_distances);
    let (typed, kind) = write_type(listed, f.data_type);
    closed_table(
        field_slots(typed.start_table(), f, named.bytes.len(), kind, listed.bytes.len()),
        typed.bytes.len(),
    )
}

/// The state with fields written one after another, and their distances.
pub open spec fn write_fields(m: FbModel, fs: Seq<FieldModel>) -> (FbModel, Seq<nat>)
    decreases nodes_of_all(fs), 1int,
{
    if fs.len() == 0 {
        (m, Seq::empty())
    } else {
        proof {
            crate::ipc::layout::law_counts_are_depth_first(fs.last().data_type);
        }
        let (before, distances) = write_fields(m, fs.drop_last());
        let (after, distance) = write_field(before, fs.last());
        (after, distances.push(distance))
    }
}

/// The state with key-value tables written one after another, and their
/// distances.
pub open spec fn write_entries(m: FbModel, entries: Seq<(Seq<char>, Seq<char>)>) -> (FbModel, Seq<nat>)
    decreases entries.len(),
{
    if entries.len() == 0 {
        (m, Seq::empty())
    } else {
        let (before, distances) = write_entries(m, entries.drop_last());
        let keyed = before.create_string(entries.last().0);
        let valued = keyed.create_string(entries.last().1);
        let (after, distance) = closed_table(
            valued.start_table().slot_offset(key_value::KEY as nat, keyed.bytes.len()).slot_offset(
                key_value::VALUE as nat,
                valued.bytes.len(),
            ),
            valued.bytes.len(),
        );
        (after, distances.push(distance))
    }
}

/// The state with the metadata vector written, where there are entries.
pub open spec fn write_metadata(m: FbModel, entries: Seq<(Seq<char>, Seq<char>)>) -> FbModel {
    if entries.len() == 0 {
        m
    } else {
        let (after, distances) = write_entries(m, entries);
        after.create_offset_vector(distances)
    }
}

/// The fields of the schema's table.
pub open spec fn schema_slots(m: FbModel, s: SchemaModel, fields: nat, metadata: nat) -> FbModel {
    let listed = m.slot_offset(schema_slot::FIELDS as nat, fields);
    if s.metadata.len() == 0 {
        listed
    } else {
        listed.slot_offset(schema_slot::CUSTOM_METADATA as nat, metadata)
    }
}

/// The state with a schema written, and its distance.
pub open spec fn write_schema(m: FbModel, s: SchemaModel) -> (FbModel, nat) {
    let (children, child_distances) = write_fields(m, s.fields);
    let listed = children.create_offset_vector(child_distances);
    let described = write_metadata(listed, s.metadata);
    closed_table(
        schema_slots(described.start_table(), s, listed.bytes.len(), described.bytes.len()),
        described.bytes.len(),
    )
}

/// A schema on its own, as bytes.
pub open spec fn schema_bytes(s: SchemaModel) -> Seq<u8> {
    let (m, root) = write_schema(FbModel::empty(), s);
    m.finish(root).bytes
}

/// The error of a type nested too deep.
pub open spec fn too_deep(depth: int) -> IpcErrorModel {
    IpcErrorModel::NestingTooDeep {
        depth: if depth > MAX_NESTING_DEPTH {
            depth as usize
        } else {
            (MAX_NESTING_DEPTH + 1) as usize
        },
        limit: MAX_NESTING_DEPTH,
    }
}

/// Whether the builder is between objects.
pub open spec fn ready(b: FbBuilder) -> bool {
    b.wf() && !b@.open
}

/// Encodes a schema on its own.
pub fn encode_schema_bytes(schema: &Schema) -> (r: Result<Vec<u8>, IpcError>)
    ensures
        match r {
            Ok(bytes) => depth_of_all(schema@.fields) <= MAX_NESTING_DEPTH && bytes@ == schema_bytes(schema@),
            Err(e) => depth_of_all(schema@.fields) > MAX_NESTING_DEPTH && e@ == too_deep(1),
        },
{
    let mut builder = FbBuilder::new();
    let root = match encode_schema(&mut builder, schema) {
        Ok(root) => root,
        Err(e) => {
            return Err(e);
        },
    };
    builder.finish(root);
    Ok(copy_bytes(builder.finished_bytes()))
}

/// Writes a schema's table and all it refers to.
pub fn encode_schema(builder: &mut FbBuilder, schema: &Schema) -> (r: Result<WipOffset, IpcError>)
    requires
        ready(*old(builder)),
    ensures
        final(builder).wf(),
        match r {
            Ok(d) => {
                &&& depth_of_all(schema@.fields) <= MAX_NESTING_DEPTH
                &&& (final(builder)@, d@) == write_schema(old(builder)@, schema@)
                &&& ready(*final(builder))
                &&& d@ <= final(builder)@.bytes.len()
            },
            Err(e) => depth_of_all(schema@.fields) > MAX_NESTING_DEPTH && e@ == too_deep(1),
        },
{
    let field_offsets = match encode_fields(builder, schema.fields(), 1) {
        Ok(offsets) => offsets,
        Err(e) => {
            return Err(e);
        },
    };
    let fields = builder.create_offset_vector(field_offsets.as_slice());
    let ghost listed = builder@;
    let metadata = encode_metadata(builder, schema.metadata());
    reveal(closed_table);
    let table = builder.start_table();
    builder.push_slot_offset(schema_slot::FIELDS, fields);
    if let Some(metadata) = metadata {
        builder.push_slot_offset(schema_slot::CUSTOM_METADATA, metadata);
    }
    Ok(builder.end_table(table))
}

/// Writes a list of fields, one after another.
fn encode_fields(builder: &mut FbBuilder, fields: &Vec<Field>, depth: usize) -> (r: Result<
    Vec<WipOffset>,
    IpcError,
>)
    requires
        ready(*old(builder)),
        1 <= depth <= MAX_NESTING_DEPTH + 1,
    ensures
        final(builder).wf(),
        match r {
            Ok(offsets) => {
                &&& depth - 1 + depth_of_all(fields_model(fields@)) <= MAX_NESTING_DEPTH
                &&& (final(builder)@, distances(offsets@)) == write_fields(
                    old(builder)@,
                    fields_model(fields@),
                )
                &&& ready(*final(builder))
                &&& old(builder)@.bytes.len() <= final(builder)@.bytes.len()
                &&& forall|i: int|
                    0 <= i < offsets@.len() ==> (#[trigger] offsets@[i])@ <= final(builder)@.bytes.len()
            },
            Err(e) => depth - 1 + depth_of_all(fields_model(fields@)) > MAX_NESTING_DEPTH && e@ == too_deep(
                depth as int,
            ),
        },
    decreases fields,
{
    let ghost fs = fields_model(fields@);
    let mut offsets: Vec<WipOffset> = Vec::new();
    let mut i: usize = 0;
    proof {
        assert(distances(offsets@) =~= Seq::<nat>::empty());
        assert(fs.take(0) =~= Seq::<FieldModel>::empty());
    }
    while i < fields.len()
        invariant
            0 <= i <= fields@.len(),
            fs == fields_model(fields@),
            1 <= depth <= MAX_NESTING_DEPTH + 1,
            ready(*builder),
            old(builder)@.bytes.len() <= builder@.bytes.len(),
            offsets@.len() == i,
            (builder@, distances(offsets@)) == write_fields(old(builder)@, fs.take(i as int)),
            depth - 1 + depth_of_all(fs.take(i as int)) <= MAX_NESTING_DEPTH,
            forall|k: int| 0 <= k < offsets@.len() ==> (#[trigger] offsets@[k])@ <= builder@.bytes.len(),
        decreases fields@.len() - i,
    {
        let ghost before = offsets@;
        proof {
            assert(fs.take(i + 1).drop_last() =~= fs.take(i as int));
            assert(fs.take(i + 1).last() == fields@[i as int]@);
        }
        match encode_field(builder, &fields[i], depth) {
            Ok(offset) => {
                offsets.push(offset);
                proof {
                    assert(distances(offsets@) =~= distances(before).push(offset@));
                    assert(write_fields(old(builder)@, fs.take(i + 1)) == (builder@, distances(offsets@)));
                }
            },
            Err(e) => {
                proof {
                    crate::ipc::layout::lemma_child_depth(fs, i as int);
                    assert(fs[i as int] == fields@[i as int]@);
                }
                return Err(e);
            },
        }
        i = i + 1;
    }
    assert(fs.take(i as int) =~= fs);
    Ok(offsets)
}

/// Writes the children of a type, one after another.
fn encode_children(builder: &mut FbBuilder, data_type: &DataType, depth: usize) -> (r: Result<
    Vec<WipOffset>,
    IpcError,
>)
    requires
        ready(*old(builder)),
        1 <= depth <= MAX_NESTING_DEPTH + 1,
    ensures
        final(builder).wf(),
        match r {
            Ok(offsets) => {
                &&& depth - 1 + depth_of_all(children_model(data_type@)) <= MAX_NESTING_DEPTH
                &&& (final(builder)@, distances(offsets@)) == write_fields(
                    old(builder)@,
                    children_model(data_type@),
                )
                &&& ready(*final(builder))
                &&& old(builder)@.bytes.len() <= final(builder)@.bytes.len()
                &&& forall|i: int|
                    0 <= i < offsets@.len() ==> (#[trigger] offsets@[i])@ <= final(builder)@.bytes.len()
            },
            Err(e) => depth - 1 + depth_of_all(children_model(data_type@)) > MAX_NESTING_DEPTH && e@
                == too_deep(depth as int),
        },
    decreases data_type,
{
    broadcast use crate::datatype::lemma_struct_model;
    match data_type {
        DataType::FixedSizeList(child, _) => encode_only_child(builder, child, depth),
        DataType::List(child) => encode_only_child(builder, child, depth),
        DataType::Struct(fields) => encode_fields(builder, fields, depth),
        _ => {
            let offsets: Vec<WipOffset> = Vec::new();
            assert(distances(offsets@) =~= Seq::<nat>::empty());
            Ok(offsets)
        },
    }
}

/// Writes the single child of a list type.
fn encode_only_child(builder: &mut FbBuilder, child: &Field, depth: usize) -> (r: Result<
    Vec<WipOffset>,
    IpcError,
>)
    requires
        ready(*old(builder)),
        1 <= depth <= MAX_NESTING_DEPTH + 1,
    ensures
        final(builder).wf(),
        match r {
            Ok(offsets) => {
                &&& depth - 1 + depth_of_all(seq![child@]) <= MAX_NESTING_DEPTH
                &&& (final(builder)@, distances(offsets@)) == write_fields(old(builder)@, seq![child@])
                &&& ready(*final(builder))
                &&& old(builder)@.bytes.len() <= final(builder)@.bytes.len()
                &&& forall|i: int|
                    0 <= i < offsets@.len() ==> (#[trigger] offsets@[i])@ <= final(builder)@.bytes.len()
            },
            Err(e) => depth - 1 + depth_of_all(seq![child@]) > MAX_NESTING_DEPTH && e@ == too_deep(
                depth as int,
            ),
        },
    decreases child, 1int,
{
    proof {
        reveal_with_fuel(write_fields, 2);
        reveal_with_fuel(depth_of_all, 2);
        assert(seq![child@].drop_last() =~= Seq::<FieldModel>::empty());
        assert(seq![child@].last() == child@);
    }
    match encode_field(builder, child, depth) {
        Ok(offset) => {
            let mut offsets: Vec<WipOffset> = Vec::new();
            offsets.push(offset);
            assert(distances(offsets@) =~= Seq::<nat>::empty().push(offset@));
            Ok(offsets)
        },
        Err(e) => Err(e),
    }
}

/// Writes one field's table and, first, its name, children and type.
pub fn encode_field(builder: &mut FbBuilder, item: &Field, depth: usize) -> (r: Result<WipOffset, IpcError>)
    requires
        ready(*old(builder)),
        1 <= depth,
    ensures
        final(builder).wf(),
        match r {
            Ok(d) => {
                &&& depth - 1 + depth_of(item@.data_type) <= MAX_NESTING_DEPTH
                &&& (final(builder)@, d@) == write_field(old(builder)@, item@)
                &&& ready(*final(builder))
                &&& old(builder)@.bytes.len() <= final(builder)@.bytes.len()
                &&& d@ <= final(builder)@.bytes.len()
            },
            Err(e) => depth - 1 + depth_of(item@.data_type) > MAX_NESTING_DEPTH && e@ == too_deep(
                depth as int,
            ),
        },
    decreases item, 0int,
{
    proof {
        crate::ipc::layout::law_counts_are_depth_first(item@.data_type);
    }
    if depth > MAX_NESTING_DEPTH {
        return Err(IpcError::NestingTooDeep { depth, limit: MAX_NESTING_DEPTH });
    }
    let name = builder.create_string(item.name());
    let child_offsets = match encode_children(builder, item.data_type(), depth + 1) {
        Ok(offsets) => offsets,
        Err(e) => {
            return Err(e);
        },
    };
    let children = builder.create_offset_vector(child_offsets.as_slice());
    let (code, type_offset) = encode_type(builder, item.data_type());
    reveal(closed_table);
    let table = builder.start_table();
    builder.push_slot_offset(field::NAME, name);
    builder.push_slot_bool(field::NULLABLE, item.is_nullable(), false);
    builder.push_slot_u8(field::TYPE_TYPE, code, type_code::NONE);
    builder.push_slot_offset(field::TYPE, type_offset);
    builder.push_slot_offset(field::CHILDREN, children);
    Ok(builder.end_table(table))
}

/// Writes a type's table and tells its discriminant.
pub fn encode_type(builder: &mut FbBuilder, data_type: &DataType) -> (r: (u8, WipOffset))
    requires
        ready(*old(builder)),
    ensures
        ready(*final(builder)),
        r.0 == code_of(data_type@),
        (final(builder)@, r.1@) == write_type(old(builder)@, data_type@),
        old(builder)@.bytes.len() <= final(builder)@.bytes.len(),
        r.1@ <= final(builder)@.bytes.len(),
{
    match data_type {
        DataType::Null => (type_code::NULL, empty_table(builder)),
        DataType::Bool => (type_code::BOOL, empty_table(builder)),
        DataType::Int8 => (type_code::INT, int_table(builder, 8, true)),
        DataType::Int16 => (type_code::INT, int_table(builder, 16, true)),
        DataType::Int32 => (type_code::INT, int_table(builder, 32, true)),
        DataType::Int64 => (type_code::INT, int_table(builder, 64, true)),
        DataType::UInt8 => (type_code::INT, int_table(builder, 8, false)),
        DataType::UInt16 => (type_code::INT, int_table(builder, 16, false)),
        DataType::UInt32 => (type_code::INT, int_table(builder, 32, false)),
        DataType::UInt64 => (type_code::INT, int_table(builder, 64, false)),
        DataType::Float16 => (type_code::FLOATING_POINT, float_table(builder, precision::HALF)),
        DataType::Float32 => (type_code::FLOATING_POINT, float_table(builder, precision::SINGLE)),
        DataType::Float64 => (type_code::FLOATING_POINT, float_table(builder, precision::DOUBLE)),
        DataType::Binary => (type_code::BINARY, empty_table(builder)),
        DataType::LargeBinary => (type_code::LARGE_BINARY, empty_table(builder)),
        DataType::Utf8 => (type_code::UTF8, empty_table(builder)),
        DataType::LargeUtf8 => (type_code::LARGE_UTF8, empty_table(builder)),
        DataType::FixedSizeBinary(width) => (
            type_code::FIXED_SIZE_BINARY,
            scalar_i32_table(builder, type_table::FIXED_SIZE_BINARY_BYTE_WIDTH, *width),
        ),
        DataType::FixedSizeList(_, size) => (
            type_code::FIXED_SIZE_LIST,
            scalar_i32_table(builder, type_table::FIXED_SIZE_LIST_LIST_SIZE, *size),
        ),
        DataType::List(_) => (type_code::LIST, empty_table(builder)),
        DataType::Struct(_) => (type_code::STRUCT, empty_table(builder)),
        DataType::Timestamp => (
            type_code::TIMESTAMP,
            scalar_i16_table(
                builder,
                type_table::TIMESTAMP_UNIT,
                time_unit::NANOSECOND,
                time_unit::SECOND,
            ),
        ),
        DataType::Duration => (
            type_code::DURATION,
            scalar_i16_table(
                builder,
                type_table::DURATION_UNIT,
                time_unit::NANOSECOND,
                time_unit::MILLISECOND,
            ),
        ),
    }
}

/// An empty table.
pub fn empty_table(builder: &mut FbBuilder) -> (r: WipOffset)
    requires
        ready(*old(builder)),
    ensures
        ready(*final(builder)),
        (final(builder)@, r@) == closed_table(old(builder)@.start_table(), old(builder)@.bytes.len()),
        old(builder)@.bytes.len() <= final(builder)@.bytes.len(),
        r@ <= final(builder)@.bytes.len(),
{
    reveal(closed_table);
    let table = builder.start_table();
    builder.end_table(table)
}

/// The table of an integer type.
pub fn int_table(builder: &mut FbBuilder, bit_width: i32, signed: bool) -> (r: WipOffset)
    requires
        ready(*old(builder)),
    ensures
        ready(*final(builder)),
        (final(builder)@, r@) == closed_table(
            int_slots(old(builder)@.start_table(), bit_width, signed),
            old(builder)@.bytes.len(),
        ),
        old(builder)@.bytes.len() <= final(builder)@.bytes.len(),
        r@ <= final(builder)@.bytes.len(),
{
    reveal(closed_table);
    let table = builder.start_table();
    builder.push_slot_i32(type_table::INT_BIT_WIDTH, bit_width, 0);
    builder.push_slot_bool(type_table::INT_IS_SIGNED, signed, false);
    builder.end_table(table)
}

/// The table of a floating-point type.
fn float_table(builder: &mut FbBuilder, value: i16) -> (r: WipOffset)
    requires
        ready(*old(builder)),
    ensures
        ready(*final(builder)),
        (final(builder)@, r@) == closed_table(
            old(builder)@.start_table().slot_i16(type_table::FLOAT_PRECISION as nat, value, precision::HALF),
            old(builder)@.bytes.len(),
        ),
        old(builder)@.bytes.len() <= final(builder)@.bytes.len(),
        r@ <= final(builder)@.bytes.len(),
{
    reveal(closed_table);
    let table = builder.start_table();
    builder.push_slot_i16(type_table::FLOAT_PRECISION, value, precision::HALF);
    builder.end_table(table)
}

/// A table of one int.
fn scalar_i32_table(builder: &mut FbBuilder, slot: usize, value: i32) -> (r: WipOffset)
    requires
        ready(*old(builder)),
        slot <= 10,
    ensures
        ready(*final(builder)),
        (final(builder)@, r@) == closed_table(
            old(builder)@.start_table().slot_i32(slot as nat, value, 0),
            old(builder)@.bytes.len(),
        ),
        old(builder)@.bytes.len() <= final(builder)@.bytes.len(),
        r@ <= final(builder)@.bytes.len(),
{
    reveal(closed_table);
    let table = builder.start_table();
    builder.push_slot_i32(slot, value, 0);
    builder.end_table(table)
}

/// A table of one short.
pub fn scalar_i16_table(builder: &mut FbBuilder, slot: usize, value: i16, default: i16) -> (r: WipOffset)
    requires
        ready(*old(builder)),
        slot <= crate::ipc::fb::builder::MAX_SLOT,
    ensures
        ready(*final(builder)),
        (final(builder)@, r@) == closed_table(
            old(builder)@.start_table().slot_i16(slot as nat, value, default),
            old(builder)@.bytes.len(),
        ),
        old(builder)@.bytes.len() <= final(builder)@.bytes.len(),
        r@ <= final(builder)@.bytes.len(),
{
    reveal(closed_table);
    let table = builder.start_table();
    builder.push_slot_i16(slot, value, default);
    builder.end_table(table)
}

/// Writes a vector of key-value tables, in the map's order, or nothing for an
/// empty map.
pub fn encode_metadata(builder: &mut FbBuilder, metadata: &Metadata) -> (r: Option<WipOffset>)
    requires
        ready(*old(builder)),
    ensures
        ready(*final(builder)),
        final(builder)@ == write_metadata(old(builder)@, metadata@),
        r is Some == (metadata@.len() > 0),
        r matches Some(d) ==> d@ == final(builder)@.bytes.len(),
        old(builder)@.bytes.len() <= final(builder)@.bytes.len(),
{
    if metadata.is_empty() {
        return None;
    }
    let mut entries: Vec<WipOffset> = Vec::new();
    let mut i: usize = 0;
    proof {
        assert(distances(entries@) =~= Seq::<nat>::empty());
        assert(metadata@.take(0) =~= Seq::<(Seq<char>, Seq<char>)>::empty());
    }
    while i < metadata.len()
        invariant
            0 <= i <= metadata@.len(),
            ready(*builder),
            old(builder)@.bytes.len() <= builder@.bytes.len(),
            entries@.len() == i,
            (builder@, distances(entries@)) == write_entries(old(builder)@, metadata@.take(i as int)),
            forall|k: int| 0 <= k < entries@.len() ==> (#[trigger] entries@[k])@ <= builder@.bytes.len(),
        decreases metadata@.len() - i,
    {
        let ghost before = entries@;
        proof {
            assert(metadata@.take(i + 1).drop_last() =~= metadata@.take(i as int));
            assert(metadata@.take(i + 1).last() == metadata@[i as int]);
        }
        let key = builder.create_string(metadata.key(i));
        let value = builder.create_string(metadata.value(i));
        reveal(closed_table);
        let table = builder.start_table();
        builder.push_slot_offset(key_value::KEY, key);
        builder.push_slot_offset(key_value::VALUE, value);
        let entry = builder.end_table(table);
        entries.push(entry);
        proof {
            assert(distances(entries@) =~= distances(before).push(entry@));
            assert(write_entries(old(builder)@, metadata@.take(i + 1)) == (builder@, distances(entries@)));
        }
        i = i + 1;
    }
    assert(metadata@.take(i as int) =~= metadata@);
    Some(builder.create_offset_vector(entries.as_slice()))
}

/// The error of a type whose parameters are outside the type set.
pub open spec fn bad_parameters(family: Seq<char>, name: Seq<char>, detail: Seq<char>) -> IpcErrorModel {
    IpcErrorModel::UnsupportedTypeParameters { family, field: name, detail }
}

/// How an integer's width and sign are told.
pub open spec fn int_detail(width: i32, signed: bool) -> Seq<char> {
    decimal(width as int) + "-bit "@ + if signed {
        "signed"@
    } else {
        "unsigned"@
    }
}

/// The integer type of a width and a sign.
pub open spec fn int_type(width: i32, signed: bool) -> Option<TypeModel> {
    if signed {
        match width {
            8 => Some(TypeModel::Int8),
            16 => Some(TypeModel::Int16),
            32 => Some(TypeModel::Int32),
            64 => Some(TypeModel::Int64),
            _ => None,
        }
    } else {
        match width {
            8 => Some(TypeModel::UInt8),
            16 => Some(TypeModel::UInt16),
            32 => Some(TypeModel::UInt32),
            64 => Some(TypeModel::UInt64),
            _ => None,
        }
    }
}

/// The integer type a table describes.
pub open spec fn int_at(t: TableModel, name: Seq<char>) -> Result<TypeModel, IpcErrorModel> {
    match t.i32_field(type_table::INT_BIT_WIDTH as int, 0) {
        Err(e) => Err(e),
        Ok(width) => match t.bool_field(type_table::INT_IS_SIGNED as int, false) {
            Err(e) => Err(e),
            Ok(signed) => match int_type(width, signed) {
                Some(kind) => Ok(kind),
                None => Err(bad_parameters("Int"@, name, int_detail(width, signed))),
            },
        },
    }
}

/// The floating-point type a table describes.
pub open spec fn float_at(t: TableModel, name: Seq<char>) -> Result<TypeModel, IpcErrorModel> {
    match t.i16_field(type_table::FLOAT_PRECISION as int, precision::HALF) {
        Err(e) => Err(e),
        Ok(value) => if value == precision::HALF {
            Ok(TypeModel::Float16)
        } else if value == precision::SINGLE {
            Ok(TypeModel::Float32)
        } else if value == precision::DOUBLE {
            Ok(TypeModel::Float64)
        } else {
            Err(bad_parameters("FloatingPoint"@, name, "precision code "@ + decimal(value as int)))
        },
    }
}

/// The only child of a list type.
pub open spec fn only_child(name: Seq<char>, family: Seq<char>, children: Seq<FieldModel>) -> Result<
    FieldModel,
    IpcErrorModel,
> {
    if children.len() == 1 {
        Ok(children[0])
    } else {
        Err(
            IpcErrorModel::ChildCountMismatch {
                field: name,
                family,
                expected: 1,
                actual: children.len() as usize,
            },
        )
    }
}

/// The fixed-size list type a table describes.
pub open spec fn fixed_list_at(t: TableModel, name: Seq<char>, children: Seq<FieldModel>) -> Result<
    TypeModel,
    IpcErrorModel,
> {
    match t.i32_field(type_table::FIXED_SIZE_LIST_LIST_SIZE as int, 0) {
        Err(e) => Err(e),
        Ok(size) => if size <= 0 {
            Err(bad_parameters("FixedSizeList"@, name, "list size "@ + decimal(size as int)))
        } else {
            match only_child(name, "FixedSizeList"@, children) {
                Err(e) => Err(e),
                Ok(child) => Ok(TypeModel::FixedSizeList(Box::new(child), size)),
            }
        },
    }
}

/// The timestamp type a table describes.
pub open spec fn timestamp_at(t: TableModel, name: Seq<char>) -> Result<TypeModel, IpcErrorModel> {
    match t.i16_field(type_table::TIMESTAMP_UNIT as int, time_unit::SECOND) {
        Err(e) => Err(e),
        Ok(unit) => if unit != time_unit::NANOSECOND {
            Err(bad_parameters("Timestamp"@, name, time_unit::name_model(unit) + " resolution"@))
        } else {
            match t.string_field(type_table::TIMESTAMP_TIMEZONE as int) {
                Err(e) => Err(e),
                Ok(None) => Ok(TypeModel::Timestamp),
                Ok(Some(zone)) => if zone.len() == 0 {
                    Ok(TypeModel::Timestamp)
                } else {
                    Err(bad_parameters("Timestamp"@, name, "time zone "@ + quoted(zone)))
                },
            }
        },
    }
}

/// The type that a discriminant, a table and the decoded children describe.
pub open spec fn type_at(code: u8, t: TableModel, name: Seq<char>, children: Seq<FieldModel>) -> Result<
    TypeModel,
    IpcErrorModel,
> {
    if code == type_code::NULL {
        Ok(TypeModel::Null)
    } else if code == type_code::BOOL {
        Ok(TypeModel::Bool)
    } else if code == type_code::INT {
        int_at(t, name)
    } else if code == type_code::FLOATING_POINT {
        float_at(t, name)
    } else if code == type_code::BINARY {
        Ok(TypeModel::Binary)
    } else if code == type_code::LARGE_BINARY {
        Ok(TypeModel::LargeBinary)
    } else if code == type_code::UTF8 {
        Ok(TypeModel::Utf8)
    } else if code == type_code::LARGE_UTF8 {
        Ok(TypeModel::LargeUtf8)
    } else if code == type_code::FIXED_SIZE_BINARY {
        match t.i32_field(type_table::FIXED_SIZE_BINARY_BYTE_WIDTH as int, 0) {
            Err(e) => Err(e),
            Ok(width) => if width <= 0 {
                Err(bad_parameters("FixedSizeBinary"@, name, "byte width "@ + decimal(width as int)))
            } else {
                Ok(TypeModel::FixedSizeBinary(width))
            },
        }
    } else if code == type_code::FIXED_SIZE_LIST {
        fixed_list_at(t, name, children)
    } else if code == type_code::LIST {
        match only_child(name, "List"@, children) {
            Err(e) => Err(e),
            Ok(child) => Ok(TypeModel::List(Box::new(child))),
        }
    } else if code == type_code::STRUCT {
        Ok(TypeModel::Struct(children))
    } else if code == type_code::TIMESTAMP {
        timestamp_at(t, name)
    } else if code == type_code::DURATION {
        match t.i16_field(type_table::DURATION_UNIT as int, time_unit::MILLISECOND) {
            Err(e) => Err(e),
            Ok(unit) => if unit != time_unit::NANOSECOND {
                Err(bad_parameters("Duration"@, name, time_unit::name_model(unit) + " resolution"@))
            } else {
                Ok(TypeModel::Duration)
            },
        }
    } else {
        Err(IpcErrorModel::UnsupportedType { code, name: type_code::name_model(code), field: name })
    }
}

/// A field's name: empty when the slot is absent.
pub open spec fn text_field(t: TableModel, slot: int) -> Result<Seq<char>, IpcErrorModel> {
    match t.string_field(slot) {
        Err(e) => Err(e),
        Ok(None) => Ok(Seq::empty()),
        Ok(Some(s)) => Ok(s),
    }
}

/// A field's children: none when the slot is absent.
pub open spec fn children_at(t: TableModel, depth: int) -> Result<Seq<FieldModel>, IpcErrorModel>
    decreases MAX_NESTING_DEPTH + 2 - depth, 2int, 0int,
    when depth <= MAX_NESTING_DEPTH + 1
{
    match t.vector_field(field::CHILDREN as int, 4) {
        Err(e) => Err(e),
        Ok(None) => Ok(Seq::empty()),
        Ok(Some(span)) => fields_at(span, span.len, depth),
    }
}

/// The field a table describes, at `depth` levels.
pub open spec fn field_at(t: TableModel, depth: int) -> Result<FieldModel, IpcErrorModel>
    decreases MAX_NESTING_DEPTH + 2 - depth, 0int, 0int,
{
    if depth > MAX_NESTING_DEPTH {
        Err(too_deep(depth))
    } else {
        match text_field(t, field::NAME as int) {
            Err(e) => Err(e),
            Ok(name) => match t.bool_field(field::NULLABLE as int, false) {
                Err(e) => Err(e),
                Ok(nullable) => match t.field_at(field::DICTIONARY as int) {
                    Err(e) => Err(e),
                    Ok(Some(_)) => Err(IpcErrorModel::UnsupportedDictionary),
                    Ok(None) => match t.u8_field(field::TYPE_TYPE as int, type_code::NONE) {
                        Err(e) => Err(e),
                        Ok(code) => match t.table_field(field::TYPE as int) {
                            Err(e) => Err(e),
                            Ok(None) => Err(
                                IpcErrorModel::MissingField { table: "Field"@, field: "type"@ },
                            ),
                            Ok(Some(kind)) => match children_at(t, depth + 1) {
                                Err(e) => Err(e),
                                Ok(children) => match type_at(code, kind, name, children) {
                                    Err(e) => Err(e),
                                    Ok(data_type) => Ok(FieldModel { name, data_type, nullable }),
                                },
                            },
                        },
                    },
                },
            },
        }
    }
}

/// The first `count` fields a vector describes, at `depth` levels.
pub open spec fn fields_at(span: SpanModel, count: int, depth: int) -> Result<Seq<FieldModel>, IpcErrorModel>
    decreases MAX_NESTING_DEPTH + 2 - depth, 1int, count,
    when depth <= MAX_NESTING_DEPTH + 1
{
    if count <= 0 {
        Ok(Seq::empty())
    } else {
        match fields_at(span, count - 1, depth) {
            Err(e) => Err(e),
            Ok(before) => match span.table_item(count - 1) {
                Err(e) => Err(e),
                Ok(t) => match field_at(t, depth) {
                    Err(e) => Err(e),
                    Ok(f) => Ok(before.push(f)),
                },
            },
        }
    }
}

/// The first `count` entries a vector describes, the last value of a key kept.
pub open spec fn entries_at(span: SpanModel, count: int) -> Result<Seq<(Seq<char>, Seq<char>)>, IpcErrorModel>
    decreases count,
{
    if count <= 0 {
        Ok(Seq::empty())
    } else {
        match entries_at(span, count - 1) {
            Err(e) => Err(e),
            Ok(before) => match span.table_item(count - 1) {
                Err(e) => Err(e),
                Ok(t) => match text_field(t, key_value::KEY as int) {
                    Err(e) => Err(e),
                    Ok(key) => match text_field(t, key_value::VALUE as int) {
                        Err(e) => Err(e),
                        Ok(value) => Ok(entries_set(before, key, value)),
                    },
                },
            },
        }
    }
}

/// The metadata in a slot: empty when the slot is absent.
pub open spec fn metadata_at(t: TableModel, slot: int) -> Result<Seq<(Seq<char>, Seq<char>)>, IpcErrorModel> {
    match t.vector_field(slot, 4) {
        Err(e) => Err(e),
        Ok(None) => Ok(Seq::empty()),
        Ok(Some(span)) => entries_at(span, span.len),
    }
}

/// The schema a table describes.
pub open spec fn schema_at(t: TableModel) -> Result<SchemaModel, IpcErrorModel> {
    match t.i16_field(schema_slot::ENDIANNESS as int, endianness::LITTLE) {
        Err(e) => Err(e),
        Ok(endian) => if endian != endianness::LITTLE {
            Err(IpcErrorModel::UnsupportedEndianness { endianness: endian })
        } else {
            match t.vector_field(schema_slot::FIELDS as int, 4) {
                Err(e) => Err(e),
                Ok(None) => Err(IpcErrorModel::MissingField { table: "Schema"@, field: "fields"@ }),
                Ok(Some(span)) => match fields_at(span, span.len, 1) {
                    Err(e) => Err(e),
                    Ok(fields) => match metadata_at(t, schema_slot::CUSTOM_METADATA as int) {
                        Err(e) => Err(e),
                        Ok(metadata) => Ok(SchemaModel { fields, metadata }),
                    },
                },
            }
        },
    }
}

/// The schema that bytes on their own describe.
pub open spec fn schema_of_bytes(bytes: Seq<u8>) -> Result<SchemaModel, IpcErrorModel> {
    match root_at(bytes) {
        Err(e) => Err(e),
        Ok(t) => schema_at(t),
    }
}

/// Decodes a schema on its own.
pub fn decode_schema_bytes(bytes: &[u8]) -> (r: Result<Schema, IpcError>)
    ensures
        match r {
            Ok(s) => schema_of_bytes(bytes@) == Ok::<SchemaModel, IpcErrorModel>(s@),
            Err(e) => schema_of_bytes(bytes@) == Err::<SchemaModel, IpcErrorModel>(e@),
        },
{
    match root_table(bytes) {
        Ok(table) => decode_schema(&table),
        Err(e) => Err(e),
    }
}

/// Reads a schema's table. Two fields may have one name.
pub fn decode_schema(table: &Table<'_>) -> (r: Result<Schema, IpcError>)
    ensures
        match r {
            Ok(s) => schema_at(table@) == Ok::<SchemaModel, IpcErrorModel>(s@),
            Err(e) => schema_at(table@) == Err::<SchemaModel, IpcErrorModel>(e@),
        },
{
    let endian: i16 = match table.i16(schema_slot::ENDIANNESS, endianness::LITTLE) {
        Ok(v) => v,
        Err(e) => {
            return Err(e);
        },
    };
    if endian != endianness::LITTLE {
        return Err(IpcError::UnsupportedEndianness { endianness: endian });
    }
    let span = match table.vector(schema_slot::FIELDS, SIZE_UOFFSET) {
        Ok(Some(span)) => span,
        Ok(None) => {
            return Err(IpcError::missing("Schema", "fields"));
        },
        Err(e) => {
            return Err(e);
        },
    };
    let fields = match decode_fields(&span, 1) {
        Ok(fields) => fields,
        Err(e) => {
            return Err(e);
        },
    };
    let metadata = match decode_metadata(table, schema_slot::CUSTOM_METADATA) {
        Ok(metadata) => metadata,
        Err(e) => {
            return Err(e);
        },
    };
    let schema = Schema::new(fields);
    if metadata.is_empty() {
        assert(metadata@ =~= Seq::<(Seq<char>, Seq<char>)>::empty());
        Ok(schema)
    } else {
        Ok(schema.with_metadata(metadata))
    }
}

/// Reads every field of a vector.
fn decode_fields(span: &VectorSpan<'_>, depth: usize) -> (r: Result<Vec<Field>, IpcError>)
    requires
        depth <= MAX_NESTING_DEPTH + 1,
    ensures
        match r {
            Ok(fs) => fields_at(span@, span@.len, depth as int) == Ok::<Seq<FieldModel>, IpcErrorModel>(
                fields_model(fs@),
            ),
            Err(e) => fields_at(span@, span@.len, depth as int) == Err::<Seq<FieldModel>, IpcErrorModel>(e@),
        },
    decreases MAX_NESTING_DEPTH + 2 - depth, 1int,
{
    let mut fields: Vec<Field> = Vec::new();
    let count: usize = span.len();
    let mut index: usize = 0;
    assert(fields_model(fields@) =~= Seq::<FieldModel>::empty());
    while index < count
        invariant
            0 <= index <= count == span@.len,
            depth <= MAX_NESTING_DEPTH + 1,
            fields_at(span@, index as int, depth as int) == Ok::<Seq<FieldModel>, IpcErrorModel>(
                fields_model(fields@),
            ),
        decreases span@.len - index,
    {
        let ghost before = fields@;
        let child = match span.table(index) {
            Ok(child) => child,
            Err(e) => {
                proof {
                    lemma_fields_at_error(span@, index + 1, span@.len, depth as int, e@);
                }
                return Err(e);
            },
        };
        match decode_field(&child, depth) {
            Ok(f) => {
                fields.push(f);
                assert(fields_model(fields@) =~= fields_model(before).push(f@));
            },
            Err(e) => {
                proof {
                    lemma_fields_at_error(span@, index + 1, span@.len, depth as int, e@);
                }
                return Err(e);
            },
        }
        index = index + 1;
    }
    Ok(fields)
}

/// The first error is the whole vector's.
proof fn lemma_fields_at_error(span: SpanModel, count: int, all: int, depth: int, e: IpcErrorModel)
    requires
        0 <= count <= all,
        depth <= MAX_NESTING_DEPTH + 1,
        fields_at(span, count, depth) == Err::<Seq<FieldModel>, IpcErrorModel>(e),
    ensures
        fields_at(span, all, depth) == Err::<Seq<FieldModel>, IpcErrorModel>(e),
    decreases all - count,
{
    if count < all {
        lemma_fields_at_error(span, count, all - 1, depth, e);
    }
}

/// Reads one field's table.
pub fn decode_field(table: &Table<'_>, depth: usize) -> (r: Result<Field, IpcError>)
    ensures
        match r {
            Ok(f) => field_at(table@, depth as int) == Ok::<FieldModel, IpcErrorModel>(f@),
            Err(e) => field_at(table@, depth as int) == Err::<FieldModel, IpcErrorModel>(e@),
        },
    decreases MAX_NESTING_DEPTH + 2 - depth, 0int,
{
    if depth > MAX_NESTING_DEPTH {
        return Err(IpcError::NestingTooDeep { depth, limit: MAX_NESTING_DEPTH });
    }
    let name = match decode_text(table, field::NAME) {
        Ok(name) => name,
        Err(e) => {
            return Err(e);
        },
    };
    let nullable = match table.bool(field::NULLABLE, false) {
        Ok(v) => v,
        Err(e) => {
            return Err(e);
        },
    };
    match table.field(field::DICTIONARY) {
        Ok(Some(_)) => {
            return Err(IpcError::UnsupportedDictionary);
        },
        Ok(None) => {},
        Err(e) => {
            return Err(e);
        },
    }
    let code: u8 = match table.u8(field::TYPE_TYPE, type_code::NONE) {
        Ok(v) => v,
        Err(e) => {
            return Err(e);
        },
    };
    let kind = match table.table(field::TYPE) {
        Ok(Some(kind)) => kind,
        Ok(None) => {
            return Err(IpcError::missing("Field", "type"));
        },
        Err(e) => {
            return Err(e);
        },
    };
    let children: Vec<Field> = match table.vector(field::CHILDREN, SIZE_UOFFSET) {
        Ok(Some(span)) => match decode_fields(&span, depth + 1) {
            Ok(children) => children,
            Err(e) => {
                return Err(e);
            },
        },
        Ok(None) => {
            let none: Vec<Field> = Vec::new();
            assert(fields_model(none@) =~= Seq::<FieldModel>::empty());
            none
        },
        Err(e) => {
            return Err(e);
        },
    };
    match decode_type(code, &kind, name, children) {
        Ok(data_type) => Ok(Field::new(name, data_type, nullable)),
        Err(e) => Err(e),
    }
}

/// A text field, empty when the slot is absent.
fn decode_text<'a>(table: &Table<'a>, slot: usize) -> (r: Result<&'a str, IpcError>)
    ensures
        match r {
            Ok(s) => text_field(table@, slot as int) == Ok::<Seq<char>, IpcErrorModel>(s@),
            Err(e) => text_field(table@, slot as int) == Err::<Seq<char>, IpcErrorModel>(e@),
        },
{
    match table.string(slot) {
        Ok(Some(s)) => Ok(s),
        Ok(None) => {
            proof {
                reveal_strlit("");
                assert(""@ =~= Seq::<char>::empty());
            }
            Ok("")
        },
        Err(e) => Err(e),
    }
}

/// The error of a type whose parameters are outside the type set.
fn refuse(family: &'static str, name: &str, detail: String) -> (r: IpcError)
    ensures
        r@ == bad_parameters(family@, name@, detail@),
{
    IpcError::UnsupportedTypeParameters { family, field: name.to_owned(), detail }
}

/// Reads an integer type.
fn decode_int(table: &Table<'_>, name: &str) -> (r: Result<DataType, IpcError>)
    ensures
        match r {
            Ok(t) => int_at(table@, name@) == Ok::<TypeModel, IpcErrorModel>(t@),
            Err(e) => int_at(table@, name@) == Err::<TypeModel, IpcErrorModel>(e@),
        },
{
    let bit_width: i32 = match table.i32(type_table::INT_BIT_WIDTH, 0) {
        Ok(v) => v,
        Err(e) => {
            return Err(e);
        },
    };
    let signed = match table.bool(type_table::INT_IS_SIGNED, false) {
        Ok(v) => v,
        Err(e) => {
            return Err(e);
        },
    };
    match (bit_width, signed) {
        (8, true) => Ok(DataType::Int8),
        (16, true) => Ok(DataType::Int16),
        (32, true) => Ok(DataType::Int32),
        (64, true) => Ok(DataType::Int64),
        (8, false) => Ok(DataType::UInt8),
        (16, false) => Ok(DataType::UInt16),
        (32, false) => Ok(DataType::UInt32),
        (64, false) => Ok(DataType::UInt64),
        _ => {
            let mut detail: String = String::new();
            append_int(&mut detail, bit_width as i128);
            detail.append("-bit ");
            detail.append(
                if signed {
                    "signed"
                } else {
                    "unsigned"
                },
            );
            assert(detail@ =~= int_detail(bit_width, signed));
            Err(refuse("Int", name, detail))
        },
    }
}

/// `prefix` and an integer.
fn labelled(prefix: &str, value: i128) -> (r: String)
    requires
        value > i128::MIN,
    ensures
        r@ == prefix@ + decimal(value as int),
{
    let mut out: String = prefix.to_owned();
    append_int(&mut out, value);
    out
}

/// How an unsupported unit is told.
fn resolution(unit: i16) -> (r: String)
    ensures
        r@ == time_unit::name_model(unit) + " resolution"@,
{
    let mut out: String = time_unit::name(unit).to_owned();
    out.append(" resolution");
    out
}

/// Reads a timestamp type.
fn decode_timestamp(table: &Table<'_>, name: &str) -> (r: Result<DataType, IpcError>)
    ensures
        match r {
            Ok(t) => timestamp_at(table@, name@) == Ok::<TypeModel, IpcErrorModel>(t@),
            Err(e) => timestamp_at(table@, name@) == Err::<TypeModel, IpcErrorModel>(e@),
        },
{
    let unit: i16 = match table.i16(type_table::TIMESTAMP_UNIT, time_unit::SECOND) {
        Ok(v) => v,
        Err(e) => {
            return Err(e);
        },
    };
    if unit != time_unit::NANOSECOND {
        return Err(refuse("Timestamp", name, resolution(unit)));
    }
    match table.string(type_table::TIMESTAMP_TIMEZONE) {
        Ok(None) => Ok(DataType::Timestamp),
        Ok(Some(zone)) => {
            proof {
                reveal_strlit("");
            }
            if text_equal(zone, "") {
                assert(zone@.len() == 0);
                Ok(DataType::Timestamp)
            } else {
                assert(zone@.len() != 0) by {
                    if zone@.len() == 0 {
                        assert(zone@ =~= ""@);
                    }
                }
                let mut detail: String = "time zone ".to_owned();
                detail.append(quote(zone).as_str());
                Err(refuse("Timestamp", name, detail))
            }
        },
        Err(e) => Err(e),
    }
}

/// Takes the only child of a list type.
fn take_only_child(name: &str, family: &'static str, children: Vec<Field>) -> (r: Result<Field, IpcError>)
    ensures
        match r {
            Ok(f) => only_child(name@, family@, fields_model(children@)) == Ok::<FieldModel, IpcErrorModel>(f@),
            Err(e) => only_child(name@, family@, fields_model(children@)) == Err::<FieldModel, IpcErrorModel>(
                e@,
            ),
        },
{
    let mut children = children;
    let count: usize = children.len();
    if count != 1 {
        return Err(
            IpcError::ChildCountMismatch { field: name.to_owned(), family, expected: 1, actual: count },
        );
    }
    Ok(children.swap_remove(0))
}

/// Reads the type that `code` says `table` is. List types take their child out
/// of `children`, structs take all of them.
pub fn decode_type(code: u8, table: &Table<'_>, name: &str, children: Vec<Field>) -> (r: Result<
    DataType,
    IpcError,
>)
    ensures
        match r {
            Ok(t) => type_at(code, table@, name@, fields_model(children@)) == Ok::<TypeModel, IpcErrorModel>(
                t@,
            ),
            Err(e) => type_at(code, table@, name@, fields_model(children@)) == Err::<
                TypeModel,
                IpcErrorModel,
            >(e@),
        },
{
    match code {
        type_code::NULL => Ok(DataType::Null),
        type_code::BOOL => Ok(DataType::Bool),
        type_code::INT => decode_int(table, name),
        type_code::FLOATING_POINT => match table.i16(type_table::FLOAT_PRECISION, precision::HALF) {
            Ok(value) => match value {
                precision::HALF => Ok(DataType::Float16),
                precision::SINGLE => Ok(DataType::Float32),
                precision::DOUBLE => Ok(DataType::Float64),
                other => Err(refuse("FloatingPoint", name, labelled("precision code ", other as i128))),
            },
            Err(e) => Err(e),
        },
        type_code::BINARY => Ok(DataType::Binary),
        type_code::LARGE_BINARY => Ok(DataType::LargeBinary),
        type_code::UTF8 => Ok(DataType::Utf8),
        type_code::LARGE_UTF8 => Ok(DataType::LargeUtf8),
        type_code::FIXED_SIZE_BINARY => match table.i32(type_table::FIXED_SIZE_BINARY_BYTE_WIDTH, 0) {
            Ok(width) => if width <= 0 {
                Err(refuse("FixedSizeBinary", name, labelled("byte width ", width as i128)))
            } else {
                Ok(DataType::FixedSizeBinary(width))
            },
            Err(e) => Err(e),
        },
        type_code::FIXED_SIZE_LIST => match table.i32(type_table::FIXED_SIZE_LIST_LIST_SIZE, 0) {
            Ok(size) => if size <= 0 {
                Err(refuse("FixedSizeList", name, labelled("list size ", size as i128)))
            } else {
                match take_only_child(name, "FixedSizeList", children) {
                    Ok(child) => Ok(DataType::fixed_size_list(child, size)),
                    Err(e) => Err(e),
                }
            },
            Err(e) => Err(e),
        },
        type_code::LIST => match take_only_child(name, "List", children) {
            Ok(child) => Ok(DataType::list(child)),
            Err(e) => Err(e),
        },
        type_code::STRUCT => Ok(DataType::strukt(children)),
        type_code::TIMESTAMP => decode_timestamp(table, name),
        type_code::DURATION => match table.i16(type_table::DURATION_UNIT, time_unit::MILLISECOND) {
            Ok(unit) => if unit != time_unit::NANOSECOND {
                Err(refuse("Duration", name, resolution(unit)))
            } else {
                Ok(DataType::Duration)
            },
            Err(e) => Err(e),
        },
        other => Err(
            IpcError::UnsupportedType { code: other, name: type_code::name(other), field: name.to_owned() },
        ),
    }
}

/// The first error is the whole vector's.
proof fn lemma_entries_at_error(span: SpanModel, count: int, all: int, e: IpcErrorModel)
    requires
        0 <= count <= all,
        entries_at(span, count) == Err::<Seq<(Seq<char>, Seq<char>)>, IpcErrorModel>(e),
    ensures
        entries_at(span, all) == Err::<Seq<(Seq<char>, Seq<char>)>, IpcErrorModel>(e),
    decreases all - count,
{
    if count < all {
        lemma_entries_at_error(span, count, all - 1, e);
    }
}

/// Reads a vector of key-value tables into a sorted map.
pub fn decode_metadata(table: &Table<'_>, slot: usize) -> (r: Result<Metadata, IpcError>)
    ensures
        match r {
            Ok(m) => metadata_at(table@, slot as int) == Ok::<Seq<(Seq<char>, Seq<char>)>, IpcErrorModel>(m@),
            Err(e) => metadata_at(table@, slot as int) == Err::<Seq<(Seq<char>, Seq<char>)>, IpcErrorModel>(
                e@,
            ),
        },
{
    let mut map = Metadata::new();
    let span = match table.vector(slot, SIZE_UOFFSET) {
        Ok(Some(span)) => span,
        Ok(None) => {
            return Ok(map);
        },
        Err(e) => {
            return Err(e);
        },
    };
    let mut index: usize = 0;
    while index < span.len()
        invariant
            0 <= index <= span@.len,
            entries_at(span@, index as int) == Ok::<Seq<(Seq<char>, Seq<char>)>, IpcErrorModel>(map@),
            metadata_at(table@, slot as int) == entries_at(span@, span@.len),
        decreases span@.len - index,
    {
        let entry = match span.table(index) {
            Ok(entry) => entry,
            Err(e) => {
                proof {
                    lemma_entries_at_error(span@, index + 1, span@.len, e@);
                }
                return Err(e);
            },
        };
        let key = match decode_text(&entry, key_value::KEY) {
            Ok(key) => key,
            Err(e) => {
                proof {
                    lemma_entries_at_error(span@, index + 1, span@.len, e@);
                }
                return Err(e);
            },
        };
        let value = match decode_text(&entry, key_value::VALUE) {
            Ok(value) => value,
            Err(e) => {
                proof {
                    lemma_entries_at_error(span@, index + 1, span@.len, e@);
                }
                return Err(e);
            },
        };
        map = map.insert(key, value);
        index = index + 1;
    }
    Ok(map)
}

} // verus!
