//! That types keep their meaning on the way to arrow and back.
//!
//! Going there and back would hold of any renaming. Here each type is named with
//! arrow's own: signed with signed, width with width, text with text.
use vstd::prelude::*;
use arrow_schema::{DataType as ArrowDataType, Schema as ArrowSchema, TimeUnit};
use crate::datatype::{DataType, FieldModel, TypeModel};
use crate::interop::datatype::{
    arrow_fields_of, arrow_of, fields_of_arrow, from_arrow_schema, to_arrow_schema, type_of_arrow,
};
use crate::interop::error::{InteropError, InteropErrorModel};
use crate::interop::outside::{
    entries_map, field_view, fields_view, names_distinct, schema_fields, schema_metadata, type_view, ArrowFieldV,
    ArrowTypeV,
};
use crate::lex::lemma_text_total;
use crate::schema::{keys_ascending, Schema};

verus! {

/// Whether an arrow type and a type have values of the same kind and width, down
/// to the children, and children of the same names that allow nulls alike.
pub open spec fn alike(v: ArrowTypeV, t: TypeModel) -> bool
    decreases t,
{
    match t {
        TypeModel::Null => v is Null,
        TypeModel::Bool => v is Boolean,
        TypeModel::Int8 => v is Int8,
        TypeModel::Int16 => v is Int16,
        TypeModel::Int32 => v is Int32,
        TypeModel::Int64 => v is Int64,
        TypeModel::UInt8 => v is UInt8,
        TypeModel::UInt16 => v is UInt16,
        TypeModel::UInt32 => v is UInt32,
        TypeModel::UInt64 => v is UInt64,
        TypeModel::Float16 => v is Float16,
        TypeModel::Float32 => v is Float32,
        TypeModel::Float64 => v is Float64,
        TypeModel::Binary => v is Binary,
        TypeModel::LargeBinary => v is LargeBinary,
        TypeModel::Utf8 => v is Utf8,
        TypeModel::LargeUtf8 => v is LargeUtf8,
        TypeModel::Timestamp => v is Timestamp,
        TypeModel::Duration => v is Duration,
        TypeModel::FixedSizeBinary(n) => v == ArrowTypeV::FixedSizeBinary(n),
        TypeModel::FixedSizeList(f, n) => v matches ArrowTypeV::FixedSizeList(g, m) && m == n && g.name == f.name
            && g.nullable == f.nullable && alike(g.data_type, f.data_type),
        TypeModel::List(f) => v matches ArrowTypeV::List(g) && g.name == f.name && g.nullable == f.nullable && alike(
            g.data_type,
            f.data_type,
        ),
        TypeModel::Struct(fs) => v matches ArrowTypeV::Struct(gs) && gs.len() == fs.len() && forall|i: int|
            #![trigger fs[i]]
            0 <= i < fs.len() ==> gs[i].name == fs[i].name && gs[i].nullable == fs[i].nullable && alike(
                gs[i].data_type,
                fs[i].data_type,
            ),
    }
}

/// Whether arrow fields and fields are named alike and of the same kinds.
pub open spec fn all_alike(gs: Seq<ArrowFieldV>, fs: Seq<FieldModel>) -> bool {
    &&& gs.len() == fs.len()
    &&& forall|i: int|
        #![trigger fs[i]]
        0 <= i < fs.len() ==> gs[i].name == fs[i].name && gs[i].nullable == fs[i].nullable && alike(
            gs[i].data_type,
            fs[i].data_type,
        )
}

/// Whether arrow's type is the type of the same name: integers of the same sign
/// and width, numbers of the same precision, text as text and bytes as bytes with
/// offsets of the same width, nanoseconds without a zone, lists and structs of
/// the like.
pub open spec fn same_kind(d: ArrowDataType, t: DataType) -> bool {
    match t {
        DataType::Null => d is Null,
        DataType::Bool => d is Boolean,
        DataType::Int8 => d is Int8,
        DataType::Int16 => d is Int16,
        DataType::Int32 => d is Int32,
        DataType::Int64 => d is Int64,
        DataType::UInt8 => d is UInt8,
        DataType::UInt16 => d is UInt16,
        DataType::UInt32 => d is UInt32,
        DataType::UInt64 => d is UInt64,
        DataType::Float16 => d is Float16,
        DataType::Float32 => d is Float32,
        DataType::Float64 => d is Float64,
        DataType::Binary => d is Binary,
        DataType::LargeBinary => d is LargeBinary,
        DataType::Utf8 => d is Utf8,
        DataType::LargeUtf8 => d is LargeUtf8,
        DataType::Timestamp => d matches ArrowDataType::Timestamp(unit, zone) && unit == TimeUnit::Nanosecond
            && zone is None,
        DataType::Duration => d matches ArrowDataType::Duration(unit) && unit == TimeUnit::Nanosecond,
        DataType::FixedSizeBinary(n) => d matches ArrowDataType::FixedSizeBinary(m) && m == n,
        DataType::FixedSizeList(f, n) => d matches ArrowDataType::FixedSizeList(g, m) && m == n && field_view(*g).name
            == f@.name && field_view(*g).nullable == f@.nullable && alike(field_view(*g).data_type, f@.data_type),
        DataType::List(f) => d matches ArrowDataType::List(g) && field_view(*g).name == f@.name && field_view(
            *g,
        ).nullable == f@.nullable && alike(field_view(*g).data_type, f@.data_type),
        DataType::Struct(fs) => d matches ArrowDataType::Struct(gs) && all_alike(
            fields_view(gs),
            crate::datatype::fields_model(fs@),
        ),
    }
}

/// A type becomes an arrow type of the same kind.
pub proof fn law_types_keep_their_kind(t: TypeModel)
    ensures
        alike(arrow_of(t), t),
    decreases t,
{
    match t {
        TypeModel::FixedSizeList(f, _) => {
            law_types_keep_their_kind(f.data_type);
        },
        TypeModel::List(f) => {
            law_types_keep_their_kind(f.data_type);
        },
        TypeModel::Struct(fs) => {
            assert forall|i: int| #![trigger fs[i]] 0 <= i < fs.len() implies alike(
                arrow_of(fs[i].data_type),
                fs[i].data_type,
            ) by {
                law_types_keep_their_kind(fs[i].data_type);
            }
        },
        _ => {},
    }
}

/// An arrow type that has a counterpart has one of the same kind.
pub proof fn law_arrow_types_keep_their_kind(v: ArrowTypeV)
    ensures
        type_of_arrow(v) matches Ok(t) ==> alike(v, t),
    decreases v, 0int,
{
    match v {
        ArrowTypeV::FixedSizeList(g, _) => {
            law_arrow_types_keep_their_kind(g.data_type);
        },
        ArrowTypeV::List(g) => {
            law_arrow_types_keep_their_kind(g.data_type);
        },
        ArrowTypeV::Struct(gs) => {
            law_arrow_fields_keep_their_kind(gs);
        },
        _ => {},
    }
}

/// Arrow fields that have counterparts have ones of the same names and kinds.
pub proof fn law_arrow_fields_keep_their_kind(gs: Seq<ArrowFieldV>)
    ensures
        fields_of_arrow(gs) matches Ok(fs) ==> all_alike(gs, fs),
    decreases gs, 1int,
{
    if gs.len() > 0 {
        let rest = gs.drop_last();
        law_arrow_fields_keep_their_kind(rest);
        law_arrow_types_keep_their_kind(gs.last().data_type);
        if let Ok(fs) = fields_of_arrow(gs) {
            let before = fields_of_arrow(rest)->Ok_0;
            assert forall|i: int| #![trigger fs[i]] 0 <= i < fs.len() implies gs[i].name == fs[i].name
                && gs[i].nullable == fs[i].nullable && alike(gs[i].data_type, fs[i].data_type) by {
                if i < before.len() {
                    assert(fs[i] == before[i]);
                    assert(rest[i] == gs[i]);
                }
            }
        }
    }
}

/// Fields become arrow fields of the same names and kinds.
pub proof fn law_fields_keep_their_kind(fs: Seq<FieldModel>)
    ensures
        all_alike(arrow_fields_of(fs), fs),
{
    assert forall|i: int| #![trigger fs[i]] 0 <= i < fs.len() implies alike(
        arrow_of(fs[i].data_type),
        fs[i].data_type,
    ) by {
        law_types_keep_their_kind(fs[i].data_type);
    }
}

/// The arrow type that a type is converted to is the one of the same name.
pub proof fn law_converted_types_are_of_one_kind(d: ArrowDataType, t: DataType)
    requires
        type_view(d) == arrow_of(t@),
    ensures
        same_kind(d, t),
{
    broadcast use crate::datatype::lemma_struct_model;
    law_types_keep_their_kind(t@);
}

/// The type that an arrow type is read as is the one of the same name.
pub proof fn law_read_types_are_of_one_kind(d: ArrowDataType, t: DataType)
    requires
        type_of_arrow(type_view(d)) == Ok::<TypeModel, InteropErrorModel>(t@),
    ensures
        same_kind(d, t),
{
    broadcast use crate::datatype::lemma_struct_model;
    law_arrow_types_keep_their_kind(type_view(d));
}

/// Names that stand once each name their values.
proof fn lemma_named(entries: Seq<(Seq<char>, Seq<char>)>)
    requires
        names_distinct(entries),
    ensures
        forall|k: Seq<char>, v: Seq<char>|
            #![trigger entries.contains((k, v))]
            entries.contains((k, v)) <==> entries_map(entries).contains_key(k) && entries_map(entries)[k] == v,
    decreases entries.len(),
{
    if entries.len() > 0 {
        let rest = entries.drop_last();
        let last = entries.last();
        assert forall|i: int, j: int| #![trigger rest[i], rest[j]] 0 <= i < j < rest.len() implies rest[i].0
            != rest[j].0 by {
            assert(entries[i].0 != entries[j].0);
        }
        lemma_named(rest);
        assert forall|k: Seq<char>, v: Seq<char>|
            #![trigger entries.contains((k, v))]
            entries.contains((k, v)) <==> entries_map(entries).contains_key(k) && entries_map(entries)[k] == v by {
            if entries.contains((k, v)) {
                let i = choose|i: int| 0 <= i < entries.len() && entries[i] == (k, v);
                if i < rest.len() {
                    assert(rest[i] == (k, v));
                    assert(rest.contains((k, v)));
                    assert(entries[i].0 != entries[entries.len() - 1].0);
                }
            }
            if entries_map(entries).contains_key(k) && entries_map(entries)[k] == v {
                if k == last.0 {
                    assert(entries[entries.len() - 1] == (k, v));
                } else {
                    assert(rest.contains((k, v)));
                    let i = choose|i: int| 0 <= i < rest.len() && rest[i] == (k, v);
                    assert(entries[i] == (k, v));
                }
            }
        }
    } else {
        assert forall|k: Seq<char>, v: Seq<char>|
            #![trigger entries.contains((k, v))]
            entries.contains((k, v)) <==> entries_map(entries).contains_key(k) && entries_map(entries)[k] == v by {}
    }
}

/// Keys in order stand once each.
proof fn lemma_distinct(entries: Seq<(Seq<char>, Seq<char>)>)
    requires
        keys_ascending(entries),
    ensures
        names_distinct(entries),
{
    assert forall|i: int, j: int| #![trigger entries[i], entries[j]] 0 <= i < j < entries.len() implies entries[i].0
        != entries[j].0 by {
        lemma_text_total(entries[i].0, entries[j].0);
    }
}

/// A schema that goes to arrow has there fields of the same names and kinds, and
/// the same values under the same keys.
pub proof fn law_schemas_go_to_arrow(schema: Schema, r: Result<ArrowSchema, InteropError>)
    requires
        keys_ascending(schema@.metadata),
        call_ensures(to_arrow_schema, (&schema,), r),
    ensures
        r matches Ok(s) && all_alike(schema_fields(s), schema@.fields) && forall|k: Seq<char>, v: Seq<char>|
            #![trigger schema@.metadata.contains((k, v))]
            schema@.metadata.contains((k, v)) <==> schema_metadata(s).contains_key(k) && schema_metadata(s)[k] == v,
{
    law_fields_keep_their_kind(schema@.fields);
    lemma_distinct(schema@.metadata);
    lemma_named(schema@.metadata);
}

/// A schema that comes from arrow has here fields of the same names and kinds, and
/// the same values under the same keys.
pub proof fn law_schemas_come_from_arrow(schema: ArrowSchema, r: Result<Schema, InteropError>)
    requires
        call_ensures(from_arrow_schema, (&schema,), r),
        r matches Ok(s) ==> keys_ascending(s@.metadata),
    ensures
        r matches Ok(s) ==> all_alike(schema_fields(schema), s@.fields) && forall|k: Seq<char>, v: Seq<char>|
            #![trigger s@.metadata.contains((k, v))]
            s@.metadata.contains((k, v)) <==> schema_metadata(schema).contains_key(k) && schema_metadata(schema)[k] == v,
{
    if let Ok(s) = r {
        law_arrow_fields_keep_their_kind(schema_fields(schema));
        lemma_distinct(s@.metadata);
        lemma_named(s@.metadata);
    }
}

} // verus!
