//! Types, fields and schemas to arrow and back.
//!
//! Every type here has one counterpart there. Of the types there, those outside
//! the closed set have none here; neither have times that do not count
//! nanoseconds or that have a zone. Fields carry no metadata; schemas do.
use vstd::prelude::*;
use std::sync::Arc;
use arrow_schema::{
    DataType as ArrowDataType, Field as ArrowField, Fields as ArrowFields, Schema as ArrowSchema, TimeUnit,
};
use crate::datatype::{fields_model, DataType, Field, FieldModel, SchemaModel, TypeModel};
use crate::interop::error::{InteropError, InteropErrorModel};
use crate::interop::outside::{
    entries_map, field_at, field_count, field_type, field_view, field_views, fields_view, make_field, make_fields,
    make_schema, names_distinct, render_type, schema_entries, schema_fields, schema_metadata, type_view, ArrowFieldV,
    ArrowTypeV,
};
use crate::lex::{lemma_text_total, text_lt};
use crate::schema::{entries_model, entries_set, keys_ascending, Metadata, Schema};

verus! {

/// A type as arrow has it.
pub open spec fn arrow_of(t: TypeModel) -> ArrowTypeV
    decreases t,
{
    match t {
        TypeModel::Null => ArrowTypeV::Null,
        TypeModel::Bool => ArrowTypeV::Boolean,
        TypeModel::Int8 => ArrowTypeV::Int8,
        TypeModel::Int16 => ArrowTypeV::Int16,
        TypeModel::Int32 => ArrowTypeV::Int32,
        TypeModel::Int64 => ArrowTypeV::Int64,
        TypeModel::UInt8 => ArrowTypeV::UInt8,
        TypeModel::UInt16 => ArrowTypeV::UInt16,
        TypeModel::UInt32 => ArrowTypeV::UInt32,
        TypeModel::UInt64 => ArrowTypeV::UInt64,
        TypeModel::Float16 => ArrowTypeV::Float16,
        TypeModel::Float32 => ArrowTypeV::Float32,
        TypeModel::Float64 => ArrowTypeV::Float64,
        TypeModel::Binary => ArrowTypeV::Binary,
        TypeModel::LargeBinary => ArrowTypeV::LargeBinary,
        TypeModel::Utf8 => ArrowTypeV::Utf8,
        TypeModel::LargeUtf8 => ArrowTypeV::LargeUtf8,
        TypeModel::Timestamp => ArrowTypeV::Timestamp,
        TypeModel::Duration => ArrowTypeV::Duration,
        TypeModel::FixedSizeBinary(n) => ArrowTypeV::FixedSizeBinary(n),
        TypeModel::FixedSizeList(f, n) => ArrowTypeV::FixedSizeList(
            Box::new(
                ArrowFieldV {
                    name: f.name,
                    data_type: arrow_of(f.data_type),
                    nullable: f.nullable,
                    metadata: Map::empty(),
                },
            ),
            n,
        ),
        TypeModel::List(f) => ArrowTypeV::List(
            Box::new(
                ArrowFieldV {
                    name: f.name,
                    data_type: arrow_of(f.data_type),
                    nullable: f.nullable,
                    metadata: Map::empty(),
                },
            ),
        ),
        TypeModel::Struct(fs) => ArrowTypeV::Struct(
            Seq::new(
                fs.len(),
                |i: int|
                    if 0 <= i < fs.len() {
                        ArrowFieldV {
                            name: fs[i].name,
                            data_type: arrow_of(fs[i].data_type),
                            nullable: fs[i].nullable,
                            metadata: Map::empty(),
                        }
                    } else {
                        arbitrary()
                    },
            ),
        ),
    }
}

/// A field as arrow has it.
pub open spec fn arrow_field_of(f: FieldModel) -> ArrowFieldV {
    ArrowFieldV { name: f.name, data_type: arrow_of(f.data_type), nullable: f.nullable, metadata: Map::empty() }
}

/// Fields as arrow has them.
pub open spec fn arrow_fields_of(fs: Seq<FieldModel>) -> Seq<ArrowFieldV> {
    Seq::new(fs.len(), |i: int| arrow_field_of(fs[i]))
}

/// The struct type of fields.
pub broadcast proof fn lemma_arrow_of_struct(fs: Seq<FieldModel>)
    ensures
        #[trigger] arrow_of(TypeModel::Struct(fs)) == ArrowTypeV::Struct(arrow_fields_of(fs)),
{
    assert(arrow_of(TypeModel::Struct(fs))->Struct_0 =~= arrow_fields_of(fs));
}

/// The counterpart of a type, or why there is none.
pub open spec fn type_of_arrow(t: ArrowTypeV) -> Result<TypeModel, InteropErrorModel>
    decreases t,
{
    match t {
        ArrowTypeV::Null => Ok(TypeModel::Null),
        ArrowTypeV::Boolean => Ok(TypeModel::Bool),
        ArrowTypeV::Int8 => Ok(TypeModel::Int8),
        ArrowTypeV::Int16 => Ok(TypeModel::Int16),
        ArrowTypeV::Int32 => Ok(TypeModel::Int32),
        ArrowTypeV::Int64 => Ok(TypeModel::Int64),
        ArrowTypeV::UInt8 => Ok(TypeModel::UInt8),
        ArrowTypeV::UInt16 => Ok(TypeModel::UInt16),
        ArrowTypeV::UInt32 => Ok(TypeModel::UInt32),
        ArrowTypeV::UInt64 => Ok(TypeModel::UInt64),
        ArrowTypeV::Float16 => Ok(TypeModel::Float16),
        ArrowTypeV::Float32 => Ok(TypeModel::Float32),
        ArrowTypeV::Float64 => Ok(TypeModel::Float64),
        ArrowTypeV::Binary => Ok(TypeModel::Binary),
        ArrowTypeV::LargeBinary => Ok(TypeModel::LargeBinary),
        ArrowTypeV::Utf8 => Ok(TypeModel::Utf8),
        ArrowTypeV::LargeUtf8 => Ok(TypeModel::LargeUtf8),
        ArrowTypeV::Timestamp => Ok(TypeModel::Timestamp),
        ArrowTypeV::Duration => Ok(TypeModel::Duration),
        ArrowTypeV::OtherTime { kind, text } => Err(
            InteropErrorModel::UnsupportedTemporalUnit { kind, arrow_type: text },
        ),
        ArrowTypeV::FixedSizeBinary(n) => Ok(TypeModel::FixedSizeBinary(n)),
        ArrowTypeV::FixedSizeList(f, n) => match type_of_arrow(f.data_type) {
            Ok(c) => Ok(
                TypeModel::FixedSizeList(
                    Box::new(FieldModel { name: f.name, data_type: c, nullable: f.nullable }),
                    n,
                ),
            ),
            Err(e) => Err(e),
        },
        ArrowTypeV::List(f) => match type_of_arrow(f.data_type) {
            Ok(c) => Ok(
                TypeModel::List(Box::new(FieldModel { name: f.name, data_type: c, nullable: f.nullable })),
            ),
            Err(e) => Err(e),
        },
        ArrowTypeV::Struct(fs) => match fields_of_arrow(fs) {
            Ok(cs) => Ok(TypeModel::Struct(cs)),
            Err(e) => Err(e),
        },
        ArrowTypeV::Other { text } => Err(InteropErrorModel::UnmappableArrowType { arrow_type: text }),
    }
}

/// The counterparts of fields, or why the first without one has none.
pub open spec fn fields_of_arrow(fs: Seq<ArrowFieldV>) -> Result<Seq<FieldModel>, InteropErrorModel>
    decreases fs,
{
    if fs.len() == 0 {
        Ok(Seq::empty())
    } else {
        match fields_of_arrow(fs.drop_last()) {
            Err(e) => Err(e),
            Ok(cs) => match type_of_arrow(fs.last().data_type) {
                Ok(c) => Ok(cs.push(FieldModel { name: fs.last().name, data_type: c, nullable: fs.last().nullable })),
                Err(e) => Err(e),
            },
        }
    }
}

/// The counterpart of a field, or why there is none.
pub open spec fn field_of_arrow(f: ArrowFieldV) -> Result<FieldModel, InteropErrorModel> {
    match type_of_arrow(f.data_type) {
        Ok(c) => Ok(FieldModel { name: f.name, data_type: c, nullable: f.nullable }),
        Err(e) => Err(e),
    }
}

/// Every type comes back from arrow as it went.
pub proof fn law_types_return(t: TypeModel)
    ensures
        type_of_arrow(arrow_of(t)) == Ok::<TypeModel, InteropErrorModel>(t),
    decreases t,
{
    match t {
        TypeModel::List(f) => {
            law_types_return(f.data_type);
            assert(*f == FieldModel { name: f.name, data_type: f.data_type, nullable: f.nullable });
        },
        TypeModel::FixedSizeList(f, n) => {
            law_types_return(f.data_type);
            assert(*f == FieldModel { name: f.name, data_type: f.data_type, nullable: f.nullable });
        },
        TypeModel::Struct(fs) => {
            lemma_arrow_of_struct(fs);
            assert forall|i: int| #![trigger fs[i]] 0 <= i < fs.len() implies type_of_arrow(
                arrow_of(fs[i].data_type),
            ) == Ok::<TypeModel, InteropErrorModel>(fs[i].data_type) by {
                law_types_return(fs[i].data_type);
            }
            lemma_fields_return(fs);
        },
        _ => {},
    }
}

/// Fields whose types come back come back.
proof fn lemma_fields_return(fs: Seq<FieldModel>)
    requires
        forall|i: int|
            #![trigger fs[i]]
            0 <= i < fs.len() ==> type_of_arrow(arrow_of(fs[i].data_type)) == Ok::<TypeModel, InteropErrorModel>(
                fs[i].data_type,
            ),
    ensures
        fields_of_arrow(arrow_fields_of(fs)) == Ok::<Seq<FieldModel>, InteropErrorModel>(fs),
    decreases fs.len(),
{
    let arrow = arrow_fields_of(fs);
    if fs.len() == 0 {
        assert(fs =~= Seq::empty());
    } else {
        let rest = fs.drop_last();
        assert(arrow.drop_last() =~= arrow_fields_of(rest));
        assert forall|i: int| #![trigger rest[i]] 0 <= i < rest.len() implies type_of_arrow(
            arrow_of(rest[i].data_type),
        ) == Ok::<TypeModel, InteropErrorModel>(rest[i].data_type) by {
            assert(rest[i] == fs[i]);
        }
        lemma_fields_return(rest);
        let f = fs.last();
        assert(fs[fs.len() - 1] == f);
        assert(f == FieldModel { name: f.name, data_type: f.data_type, nullable: f.nullable });
        assert(fs =~= rest.push(f));
    }
}

/// Fields come back from arrow as they went.
pub proof fn law_fields_return(fs: Seq<FieldModel>)
    ensures
        fields_of_arrow(arrow_fields_of(fs)) == Ok::<Seq<FieldModel>, InteropErrorModel>(fs),
{
    assert forall|i: int| #![trigger fs[i]] 0 <= i < fs.len() implies type_of_arrow(arrow_of(fs[i].data_type))
        == Ok::<TypeModel, InteropErrorModel>(fs[i].data_type) by {
        law_types_return(fs[i].data_type);
    }
    lemma_fields_return(fs);
}

/// An arrow type without the named values of the fields inside it.
pub open spec fn bare(t: ArrowTypeV) -> ArrowTypeV
    decreases t,
{
    match t {
        ArrowTypeV::FixedSizeList(f, n) => ArrowTypeV::FixedSizeList(
            Box::new(ArrowFieldV { data_type: bare(f.data_type), metadata: Map::empty(), ..*f }),
            n,
        ),
        ArrowTypeV::List(f) => ArrowTypeV::List(
            Box::new(ArrowFieldV { data_type: bare(f.data_type), metadata: Map::empty(), ..*f }),
        ),
        ArrowTypeV::Struct(fs) => ArrowTypeV::Struct(
            Seq::new(
                fs.len(),
                |i: int|
                    if 0 <= i < fs.len() {
                        ArrowFieldV { data_type: bare(fs[i].data_type), metadata: Map::empty(), ..fs[i] }
                    } else {
                        arbitrary()
                    },
            ),
        ),
        _ => t,
    }
}

/// An arrow field without named values, its own or inside its type.
pub open spec fn bare_field(f: ArrowFieldV) -> ArrowFieldV {
    ArrowFieldV { data_type: bare(f.data_type), metadata: Map::empty(), ..f }
}

/// Arrow fields without named values.
pub open spec fn bare_fields(fs: Seq<ArrowFieldV>) -> Seq<ArrowFieldV> {
    Seq::new(fs.len(), |i: int| bare_field(fs[i]))
}

/// An arrow type that has a counterpart is its counterpart's, but for the named
/// values of the fields inside it.
pub proof fn law_arrow_types_return(t: ArrowTypeV)
    ensures
        type_of_arrow(t) matches Ok(c) ==> arrow_of(c) == bare(t),
    decreases t, 0int,
{
    match t {
        ArrowTypeV::FixedSizeList(f, _) => {
            law_arrow_types_return(f.data_type);
        },
        ArrowTypeV::List(f) => {
            law_arrow_types_return(f.data_type);
        },
        ArrowTypeV::Struct(fs) => {
            law_arrow_fields_return(fs);
            if let Ok(cs) = fields_of_arrow(fs) {
                lemma_arrow_of_struct(cs);
                assert(bare(t)->Struct_0 =~= bare_fields(fs));
            }
        },
        _ => {},
    }
}

/// Arrow fields that have counterparts are their counterparts', but for the
/// named values.
pub proof fn law_arrow_fields_return(fs: Seq<ArrowFieldV>)
    ensures
        fields_of_arrow(fs) matches Ok(cs) ==> arrow_fields_of(cs) == bare_fields(fs),
    decreases fs, 1int,
{
    if fs.len() > 0 {
        law_arrow_fields_return(fs.drop_last());
        law_arrow_types_return(fs.last().data_type);
        if let Ok(cs) = fields_of_arrow(fs) {
            let before = fields_of_arrow(fs.drop_last())->Ok_0;
            assert(cs.drop_last() =~= before);
            assert(arrow_fields_of(before).len() == bare_fields(fs.drop_last()).len());
            assert forall|i: int| 0 <= i < fs.len() implies arrow_fields_of(cs)[i] == bare_fields(fs)[i] by {
                if i < fs.len() - 1 {
                    assert(arrow_fields_of(before)[i] == bare_fields(fs.drop_last())[i]);
                    assert(cs[i] == before[i]);
                }
            }
            assert(arrow_fields_of(cs) =~= bare_fields(fs));
        }
    } else {
        assert(arrow_fields_of(Seq::empty()) =~= bare_fields(fs));
    }
}

/// Converts a type to the one arrow has. Never fails: every type has a
/// counterpart.
pub fn to_arrow_data_type(data_type: &DataType) -> (r: Result<ArrowDataType, InteropError>)
    ensures
        r matches Ok(t) && type_view(t) == arrow_of(data_type@),
    decreases data_type,
{
    broadcast use {lemma_arrow_of_struct, crate::datatype::lemma_struct_model};

    match data_type {
        DataType::Null => Ok(ArrowDataType::Null),
        DataType::Bool => Ok(ArrowDataType::Boolean),
        DataType::Int8 => Ok(ArrowDataType::Int8),
        DataType::Int16 => Ok(ArrowDataType::Int16),
        DataType::Int32 => Ok(ArrowDataType::Int32),
        DataType::Int64 => Ok(ArrowDataType::Int64),
        DataType::UInt8 => Ok(ArrowDataType::UInt8),
        DataType::UInt16 => Ok(ArrowDataType::UInt16),
        DataType::UInt32 => Ok(ArrowDataType::UInt32),
        DataType::UInt64 => Ok(ArrowDataType::UInt64),
        DataType::Float16 => Ok(ArrowDataType::Float16),
        DataType::Float32 => Ok(ArrowDataType::Float32),
        DataType::Float64 => Ok(ArrowDataType::Float64),
        DataType::Binary => Ok(ArrowDataType::Binary),
        DataType::LargeBinary => Ok(ArrowDataType::LargeBinary),
        DataType::Utf8 => Ok(ArrowDataType::Utf8),
        DataType::LargeUtf8 => Ok(ArrowDataType::LargeUtf8),
        DataType::Timestamp => Ok(ArrowDataType::Timestamp(TimeUnit::Nanosecond, None)),
        DataType::Duration => Ok(ArrowDataType::Duration(TimeUnit::Nanosecond)),
        DataType::FixedSizeBinary(n) => Ok(ArrowDataType::FixedSizeBinary(*n)),
        DataType::FixedSizeList(f, n) => match to_arrow_field(f) {
            Ok(c) => Ok(ArrowDataType::FixedSizeList(Arc::new(c), *n)),
            Err(e) => Err(e),
        },
        DataType::List(f) => match to_arrow_field(f) {
            Ok(c) => Ok(ArrowDataType::List(Arc::new(c))),
            Err(e) => Err(e),
        },
        DataType::Struct(fs) => match to_arrow_fields(fs) {
            Ok(cs) => Ok(ArrowDataType::Struct(cs)),
            Err(e) => Err(e),
        },
    }
}

/// Converts a field to the one arrow has, without metadata.
pub fn to_arrow_field(field: &Field) -> (r: Result<ArrowField, InteropError>)
    ensures
        r matches Ok(f) && field_view(f) == arrow_field_of(field@),
    decreases field,
{
    match to_arrow_data_type(field.data_type()) {
        Ok(t) => Ok(make_field(field.name(), t, field.is_nullable())),
        Err(e) => Err(e),
    }
}

/// Converts fields to those arrow has.
pub fn to_arrow_fields(fields: &Vec<Field>) -> (r: Result<ArrowFields, InteropError>)
    ensures
        r matches Ok(fs) && fields_view(fs) == arrow_fields_of(fields_model(fields@)),
    decreases fields,
{
    let mut out: Vec<ArrowField> = Vec::with_capacity(fields.len());
    let mut i: usize = 0;
    while i < fields.len()
        invariant
            0 <= i <= fields@.len(),
            out@.len() == i,
            forall|k: int| #![trigger out@[k]] 0 <= k < i ==> field_view(out@[k]) == arrow_field_of(fields@[k]@),
        decreases fields@.len() - i,
    {
        match to_arrow_field(&fields[i]) {
            Ok(f) => {
                out.push(f);
            },
            Err(e) => return Err(e),
        }
        i = i + 1;
    }
    assert(field_views(out@) =~= arrow_fields_of(fields_model(fields@)));
    Ok(make_fields(out))
}

/// Converts a type that arrow has to its counterpart.
pub fn from_arrow_data_type(data_type: &ArrowDataType) -> (r: Result<DataType, InteropError>)
    ensures
        match r {
            Ok(t) => type_of_arrow(type_view(*data_type)) == Ok::<TypeModel, InteropErrorModel>(t@),
            Err(e) => type_of_arrow(type_view(*data_type)) == Err::<TypeModel, InteropErrorModel>(e@),
        },
    decreases type_view(*data_type),
{
    broadcast use crate::datatype::lemma_struct_model;

    match data_type {
        ArrowDataType::Null => Ok(DataType::Null),
        ArrowDataType::Boolean => Ok(DataType::Bool),
        ArrowDataType::Int8 => Ok(DataType::Int8),
        ArrowDataType::Int16 => Ok(DataType::Int16),
        ArrowDataType::Int32 => Ok(DataType::Int32),
        ArrowDataType::Int64 => Ok(DataType::Int64),
        ArrowDataType::UInt8 => Ok(DataType::UInt8),
        ArrowDataType::UInt16 => Ok(DataType::UInt16),
        ArrowDataType::UInt32 => Ok(DataType::UInt32),
        ArrowDataType::UInt64 => Ok(DataType::UInt64),
        ArrowDataType::Float16 => Ok(DataType::Float16),
        ArrowDataType::Float32 => Ok(DataType::Float32),
        ArrowDataType::Float64 => Ok(DataType::Float64),
        ArrowDataType::Binary => Ok(DataType::Binary),
        ArrowDataType::LargeBinary => Ok(DataType::LargeBinary),
        ArrowDataType::Utf8 => Ok(DataType::Utf8),
        ArrowDataType::LargeUtf8 => Ok(DataType::LargeUtf8),
        ArrowDataType::FixedSizeBinary(n) => Ok(DataType::FixedSizeBinary(*n)),
        ArrowDataType::FixedSizeList(f, n) => match from_arrow_field(&**f) {
            Ok(c) => Ok(DataType::FixedSizeList(Box::new(c), *n)),
            Err(e) => Err(e),
        },
        ArrowDataType::List(f) => match from_arrow_field(&**f) {
            Ok(c) => Ok(DataType::List(Box::new(c))),
            Err(e) => Err(e),
        },
        ArrowDataType::Struct(fs) => match from_arrow_fields(fs) {
            Ok(cs) => Ok(DataType::Struct(cs)),
            Err(e) => Err(e),
        },
        ArrowDataType::Timestamp(TimeUnit::Nanosecond, None) => Ok(DataType::Timestamp),
        ArrowDataType::Timestamp(_, _) => Err(
            InteropError::UnsupportedTemporalUnit { kind: "Timestamp", arrow_type: render_type(data_type) },
        ),
        ArrowDataType::Duration(TimeUnit::Nanosecond) => Ok(DataType::Duration),
        ArrowDataType::Duration(_) => Err(
            InteropError::UnsupportedTemporalUnit { kind: "Duration", arrow_type: render_type(data_type) },
        ),
        _ => Err(InteropError::UnmappableArrowType { arrow_type: render_type(data_type) }),
    }
}

/// Converts a field that arrow has to its counterpart. Its metadata is dropped.
pub fn from_arrow_field(field: &ArrowField) -> (r: Result<Field, InteropError>)
    ensures
        match r {
            Ok(f) => field_of_arrow(field_view(*field)) == Ok::<FieldModel, InteropErrorModel>(f@),
            Err(e) => field_of_arrow(field_view(*field)) == Err::<FieldModel, InteropErrorModel>(e@),
        },
    decreases field_view(*field),
{
    match from_arrow_data_type(field_type(field)) {
        Ok(t) => Ok(Field::new(field.name().as_str(), t, field.is_nullable())),
        Err(e) => Err(e),
    }
}

proof fn lemma_fields_error_stays(fs: Seq<ArrowFieldV>, count: int)
    requires
        0 <= count <= fs.len(),
        fields_of_arrow(fs.take(count)) is Err,
    ensures
        fields_of_arrow(fs) == fields_of_arrow(fs.take(count)),
    decreases fs.len(),
{
    if count < fs.len() {
        assert(fs.drop_last().take(count) =~= fs.take(count));
        lemma_fields_error_stays(fs.drop_last(), count);
    } else {
        assert(fs.take(count) =~= fs);
    }
}

/// Converts fields that arrow has to their counterparts.
pub fn from_arrow_fields(fields: &ArrowFields) -> (r: Result<Vec<Field>, InteropError>)
    ensures
        match r {
            Ok(fs) => fields_of_arrow(fields_view(*fields)) == Ok::<Seq<FieldModel>, InteropErrorModel>(
                fields_model(fs@),
            ),
            Err(e) => fields_of_arrow(fields_view(*fields)) == Err::<Seq<FieldModel>, InteropErrorModel>(e@),
        },
    decreases fields_view(*fields),
{
    let ghost all = fields_view(*fields);
    let n: usize = field_count(fields);
    let mut out: Vec<Field> = Vec::with_capacity(n);
    let mut i: usize = 0;
    proof {
        assert(all.take(0) =~= Seq::empty());
        assert(fields_model(out@) =~= Seq::empty());
    }
    while i < n
        invariant
            0 <= i <= n == all.len(),
            all == fields_view(*fields),
            fields_of_arrow(all.take(i as int)) == Ok::<Seq<FieldModel>, InteropErrorModel>(fields_model(out@)),
        decreases n - i,
    {
        proof {
            assert(all.take(i + 1).drop_last() =~= all.take(i as int));
            assert(all.take(i + 1).last() == all[i as int]);
        }
        match from_arrow_field(field_at(fields, i)) {
            Ok(f) => {
                let ghost before = fields_model(out@);
                out.push(f);
                assert(fields_model(out@) =~= before.push(f@));
            },
            Err(e) => {
                proof {
                    lemma_fields_error_stays(all, i + 1);
                }
                return Err(e);
            },
        }
        i = i + 1;
    }
    assert(all.take(i as int) =~= all);
    Ok(out)
}

/// What an arrow schema says.
pub struct ArrowSchemaV {
    /// The fields.
    pub fields: Seq<ArrowFieldV>,
    /// The named values.
    pub metadata: Map<Seq<char>, Seq<char>>,
}

/// What an arrow schema says.
pub open spec fn schema_view(s: ArrowSchema) -> ArrowSchemaV {
    ArrowSchemaV { fields: schema_fields(s), metadata: schema_metadata(s) }
}

/// A schema as arrow has it.
pub open spec fn arrow_schema_of(s: SchemaModel) -> ArrowSchemaV {
    ArrowSchemaV { fields: arrow_fields_of(s.fields), metadata: entries_map(s.metadata) }
}

/// An arrow schema without the named values of its fields.
pub open spec fn bare_schema(s: ArrowSchemaV) -> ArrowSchemaV {
    ArrowSchemaV { fields: bare_fields(s.fields), metadata: s.metadata }
}

/// Named values as a list, sorted by name.
pub open spec fn sorted_entries(named: Map<Seq<char>, Seq<char>>) -> Seq<(Seq<char>, Seq<char>)> {
    choose|entries: Seq<(Seq<char>, Seq<char>)>|
        keys_ascending(entries) && #[trigger] entries_map(entries) == named
}

/// The counterpart of a schema, or why there is none.
pub open spec fn schema_of_arrow(s: ArrowSchemaV) -> Result<SchemaModel, InteropErrorModel> {
    match fields_of_arrow(s.fields) {
        Ok(fields) => Ok(SchemaModel { fields, metadata: sorted_entries(s.metadata) }),
        Err(e) => Err(e),
    }
}

/// The names of a list's entries, and what stands under each.
proof fn lemma_entries_map(entries: Seq<(Seq<char>, Seq<char>)>)
    requires
        names_distinct(entries),
    ensures
        forall|i: int|
            #![trigger entries[i]]
            0 <= i < entries.len() ==> entries_map(entries).dom().contains(entries[i].0) && entries_map(
                entries,
            )[entries[i].0] == entries[i].1,
        forall|k: Seq<char>| #[trigger]
            entries_map(entries).dom().contains(k) ==> exists|i: int|
                #![trigger entries[i]]
                0 <= i < entries.len() && entries[i].0 == k,
    decreases entries.len(),
{
    if entries.len() > 0 {
        let rest = entries.drop_last();
        let last = entries.last();
        assert forall|i: int, j: int| #![trigger rest[i], rest[j]] 0 <= i < j < rest.len() implies rest[i].0
            != rest[j].0 by {
            assert(entries[i].0 != entries[j].0);
        }
        lemma_entries_map(rest);
        assert forall|i: int| #![trigger entries[i]] 0 <= i < entries.len() implies entries_map(
            entries,
        ).dom().contains(entries[i].0) && entries_map(entries)[entries[i].0] == entries[i].1 by {
            if i < entries.len() - 1 {
                assert(rest[i] == entries[i]);
                assert(entries[i].0 != entries[entries.len() - 1].0);
            }
        }
        assert forall|k: Seq<char>| #[trigger] entries_map(entries).dom().contains(k) implies exists|i: int|
            #![trigger entries[i]]
            0 <= i < entries.len() && entries[i].0 == k by {
            if k == last.0 {
                assert(entries[entries.len() - 1].0 == k);
            } else {
                assert(entries_map(rest).dom().contains(k));
                let i = choose|i: int| #![trigger rest[i]] 0 <= i < rest.len() && rest[i].0 == k;
                assert(entries[i] == rest[i]);
            }
        }
    }
}

/// Ascending names are distinct.
proof fn lemma_ascending_distinct(entries: Seq<(Seq<char>, Seq<char>)>)
    requires
        keys_ascending(entries),
    ensures
        names_distinct(entries),
{
    assert forall|i: int, j: int| #![trigger entries[i], entries[j]] 0 <= i < j < entries.len() implies entries[i].0
        != entries[j].0 by {
        lemma_text_total(entries[i].0, entries[j].0);
    }
}

/// Sorted lists of the same named values are the same.
proof fn lemma_sorted_unique(a: Seq<(Seq<char>, Seq<char>)>, b: Seq<(Seq<char>, Seq<char>)>)
    requires
        keys_ascending(a),
        keys_ascending(b),
        entries_map(a) == entries_map(b),
    ensures
        a == b,
    decreases a.len(),
{
    lemma_ascending_distinct(a);
    lemma_ascending_distinct(b);
    lemma_entries_map(a);
    lemma_entries_map(b);
    if a.len() == 0 {
        if b.len() > 0 {
            assert(entries_map(b).dom().contains(b[0].0));
        }
        assert(a =~= b);
    } else if b.len() == 0 {
        assert(entries_map(a).dom().contains(a[0].0));
    } else {
        let x = a[a.len() - 1];
        let y = b[b.len() - 1];
        assert(entries_map(b).dom().contains(x.0));
        assert(entries_map(a).dom().contains(y.0));
        let i = choose|i: int| #![trigger b[i]] 0 <= i < b.len() && b[i].0 == x.0;
        let j = choose|j: int| #![trigger a[j]] 0 <= j < a.len() && a[j].0 == y.0;
        lemma_text_total(x.0, y.0);
        if i < b.len() - 1 {
            assert(text_lt(b[i].0, b[b.len() - 1].0));
        }
        if j < a.len() - 1 {
            assert(text_lt(a[j].0, a[a.len() - 1].0));
        }
        assert(x.0 == y.0);
        assert(x == y);
        let s = a.drop_last();
        let t = b.drop_last();
        assert(keys_ascending(s)) by {
            assert forall|p: int, q: int| #![trigger s[p], s[q]] 0 <= p < q < s.len() implies text_lt(
                s[p].0,
                s[q].0,
            ) by {
                assert(text_lt(a[p].0, a[q].0));
            }
        }
        assert(keys_ascending(t)) by {
            assert forall|p: int, q: int| #![trigger t[p], t[q]] 0 <= p < q < t.len() implies text_lt(
                t[p].0,
                t[q].0,
            ) by {
                assert(text_lt(b[p].0, b[q].0));
            }
        }
        lemma_last_removed(a);
        lemma_last_removed(b);
        lemma_sorted_unique(s, t);
        assert(a =~= s.push(x));
        assert(b =~= t.push(y));
    }
}

/// Without its last entry, a list names what it names without that name.
proof fn lemma_last_removed(entries: Seq<(Seq<char>, Seq<char>)>)
    requires
        entries.len() > 0,
        names_distinct(entries),
    ensures
        entries_map(entries.drop_last()) == entries_map(entries).remove(entries.last().0),
{
    let rest = entries.drop_last();
    let key = entries.last().0;
    assert forall|i: int, j: int| #![trigger rest[i], rest[j]] 0 <= i < j < rest.len() implies rest[i].0
        != rest[j].0 by {
        assert(entries[i].0 != entries[j].0);
    }
    lemma_entries_map(rest);
    if entries_map(rest).dom().contains(key) {
        let i = choose|i: int| #![trigger rest[i]] 0 <= i < rest.len() && rest[i].0 == key;
        assert(entries[i].0 != entries[entries.len() - 1].0);
    }
    assert(entries_map(rest) =~= entries_map(entries).remove(key));
}

/// Setting an entry of a sorted list sets the named value.
proof fn lemma_set_names(entries: Seq<(Seq<char>, Seq<char>)>, key: Seq<char>, value: Seq<char>)
    requires
        keys_ascending(entries),
    ensures
        keys_ascending(entries_set(entries, key, value)),
        entries_map(entries_set(entries, key, value)) == entries_map(entries).insert(key, value),
{
    crate::schema::lemma_entries_set_ascending(entries, key, value);
    crate::schema::lemma_key_rank(entries, key);
    let out = entries_set(entries, key, value);
    let at = crate::schema::key_rank(entries, key) as int;
    lemma_ascending_distinct(entries);
    lemma_ascending_distinct(out);
    lemma_entries_map(entries);
    lemma_entries_map(out);
    let got = entries_map(out);
    let want = entries_map(entries).insert(key, value);
    assert(out[at] == (key, value));
    let replaced = at < entries.len() && entries[at].0 == key;
    assert forall|k: Seq<char>| got.dom().contains(k) == want.dom().contains(k) by {
        if got.dom().contains(k) {
            let i = choose|i: int| #![trigger out[i]] 0 <= i < out.len() && out[i].0 == k;
            if i < at {
                assert(entries[i] == out[i]);
            } else if i > at {
                assert(out[i] == if replaced {
                    entries[i]
                } else {
                    entries[i - 1]
                });
            }
        }
        if want.dom().contains(k) && k != key {
            let i = choose|i: int| #![trigger entries[i]] 0 <= i < entries.len() && entries[i].0 == k;
            if i < at || replaced {
                assert(out[i] == entries[i]);
            } else {
                assert(out[i + 1] == entries[i]);
            }
        }
    }
    assert forall|k: Seq<char>| want.dom().contains(k) implies got[k] == want[k] by {
        if k != key {
            let i = choose|i: int| #![trigger entries[i]] 0 <= i < entries.len() && entries[i].0 == k;
            if i < at || replaced {
                assert(out[i] == entries[i]);
            } else {
                assert(out[i + 1] == entries[i]);
            }
        }
    }
    assert(got =~= want);
}

/// Converts a schema to the one arrow has, named values included.
pub fn to_arrow_schema(schema: &Schema) -> (r: Result<ArrowSchema, InteropError>)
    ensures
        r matches Ok(s) && schema_view(s) == arrow_schema_of(schema@),
{
    let fields = match to_arrow_fields(schema.fields()) {
        Ok(f) => f,
        Err(e) => return Err(e),
    };
    let source = schema.metadata();
    let n: usize = source.len();
    let mut entries: Vec<(String, String)> = Vec::with_capacity(n);
    let mut i: usize = 0;
    while i < n
        invariant
            0 <= i <= n == source@.len(),
            entries@.len() == i,
            forall|k: int|
                #![trigger entries@[k]]
                0 <= k < i ==> (entries@[k].0@, entries@[k].1@) == source@[k],
        decreases n - i,
    {
        entries.push((source.key(i).to_owned(), source.value(i).to_owned()));
        i = i + 1;
    }
    proof {
        assert(entries_model(entries@) =~= source@);
        lemma_ascending_distinct(source@);
    }
    Ok(make_schema(fields, entries))
}

/// Converts a schema that arrow has to its counterpart, named values included.
pub fn from_arrow_schema(schema: &ArrowSchema) -> (r: Result<Schema, InteropError>)
    ensures
        match r {
            Ok(s) => {
                &&& schema_of_arrow(schema_view(*schema)) == Ok::<SchemaModel, InteropErrorModel>(s@)
                &&& arrow_schema_of(s@) == bare_schema(schema_view(*schema))
            },
            Err(e) => schema_of_arrow(schema_view(*schema)) == Err::<SchemaModel, InteropErrorModel>(e@),
        },
{
    let fields = match from_arrow_fields(schema.fields()) {
        Ok(f) => f,
        Err(e) => return Err(e),
    };
    let entries = schema_entries(schema);
    let ghost all = entries_model(entries@);
    let mut metadata = Metadata::new();
    let mut i: usize = 0;
    proof {
        assert(metadata@ =~= Seq::empty());
        assert(all.take(0) =~= Seq::empty());
    }
    while i < entries.len()
        invariant
            0 <= i <= entries@.len(),
            all == entries_model(entries@),
            keys_ascending(metadata@),
            entries_map(metadata@) == entries_map(all.take(i as int)),
        decreases entries@.len() - i,
    {
        proof {
            assert(all[i as int] == (entries@[i as int].0@, entries@[i as int].1@));
            lemma_set_names(metadata@, all[i as int].0, all[i as int].1);
            assert(all.take(i + 1).drop_last() =~= all.take(i as int));
        }
        metadata = metadata.insert(entries[i].0.as_str(), entries[i].1.as_str());
        i = i + 1;
    }
    proof {
        assert(all.take(i as int) =~= all);
        lemma_sorted_unique(sorted_entries(schema_metadata(*schema)), metadata@);
        law_arrow_fields_return(schema_fields(*schema));
    }
    Ok(Schema::new(fields).with_metadata(metadata))
}

/// A schema comes back from arrow as it went.
pub proof fn law_schemas_return(s: SchemaModel)
    requires
        keys_ascending(s.metadata),
    ensures
        schema_of_arrow(arrow_schema_of(s)) == Ok::<SchemaModel, InteropErrorModel>(s),
{
    law_fields_return(s.fields);
    lemma_sorted_unique(sorted_entries(entries_map(s.metadata)), s.metadata);
}

} // verus!
