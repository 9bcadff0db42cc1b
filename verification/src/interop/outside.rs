//! The types of arrow in which types, fields and schemas are exchanged.
//!
//! Types are enums whose variants can be read. Fields, lists of fields and
//! schemas are read and made through what is declared here.
use vstd::prelude::*;
use arrow_schema::{
    ArrowError, DataType as ArrowDataType, Field as ArrowField, Fields as ArrowFields, IntervalUnit,
    Schema as ArrowSchema, TimeUnit, UnionFields, UnionMode,
};
use crate::schema::entries_model;

verus! {

/// `arrow_schema::TimeUnit`: what a time type counts.
#[verifier::external_type_specification]
pub struct ExTimeUnit(TimeUnit);

/// `arrow_schema::IntervalUnit`: what an interval counts.
#[verifier::external_type_specification]
pub struct ExIntervalUnit(IntervalUnit);

/// `arrow_schema::UnionMode`: how a union is laid out.
#[verifier::external_type_specification]
pub struct ExUnionMode(UnionMode);

/// `arrow_schema::DataType`: a type.
#[verifier::external_type_specification]
pub struct ExArrowDataType(ArrowDataType);

/// `arrow_schema::Field`: a named, typed column or child.
#[verifier::external_type_specification]
#[verifier::external_body]
pub struct ExArrowField(ArrowField);

/// `arrow_schema::Fields`: a list of fields.
#[verifier::external_type_specification]
#[verifier::external_body]
pub struct ExArrowFields(ArrowFields);

/// `arrow_schema::UnionFields`: the fields of a union.
#[verifier::external_type_specification]
#[verifier::external_body]
pub struct ExUnionFields(UnionFields);

/// `arrow_schema::Schema`: fields and named values.
#[verifier::external_type_specification]
#[verifier::external_body]
pub struct ExArrowSchema(ArrowSchema);

/// `arrow_schema::ArrowError`: what arrow refuses something with.
#[verifier::external_type_specification]
#[verifier::external_body]
pub struct ExArrowError(ArrowError);

/// What an arrow type says.
pub enum ArrowTypeV {
    Null,
    Boolean,
    Int8,
    Int16,
    Int32,
    Int64,
    UInt8,
    UInt16,
    UInt32,
    UInt64,
    Float16,
    Float32,
    Float64,
    Binary,
    LargeBinary,
    Utf8,
    LargeUtf8,
    /// Nanoseconds, without a zone.
    Timestamp,
    /// Nanoseconds.
    Duration,
    FixedSizeBinary(i32),
    FixedSizeList(Box<ArrowFieldV>, i32),
    List(Box<ArrowFieldV>),
    Struct(Seq<ArrowFieldV>),
    /// A time type of another unit, or with a zone.
    OtherTime { kind: Seq<char>, text: Seq<char> },
    /// A type outside the closed set.
    Other { text: Seq<char> },
}

/// What an arrow field says.
pub struct ArrowFieldV {
    /// The name.
    pub name: Seq<char>,
    /// The type.
    pub data_type: ArrowTypeV,
    /// Whether there may be nulls.
    pub nullable: bool,
    /// The named values.
    pub metadata: Map<Seq<char>, Seq<char>>,
}

/// The text that `arrow_schema::DataType` writes of itself.
pub uninterp spec fn type_text(t: ArrowDataType) -> Seq<char>;

/// What an `arrow_schema::Field` holds.
pub uninterp spec fn field_view(f: ArrowField) -> ArrowFieldV;

/// What an `arrow_schema::Fields` holds.
pub uninterp spec fn fields_view(fs: ArrowFields) -> Seq<ArrowFieldV>;

/// The fields that an `arrow_schema::Schema` holds.
pub uninterp spec fn schema_fields(s: ArrowSchema) -> Seq<ArrowFieldV>;

/// The named values that an `arrow_schema::Schema` holds.
pub uninterp spec fn schema_metadata(s: ArrowSchema) -> Map<Seq<char>, Seq<char>>;

/// The text that an `arrow_schema::ArrowError` writes of itself; none for an
/// external error, whose text is another type's.
pub uninterp spec fn own_text(e: ArrowError) -> Option<Seq<char>>;

/// What an arrow type says.
pub open spec fn type_view(t: ArrowDataType) -> ArrowTypeV {
    match t {
        ArrowDataType::Null => ArrowTypeV::Null,
        ArrowDataType::Boolean => ArrowTypeV::Boolean,
        ArrowDataType::Int8 => ArrowTypeV::Int8,
        ArrowDataType::Int16 => ArrowTypeV::Int16,
        ArrowDataType::Int32 => ArrowTypeV::Int32,
        ArrowDataType::Int64 => ArrowTypeV::Int64,
        ArrowDataType::UInt8 => ArrowTypeV::UInt8,
        ArrowDataType::UInt16 => ArrowTypeV::UInt16,
        ArrowDataType::UInt32 => ArrowTypeV::UInt32,
        ArrowDataType::UInt64 => ArrowTypeV::UInt64,
        ArrowDataType::Float16 => ArrowTypeV::Float16,
        ArrowDataType::Float32 => ArrowTypeV::Float32,
        ArrowDataType::Float64 => ArrowTypeV::Float64,
        ArrowDataType::Binary => ArrowTypeV::Binary,
        ArrowDataType::LargeBinary => ArrowTypeV::LargeBinary,
        ArrowDataType::Utf8 => ArrowTypeV::Utf8,
        ArrowDataType::LargeUtf8 => ArrowTypeV::LargeUtf8,
        ArrowDataType::Timestamp(unit, zone) => if unit == TimeUnit::Nanosecond && zone is None {
            ArrowTypeV::Timestamp
        } else {
            ArrowTypeV::OtherTime { kind: "Timestamp"@, text: type_text(t) }
        },
        ArrowDataType::Duration(unit) => if unit == TimeUnit::Nanosecond {
            ArrowTypeV::Duration
        } else {
            ArrowTypeV::OtherTime { kind: "Duration"@, text: type_text(t) }
        },
        ArrowDataType::FixedSizeBinary(n) => ArrowTypeV::FixedSizeBinary(n),
        ArrowDataType::FixedSizeList(f, n) => ArrowTypeV::FixedSizeList(Box::new(field_view(*f)), n),
        ArrowDataType::List(f) => ArrowTypeV::List(Box::new(field_view(*f))),
        ArrowDataType::Struct(fs) => ArrowTypeV::Struct(fields_view(fs)),
        _ => ArrowTypeV::Other { text: type_text(t) },
    }
}

/// What a list of arrow fields says.
pub open spec fn field_views(fields: Seq<ArrowField>) -> Seq<ArrowFieldV> {
    Seq::new(fields.len(), |i: int| field_view(fields[i]))
}

/// The named values of a list of entries, later ones over earlier ones.
pub open spec fn entries_map(entries: Seq<(Seq<char>, Seq<char>)>) -> Map<Seq<char>, Seq<char>>
    decreases entries.len(),
{
    if entries.len() == 0 {
        Map::empty()
    } else {
        entries_map(entries.drop_last()).insert(entries.last().0, entries.last().1)
    }
}

/// No name stands twice.
pub open spec fn names_distinct(entries: Seq<(Seq<char>, Seq<char>)>) -> bool {
    forall|i: int, j: int|
        #![trigger entries[i], entries[j]]
        0 <= i < j < entries.len() ==> entries[i].0 != entries[j].0
}

/// `ToString` of `arrow_schema::DataType`, through its `Display`: the text has
/// the name `type_text`.
#[verifier::external_body]
pub(crate) fn render_type(data_type: &ArrowDataType) -> (r: String)
    ensures
        r@ == type_text(*data_type),
{
    data_type.to_string()
}

/// `Clone` of `arrow_schema::DataType`: the same type.
pub assume_specification[ <ArrowDataType as Clone>::clone ](t: &ArrowDataType) -> (r: ArrowDataType)
    ensures
        r == *t,
;

/// `ToString` of `arrow_schema::ArrowError`, through its `Display`: where arrow
/// itself writes the text, it has the name `own_text`. An external error is
/// written by the `Display` of the error inside, which may be any: of its text
/// nothing is said, and that it comes at all is up to that code.
#[verifier::external_body]
pub(crate) fn render_error(error: &ArrowError) -> (r: String)
    ensures
        own_text(*error) matches Some(text) ==> r@ == text,
{
    error.to_string()
}

/// `arrow_schema::Field::new`: a field of the name, type and nullability given,
/// without named values.
#[verifier::external_body]
pub(crate) fn make_field(name: &str, data_type: ArrowDataType, nullable: bool) -> (r: ArrowField)
    ensures
        field_view(r) == (ArrowFieldV {
            name: name@,
            data_type: type_view(data_type),
            nullable,
            metadata: Map::empty(),
        }),
{
    ArrowField::new(name, data_type, nullable)
}

/// `arrow_schema::Field::name`: the field's name.
pub assume_specification[ ArrowField::name ](f: &ArrowField) -> (r: &String)
    ensures
        r@ == field_view(*f).name,
;

/// `arrow_schema::Field::data_type`: the field's type.
#[verifier::external_body]
pub(crate) fn field_type(field: &ArrowField) -> (r: &ArrowDataType)
    ensures
        type_view(*r) == field_view(*field).data_type,
{
    field.data_type()
}

/// `arrow_schema::Field::is_nullable`: whether the field may have nulls.
pub assume_specification[ ArrowField::is_nullable ](f: &ArrowField) -> (r: bool)
    ensures
        r == field_view(*f).nullable,
;

/// `arrow_schema::Fields::from` of a vector: the fields in their order.
#[verifier::external_body]
pub(crate) fn make_fields(fields: Vec<ArrowField>) -> (r: ArrowFields)
    ensures
        fields_view(r) == field_views(fields@),
{
    ArrowFields::from(fields)
}

/// The length of an `arrow_schema::Fields`, by its `Deref` to a slice.
#[verifier::external_body]
pub(crate) fn field_count(fields: &ArrowFields) -> (r: usize)
    ensures
        r == fields_view(*fields).len(),
{
    fields.len()
}

/// One field of an `arrow_schema::Fields`, by its `Deref` to a slice. It panics
/// past the last.
#[verifier::external_body]
pub(crate) fn field_at(fields: &ArrowFields, index: usize) -> (r: &ArrowField)
    requires
        index < fields_view(*fields).len(),
    ensures
        field_view(*r) == fields_view(*fields)[index as int],
{
    fields[index].as_ref()
}

/// `arrow_schema::Schema::new_with_metadata`: a schema of the fields and named
/// values given.
#[verifier::external_body]
pub(crate) fn make_schema(fields: ArrowFields, entries: Vec<(String, String)>) -> (r: ArrowSchema)
    requires
        names_distinct(entries_model(entries@)),
    ensures
        schema_fields(r) == fields_view(fields),
        schema_metadata(r) == entries_map(entries_model(entries@)),
{
    ArrowSchema::new_with_metadata(fields, entries.into_iter().collect())
}

/// `arrow_schema::Schema::fields`: the schema's fields.
pub assume_specification[ ArrowSchema::fields ](s: &ArrowSchema) -> (r: &ArrowFields)
    ensures
        fields_view(*r) == schema_fields(*s),
;

/// `arrow_schema::Schema::metadata`: the schema's named values, each once, in
/// an order that is left open.
#[verifier::external_body]
pub(crate) fn schema_entries(schema: &ArrowSchema) -> (r: Vec<(String, String)>)
    ensures
        names_distinct(entries_model(r@)),
        entries_map(entries_model(r@)) == schema_metadata(*schema),
{
    schema.metadata().iter().map(|(k, v)| (k.clone(), v.clone())).collect()
}

} // verus!
