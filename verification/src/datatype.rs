//! The closed type set: data types, fields, schemas.
//!
//! Each type has a model: the same tree with texts as character sequences and
//! lists as sequences. Contracts compare models.
use vstd::prelude::*;
use crate::lex::text_equal;

verus! {

/// What a [`DataType`] says.
pub enum TypeModel {
    Null,
    Bool,
    Int8,
    Int16,
    Int32,
    Int64,
    UInt8,
    UInt16,
    UInt32,
    UInt64,
    Float16,
    Float32,
    Float64,
    Binary,
    LargeBinary,
    Utf8,
    LargeUtf8,
    Timestamp,
    Duration,
    FixedSizeBinary(i32),
    FixedSizeList(Box<FieldModel>, i32),
    List(Box<FieldModel>),
    Struct(Seq<FieldModel>),
}

/// What a [`Field`] says.
pub struct FieldModel {
    pub name: Seq<char>,
    pub data_type: TypeModel,
    pub nullable: bool,
}

/// What a [`Schema`] says: its fields and its metadata entries, sorted by key.
pub struct SchemaModel {
    pub fields: Seq<FieldModel>,
    pub metadata: Seq<(Seq<char>, Seq<char>)>,
}

/// The type of a column.
#[derive(Debug, PartialEq, Eq)]
#[non_exhaustive]
pub enum DataType {
    /// Every slot null, no buffers.
    Null,
    /// One bit per value.
    Bool,
    /// Signed 8-bit integers.
    Int8,
    /// Signed 16-bit integers.
    Int16,
    /// Signed 32-bit integers.
    Int32,
    /// Signed 64-bit integers.
    Int64,
    /// Unsigned 8-bit integers.
    UInt8,
    /// Unsigned 16-bit integers.
    UInt16,
    /// Unsigned 32-bit integers.
    UInt32,
    /// Unsigned 64-bit integers.
    UInt64,
    /// IEEE 754 binary16.
    Float16,
    /// IEEE 754 binary32.
    Float32,
    /// IEEE 754 binary64.
    Float64,
    /// Byte strings, 32-bit offsets.
    Binary,
    /// Byte strings, 64-bit offsets.
    LargeBinary,
    /// Text, 32-bit offsets.
    Utf8,
    /// Text, 64-bit offsets.
    LargeUtf8,
    /// Nanoseconds since the epoch.
    Timestamp,
    /// A span of nanoseconds.
    Duration,
    /// Byte strings of one fixed length.
    FixedSizeBinary(i32),
    /// Lists of one fixed length.
    FixedSizeList(Box<Field>, i32),
    /// Lists of varying length, 32-bit offsets.
    List(Box<Field>),
    /// One value per named child.
    Struct(Vec<Field>),
}

/// A named, typed column or child.
#[derive(Debug, PartialEq, Eq)]
pub struct Field {
    name: String,
    data_type: DataType,
    nullable: bool,
}

/// The models of a list of fields.
pub open spec fn fields_model(fields: Seq<Field>) -> Seq<FieldModel> {
    Seq::new(fields.len(), |i: int| fields[i]@)
}

impl DataType {
    /// The type's model.
    pub open spec fn model(self) -> TypeModel
        decreases self,
    {
        match self {
            DataType::Null => TypeModel::Null,
            DataType::Bool => TypeModel::Bool,
            DataType::Int8 => TypeModel::Int8,
            DataType::Int16 => TypeModel::Int16,
            DataType::Int32 => TypeModel::Int32,
            DataType::Int64 => TypeModel::Int64,
            DataType::UInt8 => TypeModel::UInt8,
            DataType::UInt16 => TypeModel::UInt16,
            DataType::UInt32 => TypeModel::UInt32,
            DataType::UInt64 => TypeModel::UInt64,
            DataType::Float16 => TypeModel::Float16,
            DataType::Float32 => TypeModel::Float32,
            DataType::Float64 => TypeModel::Float64,
            DataType::Binary => TypeModel::Binary,
            DataType::LargeBinary => TypeModel::LargeBinary,
            DataType::Utf8 => TypeModel::Utf8,
            DataType::LargeUtf8 => TypeModel::LargeUtf8,
            DataType::Timestamp => TypeModel::Timestamp,
            DataType::Duration => TypeModel::Duration,
            DataType::FixedSizeBinary(n) => TypeModel::FixedSizeBinary(n),
            DataType::FixedSizeList(f, n) => TypeModel::FixedSizeList(Box::new(f.model()), n),
            DataType::List(f) => TypeModel::List(Box::new(f.model())),
            DataType::Struct(fs) => TypeModel::Struct(
                Seq::new(
                    fs@.len(),
                    |i: int|
                        if 0 <= i < fs@.len() {
                            fs@[i].model()
                        } else {
                            arbitrary()
                        },
                ),
            ),
        }
    }
}

impl Field {
    /// The field's model.
    pub closed spec fn model(self) -> FieldModel
        decreases self,
    {
        FieldModel { name: self.name@, data_type: self.data_type.model(), nullable: self.nullable }
    }
}

impl View for DataType {
    type V = TypeModel;

    open spec fn view(&self) -> TypeModel {
        self.model()
    }
}

impl View for Field {
    type V = FieldModel;

    open spec fn view(&self) -> FieldModel {
        self.model()
    }
}

/// The model of a struct type lists the models of its fields.
pub broadcast proof fn lemma_struct_model(fields: Vec<Field>)
    ensures
        #[trigger] DataType::Struct(fields).model() == TypeModel::Struct(fields_model(fields@)),
{
    assert(DataType::Struct(fields).model()->Struct_0 =~= fields_model(fields@));
}

/// The children of a type, in order.
pub open spec fn children_model(t: TypeModel) -> Seq<FieldModel> {
    match t {
        TypeModel::FixedSizeList(f, _) => seq![*f],
        TypeModel::List(f) => seq![*f],
        TypeModel::Struct(fs) => fs,
        _ => Seq::empty(),
    }
}

/// Whether two types describe the same buffers: names and nullability of
/// children do not count, sizes do.
pub open spec fn layout_same(a: TypeModel, b: TypeModel) -> bool
    decreases a,
{
    match (a, b) {
        (TypeModel::Null, TypeModel::Null) => true,
        (TypeModel::Bool, TypeModel::Bool) => true,
        (TypeModel::Int8, TypeModel::Int8) => true,
        (TypeModel::Int16, TypeModel::Int16) => true,
        (TypeModel::Int32, TypeModel::Int32) => true,
        (TypeModel::Int64, TypeModel::Int64) => true,
        (TypeModel::UInt8, TypeModel::UInt8) => true,
        (TypeModel::UInt16, TypeModel::UInt16) => true,
        (TypeModel::UInt32, TypeModel::UInt32) => true,
        (TypeModel::UInt64, TypeModel::UInt64) => true,
        (TypeModel::Float16, TypeModel::Float16) => true,
        (TypeModel::Float32, TypeModel::Float32) => true,
        (TypeModel::Float64, TypeModel::Float64) => true,
        (TypeModel::Binary, TypeModel::Binary) => true,
        (TypeModel::LargeBinary, TypeModel::LargeBinary) => true,
        (TypeModel::Utf8, TypeModel::Utf8) => true,
        (TypeModel::LargeUtf8, TypeModel::LargeUtf8) => true,
        (TypeModel::Timestamp, TypeModel::Timestamp) => true,
        (TypeModel::Duration, TypeModel::Duration) => true,
        (TypeModel::FixedSizeBinary(n), TypeModel::FixedSizeBinary(m)) => n == m,
        (TypeModel::FixedSizeList(f, n), TypeModel::FixedSizeList(g, m)) => n == m && layout_same(
            f.data_type,
            g.data_type,
        ),
        (TypeModel::List(f), TypeModel::List(g)) => layout_same(f.data_type, g.data_type),
        (TypeModel::Struct(fs), TypeModel::Struct(gs)) => fs.len() == gs.len() && forall|i: int|
            #![trigger fs[i]]
            0 <= i < fs.len() ==> layout_same(fs[i].data_type, gs[i].data_type),
        _ => false,
    }
}

/// The byte width of one value, for the types whose values have one.
pub open spec fn primitive_width_model(t: TypeModel) -> Option<nat> {
    match t {
        TypeModel::Int8 | TypeModel::UInt8 => Some(1),
        TypeModel::Int16 | TypeModel::UInt16 | TypeModel::Float16 => Some(2),
        TypeModel::Int32 | TypeModel::UInt32 | TypeModel::Float32 => Some(4),
        TypeModel::Int64 | TypeModel::UInt64 | TypeModel::Float64 | TypeModel::Timestamp
        | TypeModel::Duration => Some(8),
        _ => None,
    }
}

/// Whether the type has children.
pub open spec fn is_nested_model(t: TypeModel) -> bool {
    t is FixedSizeList || t is List || t is Struct
}

/// Copies a list of fields.
pub fn clone_fields(fields: &Vec<Field>) -> (r: Vec<Field>)
    ensures
        fields_model(r@) == fields_model(fields@),
    decreases fields,
{
    let mut out: Vec<Field> = Vec::with_capacity(fields.len());
    let mut i: usize = 0;
    while i < fields.len()
        invariant
            0 <= i <= fields@.len(),
            out@.len() == i,
            forall|k: int| 0 <= k < i ==> out@[k]@ == fields@[k]@,
        decreases fields@.len() - i,
    {
        let f = clone_field(&fields[i]);
        out.push(f);
        i = i + 1;
    }
    assert(fields_model(out@) =~= fields_model(fields@));
    out
}

/// Copies a field.
pub fn clone_field(field: &Field) -> (r: Field)
    ensures
        r@ == field@,
    decreases field,
{
    Field { name: field.name.clone(), data_type: clone_type(&field.data_type), nullable: field.nullable }
}

/// Copies a type.
pub fn clone_type(t: &DataType) -> (r: DataType)
    ensures
        r@ == t@,
    decreases t,
{
    broadcast use lemma_struct_model;
    match t {
        DataType::Null => DataType::Null,
        DataType::Bool => DataType::Bool,
        DataType::Int8 => DataType::Int8,
        DataType::Int16 => DataType::Int16,
        DataType::Int32 => DataType::Int32,
        DataType::Int64 => DataType::Int64,
        DataType::UInt8 => DataType::UInt8,
        DataType::UInt16 => DataType::UInt16,
        DataType::UInt32 => DataType::UInt32,
        DataType::UInt64 => DataType::UInt64,
        DataType::Float16 => DataType::Float16,
        DataType::Float32 => DataType::Float32,
        DataType::Float64 => DataType::Float64,
        DataType::Binary => DataType::Binary,
        DataType::LargeBinary => DataType::LargeBinary,
        DataType::Utf8 => DataType::Utf8,
        DataType::LargeUtf8 => DataType::LargeUtf8,
        DataType::Timestamp => DataType::Timestamp,
        DataType::Duration => DataType::Duration,
        DataType::FixedSizeBinary(n) => DataType::FixedSizeBinary(*n),
        DataType::FixedSizeList(f, n) => DataType::FixedSizeList(Box::new(clone_field(f)), *n),
        DataType::List(f) => DataType::List(Box::new(clone_field(f))),
        DataType::Struct(fs) => DataType::Struct(clone_fields(fs)),
    }
}

impl Clone for DataType {
    fn clone(&self) -> (r: Self)
        ensures
            r@ == self@,
    {
        clone_type(self)
    }
}

impl Clone for Field {
    fn clone(&self) -> (r: Self)
        ensures
            r@ == self@,
    {
        clone_field(self)
    }
}

/// Whether two types are the same, child names and nullability included.
pub fn type_equal(a: &DataType, b: &DataType) -> (r: bool)
    ensures
        r == (a@ == b@),
    decreases a,
{
    broadcast use lemma_struct_model;
    match (a, b) {
        (DataType::Null, DataType::Null) => true,
        (DataType::Bool, DataType::Bool) => true,
        (DataType::Int8, DataType::Int8) => true,
        (DataType::Int16, DataType::Int16) => true,
        (DataType::Int32, DataType::Int32) => true,
        (DataType::Int64, DataType::Int64) => true,
        (DataType::UInt8, DataType::UInt8) => true,
        (DataType::UInt16, DataType::UInt16) => true,
        (DataType::UInt32, DataType::UInt32) => true,
        (DataType::UInt64, DataType::UInt64) => true,
        (DataType::Float16, DataType::Float16) => true,
        (DataType::Float32, DataType::Float32) => true,
        (DataType::Float64, DataType::Float64) => true,
        (DataType::Binary, DataType::Binary) => true,
        (DataType::LargeBinary, DataType::LargeBinary) => true,
        (DataType::Utf8, DataType::Utf8) => true,
        (DataType::LargeUtf8, DataType::LargeUtf8) => true,
        (DataType::Timestamp, DataType::Timestamp) => true,
        (DataType::Duration, DataType::Duration) => true,
        (DataType::FixedSizeBinary(n), DataType::FixedSizeBinary(m)) => *n == *m,
        (DataType::FixedSizeList(f, n), DataType::FixedSizeList(g, m)) => *n == *m && field_equal(f, g),
        (DataType::List(f), DataType::List(g)) => field_equal(f, g),
        (DataType::Struct(fs), DataType::Struct(gs)) => fields_equal(fs, gs),
        _ => false,
    }
}

/// Whether two fields are the same.
pub fn field_equal(a: &Field, b: &Field) -> (r: bool)
    ensures
        r == (a@ == b@),
    decreases a,
{
    a.nullable == b.nullable && text_equal(a.name.as_str(), b.name.as_str()) && type_equal(
        &a.data_type,
        &b.data_type,
    )
}

/// Whether two lists of fields are the same.
pub fn fields_equal(a: &Vec<Field>, b: &Vec<Field>) -> (r: bool)
    ensures
        r == (fields_model(a@) == fields_model(b@)),
    decreases a,
{
    if a.len() != b.len() {
        assert(fields_model(a@).len() != fields_model(b@).len());
        return false;
    }
    let mut i: usize = 0;
    while i < a.len()
        invariant
            0 <= i <= a@.len(),
            a@.len() == b@.len(),
            forall|k: int| 0 <= k < i ==> a@[k]@ == b@[k]@,
        decreases a@.len() - i,
    {
        if !field_equal(&a[i], &b[i]) {
            assert(fields_model(a@)[i as int] != fields_model(b@)[i as int]);
            return false;
        }
        i = i + 1;
    }
    assert(fields_model(a@) =~= fields_model(b@));
    true
}

/// Whether two lists of fields describe the same buffers.
pub open spec fn fields_layout_same(a: Seq<FieldModel>, b: Seq<FieldModel>) -> bool {
    a.len() == b.len() && forall|i: int|
        #![trigger a[i]]
        0 <= i < a.len() ==> layout_same(a[i].data_type, b[i].data_type)
}

fn types_layout_equal(a: &DataType, b: &DataType) -> (r: bool)
    ensures
        r == layout_same(a@, b@),
    decreases a,
{
    broadcast use lemma_struct_model;
    match (a, b) {
        (DataType::Null, DataType::Null) => true,
        (DataType::Bool, DataType::Bool) => true,
        (DataType::Int8, DataType::Int8) => true,
        (DataType::Int16, DataType::Int16) => true,
        (DataType::Int32, DataType::Int32) => true,
        (DataType::Int64, DataType::Int64) => true,
        (DataType::UInt8, DataType::UInt8) => true,
        (DataType::UInt16, DataType::UInt16) => true,
        (DataType::UInt32, DataType::UInt32) => true,
        (DataType::UInt64, DataType::UInt64) => true,
        (DataType::Float16, DataType::Float16) => true,
        (DataType::Float32, DataType::Float32) => true,
        (DataType::Float64, DataType::Float64) => true,
        (DataType::Binary, DataType::Binary) => true,
        (DataType::LargeBinary, DataType::LargeBinary) => true,
        (DataType::Utf8, DataType::Utf8) => true,
        (DataType::LargeUtf8, DataType::LargeUtf8) => true,
        (DataType::Timestamp, DataType::Timestamp) => true,
        (DataType::Duration, DataType::Duration) => true,
        (DataType::FixedSizeBinary(n), DataType::FixedSizeBinary(m)) => *n == *m,
        (DataType::FixedSizeList(f, n), DataType::FixedSizeList(g, m)) => *n == *m && types_layout_equal(
            &f.data_type,
            &g.data_type,
        ),
        (DataType::List(f), DataType::List(g)) => types_layout_equal(&f.data_type, &g.data_type),
        (DataType::Struct(fs), DataType::Struct(gs)) => fields_layout_equal(fs, gs),
        _ => false,
    }
}

pub(crate) fn fields_layout_equal(a: &Vec<Field>, b: &Vec<Field>) -> (r: bool)
    ensures
        r == fields_layout_same(fields_model(a@), fields_model(b@)),
    decreases a,
{
    if a.len() != b.len() {
        return false;
    }
    let mut i: usize = 0;
    while i < a.len()
        invariant
            0 <= i <= a@.len(),
            a@.len() == b@.len(),
            forall|k: int|
                #![trigger fields_model(a@)[k]]
                0 <= k < i ==> layout_same(
                    fields_model(a@)[k].data_type,
                    fields_model(b@)[k].data_type,
                ),
        decreases a@.len() - i,
    {
        let same = types_layout_equal(&a[i].data_type, &b[i].data_type);
        assert(fields_model(a@)[i as int] == a@[i as int]@);
        assert(fields_model(b@)[i as int] == b@[i as int]@);
        if !same {
            return false;
        }
        i = i + 1;
    }
    true
}

impl DataType {
    /// A list of `field`.
    pub fn list(field: Field) -> (r: DataType)
        ensures
            r@ == TypeModel::List(Box::new(field@)),
    {
        DataType::List(Box::new(field))
    }

    /// A list of exactly `size` `field`s.
    pub fn fixed_size_list(field: Field, size: i32) -> (r: DataType)
        ensures
            r@ == TypeModel::FixedSizeList(Box::new(field@), size),
    {
        DataType::FixedSizeList(Box::new(field), size)
    }

    /// A struct of `fields`.
    pub fn strukt(fields: Vec<Field>) -> (r: DataType)
        ensures
            r@ == TypeModel::Struct(fields_model(fields@)),
    {
        broadcast use lemma_struct_model;
        DataType::Struct(fields)
    }

    /// Whether two types describe the same buffers.
    pub fn layout_eq(&self, other: &DataType) -> (r: bool)
        ensures
            r == layout_same(self@, other@),
    {
        types_layout_equal(self, other)
    }

    /// Whether the type has children.
    pub fn is_nested(&self) -> (r: bool)
        ensures
            r == is_nested_model(self@),
    {
        match self {
            DataType::FixedSizeList(_, _) | DataType::List(_) | DataType::Struct(_) => true,
            _ => false,
        }
    }

    /// The byte width of one value, for the types whose values have one.
    pub fn primitive_width(&self) -> (r: Option<usize>)
        ensures
            match r {
                Some(w) => primitive_width_model(self@) == Some(w as nat),
                None => primitive_width_model(self@) is None,
            },
    {
        match self {
            DataType::Int8 | DataType::UInt8 => Some(1),
            DataType::Int16 | DataType::UInt16 | DataType::Float16 => Some(2),
            DataType::Int32 | DataType::UInt32 | DataType::Float32 => Some(4),
            DataType::Int64 | DataType::UInt64 | DataType::Float64 | DataType::Timestamp
            | DataType::Duration => Some(8),
            _ => None,
        }
    }

    /// The children of the type, in order.
    pub fn children(&self) -> (r: Vec<&Field>)
        ensures
            Seq::new(r@.len(), |i: int| r@[i]@) == children_model(self@),
            forall|i: int| 0 <= i < r@.len() ==> #[trigger] decreases_to!(self => r@[i]),
    {
        broadcast use lemma_struct_model;
        let mut out: Vec<&Field> = Vec::new();
        match self {
            DataType::FixedSizeList(f, _) => {
                out.push(f);
            },
            DataType::List(f) => {
                out.push(f);
            },
            DataType::Struct(fs) => {
                let mut i: usize = 0;
                while i < fs.len()
                    invariant
                        0 <= i <= fs@.len(),
                        out@.len() == i,
                        forall|k: int| 0 <= k < i ==> *(#[trigger] out@[k]) == fs@[k],
                    decreases fs@.len() - i,
                {
                    out.push(&fs[i]);
                    i = i + 1;
                }
            },
            _ => {},
        }
        assert(Seq::new(out@.len(), |i: int| out@[i]@) =~= children_model(self@));
        out
    }
}

impl Field {
    /// A field.
    pub fn new(name: &str, data_type: DataType, nullable: bool) -> (r: Field)
        ensures
            r@ == (FieldModel { name: name@, data_type: data_type@, nullable }),
    {
        Field { name: name.to_owned(), data_type, nullable }
    }

    /// A field that admits no nulls.
    pub fn required(name: &str, data_type: DataType) -> (r: Field)
        ensures
            r@ == (FieldModel { name: name@, data_type: data_type@, nullable: false }),
    {
        Field::new(name, data_type, false)
    }

    /// A field that admits nulls.
    pub fn nullable(name: &str, data_type: DataType) -> (r: Field)
        ensures
            r@ == (FieldModel { name: name@, data_type: data_type@, nullable: true }),
    {
        Field::new(name, data_type, true)
    }

    /// The field's name.
    pub fn name(&self) -> (r: &str)
        ensures
            r@ == self@.name,
    {
        self.name.as_str()
    }

    /// The field's type.
    pub fn data_type(&self) -> (r: &DataType)
        ensures
            r@ == self@.data_type,
            decreases_to!(self => r),
    {
        &self.data_type
    }

    /// Whether the field admits nulls.
    pub fn is_nullable(&self) -> (r: bool)
        ensures
            r == self@.nullable,
    {
        self.nullable
    }
}

} // verus!
