//! What the bytes of a schema say, read by the layout of the format alone.
//!
//! A table starts with the distance back to its vtable. The vtable starts with
//! its own length, and from its fifth byte on gives for each field the distance
//! from the table's start, zero where the field is absent. References are
//! distances forward from where they stand. Text and vectors start with their
//! length.
use vstd::prelude::*;
use vstd::bytes::{spec_u16_from_le_bytes, spec_u32_from_le_bytes, spec_u64_from_le_bytes};
use vstd::utf8::decode_utf8;
use crate::datatype::{FieldModel, SchemaModel, TypeModel};
use crate::ipc::error::IpcErrorModel;
use crate::ipc::fb::reader::{root_at, table_at, SpanModel, TableModel};
use crate::ipc::schema::{
    children_at, entries_at, field_at, fields_at, schema_at, schema_bytes, schema_of_bytes, text_field,
    type_at,
};
use crate::ipc::schema_laws::{encodable, law_schema_round_trips, schema_reachable};
use crate::metadata_laws::law_setting_sets;
use crate::schema::keys_ascending;

verus! {

/// The 16-bit integer at a position.
pub open spec fn word16(b: Seq<u8>, at: int) -> u16 {
    spec_u16_from_le_bytes(b.subrange(at, at + 2))
}

/// The 32-bit integer at a position.
pub open spec fn word32(b: Seq<u8>, at: int) -> u32 {
    spec_u32_from_le_bytes(b.subrange(at, at + 4))
}

/// The 64-bit integer at a position.
pub open spec fn word64(b: Seq<u8>, at: int) -> u64 {
    spec_u64_from_le_bytes(b.subrange(at, at + 8))
}

/// Where a table's field `n` lies, if it is there.
pub open spec fn slot(b: Seq<u8>, table: int, n: int) -> Option<int> {
    let vtable = table - word32(b, table) as i32;
    if 4 + 2 * n + 2 > word16(b, vtable) || word16(b, vtable + 4 + 2 * n) == 0 {
        None
    } else {
        Some(table + word16(b, vtable + 4 + 2 * n))
    }
}

/// What a reference refers to.
pub open spec fn referred(b: Seq<u8>, at: int) -> int {
    at + word32(b, at)
}

/// The byte in field `n`, zero where it is absent.
pub open spec fn byte_in(b: Seq<u8>, table: int, n: int) -> u8 {
    match slot(b, table, n) {
        Some(at) => b[at],
        None => 0,
    }
}

/// The 16-bit integer in field `n`.
pub open spec fn short_in(b: Seq<u8>, table: int, n: int, absent: i16) -> i16 {
    match slot(b, table, n) {
        Some(at) => word16(b, at) as i16,
        None => absent,
    }
}

/// The 32-bit integer in field `n`, zero where it is absent.
pub open spec fn int_in(b: Seq<u8>, table: int, n: int) -> i32 {
    match slot(b, table, n) {
        Some(at) => word32(b, at) as i32,
        None => 0,
    }
}

/// The 64-bit integer in field `n`, zero where it is absent.
pub open spec fn long_in(b: Seq<u8>, table: int, n: int) -> i64 {
    match slot(b, table, n) {
        Some(at) => word64(b, at) as i64,
        None => 0,
    }
}

/// The text in field `n`, empty where it is absent.
pub open spec fn text_in(b: Seq<u8>, table: int, n: int) -> Seq<char> {
    match slot(b, table, n) {
        Some(at) => {
            let p = referred(b, at);
            decode_utf8(b.subrange(p + 4, p + 4 + word32(b, p)))
        },
        None => Seq::empty(),
    }
}

/// The table in field `n`.
pub open spec fn table_in(b: Seq<u8>, table: int, n: int) -> int {
    match slot(b, table, n) {
        Some(at) => referred(b, at),
        None => 0,
    }
}

/// How many elements the vector in field `n` has, none where it is absent.
pub open spec fn count_in(b: Seq<u8>, table: int, n: int) -> int {
    match slot(b, table, n) {
        Some(at) => word32(b, referred(b, at)) as int,
        None => 0,
    }
}

/// Where element `i` of the vector in field `n` lies, for elements of a width.
pub open spec fn element_in(b: Seq<u8>, table: int, n: int, width: int, i: int) -> int {
    referred(b, slot(b, table, n)->0) + 4 + i * width
}

/// Whether the table of a field says a type: its third field the kind, its fourth
/// the table of that kind, its sixth the children.
pub open spec fn says_type(b: Seq<u8>, table: int, t: TypeModel) -> bool
    decreases t,
{
    let code = byte_in(b, table, 2);
    let kind = table_in(b, table, 3);
    let width = int_in(b, kind, 0);
    let signed = byte_in(b, kind, 1) != 0;
    &&& slot(b, table, 3) is Some
    &&& match t {
        TypeModel::Null => code == 1,
        TypeModel::Int8 => code == 2 && width == 8 && signed,
        TypeModel::Int16 => code == 2 && width == 16 && signed,
        TypeModel::Int32 => code == 2 && width == 32 && signed,
        TypeModel::Int64 => code == 2 && width == 64 && signed,
        TypeModel::UInt8 => code == 2 && width == 8 && !signed,
        TypeModel::UInt16 => code == 2 && width == 16 && !signed,
        TypeModel::UInt32 => code == 2 && width == 32 && !signed,
        TypeModel::UInt64 => code == 2 && width == 64 && !signed,
        TypeModel::Float16 => code == 3 && short_in(b, kind, 0, 0) == 0,
        TypeModel::Float32 => code == 3 && short_in(b, kind, 0, 0) == 1,
        TypeModel::Float64 => code == 3 && short_in(b, kind, 0, 0) == 2,
        TypeModel::Binary => code == 4,
        TypeModel::Utf8 => code == 5,
        TypeModel::Bool => code == 6,
        TypeModel::Timestamp => code == 10 && short_in(b, kind, 0, 0) == 3 && text_in(b, kind, 1).len() == 0,
        TypeModel::List(f) => code == 12 && count_in(b, table, 5) == 1 && {
            let child = referred(b, element_in(b, table, 5, 4, 0));
            &&& f.name == text_in(b, child, 0)
            &&& f.nullable == (byte_in(b, child, 1) != 0)
            &&& says_type(b, child, f.data_type)
        },
        TypeModel::Struct(fs) => code == 13 && count_in(b, table, 5) == fs.len() && forall|i: int|
            #![trigger fs[i]]
            0 <= i < fs.len() ==> {
                let child = referred(b, element_in(b, table, 5, 4, i));
                &&& fs[i].name == text_in(b, child, 0)
                &&& fs[i].nullable == (byte_in(b, child, 1) != 0)
                &&& says_type(b, child, fs[i].data_type)
            },
        TypeModel::FixedSizeBinary(w) => code == 15 && width == w,
        TypeModel::FixedSizeList(f, n) => code == 16 && width == n && count_in(b, table, 5) == 1 && {
            let child = referred(b, element_in(b, table, 5, 4, 0));
            &&& f.name == text_in(b, child, 0)
            &&& f.nullable == (byte_in(b, child, 1) != 0)
            &&& says_type(b, child, f.data_type)
        },
        TypeModel::Duration => code == 18 && short_in(b, kind, 0, 1) == 3,
        TypeModel::LargeBinary => code == 19,
        TypeModel::LargeUtf8 => code == 20,
    }
}

/// Whether a table says a field: its first field the name, its second whether
/// nulls are allowed, no dictionary, and the type.
pub open spec fn says_field(b: Seq<u8>, table: int, f: FieldModel) -> bool {
    &&& f.name == text_in(b, table, 0)
    &&& f.nullable == (byte_in(b, table, 1) != 0)
    &&& slot(b, table, 4) is None
    &&& says_type(b, table, f.data_type)
}

/// Whether the first `count` elements of a vector of key-value tables say what a
/// map of text holds: under each key, once, the value of the last element of that
/// key.
pub open spec fn says_entries(b: Seq<u8>, table: int, n: int, count: int, entries: Seq<(Seq<char>, Seq<char>)>) -> bool {
    &&& keys_ascending(entries)
    &&& forall|e: (Seq<char>, Seq<char>)|
        #![trigger entries.contains(e)]
        entries.contains(e) <==> exists|j: int| is_last_entry(b, table, n, count, j, e)
}

/// Whether element `j` of a vector of key-value tables is an entry, and the last
/// of its key among the first `count`.
pub open spec fn is_last_entry(
    b: Seq<u8>,
    table: int,
    n: int,
    count: int,
    j: int,
    e: (Seq<char>, Seq<char>),
) -> bool {
    &&& 0 <= j < count
    &&& entry_in(b, table, n, j) == e
    &&& forall|k: int| #![trigger entry_in(b, table, n, k)] j < k < count ==> entry_in(b, table, n, k).0 != e.0
}

/// The key and the value in element `j` of a vector of key-value tables.
pub open spec fn entry_in(b: Seq<u8>, table: int, n: int, j: int) -> (Seq<char>, Seq<char>) {
    let at = referred(b, element_in(b, table, n, 4, j));
    (text_in(b, at, 0), text_in(b, at, 1))
}

/// Whether a table says a schema: little-endian, its second field the fields, its
/// third the metadata.
pub open spec fn says_schema(b: Seq<u8>, table: int, s: SchemaModel) -> bool {
    &&& short_in(b, table, 0, 0) == 0
    &&& slot(b, table, 1) is Some
    &&& count_in(b, table, 1) == s.fields.len()
    &&& forall|i: int|
        #![trigger s.fields[i]]
        0 <= i < s.fields.len() ==> says_field(b, referred(b, element_in(b, table, 1, 4, i)), s.fields[i])
    &&& says_entries(b, table, 2, count_in(b, table, 2), s.metadata)
}

/// A table found at a position is read by the layout.
pub proof fn lemma_table(b: Seq<u8>, pos: int, t: TableModel)
    requires
        table_at(b, pos) == Ok::<TableModel, IpcErrorModel>(t),
    ensures
        t.buf == b,
        t.pos == pos,
        t.vtable == pos - word32(b, pos) as i32,
        t.vt_len == word16(b, t.vtable),
        forall|n: int|
            #![trigger t.field_at(n)]
            n >= 0 ==> (t.field_at(n) matches Ok(at) ==> at == slot(b, pos, n)),
{
}

/// A text that is read is the text that stands there.
proof fn lemma_text(b: Seq<u8>, pos: int, t: TableModel, n: int, s: Seq<char>)
    requires
        table_at(b, pos) == Ok::<TableModel, IpcErrorModel>(t),
        n >= 0,
        text_field(t, n) == Ok::<Seq<char>, IpcErrorModel>(s),
    ensures
        s == text_in(b, pos, n),
{
    lemma_table(b, pos, t);
}

/// A vector that is read is the vector that stands there.
pub proof fn lemma_vector(b: Seq<u8>, pos: int, t: TableModel, n: int, stride: int)
    requires
        table_at(b, pos) == Ok::<TableModel, IpcErrorModel>(t),
        n >= 0,
        t.vector_field(n, stride) is Ok,
    ensures
        match t.vector_field(n, stride)->Ok_0 {
            None => slot(b, pos, n) is None,
            Some(span) => {
                &&& slot(b, pos, n) is Some
                &&& span.buf == b
                &&& span.len == count_in(b, pos, n)
                &&& span.stride == stride
                &&& span.start == element_in(b, pos, n, stride, 0)
            },
        },
{
    lemma_table(b, pos, t);
    assert(0 * stride == 0) by (nonlinear_arith);
}

/// A type that is read is the type that the table says, children apart.
proof fn lemma_type(b: Seq<u8>, pos: int, t: TableModel, kind: TableModel, name: Seq<char>, children: Seq<FieldModel>)
    requires
        table_at(b, pos) == Ok::<TableModel, IpcErrorModel>(t),
        slot(b, pos, 3) is Some,
        table_at(b, table_in(b, pos, 3)) == Ok::<TableModel, IpcErrorModel>(kind),
        children.len() == count_in(b, pos, 5),
        forall|i: int|
            #![trigger children[i]]
            0 <= i < children.len() ==> says_field(b, referred(b, element_in(b, pos, 5, 4, i)), children[i]),
    ensures
        type_at(byte_in(b, pos, 2), kind, name, children) matches Ok(ty) ==> says_type(b, pos, ty),
{
    let k = table_in(b, pos, 3);
    lemma_table(b, k, kind);
    assert(kind.field_at(0) matches Ok(at) ==> at == slot(b, k, 0));
    assert(kind.field_at(1) matches Ok(at) ==> at == slot(b, k, 1));
    if let Ok(ty) = type_at(byte_in(b, pos, 2), kind, name, children) {
        match ty {
            TypeModel::List(f) => {
                assert(*f == children[0]);
            },
            TypeModel::FixedSizeList(f, n) => {
                assert(*f == children[0]);
            },
            TypeModel::Struct(fs) => {
                assert(fs == children);
                assert forall|i: int| #![trigger fs[i]] 0 <= i < fs.len() implies says_field(
                    b,
                    referred(b, element_in(b, pos, 5, 4, i)),
                    fs[i],
                ) by {
                    assert(fs[i] == children[i]);
                }
            },
            TypeModel::Timestamp => {
                assert(text_in(b, k, 1).len() == 0);
            },
            _ => {},
        }
    }
}

/// A field that is read is the field that its table says.
proof fn lemma_field(b: Seq<u8>, pos: int, t: TableModel, depth: int)
    requires
        table_at(b, pos) == Ok::<TableModel, IpcErrorModel>(t),
        field_at(t, depth) is Ok,
    ensures
        says_field(b, pos, field_at(t, depth)->Ok_0),
    decreases crate::ipc::layout::MAX_NESTING_DEPTH + 2 - depth, 0int, 0int,
{
    let name = text_field(t, 0)->Ok_0;
    lemma_table(b, pos, t);
    lemma_text(b, pos, t, 0, name);
    assert(t.field_at(1) matches Ok(at) ==> at == slot(b, pos, 1));
    assert(t.field_at(2) matches Ok(at) ==> at == slot(b, pos, 2));
    assert(t.field_at(3) matches Ok(at) ==> at == slot(b, pos, 3));
    assert(t.field_at(4) matches Ok(at) ==> at == slot(b, pos, 4));
    let kind = t.table_field(3)->Ok_0->0;
    let children = children_at(t, depth + 1)->Ok_0;
    lemma_vector(b, pos, t, 5, 4);
    assert(children.len() == count_in(b, pos, 5) && forall|i: int|
        #![trigger children[i]]
        0 <= i < children.len() ==> says_field(b, referred(b, element_in(b, pos, 5, 4, i)), children[i])) by {
        if let Some(span) = t.vector_field(5, 4)->Ok_0 {
            lemma_fields(span, span.len, depth + 1);
            assert forall|i: int| #![trigger children[i]] 0 <= i < children.len() implies says_field(
                b,
                referred(b, element_in(b, pos, 5, 4, i)),
                children[i],
            ) by {
                assert(span.start + 4 * i == element_in(b, pos, 5, 4, i));
            }
        }
    }
    lemma_type(b, pos, t, kind, name, children);
}

/// Fields that are read are the fields that their tables say.
proof fn lemma_fields(span: SpanModel, count: int, depth: int)
    requires
        span.stride == 4,
        0 <= count <= span.len,
        depth <= crate::ipc::layout::MAX_NESTING_DEPTH + 1,
        fields_at(span, count, depth) is Ok,
    ensures
        fields_at(span, count, depth)->Ok_0.len() == count,
        forall|i: int|
            #![trigger fields_at(span, count, depth)->Ok_0[i]]
            0 <= i < count ==> says_field(
                span.buf,
                referred(span.buf, span.start + 4 * i),
                fields_at(span, count, depth)->Ok_0[i],
            ),
    decreases crate::ipc::layout::MAX_NESTING_DEPTH + 2 - depth, 1int, count,
{
    if count > 0 {
        lemma_fields(span, count - 1, depth);
        let before = fields_at(span, count - 1, depth)->Ok_0;
        let t = span.table_item(count - 1)->Ok_0;
        let at = referred(span.buf, span.start + 4 * (count - 1));
        assert(span.element_at(count - 1) == span.start + 4 * (count - 1));
        assert(table_at(span.buf, at) == Ok::<TableModel, IpcErrorModel>(t));
        lemma_field(span.buf, at, t, depth);
        let all = fields_at(span, count, depth)->Ok_0;
        assert(all == before.push(field_at(t, depth)->Ok_0));
        assert forall|i: int| #![trigger all[i]] 0 <= i < count implies says_field(
            span.buf,
            referred(span.buf, span.start + 4 * i),
            all[i],
        ) by {
            if i < count - 1 {
                assert(all[i] == before[i]);
            }
        }
    }
}

/// Entries that are read are what their tables say.
proof fn lemma_entries(b: Seq<u8>, table: int, span: SpanModel, n: int, count: int)
    requires
        span.buf == b,
        span.stride == 4,
        span.start == element_in(b, table, n, 4, 0),
        0 <= count <= span.len,
        entries_at(span, count) is Ok,
    ensures
        says_entries(b, table, n, count, entries_at(span, count)->Ok_0),
    decreases count,
{
    let all = entries_at(span, count)->Ok_0;
    if count > 0 {
        lemma_entries(b, table, span, n, count - 1);
        let before = entries_at(span, count - 1)->Ok_0;
        let last = count - 1;
        let at = referred(b, element_in(b, table, n, 4, last));
        assert(span.element_at(last) == element_in(b, table, n, 4, last));
        let t = span.table_item(last)->Ok_0;
        assert(table_at(b, at) == Ok::<TableModel, IpcErrorModel>(t));
        let key = text_field(t, 0)->Ok_0;
        let value = text_field(t, 1)->Ok_0;
        lemma_text(b, at, t, 0, key);
        lemma_text(b, at, t, 1, value);
        assert(entry_in(b, table, n, last) == (key, value));
        assert(says_entries(b, table, n, last, before));
        law_setting_sets(before, key, value);
        assert forall|e: (Seq<char>, Seq<char>)| #![trigger all.contains(e)] all.contains(e) <==> exists|j: int|
            is_last_entry(b, table, n, count, j, e) by {
            if all.contains(e) {
                if e == (key, value) {
                    assert(is_last_entry(b, table, n, count, last, e));
                } else {
                    assert(before.contains(e));
                    let j = choose|j: int| is_last_entry(b, table, n, last, j, e);
                    assert(is_last_entry(b, table, n, count, j, e));
                }
            }
            if exists|j: int| is_last_entry(b, table, n, count, j, e) {
                let j = choose|j: int| is_last_entry(b, table, n, count, j, e);
                if j < last {
                    assert(entry_in(b, table, n, last).0 != e.0);
                    assert(is_last_entry(b, table, n, last, j, e));
                    assert(before.contains(e));
                }
            }
        }
    }
}

/// A schema that is read from a table is the schema that the table says.
pub proof fn law_tables_say_schemas(b: Seq<u8>, pos: int, t: TableModel, s: SchemaModel)
    requires
        table_at(b, pos) == Ok::<TableModel, IpcErrorModel>(t),
        schema_at(t) == Ok::<SchemaModel, IpcErrorModel>(s),
    ensures
        says_schema(b, pos, s),
{
    lemma_table(b, pos, t);
    assert(t.field_at(0) matches Ok(at) ==> at == slot(b, pos, 0));
    lemma_vector(b, pos, t, 1, 4);
    let span = t.vector_field(1, 4)->Ok_0->0;
    lemma_fields(span, span.len, 1);
    assert forall|i: int| #![trigger s.fields[i]] 0 <= i < s.fields.len() implies says_field(
        b,
        referred(b, element_in(b, pos, 1, 4, i)),
        s.fields[i],
    ) by {
        assert(span.start + 4 * i == element_in(b, pos, 1, 4, i));
    }
    lemma_vector(b, pos, t, 2, 4);
    match t.vector_field(2, 4)->Ok_0 {
        Some(named) => {
            lemma_entries(b, pos, named, 2, named.len);
        },
        None => {},
    }
}

/// The schema that bytes are read as is the one that they say by the layout of
/// the format.
pub proof fn law_schemas_are_read_by_the_format(b: Seq<u8>, s: SchemaModel)
    requires
        schema_of_bytes(b) == Ok::<SchemaModel, IpcErrorModel>(s),
    ensures
        says_schema(b, referred(b, 0), s),
{
    let t = root_at(b)->Ok_0;
    law_tables_say_schemas(b, referred(b, 0), t, s);
}

/// The bytes that a schema is written as say it by the layout of the format.
pub proof fn law_schemas_are_written_by_the_format(s: SchemaModel)
    requires
        encodable(s),
        schema_reachable(s),
    ensures
        says_schema(schema_bytes(s), referred(schema_bytes(s), 0), s),
{
    law_schema_round_trips(s);
    law_schemas_are_read_by_the_format(schema_bytes(s), s);
}

} // verus!
