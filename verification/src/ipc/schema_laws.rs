//! What is read back of a written schema: the schema.
use vstd::prelude::*;
use crate::datatype::{children_model, FieldModel, SchemaModel, TypeModel};
use crate::ipc::error::IpcErrorModel;
use crate::ipc::fb::builder::FbModel;
use crate::ipc::fb::content::{
    addressable, extends, lemma_placed, lemma_create_offset_vector, lemma_create_string, lemma_end_table,
    lemma_extends_refl, lemma_extends_trans, lemma_finish, lemma_i16_at, lemma_i32_at, lemma_lookup_push,
    lemma_slot_i16, lemma_slot_i32, lemma_slot_offset, lemma_slot_u8, lemma_start_table, lemma_u8_at, lookup,
    lemma_sits, placed, reachable, sits, table_reads, Site,
};
use crate::ipc::fb::reader::{deref_at, string_at, table_at, SpanModel, TableModel};
use crate::ipc::format::{field, key_value, precision, schema as schema_slot, time_unit, type_code, type_table};
use crate::ipc::layout::{
    depth_of, depth_of_all, law_counts_are_depth_first, lemma_child_depth, nodes_of, nodes_of_all,
    MAX_NESTING_DEPTH,
};
use crate::ipc::schema::{
    children_at, closed_table, code_of, entries_at, field_at, field_slots, fields_at, int_slots, int_type, metadata_at,
    schema_at, schema_bytes, schema_of_bytes, schema_slots, text_field, type_at, write_entries, write_field,
    write_fields, write_metadata, write_schema, write_type,
};
use crate::le::{le_i16, le_i32};
use crate::schema::{keys_ascending, lemma_entries_set_last};

verus! {

broadcast use {crate::le::group_le, lemma_lookup_push};

/// Whether every fixed size in a type is positive, as a decoder demands.
pub open spec fn sizes_positive(t: TypeModel) -> bool
    decreases t,
{
    match t {
        TypeModel::FixedSizeBinary(w) => w > 0,
        TypeModel::FixedSizeList(f, n) => n > 0 && sizes_positive(f.data_type),
        TypeModel::List(f) => sizes_positive(f.data_type),
        TypeModel::Struct(fs) => forall|i: int|
            #![trigger fs[i]]
            0 <= i < fs.len() ==> sizes_positive(fs[i].data_type),
        _ => true,
    }
}

/// Whether every fixed size in a list of fields is positive.
pub open spec fn all_sizes_positive(fs: Seq<FieldModel>) -> bool {
    forall|i: int| #![trigger fs[i]] 0 <= i < fs.len() ==> sizes_positive(fs[i].data_type)
}

proof fn lemma_children_sizes(t: TypeModel)
    requires
        sizes_positive(t),
    ensures
        all_sizes_positive(children_model(t)),
{
}

/// A state reached by writing in front.
pub open spec fn grown(m: FbModel, done: FbModel, d: nat) -> bool {
    &&& done.wf()
    &&& !done.open
    &&& extends(m, done)
    &&& 0 < d <= done.bytes.len()
}

/// The field of a slot where a table is read.
pub proof fn lemma_slot_read(b: Site, d: int, locs: Seq<(nat, nat)>, slot: int)
    requires
        table_reads(b, d, locs),
        0 <= slot,
    ensures
        table_at(b.buf, b.end - d) is Ok,
        table_at(b.buf, b.end - d)->Ok_0.buf == b.buf,
        table_at(b.buf, b.end - d)->Ok_0.field_at(slot) == Ok::<Option<int>, IpcErrorModel>(
            match lookup(locs, slot) {
                None => None,
                Some(at) => Some(b.end - at),
            },
        ),
{
    let t = table_at(b.buf, b.end - d)->Ok_0;
    assert(t.field_at(slot) == t.field_at(slot));
}

/// The integers a table's table describes.
pub open spec fn reads_int(b: Site, d: int, width: i32, signed: bool) -> bool {
    match table_at(b.buf, b.end - d) {
        Ok(t) => t.i32_field(type_table::INT_BIT_WIDTH as int, 0) == Ok::<i32, IpcErrorModel>(width)
            && t.bool_field(type_table::INT_IS_SIGNED as int, false) == Ok::<bool, IpcErrorModel>(signed),
        Err(_) => false,
    }
}

proof fn lemma_int_table(m: FbModel, width: i32, signed: bool)
    requires
        m.wf(),
        width != 0,
    ensures
        ({
            let (done, d) = closed_table(int_slots(m.start_table(), width, signed), m.bytes.len());
            &&& grown(m, done, d)
            &&& forall|b: Site| #[trigger]
                sits(done, b) && addressable(b) ==> reads_int(b, d as int, width, signed)
        }),
{
    reveal(closed_table);
    let start = m.bytes.len();
    lemma_start_table(m);
    let o0 = m.start_table();
    lemma_slot_i32(o0, start as int, type_table::INT_BIT_WIDTH as nat, width);
    let o1 = o0.push_i32(width).track(type_table::INT_BIT_WIDTH as nat);
    if signed {
        lemma_slot_u8(o1, start as int, type_table::INT_IS_SIGNED as nat, 1);
    } else {
        lemma_extends_refl(o1);
    }
    let o2 = int_slots(m.start_table(), width, signed);
    lemma_end_table(o2, start);
    let (done, d) = closed_table(o2, start);
    lemma_extends_trans(o0, o1, o2);
    lemma_extends_trans(o0, o2, done);
    assert(lookup(o0.locs, 0) is None);
    assert(lookup(o0.locs, 1) is None);
    assert forall|b: Site| #[trigger] sits(done, b) && addressable(b) implies reads_int(
        b,
        d as int,
        width,
        signed,
    ) by {
        lemma_slot_read(b, d as int, o2.locs, 0);
        lemma_slot_read(b, d as int, o2.locs, 1);
        lemma_sits(o2, done, b);
        lemma_sits(o1, o2, b);
        lemma_placed(o1, b, o1.bytes.len() as int, le_i32(width));
        lemma_i32_at(b, o1.bytes.len() as int, width, "i32 field"@);
        if signed {
            lemma_placed(o2, b, o2.bytes.len() as int, seq![1u8]);
            lemma_u8_at(b, o2.bytes.len() as int, 1, "bool field"@);
        }
    }
}

/// A table of at most one int, in the first slot.
pub open spec fn reads_i32(b: Site, d: int, value: i32) -> bool {
    match table_at(b.buf, b.end - d) {
        Ok(t) => t.i32_field(0, 0) == Ok::<i32, IpcErrorModel>(value),
        Err(_) => false,
    }
}

proof fn lemma_i32_table(m: FbModel, value: i32)
    requires
        m.wf(),
    ensures
        ({
            let (done, d) = closed_table(m.start_table().slot_i32(0, value, 0), m.bytes.len());
            &&& grown(m, done, d)
            &&& forall|b: Site| #[trigger]
                sits(done, b) && addressable(b) ==> reads_i32(b, d as int, value)
        }),
{
    reveal(closed_table);
    let start = m.bytes.len();
    lemma_start_table(m);
    let o0 = m.start_table();
    if value != 0 {
        lemma_slot_i32(o0, start as int, 0, value);
    } else {
        lemma_extends_refl(o0);
    }
    let o1 = o0.slot_i32(0, value, 0);
    lemma_end_table(o1, start);
    let (done, d) = closed_table(o1, start);
    lemma_extends_trans(o0, o1, done);
    assert(lookup(o0.locs, 0) is None);
    assert forall|b: Site| #[trigger] sits(done, b) && addressable(b) implies reads_i32(
        b,
        d as int,
        value,
    ) by {
        lemma_slot_read(b, d as int, o1.locs, 0);
        lemma_sits(o1, done, b);
        if value != 0 {
            lemma_placed(o1, b, o1.bytes.len() as int, le_i32(value));
            lemma_i32_at(b, o1.bytes.len() as int, value, "i32 field"@);
        }
    }
}

/// A table of at most one short, in the first slot.
pub open spec fn reads_i16(b: Site, d: int, value: i16, default: i16) -> bool {
    match table_at(b.buf, b.end - d) {
        Ok(t) => t.i16_field(0, default) == Ok::<i16, IpcErrorModel>(value) && t.string_field(1) == Ok::<
            Option<Seq<char>>,
            IpcErrorModel,
        >(None),
        Err(_) => false,
    }
}

proof fn lemma_i16_table(m: FbModel, value: i16, default: i16)
    requires
        m.wf(),
    ensures
        ({
            let (done, d) = closed_table(m.start_table().slot_i16(0, value, default), m.bytes.len());
            &&& grown(m, done, d)
            &&& forall|b: Site| #[trigger]
                sits(done, b) && addressable(b) ==> reads_i16(b, d as int, value, default)
        }),
{
    reveal(closed_table);
    let start = m.bytes.len();
    lemma_start_table(m);
    let o0 = m.start_table();
    if value != default {
        lemma_slot_i16(o0, start as int, 0, value);
    } else {
        lemma_extends_refl(o0);
    }
    let o1 = o0.slot_i16(0, value, default);
    lemma_end_table(o1, start);
    let (done, d) = closed_table(o1, start);
    lemma_extends_trans(o0, o1, done);
    assert(lookup(o0.locs, 0) is None);
    assert(lookup(o0.locs, 1) is None);
    assert forall|b: Site| #[trigger] sits(done, b) && addressable(b) implies reads_i16(
        b,
        d as int,
        value,
        default,
    ) by {
        lemma_slot_read(b, d as int, o1.locs, 0);
        lemma_slot_read(b, d as int, o1.locs, 1);
        lemma_sits(o1, done, b);
        if value != default {
            lemma_placed(o1, b, o1.bytes.len() as int, le_i16(value));
            lemma_i16_at(b, o1.bytes.len() as int, value, "i16 field"@);
        }
    }
}

proof fn lemma_empty_table(m: FbModel)
    requires
        m.wf(),
    ensures
        ({
            let (done, d) = closed_table(m.start_table(), m.bytes.len());
            &&& grown(m, done, d)
            &&& forall|b: Site| #[trigger]
                sits(done, b) && addressable(b) ==> table_at(b.buf, b.end - d) is Ok
        }),
{
    reveal(closed_table);
    lemma_start_table(m);
    let o0 = m.start_table();
    lemma_end_table(o0, m.bytes.len());
    let (done, d) = closed_table(o0, m.bytes.len());
    assert forall|b: Site| #[trigger] sits(done, b) && addressable(b) implies table_at(b.buf,
        b.end - d,
    ) is Ok by {
        assert(table_reads(b, d as int, o0.locs));
    }
}

/// A type's table at distance `d` of `b` is read, as the type where its sizes are
/// positive.
pub open spec fn reads_type(b: Site, d: int, t: TypeModel) -> bool {
    match table_at(b.buf, b.end - d) {
        Ok(kind) => sizes_positive(t) ==> forall|name: Seq<char>| #[trigger]
            type_at(code_of(t), kind, name, children_model(t)) == Ok::<TypeModel, IpcErrorModel>(t),
        Err(_) => false,
    }
}

proof fn lemma_reads_int_type(b: Site, d: int, t: TypeModel, width: i32, signed: bool)
    requires
        reads_int(b, d, width, signed),
        int_type(width, signed) == Some(t),
        code_of(t) == type_code::INT,
    ensures
        reads_type(b, d, t),
{
}

/// A type is read back.
#[verifier::rlimit(40)]
proof fn lemma_write_type(m: FbModel, t: TypeModel)
    requires
        m.wf(),
    ensures
        ({
            let (done, d) = write_type(m, t);
            &&& grown(m, done, d)
            &&& forall|b: Site| #[trigger]
                sits(done, b) && addressable(b) ==> reads_type(b, d as int, t)
        }),
{
    let (done, d) = write_type(m, t);
    let (width, signed): (i32, bool) = match t {
        TypeModel::Int8 => (8, true),
        TypeModel::Int16 => (16, true),
        TypeModel::Int32 => (32, true),
        TypeModel::Int64 => (64, true),
        TypeModel::UInt8 => (8, false),
        TypeModel::UInt16 => (16, false),
        TypeModel::UInt32 => (32, false),
        TypeModel::UInt64 => (64, false),
        _ => (0, false),
    };
    if width != 0 {
        lemma_int_table(m, width, signed);
        assert forall|b: Site| #[trigger] sits(done, b) && addressable(b) implies reads_type(
            b,
            d as int,
            t,
        ) by {
            lemma_reads_int_type(b, d as int, t, width, signed);
        }
        return ;
    }
    match t {
        TypeModel::Float16 => {
            lemma_i16_table(m, precision::HALF, precision::HALF);
        },
        TypeModel::Float32 => {
            lemma_i16_table(m, precision::SINGLE, precision::HALF);
        },
        TypeModel::Float64 => {
            lemma_i16_table(m, precision::DOUBLE, precision::HALF);
        },
        TypeModel::Timestamp => {
            lemma_i16_table(m, time_unit::NANOSECOND, time_unit::SECOND);
        },
        TypeModel::Duration => {
            lemma_i16_table(m, time_unit::NANOSECOND, time_unit::MILLISECOND);
        },
        TypeModel::FixedSizeBinary(w) => {
            lemma_i32_table(m, w);
        },
        TypeModel::FixedSizeList(_, n) => {
            lemma_i32_table(m, n);
        },
        _ => {
            lemma_empty_table(m);
        },
    }
    assert forall|b: Site| #[trigger] sits(done, b) && addressable(b) implies reads_type(
        b,
        d as int,
        t,
    ) by {
        match t {
            TypeModel::Float16 => {
                assert(reads_i16(b, d as int, precision::HALF, precision::HALF));
            },
            TypeModel::Float32 => {
                assert(reads_i16(b, d as int, precision::SINGLE, precision::HALF));
            },
            TypeModel::Float64 => {
                assert(reads_i16(b, d as int, precision::DOUBLE, precision::HALF));
            },
            TypeModel::Timestamp => {
                assert(reads_i16(b, d as int, time_unit::NANOSECOND, time_unit::SECOND));
            },
            TypeModel::Duration => {
                assert(reads_i16(b, d as int, time_unit::NANOSECOND, time_unit::MILLISECOND));
            },
            TypeModel::FixedSizeBinary(w) => {
                assert(reads_i32(b, d as int, w));
            },
            TypeModel::FixedSizeList(_, n) => {
                assert(reads_i32(b, d as int, n));
            },
            _ => {
                assert(table_at(b.buf, b.end - d) is Ok);
            },
        }
    }
}

/// A field's table at distance `d` of `b` is read, as the field where its sizes
/// are positive.
pub open spec fn reads_field(b: Site, d: int, f: FieldModel, depth: int) -> bool {
    match table_at(b.buf, b.end - d) {
        Ok(t) => sizes_positive(f.data_type) ==> field_at(t, depth) == Ok::<FieldModel, IpcErrorModel>(f),
        Err(_) => false,
    }
}

/// A field at distance `d`.
pub open spec fn holds_field(c: FbModel, d: int, f: FieldModel) -> bool {
    &&& 0 < d <= c.bytes.len()
    &&& forall|b: Site, depth: int|
        #![trigger sits(c, b), reads_field(b, d, f, depth)]
        sits(c, b) && addressable(b) && depth - 1 + depth_of(f.data_type) <= MAX_NESTING_DEPTH
            ==> reads_field(b, d, f, depth)
}

proof fn lemma_holds_field_extends(c: FbModel, e: FbModel, d: int, f: FieldModel)
    requires
        holds_field(c, d, f),
        extends(c, e),
    ensures
        holds_field(e, d, f),
{
    assert forall|b: Site, depth: int|
        #![trigger sits(e, b), reads_field(b, d, f, depth)]
        sits(e, b) && addressable(b) && depth - 1 + depth_of(f.data_type) <= MAX_NESTING_DEPTH implies reads_field(
        b,
        d,
        f,
        depth,
    ) by {
        lemma_sits(c, e, b);
    }
}

/// A vector whose references lead to fields is read as the fields.
proof fn lemma_fields_read(
    c: FbModel,
    b: Site,
    span: SpanModel,
    ds: Seq<nat>,
    fs: Seq<FieldModel>,
    count: int,
    depth: int,
)
    requires
        sits(c, b),
        addressable(b),
        span.buf == b.buf,
        span.stride == 4,
        span.len == ds.len() == fs.len(),
        0 <= count <= fs.len(),
        forall|i: int, context: Seq<char>|
            0 <= i < ds.len() ==> #[trigger] deref_at(b.buf, span.start + i * 4, context) == Ok::<
                int,
                IpcErrorModel,
            >(b.end - ds[i]),
        forall|i: int|
            #![trigger ds[i]]
            0 <= i < ds.len() ==> holds_field(c, ds[i] as int, fs[i]),
        depth - 1 + depth_of_all(fs) <= MAX_NESTING_DEPTH,
        depth <= MAX_NESTING_DEPTH + 1,
        all_sizes_positive(fs),
    ensures
        fields_at(span, count, depth) == Ok::<Seq<FieldModel>, IpcErrorModel>(fs.take(count)),
    decreases count,
{
    if count <= 0 {
        assert(fs.take(count) =~= Seq::<FieldModel>::empty());
    } else {
        lemma_fields_read(c, b, span, ds, fs, count - 1, depth);
        let i = count - 1;
        lemma_child_depth(fs, i);
        assert(holds_field(c, ds[i] as int, fs[i]));
        assert(reads_field(b, ds[i] as int, fs[i], depth));
        assert(span.element_at(i) == span.start + i * 4);
        assert(deref_at(b.buf, span.start + i * 4, "vector element offset"@) == Ok::<int, IpcErrorModel>(
            b.end - ds[i],
        ));
        assert(fs.take(count - 1).push(fs[i]) =~= fs.take(count));
    }
}

/// Written fields are read back.
proof fn lemma_write_fields(m: FbModel, fs: Seq<FieldModel>)
    requires
        m.wf(),
        !m.open,
    ensures
        ({
            let (done, ds) = write_fields(m, fs);
            &&& done.wf()
            &&& !done.open
            &&& extends(m, done)
            &&& ds.len() == fs.len()
            &&& forall|i: int| #![trigger ds[i]] 0 <= i < ds.len() ==> holds_field(done, ds[i] as int, fs[i])
        }),
    decreases nodes_of_all(fs), 1int,
{
    if fs.len() == 0 {
        lemma_extends_refl(m);
    } else {
        law_counts_are_depth_first(fs.last().data_type);
        let rest = fs.drop_last();
        lemma_write_fields(m, rest);
        let (before, ds0) = write_fields(m, rest);
        lemma_write_field(before, fs.last());
        let (done, d) = write_field(before, fs.last());
        let ds = ds0.push(d);
        assert(write_fields(m, fs) == (done, ds));
        lemma_extends_trans(m, before, done);
        assert forall|i: int| #![trigger ds[i]] 0 <= i < ds.len() implies holds_field(
            done,
            ds[i] as int,
            fs[i],
        ) by {
            if i < ds0.len() {
                assert(ds[i] == ds0[i]);
                assert(rest[i] == fs[i]);
                lemma_holds_field_extends(before, done, ds[i] as int, fs[i]);
            }
        }
    }
}

/// The table of a field, once everything it refers to is read, is read as the
/// field.
proof fn lemma_field_table(
    b: Site,
    d: int,
    locs: Seq<(nat, nat)>,
    f: FieldModel,
    name: nat,
    kind: nat,
    span: SpanModel,
    depth: int,
)
    requires
        table_reads(b, d, locs),
        depth <= MAX_NESTING_DEPTH,
        lookup(locs, field::NAME as int) is Some,
        deref_at(b.buf, b.end - lookup(locs, field::NAME as int)->0, "string offset"@) == Ok::<
            int,
            IpcErrorModel,
        >(b.end - name),
        string_at(b.buf, b.end - name) == Ok::<Seq<char>, IpcErrorModel>(f.name),
        match lookup(locs, field::NULLABLE as int) {
            None => !f.nullable,
            Some(at) => f.nullable && placed(b, at as int, seq![1u8]),
        },
        lookup(locs, field::DICTIONARY as int) is None,
        lookup(locs, field::TYPE_TYPE as int) is Some,
        placed(b, lookup(locs, field::TYPE_TYPE as int)->0 as int, seq![code_of(f.data_type)]),
        lookup(locs, field::TYPE as int) is Some,
        deref_at(b.buf, b.end - lookup(locs, field::TYPE as int)->0, "nested table offset"@) == Ok::<
            int,
            IpcErrorModel,
        >(b.end - kind),
        sizes_positive(f.data_type),
        reads_type(b, kind as int, f.data_type),
        lookup(locs, field::CHILDREN as int) is Some,
        deref_at(b.buf, b.end - lookup(locs, field::CHILDREN as int)->0, "vector offset"@) matches Ok(pos)
            && crate::ipc::fb::reader::span_at(b.buf, pos, 4) == Ok::<SpanModel, IpcErrorModel>(span),
        fields_at(span, span.len, depth + 1) == Ok::<Seq<FieldModel>, IpcErrorModel>(
            children_model(f.data_type),
        ),
    ensures
        reads_field(b, d, f, depth),
{
    lemma_slot_read(b, d, locs, field::NAME as int);
    lemma_slot_read(b, d, locs, field::NULLABLE as int);
    lemma_slot_read(b, d, locs, field::DICTIONARY as int);
    lemma_slot_read(b, d, locs, field::TYPE_TYPE as int);
    lemma_slot_read(b, d, locs, field::TYPE as int);
    lemma_slot_read(b, d, locs, field::CHILDREN as int);
    let t = table_at(b.buf, b.end - d)->Ok_0;
    assert(text_field(t, field::NAME as int) == Ok::<Seq<char>, IpcErrorModel>(f.name));
    if let Some(at) = lookup(locs, field::NULLABLE as int) {
        lemma_u8_at(b, at as int, 1, "bool field"@);
    }
    assert(t.bool_field(field::NULLABLE as int, false) == Ok::<bool, IpcErrorModel>(f.nullable));
    lemma_u8_at(
        b,
        lookup(locs, field::TYPE_TYPE as int)->0 as int,
        code_of(f.data_type),
        "u8 field"@,
    );
    assert(t.u8_field(field::TYPE_TYPE as int, type_code::NONE) == Ok::<u8, IpcErrorModel>(
        code_of(f.data_type),
    ));
    let k = table_at(b.buf, b.end - kind)->Ok_0;
    assert(t.table_field(field::TYPE as int) == Ok::<Option<TableModel>, IpcErrorModel>(Some(k)));
    assert(children_at(t, depth + 1) == Ok::<Seq<FieldModel>, IpcErrorModel>(children_model(f.data_type)));
    assert(type_at(code_of(f.data_type), k, f.name, children_model(f.data_type)) == Ok::<
        TypeModel,
        IpcErrorModel,
    >(f.data_type));
}

/// A written field is read back.
#[verifier::rlimit(60)]
proof fn lemma_write_field(m: FbModel, f: FieldModel)
    requires
        m.wf(),
        !m.open,
    ensures
        ({
            let (done, d) = write_field(m, f);
            &&& grown(m, done, d)
            &&& holds_field(done, d as int, f)
        }),
    decreases nodes_of(f.data_type), 0int,
{
    reveal(closed_table);
    law_counts_are_depth_first(f.data_type);
    let children = children_model(f.data_type);
    lemma_create_string(m, f.name);
    let named = m.create_string(f.name);
    let name = named.bytes.len();
    lemma_write_fields(named, children);
    let (parents, ds) = write_fields(named, children);
    assert forall|i: int| 0 <= i < ds.len() implies 0 < #[trigger] ds[i] <= parents.bytes.len() by {
        assert(holds_field(parents, ds[i] as int, children[i]));
    }
    lemma_create_offset_vector(parents, ds);
    let listed = parents.create_offset_vector(ds);
    let list = listed.bytes.len();
    lemma_write_type(listed, f.data_type);
    let (typed, kind) = write_type(listed, f.data_type);
    let start = typed.bytes.len();
    lemma_extends_trans(named, parents, listed);
    lemma_extends_trans(named, listed, typed);
    lemma_extends_trans(m, named, typed);
    lemma_start_table(typed);
    let o0 = typed.start_table();
    lemma_slot_offset(o0, start as int, field::NAME as nat, name);
    let o1 = o0.slot_offset(field::NAME as nat, name);
    let o2 = o1.slot_bool(field::NULLABLE as nat, f.nullable, false);
    if f.nullable {
        lemma_slot_u8(o1, start as int, field::NULLABLE as nat, 1);
    } else {
        lemma_extends_refl(o1);
    }
    let o3 = o2.slot_u8(field::TYPE_TYPE as nat, code_of(f.data_type), type_code::NONE);
    assert(code_of(f.data_type) != type_code::NONE);
    lemma_slot_u8(o2, start as int, field::TYPE_TYPE as nat, code_of(f.data_type));
    lemma_slot_offset(o3, start as int, field::TYPE as nat, kind);
    let o4 = o3.slot_offset(field::TYPE as nat, kind);
    lemma_slot_offset(o4, start as int, field::CHILDREN as nat, list);
    let o5 = o4.slot_offset(field::CHILDREN as nat, list);
    assert(o5 == field_slots(o0, f, name, kind, list));
    lemma_end_table(o5, start);
    let (done, d) = write_field(m, f);
    assert(done == o5.end_table(start));
    lemma_extends_trans(o4, o5, done);
    lemma_extends_trans(o3, o4, done);
    lemma_extends_trans(o2, o3, done);
    lemma_extends_trans(o1, o2, done);
    lemma_extends_trans(typed, o1, done);
    lemma_extends_trans(m, typed, done);
    let locs = o5.locs;
    assert(lookup(o0.locs, field::NAME as int) is None);
    assert(lookup(o0.locs, field::NULLABLE as int) is None);
    assert(lookup(o0.locs, field::DICTIONARY as int) is None);
    assert(lookup(o0.locs, field::TYPE_TYPE as int) is None);
    assert(lookup(o0.locs, field::TYPE as int) is None);
    assert(lookup(o0.locs, field::CHILDREN as int) is None);
    assert(lookup(locs, field::NAME as int) == Some(o1.bytes.len()));
    assert(lookup(locs, field::TYPE_TYPE as int) == Some(o3.bytes.len()));
    assert(lookup(locs, field::TYPE as int) == Some(o4.bytes.len()));
    assert(lookup(locs, field::CHILDREN as int) == Some(o5.bytes.len()));
    assert(lookup(locs, field::DICTIONARY as int) is None);
    assert(lookup(locs, field::NULLABLE as int) == if f.nullable {
        Some(o2.bytes.len())
    } else {
        None::<nat>
    });
    assert forall|b: Site, depth: int|
        #![trigger sits(done, b), reads_field(b, d as int, f, depth)]
        sits(done, b) && addressable(b) && depth - 1 + depth_of(f.data_type)
            <= MAX_NESTING_DEPTH implies reads_field(b, d as int, f, depth) by {
        lemma_sits(o5, done, b);
        lemma_sits(o4, done, b);
        lemma_sits(o3, done, b);
        lemma_sits(o2, done, b);
        lemma_sits(o1, done, b);
        lemma_sits(typed, done, b);
        lemma_sits(listed, typed, b);
        lemma_sits(named, listed, b);
        lemma_sits(parents, listed, b);
        assert(table_reads(b, d as int, locs));
        assert(deref_at(b.buf, b.end - o1.bytes.len(), "string offset"@) == Ok::<int, IpcErrorModel>(
            b.end - name,
        ));
        assert(deref_at(b.buf, b.end - o4.bytes.len(), "nested table offset"@) == Ok::<int, IpcErrorModel>(
            b.end - kind,
        ));
        assert(deref_at(b.buf, b.end - o5.bytes.len(), "vector offset"@) == Ok::<int, IpcErrorModel>(
            b.end - list,
        ));
        if f.nullable {
            lemma_placed(o2, b, o2.bytes.len() as int, seq![1u8]);
        }
        lemma_placed(o3, b, o3.bytes.len() as int, seq![code_of(f.data_type)]);
        let span = SpanModel { buf: b.buf, start: b.end - list + 4, len: ds.len() as int, stride: 4 };
        if sizes_positive(f.data_type) {
            lemma_children_sizes(f.data_type);
            lemma_fields_read(parents, b, span, ds, children, ds.len() as int, depth + 1);
            assert(children.take(ds.len() as int) =~= children);
            lemma_field_table(b, d as int, locs, f, name, kind, span, depth);
        }
    }
}

/// A key-value table at distance `d` of `b` is read as the entry.
pub open spec fn reads_entry(b: Site, d: int, entry: (Seq<char>, Seq<char>)) -> bool {
    match table_at(b.buf, b.end - d) {
        Ok(t) => text_field(t, key_value::KEY as int) == Ok::<Seq<char>, IpcErrorModel>(entry.0)
            && text_field(t, key_value::VALUE as int) == Ok::<Seq<char>, IpcErrorModel>(entry.1),
        Err(_) => false,
    }
}

/// An entry at distance `d`.
pub open spec fn holds_entry(c: FbModel, d: int, entry: (Seq<char>, Seq<char>)) -> bool {
    &&& 0 < d <= c.bytes.len()
    &&& forall|b: Site| #[trigger] sits(c, b) && addressable(b) ==> reads_entry(b, d, entry)
}

/// One entry is read back.
proof fn lemma_write_entry(m: FbModel, entry: (Seq<char>, Seq<char>))
    requires
        m.wf(),
        !m.open,
    ensures
        ({
            let keyed = m.create_string(entry.0);
            let valued = keyed.create_string(entry.1);
            let (done, d) = closed_table(
                valued.start_table().slot_offset(key_value::KEY as nat, keyed.bytes.len()).slot_offset(
                    key_value::VALUE as nat,
                    valued.bytes.len(),
                ),
                valued.bytes.len(),
            );
            &&& grown(m, done, d)
            &&& holds_entry(done, d as int, entry)
        }),
{
    reveal(closed_table);
    lemma_create_string(m, entry.0);
    let keyed = m.create_string(entry.0);
    lemma_create_string(keyed, entry.1);
    let valued = keyed.create_string(entry.1);
    let start = valued.bytes.len();
    lemma_start_table(valued);
    let o0 = valued.start_table();
    lemma_slot_offset(o0, start as int, key_value::KEY as nat, keyed.bytes.len());
    let o1 = o0.slot_offset(key_value::KEY as nat, keyed.bytes.len());
    lemma_slot_offset(o1, start as int, key_value::VALUE as nat, valued.bytes.len());
    let o2 = o1.slot_offset(key_value::VALUE as nat, valued.bytes.len());
    lemma_end_table(o2, start);
    let (done, d) = closed_table(o2, start);
    lemma_extends_trans(o1, o2, done);
    lemma_extends_trans(valued, o1, done);
    lemma_extends_trans(keyed, valued, done);
    lemma_extends_trans(m, keyed, done);
    assert(lookup(o0.locs, key_value::KEY as int) is None);
    assert(lookup(o0.locs, key_value::VALUE as int) is None);
    assert forall|b: Site| #[trigger] sits(done, b) && addressable(b) implies reads_entry(
        b,
        d as int,
        entry,
    ) by {
        lemma_slot_read(b, d as int, o2.locs, key_value::KEY as int);
        lemma_slot_read(b, d as int, o2.locs, key_value::VALUE as int);
        lemma_sits(o2, done, b);
        lemma_sits(o1, done, b);
        lemma_sits(valued, done, b);
        lemma_sits(keyed, done, b);
        assert(deref_at(b.buf, b.end - o1.bytes.len(), "string offset"@) == Ok::<int, IpcErrorModel>(
            b.end - keyed.bytes.len(),
        ));
        assert(deref_at(b.buf, b.end - o2.bytes.len(), "string offset"@) == Ok::<int, IpcErrorModel>(
            b.end - valued.bytes.len(),
        ));
    }
}

/// Written entries are read back, each.
proof fn lemma_write_entries(m: FbModel, entries: Seq<(Seq<char>, Seq<char>)>)
    requires
        m.wf(),
        !m.open,
    ensures
        ({
            let (done, ds) = write_entries(m, entries);
            &&& done.wf()
            &&& !done.open
            &&& extends(m, done)
            &&& ds.len() == entries.len()
            &&& forall|i: int|
                #![trigger ds[i]]
                0 <= i < ds.len() ==> holds_entry(done, ds[i] as int, entries[i])
        }),
    decreases entries.len(),
{
    if entries.len() == 0 {
        lemma_extends_refl(m);
    } else {
        let rest = entries.drop_last();
        lemma_write_entries(m, rest);
        let (before, ds0) = write_entries(m, rest);
        lemma_write_entry(before, entries.last());
        let (done, ds) = write_entries(m, entries);
        lemma_extends_trans(m, before, done);
        assert forall|i: int| #![trigger ds[i]] 0 <= i < ds.len() implies holds_entry(
            done,
            ds[i] as int,
            entries[i],
        ) by {
            if i < ds0.len() {
                assert(ds[i] == ds0[i]);
                assert(rest[i] == entries[i]);
                assert(holds_entry(before, ds0[i] as int, rest[i]));
                assert forall|b: Site| #[trigger] sits(done, b) && addressable(
                    b,
                ) implies reads_entry(b, ds[i] as int, entries[i]) by {
                    lemma_sits(before, done, b);
                }
            }
        }
    }
}

/// A vector whose references lead to entries with ascending keys is read as the
/// entries.
proof fn lemma_entries_read(
    c: FbModel,
    b: Site,
    span: SpanModel,
    ds: Seq<nat>,
    entries: Seq<(Seq<char>, Seq<char>)>,
    count: int,
)
    requires
        sits(c, b),
        addressable(b),
        span.buf == b.buf,
        span.stride == 4,
        span.len == ds.len() == entries.len(),
        0 <= count <= entries.len(),
        forall|i: int, context: Seq<char>|
            0 <= i < ds.len() ==> #[trigger] deref_at(b.buf, span.start + i * 4, context) == Ok::<
                int,
                IpcErrorModel,
            >(b.end - ds[i]),
        forall|i: int|
            #![trigger ds[i]]
            0 <= i < ds.len() ==> holds_entry(c, ds[i] as int, entries[i]),
        keys_ascending(entries),
    ensures
        entries_at(span, count) == Ok::<Seq<(Seq<char>, Seq<char>)>, IpcErrorModel>(entries.take(count)),
    decreases count,
{
    if count <= 0 {
        assert(entries.take(count) =~= Seq::<(Seq<char>, Seq<char>)>::empty());
    } else {
        lemma_entries_read(c, b, span, ds, entries, count - 1);
        let i = count - 1;
        assert(holds_entry(c, ds[i] as int, entries[i]));
        assert(reads_entry(b, ds[i] as int, entries[i]));
        assert(span.element_at(i) == span.start + i * 4);
        assert(deref_at(b.buf, span.start + i * 4, "vector element offset"@) == Ok::<int, IpcErrorModel>(
            b.end - ds[i],
        ));
        let before = entries.take(count - 1);
        assert forall|k: int| #![trigger before[k]] 0 <= k < before.len() implies crate::lex::text_lt(
            before[k].0,
            entries[i].0,
        ) by {
            assert(before[k] == entries[k]);
        }
        lemma_entries_set_last(before, entries[i].0, entries[i].1);
        assert(before.push(entries[i]) =~= entries.take(count));
    }
}

/// A schema's table at distance `d` of `b` is read, as the schema where its sizes
/// are positive.
pub open spec fn reads_schema(b: Site, d: int, s: SchemaModel) -> bool {
    match table_at(b.buf, b.end - d) {
        Ok(t) => all_sizes_positive(s.fields) ==> schema_at(t) == Ok::<SchemaModel, IpcErrorModel>(s),
        Err(_) => false,
    }
}

/// A schema that is written: few enough levels, ascending metadata keys.
pub open spec fn writable(s: SchemaModel) -> bool {
    &&& depth_of_all(s.fields) <= MAX_NESTING_DEPTH
    &&& keys_ascending(s.metadata)
}

/// A schema the codec keeps: one that is written, of positive sizes.
pub open spec fn encodable(s: SchemaModel) -> bool {
    &&& all_sizes_positive(s.fields)
    &&& writable(s)
}

/// A written schema is read back.
#[verifier::rlimit(60)]
pub proof fn lemma_write_schema(m: FbModel, s: SchemaModel)
    requires
        m.wf(),
        !m.open,
        writable(s),
    ensures
        ({
            let (done, d) = write_schema(m, s);
            &&& grown(m, done, d)
            &&& forall|b: Site| #[trigger]
                sits(done, b) && addressable(b) ==> reads_schema(b, d as int, s)
        }),
{
    reveal(closed_table);
    lemma_write_fields(m, s.fields);
    let (parents, ds) = write_fields(m, s.fields);
    assert forall|i: int| 0 <= i < ds.len() implies 0 < #[trigger] ds[i] <= parents.bytes.len() by {
        assert(holds_field(parents, ds[i] as int, s.fields[i]));
    }
    lemma_create_offset_vector(parents, ds);
    let listed = parents.create_offset_vector(ds);
    let list = listed.bytes.len();
    let (entered, es) = write_entries(listed, s.metadata);
    let described = write_metadata(listed, s.metadata);
    if s.metadata.len() > 0 {
        lemma_write_entries(listed, s.metadata);
        assert forall|i: int| 0 <= i < es.len() implies 0 < #[trigger] es[i] <= entered.bytes.len() by {
            assert(holds_entry(entered, es[i] as int, s.metadata[i]));
        }
        lemma_create_offset_vector(entered, es);
        lemma_extends_trans(listed, entered, described);
    } else {
        lemma_extends_refl(listed);
    }
    let meta = described.bytes.len();
    let start = described.bytes.len();
    lemma_start_table(described);
    let o0 = described.start_table();
    lemma_slot_offset(o0, start as int, schema_slot::FIELDS as nat, list);
    let o1 = o0.slot_offset(schema_slot::FIELDS as nat, list);
    if s.metadata.len() > 0 {
        lemma_slot_offset(o1, start as int, schema_slot::CUSTOM_METADATA as nat, meta);
    } else {
        lemma_extends_refl(o1);
    }
    let o2 = schema_slots(o0, s, list, meta);
    lemma_end_table(o2, start);
    let (done, d) = write_schema(m, s);
    assert(done == o2.end_table(start));
    lemma_extends_trans(o1, o2, done);
    lemma_extends_trans(described, o1, done);
    lemma_extends_trans(listed, described, done);
    lemma_extends_trans(parents, listed, done);
    lemma_extends_trans(m, parents, done);
    assert(lookup(o0.locs, schema_slot::ENDIANNESS as int) is None);
    assert(lookup(o0.locs, schema_slot::FIELDS as int) is None);
    assert(lookup(o0.locs, schema_slot::CUSTOM_METADATA as int) is None);
    assert forall|b: Site| #[trigger] sits(done, b) && addressable(b) implies reads_schema(
        b,
        d as int,
        s,
    ) by {
        lemma_slot_read(b, d as int, o2.locs, schema_slot::ENDIANNESS as int);
        lemma_slot_read(b, d as int, o2.locs, schema_slot::FIELDS as int);
        lemma_slot_read(b, d as int, o2.locs, schema_slot::CUSTOM_METADATA as int);
        lemma_sits(o2, done, b);
        lemma_sits(o1, done, b);
        lemma_sits(described, done, b);
        lemma_sits(listed, done, b);
        lemma_sits(parents, done, b);
        assert(deref_at(b.buf, b.end - o1.bytes.len(), "vector offset"@) == Ok::<int, IpcErrorModel>(
            b.end - list,
        ));
        let span = SpanModel { buf: b.buf, start: b.end - list + 4, len: ds.len() as int, stride: 4 };
        if all_sizes_positive(s.fields) {
            lemma_fields_read(parents, b, span, ds, s.fields, ds.len() as int, 1);
        }
        assert(s.fields.take(ds.len() as int) =~= s.fields);
        let t = table_at(b.buf, b.end - d)->Ok_0;
        assert(t.vector_field(schema_slot::FIELDS as int, 4) == Ok::<Option<SpanModel>, IpcErrorModel>(
            Some(span),
        ));
        if s.metadata.len() > 0 {
            lemma_sits(entered, described, b);
            assert(deref_at(b.buf, b.end - o2.bytes.len(), "vector offset"@) == Ok::<int, IpcErrorModel>(
                b.end - meta,
            ));
            let pairs = SpanModel { buf: b.buf, start: b.end - meta + 4, len: es.len() as int, stride: 4 };
            lemma_entries_read(entered, b, pairs, es, s.metadata, es.len() as int);
            assert(s.metadata.take(es.len() as int) =~= s.metadata);
            assert(metadata_at(t, schema_slot::CUSTOM_METADATA as int) == Ok::<
                Seq<(Seq<char>, Seq<char>)>,
                IpcErrorModel,
            >(s.metadata));
        } else {
            assert(s.metadata =~= Seq::<(Seq<char>, Seq<char>)>::empty());
        }
    }
}

/// Whether the references in the bytes of a schema fit: always up to
/// `i32::MAX` bytes, and beyond while no table is too far from a vtable that it
/// shares.
pub open spec fn schema_reachable(s: SchemaModel) -> bool {
    let (done, d) = write_schema(FbModel::empty(), s);
    reachable(done.finish(d))
}

/// A schema of no more than `i32::MAX` bytes is within reach.
pub proof fn law_small_schemas_are_reachable(s: SchemaModel)
    requires
        writable(s),
        schema_bytes(s).len() <= i32::MAX,
    ensures
        schema_reachable(s),
{
    lemma_write_schema(FbModel::empty(), s);
    let (done, d) = write_schema(FbModel::empty(), s);
    lemma_finish(done, d);
}

/// Decoding the bytes of a schema gives the schema back: names, types,
/// nullability and metadata. Where a reference does not fit, the bytes say
/// something else.
pub proof fn law_schema_round_trips(s: SchemaModel)
    requires
        encodable(s),
        schema_reachable(s),
    ensures
        schema_of_bytes(schema_bytes(s)) == Ok::<SchemaModel, IpcErrorModel>(s),
{
    let m = FbModel::empty();
    lemma_write_schema(m, s);
    let (done, d) = write_schema(m, s);
    lemma_finish(done, d);
    let bytes = schema_bytes(s);
    let b = Site { buf: bytes, end: bytes.len() as int, far: false };
    assert(bytes.subrange(0, bytes.len() as int) =~= bytes);
    assert(sits(done.finish(d), b));
    lemma_sits(done, done.finish(d), b);
}

} // verus!
