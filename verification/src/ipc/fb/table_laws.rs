//! A finished table gives back what was pushed into it.
use vstd::prelude::*;
use vstd::set_lib::{lemma_int_range, lemma_len_subset, set_int_range};
use crate::ipc::error::IpcErrorModel;
use crate::ipc::fb::builder::{bytes_at, FbModel};
use crate::ipc::fb::content::{
    addressable, extends, holds_reference, lemma_bytes_at, lemma_end_table, lemma_extends_refl, lemma_extends_trans,
    lemma_finish, lemma_i16_at, lemma_i32_at, lemma_i64_at, lemma_lookup_push, lemma_placed, lemma_reference_extends,
    lemma_sits, lemma_slot_i16, lemma_slot_i32, lemma_slot_i64, lemma_slot_offset, lemma_slot_u8, lemma_start_table,
    lemma_u8_at, lookup, max_fields, reachable, sits, table_open, table_reads, Site,
};
use crate::ipc::fb::reader::{deref_at, root_at, span_at, string_at, table_at, TableModel};
use crate::le::{le_i16, le_i32, le_i64};

verus! {

broadcast use {crate::le::group_le, lemma_lookup_push};

/// A field to push: a number with its default, or a reference.
pub enum SlotV {
    Bool { value: bool, default: bool },
    U8 { value: u8, default: u8 },
    I8 { value: i8, default: i8 },
    I16 { value: i16, default: i16 },
    I32 { value: i32, default: i32 },
    I64 { value: i64, default: i64 },
    Offset { target: nat },
}

impl SlotV {
    /// Whether the field takes bytes: a number that equals its default does not.
    pub open spec fn written(self) -> bool {
        match self {
            SlotV::Bool { value, default } => value != default,
            SlotV::U8 { value, default } => value != default,
            SlotV::I8 { value, default } => value != default,
            SlotV::I16 { value, default } => value != default,
            SlotV::I32 { value, default } => value != default,
            SlotV::I64 { value, default } => value != default,
            SlotV::Offset { .. } => true,
        }
    }

    /// The bytes of a number.
    pub open spec fn bytes(self) -> Seq<u8> {
        match self {
            SlotV::Bool { value, .. } => seq![
                if value {
                    1u8
                } else {
                    0u8
                },
            ],
            SlotV::U8 { value, .. } => seq![value],
            SlotV::I8 { value, .. } => seq![value as u8],
            SlotV::I16 { value, .. } => le_i16(value),
            SlotV::I32 { value, .. } => le_i32(value),
            SlotV::I64 { value, .. } => le_i64(value),
            SlotV::Offset { .. } => Seq::empty(),
        }
    }
}

/// The state with a field pushed.
pub open spec fn push_slot(m: FbModel, slot: nat, v: SlotV) -> FbModel {
    match v {
        SlotV::Bool { value, default } => m.slot_bool(slot, value, default),
        SlotV::U8 { value, default } => m.slot_u8(slot, value, default),
        SlotV::I8 { value, default } => if value == default {
            m
        } else {
            m.push_u8(value as u8).track(slot)
        },
        SlotV::I16 { value, default } => m.slot_i16(slot, value, default),
        SlotV::I32 { value, default } => m.slot_i32(slot, value, default),
        SlotV::I64 { value, default } => m.slot_i64(slot, value, default),
        SlotV::Offset { target } => m.slot_offset(slot, target),
    }
}

/// The state with fields pushed, one after the other.
pub open spec fn push_slots(m: FbModel, fields: Seq<(nat, SlotV)>) -> FbModel
    decreases fields.len(),
{
    if fields.len() == 0 {
        m
    } else {
        push_slot(push_slots(m, fields.drop_last()), fields.last().0, fields.last().1)
    }
}

/// The state of a builder in which a table of the fields was closed and finished
/// as the root.
pub open spec fn finished_table(m: FbModel, fields: Seq<(nat, SlotV)>) -> FbModel {
    let open = push_slots(m.start_table(), fields);
    open.end_table(m.bytes.len()).finish(open.table_word().bytes.len())
}

/// What a reader gives for something behind a reference, if anything.
pub open spec fn behind<T>(r: Result<T, IpcErrorModel>) -> Result<Option<T>, IpcErrorModel> {
    match r {
        Ok(v) => Ok(Some(v)),
        Err(e) => Err(e),
    }
}

/// Whether the getters of a table give back a field: a number with its default,
/// and behind a reference what stands at its target. A number that equals its
/// default is absent.
pub open spec fn gives_back(t: TableModel, b: Site, slot: int, v: SlotV) -> bool {
    &&& !v.written() ==> t.field_at(slot) == Ok::<Option<int>, IpcErrorModel>(None)
    &&& match v {
        SlotV::Bool { value, default } => t.bool_field(slot, default) == Ok::<bool, IpcErrorModel>(value),
        SlotV::U8 { value, default } => t.u8_field(slot, default) == Ok::<u8, IpcErrorModel>(value),
        SlotV::I8 { value, default } => t.i8_field(slot, default) == Ok::<i8, IpcErrorModel>(value),
        SlotV::I16 { value, default } => t.i16_field(slot, default) == Ok::<i16, IpcErrorModel>(value),
        SlotV::I32 { value, default } => t.i32_field(slot, default) == Ok::<i32, IpcErrorModel>(value),
        SlotV::I64 { value, default } => t.i64_field(slot, default) == Ok::<i64, IpcErrorModel>(value),
        SlotV::Offset { target } => {
            let at = b.end - target;
            &&& t.table_field(slot) == behind(table_at(b.buf, at))
            &&& t.string_field(slot) == behind(string_at(b.buf, at))
            &&& forall|stride: int| #[trigger] t.vector_field(slot, stride) == behind(span_at(b.buf, at, stride))
        },
    }
}

/// A field recorded at its slot, where it stands in the bytes.
spec fn recorded(c: FbModel, locs: Seq<(nat, nat)>, slot: int, v: SlotV) -> bool {
    if !v.written() {
        lookup(locs, slot) is None
    } else {
        lookup(locs, slot) matches Some(d) && match v {
            SlotV::Offset { target } => holds_reference(c, d as int, target as int),
            _ => bytes_at(c.bytes, d as int, v.bytes()),
        }
    }
}

/// Slots are distinct.
pub open spec fn slots_distinct(fields: Seq<(nat, SlotV)>) -> bool {
    forall|i: int, j: int|
        #![trigger fields[i], fields[j]]
        0 <= i < j < fields.len() ==> fields[i].0 != fields[j].0
}

/// Slots below the bound, and references to what was written before the table.
pub open spec fn slots_in_bounds(m: FbModel, fields: Seq<(nat, SlotV)>) -> bool {
    forall|i: int|
        #![trigger fields[i]]
        0 <= i < fields.len() ==> fields[i].0 < max_fields() && (fields[i].1 matches SlotV::Offset { target } ==> 0
            < target <= m.bytes.len())
}

/// There are no more distinct slots than slots.
proof fn lemma_few_slots(m: FbModel, fields: Seq<(nat, SlotV)>)
    requires
        slots_distinct(fields),
        slots_in_bounds(m, fields),
    ensures
        fields.len() <= max_fields(),
{
    let slots = Seq::new(fields.len(), |i: int| fields[i].0 as int);
    let bound = max_fields() as int;
    assert(slots.no_duplicates()) by {
        assert forall|i: int, j: int| 0 <= i < slots.len() && 0 <= j < slots.len() && i != j implies slots[i]
            != slots[j] by {
            if i < j {
                assert(fields[i].0 != fields[j].0);
            } else {
                assert(fields[j].0 != fields[i].0);
            }
        }
    }
    slots.unique_seq_to_set();
    lemma_int_range(0, bound);
    assert(slots.to_set().subset_of(set_int_range(0, bound))) by {
        assert forall|x: int| slots.to_set().contains(x) implies set_int_range(0, bound).contains(x) by {
            let i = choose|i: int| 0 <= i < slots.len() && slots[i] == x;
            assert(fields[i].0 < max_fields());
        }
    }
    lemma_len_subset(slots.to_set(), set_int_range(0, bound));
}

/// One field more.
proof fn lemma_push_slot(m: FbModel, start: int, slot: nat, v: SlotV)
    requires
        table_open(m, start),
        m.locs.len() < max_fields(),
        slot < max_fields(),
        lookup(m.locs, slot as int) is None,
        v matches SlotV::Offset { target } ==> 0 < target <= m.bytes.len(),
    ensures
        ({
            let done = push_slot(m, slot, v);
            &&& table_open(done, start)
            &&& done.locs.len() <= m.locs.len() + 1
            &&& extends(m, done)
            &&& recorded(done, done.locs, slot as int, v)
            &&& forall|other: int| other != slot ==> #[trigger] lookup(done.locs, other) == lookup(m.locs, other)
        }),
{
    if v.written() {
        match v {
            SlotV::Bool { value, .. } => {
                lemma_slot_u8(
                    m,
                    start,
                    slot,
                    if value {
                        1u8
                    } else {
                        0u8
                    },
                );
            },
            SlotV::U8 { value, .. } => {
                lemma_slot_u8(m, start, slot, value);
            },
            SlotV::I8 { value, .. } => {
                lemma_slot_u8(m, start, slot, value as u8);
            },
            SlotV::I16 { value, .. } => {
                lemma_slot_i16(m, start, slot, value);
            },
            SlotV::I32 { value, .. } => {
                lemma_slot_i32(m, start, slot, value);
            },
            SlotV::I64 { value, .. } => {
                lemma_slot_i64(m, start, slot, value);
            },
            SlotV::Offset { target } => {
                lemma_slot_offset(m, start, slot, target);
            },
        }
    } else {
        lemma_extends_refl(m);
    }
}

/// A field stays recorded.
proof fn lemma_recorded_stays(c: FbModel, e: FbModel, locs: Seq<(nat, nat)>, more: Seq<(nat, nat)>, slot: int, v: SlotV)
    requires
        extends(c, e),
        recorded(c, locs, slot, v),
        lookup(more, slot) == lookup(locs, slot),
    ensures
        recorded(e, more, slot, v),
{
    if v.written() {
        let d = lookup(locs, slot)->0 as int;
        match v {
            SlotV::Offset { target } => {
                lemma_reference_extends(c, e, d, target as int);
            },
            _ => {
                lemma_bytes_at(c.bytes, e.bytes, d, v.bytes());
            },
        }
    }
}

/// Pushed fields are all recorded.
proof fn lemma_push_slots(m: FbModel, fields: Seq<(nat, SlotV)>)
    requires
        m.wf(),
        slots_distinct(fields),
        slots_in_bounds(m, fields),
        fields.len() <= max_fields(),
    ensures
        ({
            let open = push_slots(m.start_table(), fields);
            &&& table_open(open, m.bytes.len() as int)
            &&& open.locs.len() <= fields.len()
            &&& extends(m, open)
            &&& forall|i: int|
                #![trigger fields[i]]
                0 <= i < fields.len() ==> recorded(open, open.locs, fields[i].0 as int, fields[i].1)
            &&& forall|slot: int|
                (forall|i: int| #![trigger fields[i]] 0 <= i < fields.len() ==> fields[i].0 != slot)
                    ==> #[trigger] lookup(open.locs, slot) is None
        }),
    decreases fields.len(),
{
    let start = m.bytes.len() as int;
    if fields.len() == 0 {
        lemma_start_table(m);
        lemma_extends_refl(m);
    } else {
        let rest = fields.drop_last();
        let n = rest.len() as int;
        assert forall|i: int, j: int| #![trigger rest[i], rest[j]] 0 <= i < j < rest.len() implies rest[i].0
            != rest[j].0 by {
            assert(fields[i].0 != fields[j].0);
        }
        assert forall|i: int| #![trigger rest[i]] 0 <= i < rest.len() implies rest[i].0 < max_fields() && (
        rest[i].1 matches SlotV::Offset { target } ==> 0 < target <= m.bytes.len()) by {
            assert(fields[i] == rest[i]);
        }
        lemma_push_slots(m, rest);
        let before = push_slots(m.start_table(), rest);
        let (slot, v) = fields.last();
        assert(fields[n] == (slot, v));
        assert(lookup(before.locs, slot as int) is None) by {
            assert forall|i: int| #![trigger rest[i]] 0 <= i < rest.len() implies rest[i].0 != slot by {
                assert(fields[i].0 != fields[n].0);
            }
        }
        lemma_push_slot(before, start, slot, v);
        let open = push_slots(m.start_table(), fields);
        lemma_extends_trans(m, before, open);
        assert forall|i: int| #![trigger fields[i]] 0 <= i < fields.len() implies recorded(
            open,
            open.locs,
            fields[i].0 as int,
            fields[i].1,
        ) by {
            if i < n {
                assert(rest[i] == fields[i]);
                assert(fields[i].0 != fields[n].0);
                lemma_recorded_stays(
                    before,
                    open,
                    before.locs,
                    open.locs,
                    fields[i].0 as int,
                    fields[i].1,
                );
            }
        }
        assert forall|other: int|
            (forall|i: int| #![trigger fields[i]] 0 <= i < fields.len() ==> fields[i].0 != other) implies #[trigger] lookup(
            open.locs,
            other,
        ) is None by {
            assert(fields[n].0 != other);
            assert forall|i: int| #![trigger rest[i]] 0 <= i < rest.len() implies rest[i].0 != other by {
                assert(fields[i].0 != other);
            }
        }
    }
}

/// A recorded field is given back.
proof fn lemma_given_back(t: TableModel, c: FbModel, b: Site, d: int, locs: Seq<(nat, nat)>, slot: nat, v: SlotV)
    requires
        sits(c, b),
        addressable(b),
        table_at(b.buf, b.end - d) == Ok::<TableModel, IpcErrorModel>(t),
        table_reads(b, d, locs),
        recorded(c, locs, slot as int, v),
    ensures
        gives_back(t, b, slot as int, v),
{
    assert(t.field_at(slot as int) == t.field_at(slot as int));
    if v.written() {
        let at = lookup(locs, slot as int)->0 as int;
        match v {
            SlotV::Offset { target } => {
                assert(holds_reference(c, at, target as int));
                assert(deref_at(b.buf, b.end - at, "nested table offset"@) == Ok::<int, IpcErrorModel>(
                    b.end - target,
                ));
                assert(deref_at(b.buf, b.end - at, "string offset"@) == Ok::<int, IpcErrorModel>(b.end - target));
                assert(deref_at(b.buf, b.end - at, "vector offset"@) == Ok::<int, IpcErrorModel>(b.end - target));
            },
            SlotV::Bool { value, .. } => {
                lemma_placed(c, b, at, v.bytes());
                lemma_u8_at(
                    b,
                    at,
                    if value {
                        1u8
                    } else {
                        0u8
                    },
                    "bool field"@,
                );
            },
            SlotV::U8 { value, .. } => {
                lemma_placed(c, b, at, v.bytes());
                lemma_u8_at(b, at, value, "u8 field"@);
            },
            SlotV::I8 { value, .. } => {
                lemma_placed(c, b, at, v.bytes());
                lemma_u8_at(b, at, value as u8, "i8 field"@);
                assert((value as u8) as i8 == value) by (bit_vector);
            },
            SlotV::I16 { value, .. } => {
                lemma_placed(c, b, at, v.bytes());
                lemma_i16_at(b, at, value, "i16 field"@);
            },
            SlotV::I32 { value, .. } => {
                lemma_placed(c, b, at, v.bytes());
                lemma_i32_at(b, at, value, "i32 field"@);
            },
            SlotV::I64 { value, .. } => {
                lemma_placed(c, b, at, v.bytes());
                lemma_i64_at(b, at, value, "i64 field"@);
            },
        }
    }
}

/// A table opened, filled, closed and finished as the root is read back: each
/// field gives the value that was pushed, and a slot that was not pushed is
/// absent. What was written before the table still stands at its distance from
/// the end.
pub proof fn law_table_reads_back(m: FbModel, fields: Seq<(nat, SlotV)>)
    requires
        m.wf(),
        !m.open,
        slots_distinct(fields),
        slots_in_bounds(m, fields),
        reachable(finished_table(m, fields)),
    ensures
        ({
            let buf = finished_table(m, fields).bytes;
            let b = Site { buf, end: buf.len() as int, far: false };
            &&& sits(m, b)
            &&& root_at(buf) matches Ok(t) && {
                &&& forall|i: int|
                    #![trigger fields[i]]
                    0 <= i < fields.len() ==> gives_back(t, b, fields[i].0 as int, fields[i].1)
                &&& forall|slot: int|
                    0 <= slot && (forall|i: int| #![trigger fields[i]] 0 <= i < fields.len() ==> fields[i].0 != slot)
                        ==> #[trigger] t.field_at(slot) == Ok::<Option<int>, IpcErrorModel>(None)
            }
        }),
{
    lemma_few_slots(m, fields);
    lemma_push_slots(m, fields);
    let start = m.bytes.len();
    let open = push_slots(m.start_table(), fields);
    lemma_end_table(open, start);
    let done = open.end_table(start);
    let root = open.table_word().bytes.len();
    lemma_finish(done, root);
    let last = done.finish(root);
    let buf = last.bytes;
    let b = Site { buf, end: buf.len() as int, far: false };
    assert(buf.subrange(0, buf.len() as int) =~= buf);
    assert(sits(last, b));
    lemma_sits(done, last, b);
    lemma_sits(open, done, b);
    lemma_sits(m, open, b);
    assert(table_reads(b, root as int, open.locs));
    let t = table_at(buf, b.end - root)->Ok_0;
    assert forall|i: int| #![trigger fields[i]] 0 <= i < fields.len() implies gives_back(
        t,
        b,
        fields[i].0 as int,
        fields[i].1,
    ) by {
        lemma_given_back(t, open, b, root as int, open.locs, fields[i].0, fields[i].1);
    }
}

} // verus!
