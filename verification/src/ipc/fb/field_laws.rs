//! What the fields of a table are read as, by the layout of the format.
use vstd::prelude::*;
use crate::ipc::error::IpcErrorModel;
use crate::ipc::fb::reader::{table_at, TableModel};
use crate::ipc::format_laws::{lemma_table, lemma_vector, referred, slot, word16, word32, word64};

verus! {

/// Numbers are read from where the field lies, in their width, the least
/// significant byte first; where the field is absent, its default holds.
pub proof fn law_numbers_are_read_by_the_format(b: Seq<u8>, pos: int, t: TableModel, n: int)
    requires
        table_at(b, pos) == Ok::<TableModel, IpcErrorModel>(t),
        n >= 0,
    ensures
        forall|d: bool|
            #![trigger t.bool_field(n, d)]
            t.bool_field(n, d) matches Ok(v) ==> v == match slot(b, pos, n) {
                Some(at) => b[at] != 0,
                None => d,
            },
        forall|d: u8|
            #![trigger t.u8_field(n, d)]
            t.u8_field(n, d) matches Ok(v) ==> v == match slot(b, pos, n) {
                Some(at) => b[at],
                None => d,
            },
        forall|d: i8|
            #![trigger t.i8_field(n, d)]
            t.i8_field(n, d) matches Ok(v) ==> v == match slot(b, pos, n) {
                Some(at) => b[at] as i8,
                None => d,
            },
        forall|d: i16|
            #![trigger t.i16_field(n, d)]
            t.i16_field(n, d) matches Ok(v) ==> v == match slot(b, pos, n) {
                Some(at) => word16(b, at) as i16,
                None => d,
            },
        forall|d: i32|
            #![trigger t.i32_field(n, d)]
            t.i32_field(n, d) matches Ok(v) ==> v == match slot(b, pos, n) {
                Some(at) => word32(b, at) as i32,
                None => d,
            },
        forall|d: i64|
            #![trigger t.i64_field(n, d)]
            t.i64_field(n, d) matches Ok(v) ==> v == match slot(b, pos, n) {
                Some(at) => word64(b, at) as i64,
                None => d,
            },
{
    lemma_table(b, pos, t);
    assert(t.field_at(n) matches Ok(at) ==> at == slot(b, pos, n));
}

/// Tables, text and vectors are read from where the field refers to; where the
/// field is absent, there is none.
pub proof fn law_references_are_read_by_the_format(b: Seq<u8>, pos: int, t: TableModel, n: int, stride: int)
    requires
        table_at(b, pos) == Ok::<TableModel, IpcErrorModel>(t),
        n >= 0,
    ensures
        t.table_field(n) matches Ok(found) ==> match slot(b, pos, n) {
            Some(at) => found matches Some(inner) && inner.pos == referred(b, at) && inner.buf == b,
            None => found is None,
        },
        t.string_field(n) matches Ok(found) ==> match slot(b, pos, n) {
            Some(at) => {
                let p = referred(b, at);
                found == Some(vstd::utf8::decode_utf8(b.subrange(p + 4, p + 4 + word32(b, p))))
            },
            None => found is None,
        },
        t.vector_field(n, stride) matches Ok(found) ==> match slot(b, pos, n) {
            Some(at) => {
                let p = referred(b, at);
                found matches Some(span) && span.buf == b && span.start == p + 4 && span.len == word32(b, p)
                    && span.stride == stride
            },
            None => found is None,
        },
{
    lemma_table(b, pos, t);
    assert(t.field_at(n) matches Ok(at) ==> at == slot(b, pos, n));
    if t.vector_field(n, stride) is Ok {
        lemma_vector(b, pos, t, n, stride);
        assert(0 * stride == 0) by (nonlinear_arith);
    }
}

} // verus!
