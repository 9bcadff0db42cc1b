//! How many nodes and buffers types have, how wide their values are, and where
//! messages start.
use vstd::prelude::*;
use vstd::arithmetic::power2::{lemma2_to64, lemma_pow2_unfold, pow2};
use crate::array::cell_laws::slot_bytes;
use crate::array::memory::memory;
use crate::array::model::{ArrayV, BodyV};
use crate::datatype::{primitive_width_model, FieldModel, TypeModel};
use crate::ipc::body_laws::{buffer_span, buffer_start, node_span, node_start};
use crate::ipc::layout::{
    buffers_of, buffers_of_all, depth_of, depth_of_all, nodes_of, nodes_of_all, offset_width, roles_of, value_width,
    values_len, BufferRole,
};
use crate::ipc::payload::{one_batch_stream, payload_bytes};
use crate::ipc::writer::{doubled_to, rounded_alignment};
use crate::record_batch::BatchV;

verus! {

/// A type has the nodes and the buffers that its columns are read from: one node
/// of its own and those of its children, three buffers for byte strings, two for
/// lists and values, one for structs and lists of one size, none for nulls.
pub proof fn law_types_have_their_nodes_and_buffers(t: TypeModel)
    ensures
        nodes_of(t) == node_span(t),
        buffers_of(t) == buffer_span(t),
    decreases t, 0int,
{
    match t {
        TypeModel::List(f) => {
            law_types_have_their_nodes_and_buffers(f.data_type);
        },
        TypeModel::FixedSizeList(f, _) => {
            law_types_have_their_nodes_and_buffers(f.data_type);
        },
        TypeModel::Struct(fs) => {
            law_fields_have_their_nodes_and_buffers(fs);
        },
        _ => {},
    }
}

/// Fields have the nodes and the buffers of their types together.
pub proof fn law_fields_have_their_nodes_and_buffers(fs: Seq<FieldModel>)
    ensures
        nodes_of_all(fs) == node_start(fs, fs.len()),
        buffers_of_all(fs) == buffer_start(fs, fs.len()),
    decreases fs, 1int,
{
    if fs.len() > 0 {
        let rest = fs.drop_last();
        law_fields_have_their_nodes_and_buffers(rest);
        law_types_have_their_nodes_and_buffers(fs.last().data_type);
        lemma_starts(fs, rest.len());
    }
}

proof fn lemma_starts(fs: Seq<FieldModel>, k: nat)
    requires
        k < fs.len(),
    ensures
        node_start(fs.drop_last(), k) == node_start(fs, k),
        buffer_start(fs.drop_last(), k) == buffer_start(fs, k),
    decreases k,
{
    if k > 0 {
        lemma_starts(fs, (k - 1) as nat);
    }
}

/// The buffers of a type's own: validity first, then offsets where slots vary in
/// length, then values where they are not a child's.
pub proof fn law_buffers_stand_in_order(t: TypeModel)
    ensures
        t is Null ==> roles_of(t).len() == 0,
        !(t is Null) ==> roles_of(t).len() > 0 && roles_of(t)[0] is Validity,
        t is Binary || t is LargeBinary || t is Utf8 || t is LargeUtf8 ==> roles_of(t) == seq![
            BufferRole::Validity,
            BufferRole::Offsets,
            BufferRole::Values,
        ],
        t is List ==> roles_of(t) == seq![BufferRole::Validity, BufferRole::Offsets],
        t is Struct || t is FixedSizeList ==> roles_of(t) == seq![BufferRole::Validity],
        t is Bool || slot_bytes(t) > 0 ==> roles_of(t) == seq![BufferRole::Validity, BufferRole::Values],
{
}

/// Values are as wide as slots are, and only where slots all have as many bytes;
/// offsets take four bytes, and eight in the types of the large kind.
pub proof fn law_widths_are_those_of_slots(t: TypeModel, rows: nat)
    ensures
        !(t is FixedSizeBinary) ==> primitive_width_model(t) == (if slot_bytes(t) > 0 {
            Some(slot_bytes(t) as nat)
        } else {
            None
        }),
        value_width(t) matches Some(w) ==> w == slot_bytes(t),
        value_width(t) is None <==> slot_bytes(t) < 0 || (slot_bytes(t) == 0 && !(t is FixedSizeBinary)),
        t is Bool ==> values_len(t, rows) == Some(((rows + 7) / 8) as nat),
        !(t is Bool) && slot_bytes(t) > 0 && rows * slot_bytes(t) <= usize::MAX ==> values_len(t, rows) == Some(
            (rows * slot_bytes(t)) as nat,
        ),
        offset_width(t) == Some(4nat) <==> t is Binary || t is Utf8 || t is List,
        offset_width(t) == Some(8nat) <==> t is LargeBinary || t is LargeUtf8,
{
    let w = slot_bytes(t);
    assert(w * rows == rows * w) by (nonlinear_arith);
}

/// A type is one deeper than its deepest child.
pub proof fn law_depth_is_that_of_the_deepest_child(t: TypeModel)
    ensures
        match t {
            TypeModel::List(f) => depth_of(t) == depth_of(f.data_type) + 1,
            TypeModel::FixedSizeList(f, _) => depth_of(t) == depth_of(f.data_type) + 1,
            TypeModel::Struct(fs) => {
                &&& forall|k: int| #![trigger fs[k]] 0 <= k < fs.len() ==> depth_of(fs[k].data_type) < depth_of(t)
                &&& depth_of(t) == 1 || exists|k: int|
                    #![trigger fs[k]]
                    0 <= k < fs.len() && depth_of(t) == depth_of(fs[k].data_type) + 1
            },
            _ => depth_of(t) == 1,
        },
{
    if let TypeModel::Struct(fs) = t {
        lemma_deepest(fs);
    }
}

proof fn lemma_deepest(fs: Seq<FieldModel>)
    ensures
        forall|k: int| #![trigger fs[k]] 0 <= k < fs.len() ==> depth_of(fs[k].data_type) <= depth_of_all(fs),
        depth_of_all(fs) == 0 || exists|k: int|
            #![trigger fs[k]]
            0 <= k < fs.len() && depth_of_all(fs) == depth_of(fs[k].data_type),
    decreases fs.len(),
{
    if fs.len() > 0 {
        let rest = fs.drop_last();
        lemma_deepest(rest);
        assert(fs.last() == fs[fs.len() - 1]);
        assert forall|k: int| #![trigger fs[k]] 0 <= k < fs.len() implies depth_of(fs[k].data_type) <= depth_of_all(
            fs,
        ) by {
            if k < rest.len() {
                assert(rest[k] == fs[k]);
            }
        }
        if depth_of_all(fs) != 0 && depth_of_all(fs) != depth_of(fs.last().data_type) {
            let k = choose|k: int|
                #![trigger rest[k]]
                0 <= k < rest.len() && depth_of_all(rest) == depth_of(rest[k].data_type);
            assert(rest[k] == fs[k]);
        }
    }
}

/// An alignment is brought up to the least power of two that is no less than it,
/// and no less than eight.
pub proof fn law_alignments_are_powers_of_two(n: nat) -> (k: nat)
    ensures
        k >= 3,
        rounded_alignment(n) == pow2(k),
        n <= pow2(k),
        k > 3 ==> pow2((k - 1) as nat) < n,
{
    lemma2_to64();
    lemma_doubled(3, n)
}

proof fn lemma_doubled(j: nat, n: nat) -> (k: nat)
    ensures
        k >= j,
        doubled_to(pow2(j), n) == pow2(k),
        n <= pow2(k),
        k > j ==> pow2((k - 1) as nat) < n,
    decreases 2 * n - pow2(j),
{
    vstd::arithmetic::power2::lemma_pow2_pos(j);
    if pow2(j) >= n {
        j
    } else {
        lemma_pow2_unfold(j + 1);
        let k = lemma_doubled(j + 1, n);
        if k == j + 1 {
            assert(pow2((k - 1) as nat) == pow2(j));
        }
        k
    }
}

/// A payload is the stream of its batch and zeros up to the boundary of payloads.
pub proof fn law_payloads_are_padded_streams(b: BatchV, alignment: int)
    ensures
        ({
            let stream = one_batch_stream(b, alignment);
            let bytes = payload_bytes(b, alignment);
            &&& bytes.len() as int % 128 == 0
            &&& stream.len() <= bytes.len() < stream.len() + 128
            &&& bytes.subrange(0, stream.len() as int) == stream
            &&& forall|i: int| #![trigger bytes[i]] stream.len() <= i < bytes.len() ==> bytes[i] == 0
        }),
{
    let stream = one_batch_stream(b, alignment);
    let bytes = payload_bytes(b, alignment);
    crate::le::lemma_padded(stream.len() as int, 128);
    assert(bytes.subrange(0, stream.len() as int) =~= stream);
}

/// The bytes of a column without children are those of its buffers: a bit for each
/// slot's validity where it is marked, a bit or the width for each slot, or an
/// offset more than slots and the bytes of the strings.
pub proof fn law_buffers_are_counted(a: ArrayV)
    requires
        a.wf(),
        !(a.ty is List || a.ty is FixedSizeList || a.ty is Struct),
    ensures
        memory(a) == (if a.validity is Some {
            (a.len + 7) / 8
        } else {
            0
        }) + match a.body {
            BodyV::Bits(_) => ((a.len + 7) / 8) as int,
            BodyV::Fixed(_) => a.len * slot_bytes(a.ty),
            BodyV::Var { values, .. } => (a.len + 1) * (if a.ty is LargeBinary || a.ty is LargeUtf8 {
                8int
            } else {
                4
            }) + values.len(),
            _ => 0,
        },
{
}

} // verus!
