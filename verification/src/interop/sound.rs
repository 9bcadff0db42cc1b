//! Which parts arrow takes, and which columns have such parts.
use vstd::prelude::*;
use vstd::utf8::{is_char_boundary, valid_utf8};
use crate::array::model::{all_text, is_text, lemma_fixed_width, offsets_ok, ArrayV, BodyV};
use crate::array::native::ArrowNativeType;
use crate::array::parts::lemma_remade;
use crate::array::primitive::{bytes_of, column_of, lemma_column_of};
use crate::buffer::{lemma_unset, unset};
use crate::datatype::TypeModel;
use crate::error::DataErrorModel;
use crate::flat::lemma_even_starts;
use crate::interop::array::{
    describes, has_wide_offsets, lemma_offset_bytes, offset_bytes, offsets_in, parts_offsets, window_bytes, PartsV,
};
use crate::interop::buffer::marked;
use crate::interop::datatype::{law_types_return, type_of_arrow};
use crate::interop::error::InteropErrorModel;
use crate::ipc::layout::value_width;

verus! {

/// Whether a child is null only in slots of its parent that are null, `n` slots
/// of the child to one of the parent.
pub open spec fn nulls_within(parent: Option<Seq<bool>>, child: Option<Seq<bool>>, n: int) -> bool {
    child matches Some(c) ==> forall|k: int|
        #![trigger c[k]]
        0 <= k < c.len() && !c[k] ==> (parent matches Some(v) && !v[k / n])
}

/// Whether offsets part text between characters: asked only of bytes that are
/// text as a whole.
pub open spec fn between_chars(offsets: Seq<i64>, values: Seq<u8>, len: nat) -> bool {
    len > 0 && valid_utf8(values) ==> forall|i: int|
        #![trigger offsets[i]]
        0 <= i <= len ==> is_char_boundary(values, offsets[i] as int)
}

/// Whether the offsets of parts are whole, never descend and stay within
/// `limit`.
pub open spec fn sound_offsets(p: PartsV, wide: bool, limit: int) -> bool {
    let width: int = if wide {
        8
    } else {
        4
    };
    &&& (p.offset + p.len) * width <= p.buffers[0].len()
    &&& parts_offsets(p, wide) matches Ok(offsets) && offsets_ok(offsets, p.len, limit, i64::MAX as int)
}

/// Whether parts are those of a column, in their own numbers: as many buffers
/// and children as the type has, each long enough, validity of one bit per slot,
/// offsets in order, text that is text, children of the types that the fields
/// name, and no nulls under a field that allows none.
pub open spec fn sound(p: PartsV) -> bool
    decreases p,
{
    let slots = p.offset + p.len;
    &&& slots <= usize::MAX
    &&& p.nulls matches Some(v) ==> v.len() == p.len && slots <= p.span
    &&& match type_of_arrow(p.ty) {
        Err(_) => false,
        Ok(t) => match t {
            TypeModel::Null => p.nulls is None && p.buffers.len() == 0 && p.children.len() == 0,
            TypeModel::Bool => p.buffers.len() == 1 && slots <= 8 * p.buffers[0].len() && p.children.len() == 0,
            TypeModel::Binary | TypeModel::LargeBinary | TypeModel::Utf8 | TypeModel::LargeUtf8 => {
                let wide = has_wide_offsets(t);
                &&& p.buffers.len() == 2
                &&& p.children.len() == 0
                &&& sound_offsets(p, wide, p.buffers[1].len() as int)
                &&& is_text(t) ==> {
                    let offsets = parts_offsets(p, wide)->Ok_0;
                    all_text(offsets, p.buffers[1], p.len) && between_chars(offsets, p.buffers[1], p.len)
                }
            },
            TypeModel::List(f) => {
                &&& p.buffers.len() == 1
                &&& p.children.len() == 1
                &&& sound(p.children[0])
                &&& p.children[0].ty == p.ty->List_0.data_type
                &&& sound_offsets(p, false, p.children[0].len as int)
                &&& f.nullable || p.children[0].nulls is None
            },
            TypeModel::FixedSizeList(f, n) => {
                &&& p.buffers.len() == 0
                &&& p.children.len() == 1
                &&& sound(p.children[0])
                &&& p.children[0].ty == p.ty->FixedSizeList_0.data_type
                &&& n > 0 && p.len * n <= p.children[0].len
                &&& f.nullable || nulls_within(p.nulls, p.children[0].nulls, n as int)
            },
            TypeModel::Struct(fs) => {
                &&& p.buffers.len() == 0
                &&& p.children.len() == fs.len()
                &&& forall|k: int|
                    #![trigger p.children[k]]
                    0 <= k < p.children.len() ==> {
                        &&& sound(p.children[k])
                        &&& p.children[k].ty == p.ty->Struct_0[k].data_type
                        &&& p.len <= p.children[k].len
                        &&& fs[k].nullable || nulls_within(p.nulls, p.children[k].nulls, 1)
                    }
            },
            _ => p.buffers.len() == 1 && p.children.len() == 0 && (value_width(t) matches Some(w) && slots * w
                <= p.buffers[0].len()),
        },
    }
}

/// Whether arrow has the column: text is parted between characters, and no
/// nulls stand under a field that allows none.
pub open spec fn taken(a: ArrayV) -> bool
    decreases a,
{
    match a.body {
        BodyV::Var { offsets, values } => is_text(a.ty) ==> between_chars(offsets, values, a.len),
        BodyV::List { child, .. } => (a.ty->List_0.nullable || marked(child.validity) is None) && taken(*child),
        BodyV::FixedList(child) => (a.ty->FixedSizeList_0.nullable || nulls_within(
            a.validity,
            child.validity,
            a.ty->FixedSizeList_1 as int,
        )) && taken(*child),
        BodyV::Struct(columns) => forall|k: int|
            #![trigger columns[k]]
            0 <= k < columns.len() ==> (a.ty->Struct_0[k].nullable || nulls_within(
                a.validity,
                columns[k].validity,
                1,
            )) && taken(columns[k]),
        _ => true,
    }
}

/// The buffers and children can be held at all.
pub open spec fn held(p: PartsV) -> bool
    decreases p,
{
    &&& forall|i: int| #![trigger p.buffers[i]] 0 <= i < p.buffers.len() ==> p.buffers[i].len() <= usize::MAX
    &&& forall|k: int| #![trigger p.children[k]] 0 <= k < p.children.len() ==> held(p.children[k])
}

/// Values have at least a byte each.
proof fn lemma_count<T: ArrowNativeType>(values: Seq<T>)
    ensures
        values.len() <= bytes_of(values).len(),
{
    let lists = Seq::new(values.len(), |i: int| values[i].le_bytes());
    let w = T::width() as int;
    T::lemma_native(T::zero_model());
    assert forall|i: int| #![trigger lists[i]] 0 <= i < lists.len() implies lists[i].len() == w by {
        T::lemma_native(values[i]);
    }
    lemma_even_starts(lists, w, 0);
    let n = values.len() as int;
    assert(n <= n * w) by (nonlinear_arith)
        requires
            w >= 1,
            n >= 0,
    ;
}

/// Offsets come back from their bytes.
pub proof fn lemma_offsets_return(offsets: Seq<i64>, len: nat, limit: int, wide: bool)
    requires
        offsets_ok(
            offsets,
            len,
            limit,
            if wide {
                i64::MAX as int
            } else {
                i32::MAX as int
            },
        ),
        offset_bytes(offsets, wide).len() <= usize::MAX,
    ensures
        offsets_in(offset_bytes(offsets, wide), wide) == Ok::<Seq<i64>, DataErrorModel>(offsets),
{
    if wide {
        lemma_count(offsets);
        lemma_column_of(offsets, None);
        lemma_remade(column_of(offsets, None));
    } else {
        let narrow = Seq::new(offsets.len(), |i: int| offsets[i] as i32);
        lemma_count(narrow);
        lemma_column_of(narrow, None);
        lemma_remade(column_of(narrow, None));
        let back = Seq::new(narrow.len(), |i: int| narrow[i] as i64);
        assert forall|i: int| 0 <= i < offsets.len() implies back[i] == offsets[i] by {
            assert(0 <= offsets[i] <= offsets[len as int]);
        }
        assert(back =~= offsets);
    }
}

/// The window of all values is all bytes.
pub proof fn lemma_whole_window(bytes: Seq<u8>, width: int, count: int)
    requires
        bytes.len() == count * width,
    ensures
        window_bytes(bytes, width, 0, count) == Some(bytes),
{
    assert(0 * width == 0);
    assert(bytes.subrange(0, count * width) =~= bytes);
}

/// The offsets of parts that start at their first slot are all of them.
pub proof fn lemma_whole_offsets(p: PartsV, offsets: Seq<i64>, wide: bool)
    requires
        p.offset == 0,
        offsets.len() == p.len + 1,
        p.buffers.len() > 0,
        p.buffers[0] == offset_bytes(offsets, wide),
        offsets_in(offset_bytes(offsets, wide), wide) == Ok::<Seq<i64>, DataErrorModel>(offsets),
    ensures
        parts_offsets(p, wide) == Ok::<Seq<i64>, InteropErrorModel>(offsets),
{
    lemma_offset_bytes(offsets, wide);
    let width: int = if wide {
        8
    } else {
        4
    };
    lemma_whole_window(p.buffers[0], width, p.len as int + 1);
}

/// Validity that marks no null allows no more nulls under it.
proof fn lemma_marked_within(parent: Option<Seq<bool>>, child: Option<Seq<bool>>, n: int)
    requires
        n > 0,
        nulls_within(parent, child, n),
        parent matches Some(v) ==> (child matches Some(c) ==> c.len() == v.len() * n),
    ensures
        nulls_within(marked(parent), marked(child), n),
{
    if let Some(c) = child {
        lemma_unset(c);
        if let Some(v) = parent {
            lemma_unset(v);
            if unset(v) == 0 {
                assert forall|k: int| 0 <= k < c.len() implies c[k] by {
                    assert(0 <= k / n < v.len()) by (nonlinear_arith)
                        requires
                            0 <= k < v.len() * n,
                            n > 0,
                    ;
                    assert(v[k / n]);
                }
            }
        }
    }
}

/// The parts of a column of lists that arrow has are sound.
proof fn lemma_sound_list(p: PartsV, a: ArrayV)
    requires
        a.wf(),
        a.body is List,
        describes(p, a),
        held(p),
        taken(a),
        p.len <= usize::MAX,
        p.nulls is Some ==> p.len <= p.span,
        sound(p.children[0]),
    ensures
        sound(p),
{
    law_types_return(a.ty);
    let offsets = a.body->List_offsets;
    let child = *a.body->List_child;
    assert(p.buffers[0].len() <= usize::MAX);
    lemma_offset_bytes(offsets, false);
    lemma_offsets_return(offsets, a.len, child.len as int, false);
    lemma_whole_offsets(p, offsets, false);
    assert(describes(p.children[0], child));
    assert(sound_offsets(p, false, p.children[0].len as int));
    assert(p.children[0].ty == p.ty->List_0.data_type);
}

/// The parts of a column of lists of one size that arrow has are sound.
proof fn lemma_sound_fixed_list(p: PartsV, a: ArrayV)
    requires
        a.wf(),
        a.body is FixedList,
        describes(p, a),
        taken(a),
        p.len <= usize::MAX,
        p.nulls is Some ==> p.len <= p.span,
        sound(p.children[0]),
    ensures
        sound(p),
{
    law_types_return(a.ty);
    let child = *a.body->FixedList_0;
    let n = a.ty->FixedSizeList_1 as int;
    assert(child.wf() && child.len == a.len * n);
    assert(describes(p.children[0], child));
    if !a.ty->FixedSizeList_0.nullable {
        lemma_marked_within(a.validity, child.validity, n);
    }
    assert(p.children[0].ty == p.ty->FixedSizeList_0.data_type);
}

/// The parts of a column of structs that arrow has are sound.
proof fn lemma_sound_struct(p: PartsV, a: ArrayV)
    requires
        a.wf(),
        a.body is Struct,
        describes(p, a),
        taken(a),
        p.len <= usize::MAX,
        p.nulls is Some ==> p.len <= p.span,
        forall|k: int| #![trigger p.children[k]] 0 <= k < p.children.len() ==> sound(p.children[k]),
    ensures
        sound(p),
{
    let fs = a.ty->Struct_0;
    let columns = a.body->Struct_0;
    law_types_return(a.ty);
    crate::interop::datatype::lemma_arrow_of_struct(fs);
    assert forall|k: int| #![trigger p.children[k]] 0 <= k < p.children.len() implies {
        &&& sound(p.children[k])
        &&& p.children[k].ty == p.ty->Struct_0[k].data_type
        &&& p.len <= p.children[k].len
        &&& fs[k].nullable || nulls_within(p.nulls, p.children[k].nulls, 1)
    } by {
        assert(describes(p.children[k], columns[k]));
        assert(columns[k].len == a.len && columns[k].wf());
        if !fs[k].nullable {
            lemma_marked_within(a.validity, columns[k].validity, 1);
        }
    }
}

/// The parts of a column that arrow has are sound.
pub proof fn lemma_sound(p: PartsV, a: ArrayV)
    requires
        a.wf(),
        describes(p, a),
        held(p),
        taken(a),
        p.offset + p.len <= usize::MAX,
        p.nulls is Some ==> p.offset + p.len <= p.span,
        forall|k: int| #![trigger p.children[k]] 0 <= k < p.children.len() ==> sound(p.children[k]),
    ensures
        sound(p),
{
    match a.body {
        BodyV::List { .. } => {
            assert(sound(p.children[0]));
            lemma_sound_list(p, a);
        },
        BodyV::FixedList(_) => {
            assert(sound(p.children[0]));
            lemma_sound_fixed_list(p, a);
        },
        BodyV::Struct(_) => {
            lemma_sound_struct(p, a);
        },
        BodyV::Var { offsets, values } => {
            let wide = has_wide_offsets(a.ty);
            law_types_return(a.ty);
            assert(p.buffers[0].len() <= usize::MAX);
            lemma_offset_bytes(offsets, wide);
            lemma_offsets_return(offsets, a.len, values.len() as int, wide);
            lemma_whole_offsets(p, offsets, wide);
        },
        BodyV::Fixed(_) => {
            law_types_return(a.ty);
            lemma_fixed_width(a);
        },
        _ => {},
    }
}

} // verus!
