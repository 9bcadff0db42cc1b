//! What an array is: its type, its length, its validity and its buffers, and
//! the cells they spell.
use vstd::prelude::*;
use vstd::utf8::valid_utf8;
use crate::datatype::TypeModel;
use crate::ipc::layout::{offset_width, value_width};

verus! {

/// An array's parts.
pub struct ArrayV {
    pub ty: TypeModel,
    pub len: nat,
    pub validity: Option<Seq<bool>>,
    pub body: BodyV,
}

/// An array's buffers and children.
pub enum BodyV {
    /// None at all.
    Null,
    /// One bit per slot.
    Bits(Seq<bool>),
    /// One value of fixed width per slot.
    Fixed(Seq<u8>),
    /// Slot `i` is the bytes from offset `i` to offset `i + 1`.
    Var { offsets: Seq<i64>, values: Seq<u8> },
    /// Slot `i` is the child's slots from offset `i` to offset `i + 1`.
    List { offsets: Seq<i64>, child: Box<ArrayV> },
    /// Slot `i` is the `i`th run of as many child slots as the type says.
    FixedList(Box<ArrayV>),
    /// Slot `i` is slot `i` of every column.
    Struct(Seq<ArrayV>),
}

/// What a slot holds. What lies under a null does not count.
pub enum Cell {
    Null,
    Bool(bool),
    Bytes(Seq<u8>),
    Nested(Seq<Cell>),
}

/// The largest offset a type can write.
pub open spec fn max_offset(t: TypeModel) -> int {
    if offset_width(t) == Some(4nat) {
        i32::MAX as int
    } else {
        i64::MAX as int
    }
}

/// Whether the type's slots are byte strings of varying length.
pub open spec fn is_var(t: TypeModel) -> bool {
    t is Binary || t is LargeBinary || t is Utf8 || t is LargeUtf8
}

/// Whether the type's slots are text.
pub open spec fn is_text(t: TypeModel) -> bool {
    t is Utf8 || t is LargeUtf8
}

/// Offsets of `len` slots over `limit` things: one more than slots, never
/// descending, inside, and within what the type can write.
pub open spec fn offsets_ok(offsets: Seq<i64>, len: nat, limit: int, max: int) -> bool {
    &&& offsets.len() == len + 1
    &&& 0 <= offsets[0]
    &&& forall|i: int, j: int|
        #![trigger offsets[i], offsets[j]]
        0 <= i <= j < offsets.len() ==> offsets[i] <= offsets[j]
    &&& offsets[len as int] <= limit
    &&& offsets[len as int] <= max
}

/// Slot `i` of a byte string array.
pub open spec fn var_slot(offsets: Seq<i64>, values: Seq<u8>, i: int) -> Seq<u8> {
    values.subrange(offsets[i] as int, offsets[i + 1] as int)
}

/// Every slot is text.
pub open spec fn all_text(offsets: Seq<i64>, values: Seq<u8>, len: nat) -> bool {
    forall|i: int| 0 <= i < len ==> valid_utf8(#[trigger] var_slot(offsets, values, i))
}

impl ArrayV {
    /// The parts fit one another.
    pub open spec fn wf(self) -> bool
        decreases self,
    {
        &&& self.len <= usize::MAX
        &&& self.validity matches Some(v) ==> v.len() == self.len
        &&& match self.ty {
            TypeModel::Null => self.body is Null && self.validity is None,
            TypeModel::Bool => self.body matches BodyV::Bits(bits) && bits.len() == self.len,
            TypeModel::Binary | TypeModel::LargeBinary | TypeModel::Utf8 | TypeModel::LargeUtf8 =>
                self.body matches BodyV::Var { offsets, values } && offsets_ok(
                offsets,
                self.len,
                values.len() as int,
                max_offset(self.ty),
            ) && values.len() <= usize::MAX && (is_text(self.ty) ==> all_text(offsets, values, self.len)),
            TypeModel::List(f) => self.body matches BodyV::List { offsets, child } && offsets_ok(
                offsets,
                self.len,
                child.len as int,
                max_offset(self.ty),
            ) && child.ty == f.data_type && child.wf(),
            TypeModel::FixedSizeList(f, n) => self.body matches BodyV::FixedList(child) && n > 0
                && child.len == self.len * n && child.ty == f.data_type && child.wf(),
            TypeModel::Struct(fs) => self.body matches BodyV::Struct(columns) && columns.len() == fs.len()
                && forall|k: int|
                #![trigger columns[k]]
                0 <= k < columns.len() ==> columns[k].len == self.len && columns[k].ty == fs[k].data_type
                    && columns[k].wf(),
            TypeModel::FixedSizeBinary(w) => self.body matches BodyV::Fixed(bytes) && w > 0 && bytes.len()
                == self.len * w && bytes.len() <= usize::MAX,
            _ => self.body matches BodyV::Fixed(bytes) && bytes.len() == self.len * value_width(
                self.ty,
            ).unwrap() && bytes.len() <= usize::MAX,
        }
    }

    /// The byte width of a slot, where it has one.
    pub open spec fn width(self) -> nat {
        match value_width(self.ty) {
            Some(w) => w,
            None => 0,
        }
    }

    /// How many child slots a slot has, where that is fixed.
    pub open spec fn list_size(self) -> nat {
        match self.ty {
            TypeModel::FixedSizeList(_, n) => n as nat,
            _ => 0,
        }
    }

    /// Whether slot `i` is not null.
    pub open spec fn valid_at(self, i: int) -> bool {
        !(self.ty is Null) && match self.validity {
            None => true,
            Some(v) => v[i],
        }
    }

    /// What slot `i` holds.
    pub open spec fn cell(self, i: int) -> Cell
        decreases self,
    {
        if !self.valid_at(i) {
            Cell::Null
        } else {
            match self.body {
                BodyV::Null => Cell::Null,
                BodyV::Bits(bits) => Cell::Bool(bits[i]),
                BodyV::Fixed(bytes) => Cell::Bytes(
                    bytes.subrange(i * self.width(), i * self.width() + self.width()),
                ),
                BodyV::Var { offsets, values } => Cell::Bytes(var_slot(offsets, values, i)),
                BodyV::List { offsets, child } => Cell::Nested(
                    Seq::new(
                        (offsets[i + 1] - offsets[i]) as nat,
                        |j: int| child.cell(offsets[i] + j),
                    ),
                ),
                BodyV::FixedList(child) => Cell::Nested(
                    Seq::new(self.list_size(), |j: int| child.cell(i * self.list_size() + j)),
                ),
                BodyV::Struct(columns) => Cell::Nested(
                    Seq::new(
                        columns.len(),
                        |k: int|
                            if 0 <= k < columns.len() {
                                columns[k].cell(i)
                            } else {
                                arbitrary()
                            },
                    ),
                ),
            }
        }
    }

    /// What the slots hold, in order.
    pub open spec fn cells(self) -> Seq<Cell> {
        Seq::new(self.len, |i: int| self.cell(i))
    }

    /// How many slots are null.
    pub open spec fn nulls(self) -> nat {
        if self.ty is Null {
            self.len
        } else {
            match self.validity {
                None => 0,
                Some(v) => crate::buffer::unset(v),
            }
        }
    }

    /// The array of `len` slots from slot `offset` on: fixed-width buffers and
    /// children narrowed, byte strings and list children shared whole under a
    /// narrowed list of offsets.
    pub open spec fn sliced(self, offset: int, len: int) -> ArrayV
        decreases self,
    {
        ArrayV {
            ty: self.ty,
            len: len as nat,
            validity: match self.validity {
                None => None,
                Some(v) => Some(v.subrange(offset, offset + len)),
            },
            body: match self.body {
                BodyV::Null => BodyV::Null,
                BodyV::Bits(bits) => BodyV::Bits(bits.subrange(offset, offset + len)),
                BodyV::Fixed(bytes) => BodyV::Fixed(
                    bytes.subrange(offset * self.width(), (offset + len) * self.width()),
                ),
                BodyV::Var { offsets, values } => BodyV::Var {
                    offsets: offsets.subrange(offset, offset + len + 1),
                    values,
                },
                BodyV::List { offsets, child } => BodyV::List {
                    offsets: offsets.subrange(offset, offset + len + 1),
                    child,
                },
                BodyV::FixedList(child) => BodyV::FixedList(
                    Box::new(child.sliced(offset * self.list_size(), len * self.list_size())),
                ),
                BodyV::Struct(columns) => BodyV::Struct(
                    Seq::new(
                        columns.len(),
                        |k: int|
                            if 0 <= k < columns.len() {
                                columns[k].sliced(offset, len)
                            } else {
                                arbitrary()
                            },
                    ),
                ),
            },
        }
    }
}

/// Whether two arrays have one type and hold the same.
pub open spec fn same_array(a: ArrayV, b: ArrayV) -> bool {
    a.ty == b.ty && a.cells() == b.cells()
}

/// A product is no larger where its factors are no larger.
pub proof fn lemma_scaled(i: int, n: int, w: int)
    requires
        0 <= i < n,
        0 <= w,
    ensures
        0 <= i * w,
        i * w + w <= n * w,
        (i + 1) * w == i * w + w,
{
    assert(i * w + w == (i + 1) * w) by (nonlinear_arith);
    assert(0 <= i * w) by (nonlinear_arith)
        requires
            0 <= i,
            0 <= w,
    ;
    assert((i + 1) * w <= n * w) by (nonlinear_arith)
        requires
            i + 1 <= n,
            0 <= w,
    ;
}

/// A window of `len` things at `offset`, each of width `w`, lies inside.
pub proof fn lemma_scaled_window(offset: int, len: int, n: int, w: int)
    requires
        0 <= offset,
        0 <= len,
        offset + len <= n,
        0 <= w,
    ensures
        0 <= offset * w,
        0 <= len * w,
        (offset + len) * w == offset * w + len * w,
        offset * w + len * w <= n * w,
{
    assert((offset + len) * w == offset * w + len * w) by (nonlinear_arith);
    assert(0 <= offset * w) by (nonlinear_arith)
        requires
            0 <= offset,
            0 <= w,
    ;
    assert(0 <= len * w) by (nonlinear_arith)
        requires
            0 <= len,
            0 <= w,
    ;
    assert((offset + len) * w <= n * w) by (nonlinear_arith)
        requires
            offset + len <= n,
            0 <= w,
    ;
}

/// Two fixed-width bodies have one width only where the type has one.
pub proof fn lemma_fixed_width(a: ArrayV)
    requires
        a.wf(),
        a.body is Fixed,
    ensures
        a.width() > 0,
        a.body->Fixed_0.len() == a.len * a.width(),
{
    match a.ty {
        TypeModel::FixedSizeBinary(w) => {
            assert(a.width() == w);
        },
        _ => {},
    }
}

/// Slot `i` of a narrowed array is slot `offset + i` of the array.
pub proof fn lemma_sliced_cell(a: ArrayV, offset: int, len: int, i: int)
    requires
        a.wf(),
        0 <= offset,
        0 <= len,
        offset + len <= a.len,
        0 <= i < len,
    ensures
        a.sliced(offset, len).cell(i) == a.cell(offset + i),
    decreases a,
{
    let s = a.sliced(offset, len);
    assert(s.width() == a.width());
    assert(s.list_size() == a.list_size());
    if let Some(v) = a.validity {
        assert(v.subrange(offset, offset + len)[i] == v[offset + i]);
    }
    assert(s.valid_at(i) == a.valid_at(offset + i));
    if a.valid_at(offset + i) {
        match a.body {
            BodyV::Null => {},
            BodyV::Bits(bits) => {},
            BodyV::Fixed(bytes) => {
                lemma_fixed_width(a);
                let w = a.width() as int;
                lemma_scaled_window(offset, len, a.len as int, w);
                lemma_scaled(i, len, w);
                lemma_scaled(offset + i, a.len as int, w);
                lemma_scaled_window(offset, i, a.len as int, w);
                let part = bytes.subrange(offset * w, (offset + len) * w);
                assert(part.subrange(i * w, i * w + w) =~= bytes.subrange(
                    (offset + i) * w,
                    (offset + i) * w + w,
                ));
            },
            BodyV::Var { offsets, values } => {
                let part = offsets.subrange(offset, offset + len + 1);
                assert(part[i] == offsets[offset + i]);
                assert(part[i + 1] == offsets[offset + i + 1]);
            },
            BodyV::List { offsets, child } => {
                let part = offsets.subrange(offset, offset + len + 1);
                assert(part[i] == offsets[offset + i]);
                assert(part[i + 1] == offsets[offset + i + 1]);
                assert(s.cell(i)->Nested_0 =~= a.cell(offset + i)->Nested_0);
            },
            BodyV::FixedList(child) => {
                let n = a.list_size() as int;
                lemma_scaled_window(offset, len, a.len as int, n);
                lemma_scaled(i, len, n);
                lemma_scaled_window(offset, i, a.len as int, n);
                let got = s.cell(i)->Nested_0;
                let want = a.cell(offset + i)->Nested_0;
                assert forall|j: int| 0 <= j < n implies got[j] == want[j] by {
                    lemma_sliced_cell(*child, offset * n, len * n, i * n + j);
                }
                assert(got =~= want);
            },
            BodyV::Struct(columns) => {
                let got = s.cell(i)->Nested_0;
                let want = a.cell(offset + i)->Nested_0;
                assert forall|k: int| 0 <= k < columns.len() implies got[k] == want[k] by {
                    assert(columns[k].wf());
                    lemma_sliced_cell(columns[k], offset, len, i);
                }
                assert(got =~= want);
            },
        }
    }
}

/// A narrowed array's parts fit one another.
pub proof fn lemma_sliced_wf(a: ArrayV, offset: int, len: int)
    requires
        a.wf(),
        0 <= offset,
        0 <= len,
        offset + len <= a.len,
    ensures
        a.sliced(offset, len).wf(),
    decreases a,
{
    let s = a.sliced(offset, len);
    match a.body {
        BodyV::Null => {},
        BodyV::Bits(_) => {},
        BodyV::Fixed(bytes) => {
            lemma_fixed_width(a);
            lemma_scaled_window(offset, len, a.len as int, a.width() as int);
        },
        BodyV::Var { offsets, values } => {
            let part = offsets.subrange(offset, offset + len + 1);
            assert(part[len] == offsets[offset + len]);
            assert(offsets[offset + len] <= offsets[a.len as int]);
            assert(part[0] == offsets[offset]);
            assert(offsets[0] <= offsets[offset]);
            assert(offsets_ok(part, len as nat, values.len() as int, max_offset(a.ty))) by {
                assert forall|i: int, j: int|
                    #![trigger part[i], part[j]]
                    0 <= i <= j < part.len() implies part[i] <= part[j] by {
                    assert(offsets[offset + i] <= offsets[offset + j]);
                }
            }
            if is_text(a.ty) {
                assert forall|i: int| 0 <= i < len implies valid_utf8(#[trigger] var_slot(part, values, i)) by {
                    assert(var_slot(part, values, i) == var_slot(offsets, values, offset + i));
                }
            }
        },
        BodyV::List { offsets, child } => {
            let part = offsets.subrange(offset, offset + len + 1);
            assert(part[len] == offsets[offset + len]);
            assert(offsets[offset + len] <= offsets[a.len as int]);
            assert(part[0] == offsets[offset]);
            assert(offsets[0] <= offsets[offset]);
            assert(offsets_ok(part, len as nat, child.len as int, max_offset(a.ty))) by {
                assert forall|i: int, j: int|
                    #![trigger part[i], part[j]]
                    0 <= i <= j < part.len() implies part[i] <= part[j] by {
                    assert(offsets[offset + i] <= offsets[offset + j]);
                }
            }
        },
        BodyV::FixedList(child) => {
            let n = a.list_size() as int;
            lemma_scaled_window(offset, len, a.len as int, n);
            lemma_sliced_wf(*child, offset * n, len * n);
        },
        BodyV::Struct(columns) => {
            let parts = s.body->Struct_0;
            assert forall|k: int| #![trigger parts[k]] 0 <= k < parts.len() implies parts[k].len == s.len
                && parts[k].ty == a.ty->Struct_0[k].data_type && parts[k].wf() by {
                assert(columns[k].wf());
                lemma_sliced_wf(columns[k], offset, len);
            }
        },
    }
}

/// Narrowing an array narrows what it holds, and nothing else.
pub proof fn law_slice_keeps_cells(a: ArrayV, offset: int, len: int)
    requires
        a.wf(),
        0 <= offset,
        0 <= len,
        offset + len <= a.len,
    ensures
        a.sliced(offset, len).wf(),
        a.sliced(offset, len).ty == a.ty,
        a.sliced(offset, len).cells() == a.cells().subrange(offset, offset + len),
{
    lemma_sliced_wf(a, offset, len);
    let got = a.sliced(offset, len).cells();
    let want = a.cells().subrange(offset, offset + len);
    assert forall|i: int| 0 <= i < len implies got[i] == want[i] by {
        lemma_sliced_cell(a, offset, len, i);
    }
    assert(got =~= want);
}

} // verus!
