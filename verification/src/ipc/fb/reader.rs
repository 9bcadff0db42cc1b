//! Bounds-checked FlatBuffers reading.
//!
//! Every offset is checked against the buffer before it is followed, and every
//! offset followed moves strictly forward.
//!
//! ```text
//! table    [soffset:i32][inline fields...]     vtable = table - soffset
//! vtable   [vt_len:u16][table_len:u16][slot0:u16][slot1:u16]...
//! vector   [len:u32][element 0][element 1]...
//! string   [len:u32][utf-8 bytes][NUL]
//! uoffset  u32, forward-relative to its own position
//! ```
//!
//! A slot value of zero means that the field is absent and its default holds.
use vstd::prelude::*;
use vstd::slice::slice_subrange;
use vstd::string::StringSliceAdditionalSpecFns;
use vstd::utf8::{decode_utf8, encode_utf8_decode_utf8, valid_utf8};
use crate::ipc::error::{IpcError, IpcErrorModel};
use crate::le::{get_u16, get_u32, get_u64, of_i16, of_i32, of_i64, of_u16, of_u32};

verus! {

/// Size of a table or vector offset, in bytes.
pub const SIZE_UOFFSET: usize = 4;

/// Size of a vtable entry, in bytes.
pub const SIZE_VOFFSET: usize = 2;

/// A [`IpcErrorModel::MalformedFlatbuffer`].
pub open spec fn bad(context: Seq<char>, position: int) -> IpcErrorModel {
    IpcErrorModel::MalformedFlatbuffer { context, position: position as usize }
}

/// Whether `count` bytes at `pos` are inside.
pub open spec fn inside(buf: Seq<u8>, pos: int, count: int) -> bool {
    0 <= pos && pos + count <= buf.len()
}

/// The 16-bit integer at `pos`.
pub open spec fn u16_at(buf: Seq<u8>, pos: int, context: Seq<char>) -> Result<u16, IpcErrorModel> {
    if inside(buf, pos, 2) {
        Ok(of_u16(buf.subrange(pos, pos + 2)))
    } else {
        Err(bad(context, pos))
    }
}

/// The signed 16-bit integer at `pos`.
pub open spec fn i16_at(buf: Seq<u8>, pos: int, context: Seq<char>) -> Result<i16, IpcErrorModel> {
    if inside(buf, pos, 2) {
        Ok(of_i16(buf.subrange(pos, pos + 2)))
    } else {
        Err(bad(context, pos))
    }
}

/// The 32-bit integer at `pos`.
pub open spec fn u32_at(buf: Seq<u8>, pos: int, context: Seq<char>) -> Result<u32, IpcErrorModel> {
    if inside(buf, pos, 4) {
        Ok(of_u32(buf.subrange(pos, pos + 4)))
    } else {
        Err(bad(context, pos))
    }
}

/// The signed 32-bit integer at `pos`.
pub open spec fn i32_at(buf: Seq<u8>, pos: int, context: Seq<char>) -> Result<i32, IpcErrorModel> {
    if inside(buf, pos, 4) {
        Ok(of_i32(buf.subrange(pos, pos + 4)))
    } else {
        Err(bad(context, pos))
    }
}

/// The signed 64-bit integer at `pos`.
pub open spec fn i64_at(buf: Seq<u8>, pos: int, context: Seq<char>) -> Result<i64, IpcErrorModel> {
    if inside(buf, pos, 8) {
        Ok(of_i64(buf.subrange(pos, pos + 8)))
    } else {
        Err(bad(context, pos))
    }
}

/// The byte at `pos`.
pub open spec fn u8_at(buf: Seq<u8>, pos: int, context: Seq<char>) -> Result<u8, IpcErrorModel> {
    if inside(buf, pos, 1) {
        Ok(buf[pos])
    } else {
        Err(bad(context, pos))
    }
}

/// The signed byte at `pos`.
pub open spec fn i8_at(buf: Seq<u8>, pos: int, context: Seq<char>) -> Result<i8, IpcErrorModel> {
    if inside(buf, pos, 1) {
        Ok(buf[pos] as i8)
    } else {
        Err(bad(context, pos))
    }
}

/// The position the offset at `pos` points to: after `pos`, inside the buffer.
pub open spec fn deref_at(buf: Seq<u8>, pos: int, context: Seq<char>) -> Result<int, IpcErrorModel> {
    match u32_at(buf, pos, context) {
        Err(e) => Err(e),
        Ok(offset) => if offset == 0 || pos + offset >= buf.len() {
            Err(bad(context, pos))
        } else {
            Ok(pos + offset)
        },
    }
}

/// The text whose length prefix starts at `pos`.
pub open spec fn string_at(buf: Seq<u8>, pos: int) -> Result<Seq<char>, IpcErrorModel> {
    match u32_at(buf, pos, "string length"@) {
        Err(e) => Err(e),
        Ok(len) => if pos + 4 + len > usize::MAX {
            Err(bad("string length"@, pos))
        } else if pos + 4 + len > buf.len() {
            Err(bad("string body"@, pos))
        } else {
            let bytes = buf.subrange(pos + 4, pos + 4 + len);
            if valid_utf8(bytes) {
                Ok(decode_utf8(bytes))
            } else {
                Err(bad("string encoding"@, pos))
            }
        },
    }
}

/// Where a table and its vtable are.
pub struct TableModel {
    pub buf: Seq<u8>,
    pub pos: int,
    pub vtable: int,
    pub vt_len: int,
}

/// The table at `pos`.
pub open spec fn table_at(buf: Seq<u8>, pos: int) -> Result<TableModel, IpcErrorModel> {
    match i32_at(buf, pos, "table vtable pointer"@) {
        Err(e) => Err(e),
        Ok(soffset) => {
            let vtable = pos - soffset;
            if pos > i64::MAX {
                Err(bad("table position"@, pos))
            } else if vtable > i64::MAX || vtable < 0 || vtable > usize::MAX {
                Err(bad("table vtable pointer"@, pos))
            } else {
                match u16_at(buf, vtable, "vtable length"@) {
                    Err(e) => Err(e),
                    Ok(vt_len) => if vt_len < 4 || vtable + vt_len > buf.len() {
                        Err(bad("vtable length"@, vtable))
                    } else {
                        Ok(TableModel { buf, pos, vtable, vt_len: vt_len as int })
                    },
                }
            }
        },
    }
}

/// The root table of a finished buffer.
pub open spec fn root_at(buf: Seq<u8>) -> Result<TableModel, IpcErrorModel> {
    match deref_at(buf, 0, "root offset"@) {
        Err(e) => Err(e),
        Ok(pos) => table_at(buf, pos),
    }
}

impl TableModel {
    /// Inside its buffer.
    pub open spec fn wf(self) -> bool {
        &&& 0 <= self.pos
        &&& 0 <= self.vtable
        &&& 4 <= self.vt_len <= 65535
        &&& self.vtable + self.vt_len <= self.buf.len()
        &&& self.pos + 4 <= self.buf.len()
    }

    /// How many slots the vtable describes.
    pub open spec fn slots(self) -> int {
        (self.vt_len - 4) / 2
    }

    /// The position of a field, or nothing when it is absent.
    pub open spec fn field_at(self, slot: int) -> Result<Option<int>, IpcErrorModel> {
        if slot >= self.slots() {
            Ok(None)
        } else {
            let at = self.vtable + 4 + 2 * slot;
            let entry = of_u16(self.buf.subrange(at, at + 2));
            if entry == 0 {
                Ok(None)
            } else if self.pos + entry >= self.buf.len() {
                Err(bad("vtable slot"@, at))
            } else {
                Ok(Some(self.pos + entry))
            }
        }
    }

    pub open spec fn bool_field(self, slot: int, default: bool) -> Result<bool, IpcErrorModel> {
        match self.field_at(slot) {
            Err(e) => Err(e),
            Ok(None) => Ok(default),
            Ok(Some(at)) => match u8_at(self.buf, at, "bool field"@) {
                Err(e) => Err(e),
                Ok(b) => Ok(b != 0),
            },
        }
    }

    pub open spec fn u8_field(self, slot: int, default: u8) -> Result<u8, IpcErrorModel> {
        match self.field_at(slot) {
            Err(e) => Err(e),
            Ok(None) => Ok(default),
            Ok(Some(at)) => u8_at(self.buf, at, "u8 field"@),
        }
    }

    pub open spec fn i8_field(self, slot: int, default: i8) -> Result<i8, IpcErrorModel> {
        match self.field_at(slot) {
            Err(e) => Err(e),
            Ok(None) => Ok(default),
            Ok(Some(at)) => i8_at(self.buf, at, "i8 field"@),
        }
    }

    pub open spec fn i16_field(self, slot: int, default: i16) -> Result<i16, IpcErrorModel> {
        match self.field_at(slot) {
            Err(e) => Err(e),
            Ok(None) => Ok(default),
            Ok(Some(at)) => i16_at(self.buf, at, "i16 field"@),
        }
    }

    pub open spec fn i32_field(self, slot: int, default: i32) -> Result<i32, IpcErrorModel> {
        match self.field_at(slot) {
            Err(e) => Err(e),
            Ok(None) => Ok(default),
            Ok(Some(at)) => i32_at(self.buf, at, "i32 field"@),
        }
    }

    pub open spec fn i64_field(self, slot: int, default: i64) -> Result<i64, IpcErrorModel> {
        match self.field_at(slot) {
            Err(e) => Err(e),
            Ok(None) => Ok(default),
            Ok(Some(at)) => i64_at(self.buf, at, "i64 field"@),
        }
    }

    pub open spec fn table_field(self, slot: int) -> Result<Option<TableModel>, IpcErrorModel> {
        match self.field_at(slot) {
            Err(e) => Err(e),
            Ok(None) => Ok(None),
            Ok(Some(at)) => match deref_at(self.buf, at, "nested table offset"@) {
                Err(e) => Err(e),
                Ok(pos) => match table_at(self.buf, pos) {
                    Err(e) => Err(e),
                    Ok(t) => Ok(Some(t)),
                },
            },
        }
    }

    pub open spec fn string_field(self, slot: int) -> Result<Option<Seq<char>>, IpcErrorModel> {
        match self.field_at(slot) {
            Err(e) => Err(e),
            Ok(None) => Ok(None),
            Ok(Some(at)) => match deref_at(self.buf, at, "string offset"@) {
                Err(e) => Err(e),
                Ok(pos) => match string_at(self.buf, pos) {
                    Err(e) => Err(e),
                    Ok(s) => Ok(Some(s)),
                },
            },
        }
    }

    pub open spec fn vector_field(self, slot: int, stride: int) -> Result<Option<SpanModel>, IpcErrorModel> {
        match self.field_at(slot) {
            Err(e) => Err(e),
            Ok(None) => Ok(None),
            Ok(Some(at)) => match deref_at(self.buf, at, "vector offset"@) {
                Err(e) => Err(e),
                Ok(pos) => match span_at(self.buf, pos, stride) {
                    Err(e) => Err(e),
                    Ok(s) => Ok(Some(s)),
                },
            },
        }
    }
}

/// Where a vector's elements are.
pub struct SpanModel {
    pub buf: Seq<u8>,
    pub start: int,
    pub len: int,
    pub stride: int,
}

/// The vector whose length prefix starts at `pos`.
pub open spec fn span_at(buf: Seq<u8>, pos: int, stride: int) -> Result<SpanModel, IpcErrorModel> {
    match u32_at(buf, pos, "vector length"@) {
        Err(e) => Err(e),
        Ok(len) => if len * stride > usize::MAX || pos + 4 + len * stride > usize::MAX {
            Err(bad("vector length"@, pos))
        } else if pos + 4 + len * stride > buf.len() {
            Err(bad("vector body"@, pos))
        } else {
            Ok(SpanModel { buf, start: pos + 4, len: len as int, stride })
        },
    }
}

impl SpanModel {
    /// Inside its buffer.
    pub open spec fn wf(self) -> bool {
        &&& 0 <= self.start
        &&& 0 <= self.len <= u32::MAX
        &&& 0 <= self.stride
        &&& self.start + self.len * self.stride <= self.buf.len()
    }

    /// The position of an element.
    pub open spec fn element_at(self, index: int) -> int {
        self.start + index * self.stride
    }

    /// The table an element refers to.
    pub open spec fn table_item(self, index: int) -> Result<TableModel, IpcErrorModel> {
        if index >= self.len {
            Err(bad("vector index"@, self.start))
        } else {
            match deref_at(self.buf, self.element_at(index), "vector element offset"@) {
                Err(e) => Err(e),
                Ok(pos) => table_at(self.buf, pos),
            }
        }
    }

    /// The text an element refers to.
    pub open spec fn string_item(self, index: int) -> Result<Seq<char>, IpcErrorModel> {
        if index >= self.len {
            Err(bad("vector index"@, self.start))
        } else {
            match deref_at(self.buf, self.element_at(index), "vector element offset"@) {
                Err(e) => Err(e),
                Ok(pos) => string_at(self.buf, pos),
            }
        }
    }

    /// The two integers of an element.
    pub open spec fn pair_item(self, index: int) -> Result<(i64, i64), IpcErrorModel> {
        if index >= self.len {
            Err(bad("vector index"@, self.start))
        } else {
            let at = self.element_at(index);
            match i64_at(self.buf, at, "struct field"@) {
                Err(e) => Err(e),
                Ok(first) => match i64_at(self.buf, at + 8, "struct field"@) {
                    Err(e) => Err(e),
                    Ok(second) => Ok((first, second)),
                },
            }
        }
    }
}

/// The text that bytes are, through the standard library's `str::from_utf8`.
/// Claimed of it: it succeeds exactly on valid UTF-8, and the text's bytes are
/// the bytes given.
#[verifier::external_body]
pub(crate) fn text_of_bytes(bytes: &[u8]) -> (r: Option<&str>)
    ensures
        match r {
            Some(s) => valid_utf8(bytes@) && s.spec_bytes() == bytes@,
            None => !valid_utf8(bytes@),
        },
{
    std::str::from_utf8(bytes).ok()
}

/// The byte at `pos`.
pub fn read_u8(buf: &[u8], pos: usize, context: &'static str) -> (r: Result<u8, IpcError>)
    ensures
        match r {
            Ok(v) => u8_at(buf@, pos as int, context@) == Ok::<u8, IpcErrorModel>(v),
            Err(e) => u8_at(buf@, pos as int, context@) == Err::<u8, IpcErrorModel>(e@),
        },
{
    if pos < buf.len() {
        Ok(buf[pos])
    } else {
        Err(IpcError::malformed(context, pos))
    }
}

/// The signed byte at `pos`.
pub fn read_i8(buf: &[u8], pos: usize, context: &'static str) -> (r: Result<i8, IpcError>)
    ensures
        match r {
            Ok(v) => i8_at(buf@, pos as int, context@) == Ok::<i8, IpcErrorModel>(v),
            Err(e) => i8_at(buf@, pos as int, context@) == Err::<i8, IpcErrorModel>(e@),
        },
{
    if pos < buf.len() {
        Ok(buf[pos] as i8)
    } else {
        Err(IpcError::malformed(context, pos))
    }
}

/// The 16-bit integer at `pos`.
pub fn read_u16(buf: &[u8], pos: usize, context: &'static str) -> (r: Result<u16, IpcError>)
    ensures
        match r {
            Ok(v) => u16_at(buf@, pos as int, context@) == Ok::<u16, IpcErrorModel>(v),
            Err(e) => u16_at(buf@, pos as int, context@) == Err::<u16, IpcErrorModel>(e@),
        },
{
    if buf.len() >= 2 && pos <= buf.len() - 2 {
        Ok(get_u16(buf, pos))
    } else {
        Err(IpcError::malformed(context, pos))
    }
}

/// The signed 16-bit integer at `pos`.
pub fn read_i16(buf: &[u8], pos: usize, context: &'static str) -> (r: Result<i16, IpcError>)
    ensures
        match r {
            Ok(v) => i16_at(buf@, pos as int, context@) == Ok::<i16, IpcErrorModel>(v),
            Err(e) => i16_at(buf@, pos as int, context@) == Err::<i16, IpcErrorModel>(e@),
        },
{
    if buf.len() >= 2 && pos <= buf.len() - 2 {
        Ok(get_u16(buf, pos) as i16)
    } else {
        Err(IpcError::malformed(context, pos))
    }
}

/// The 32-bit integer at `pos`.
pub fn read_u32(buf: &[u8], pos: usize, context: &'static str) -> (r: Result<u32, IpcError>)
    ensures
        match r {
            Ok(v) => u32_at(buf@, pos as int, context@) == Ok::<u32, IpcErrorModel>(v),
            Err(e) => u32_at(buf@, pos as int, context@) == Err::<u32, IpcErrorModel>(e@),
        },
{
    if buf.len() >= 4 && pos <= buf.len() - 4 {
        Ok(get_u32(buf, pos))
    } else {
        Err(IpcError::malformed(context, pos))
    }
}

/// The signed 32-bit integer at `pos`.
pub fn read_i32(buf: &[u8], pos: usize, context: &'static str) -> (r: Result<i32, IpcError>)
    ensures
        match r {
            Ok(v) => i32_at(buf@, pos as int, context@) == Ok::<i32, IpcErrorModel>(v),
            Err(e) => i32_at(buf@, pos as int, context@) == Err::<i32, IpcErrorModel>(e@),
        },
{
    if buf.len() >= 4 && pos <= buf.len() - 4 {
        Ok(get_u32(buf, pos) as i32)
    } else {
        Err(IpcError::malformed(context, pos))
    }
}

/// The signed 64-bit integer at `pos`.
pub fn read_i64(buf: &[u8], pos: usize, context: &'static str) -> (r: Result<i64, IpcError>)
    ensures
        match r {
            Ok(v) => i64_at(buf@, pos as int, context@) == Ok::<i64, IpcErrorModel>(v),
            Err(e) => i64_at(buf@, pos as int, context@) == Err::<i64, IpcErrorModel>(e@),
        },
{
    if buf.len() >= 8 && pos <= buf.len() - 8 {
        Ok(get_u64(buf, pos) as i64)
    } else {
        Err(IpcError::malformed(context, pos))
    }
}

/// Follows the offset stored at `pos`. An offset of zero is refused: it would
/// point at itself.
pub fn deref(buf: &[u8], pos: usize, context: &'static str) -> (r: Result<usize, IpcError>)
    ensures
        match r {
            Ok(v) => deref_at(buf@, pos as int, context@) == Ok::<int, IpcErrorModel>(v as int),
            Err(e) => deref_at(buf@, pos as int, context@) == Err::<int, IpcErrorModel>(e@),
        },
        r matches Ok(v) ==> pos < v < buf@.len(),
{
    let offset: u32 = match read_u32(buf, pos, context) {
        Ok(v) => v,
        Err(e) => {
            return Err(e);
        },
    };
    if offset == 0 || offset as u64 >= (buf.len() - pos) as u64 {
        return Err(IpcError::malformed(context, pos));
    }
    Ok(pos + offset as usize)
}

/// The text whose length prefix starts at `pos`.
pub fn read_string(buf: &[u8], pos: usize) -> (r: Result<&str, IpcError>)
    ensures
        match r {
            Ok(v) => string_at(buf@, pos as int) == Ok::<Seq<char>, IpcErrorModel>(v@),
            Err(e) => string_at(buf@, pos as int) == Err::<Seq<char>, IpcErrorModel>(e@),
        },
{
    let len: u32 = match read_u32(buf, pos, "string length") {
        Ok(v) => v,
        Err(e) => {
            return Err(e);
        },
    };
    assert(buf.len() == buf@.len());
    let start: usize = pos + 4;
    if len as u64 > (usize::MAX - start) as u64 {
        return Err(IpcError::malformed("string length", pos));
    }
    let end: usize = start + len as usize;
    if end > buf.len() {
        return Err(IpcError::malformed("string body", pos));
    }
    let bytes = slice_subrange(buf, start, end);
    match text_of_bytes(bytes) {
        Some(s) => {
            proof {
                encode_utf8_decode_utf8(s@);
            }
            Ok(s)
        },
        None => Err(IpcError::malformed("string encoding", pos)),
    }
}

/// A table: a vtable and a block of inline fields.
#[derive(Debug, Clone, Copy)]
pub struct Table<'a> {
    buf: &'a [u8],
    pos: usize,
    vtable: usize,
    vt_len: usize,
}

impl<'a> View for Table<'a> {
    type V = TableModel;

    closed spec fn view(&self) -> TableModel {
        TableModel {
            buf: self.buf@,
            pos: self.pos as int,
            vtable: self.vtable as int,
            vt_len: self.vt_len as int,
        }
    }
}

/// The root table of a finished buffer.
pub fn root_table(buf: &[u8]) -> (r: Result<Table<'_>, IpcError>)
    ensures
        match r {
            Ok(t) => root_at(buf@) == Ok::<TableModel, IpcErrorModel>(t@) && t@.wf(),
            Err(e) => root_at(buf@) == Err::<TableModel, IpcErrorModel>(e@),
        },
{
    match deref(buf, 0, "root offset") {
        Ok(pos) => Table::at(buf, pos),
        Err(e) => Err(e),
    }
}

impl<'a> Table<'a> {
    #[verifier::type_invariant]
    closed spec fn inv(self) -> bool {
        self@.wf()
    }

    /// The table whose vtable pointer stands at `pos`.
    pub fn at(buf: &'a [u8], pos: usize) -> (r: Result<Self, IpcError>)
        ensures
            match r {
                Ok(t) => table_at(buf@, pos as int) == Ok::<TableModel, IpcErrorModel>(t@) && t@.wf(),
                Err(e) => table_at(buf@, pos as int) == Err::<TableModel, IpcErrorModel>(e@),
            },
    {
        let soffset: i32 = match read_i32(buf, pos, "table vtable pointer") {
            Ok(v) => v,
            Err(e) => {
                return Err(e);
            },
        };
        if pos as u64 > i64::MAX as u64 {
            return Err(IpcError::malformed("table position", pos));
        }
        let vtable: i128 = pos as i128 - soffset as i128;
        if vtable > i64::MAX as i128 || vtable < 0 || vtable > usize::MAX as i128 {
            return Err(IpcError::malformed("table vtable pointer", pos));
        }
        let vtable: usize = vtable as usize;
        let vt_len: u16 = match read_u16(buf, vtable, "vtable length") {
            Ok(v) => v,
            Err(e) => {
                return Err(e);
            },
        };
        if vt_len < 4 || vt_len as usize > buf.len() - vtable {
            return Err(IpcError::malformed("vtable length", vtable));
        }
        Ok(Table { buf, pos, vtable, vt_len: vt_len as usize })
    }

    /// The table's own position.
    pub fn position(&self) -> (r: usize)
        ensures
            r == self@.pos,
    {
        self.pos
    }

    /// How many slots the vtable describes.
    pub fn slot_count(&self) -> (r: usize)
        ensures
            r == self@.slots(),
    {
        proof {
            use_type_invariant(self);
        }
        (self.vt_len - 4) / 2
    }

    /// The position of a field, or `None` when it is absent.
    pub fn field(&self, slot: usize) -> (r: Result<Option<usize>, IpcError>)
        ensures
            match r {
                Ok(Some(at)) => self@.field_at(slot as int) == Ok::<Option<int>, IpcErrorModel>(
                    Some(at as int),
                ) && at < self@.buf.len(),
                Ok(None) => self@.field_at(slot as int) == Ok::<Option<int>, IpcErrorModel>(None),
                Err(e) => self@.field_at(slot as int) == Err::<Option<int>, IpcErrorModel>(e@),
            },
    {
        proof {
            use_type_invariant(self);
        }
        if slot >= self.slot_count() {
            return Ok(None);
        }
        assert(self.buf.len() == self.buf@.len());
        let at: usize = self.vtable + 4 + 2 * slot;
        let entry: u16 = get_u16(self.buf, at);
        if entry == 0 {
            return Ok(None);
        }
        if entry as usize >= self.buf.len() - self.pos {
            return Err(IpcError::malformed("vtable slot", at));
        }
        Ok(Some(self.pos + entry as usize))
    }

    /// A `bool` field, or `default` when it is absent.
    pub fn bool(&self, slot: usize, default: bool) -> (r: Result<bool, IpcError>)
        ensures
            match r {
                Ok(v) => self@.bool_field(slot as int, default) == Ok::<bool, IpcErrorModel>(v),
                Err(e) => self@.bool_field(slot as int, default) == Err::<bool, IpcErrorModel>(e@),
            },
    {
        match self.field(slot) {
            Ok(Some(at)) => match read_u8(self.buf, at, "bool field") {
                Ok(b) => Ok(b != 0),
                Err(e) => Err(e),
            },
            Ok(None) => Ok(default),
            Err(e) => Err(e),
        }
    }

    /// A `u8` field, or `default` when it is absent.
    pub fn u8(&self, slot: usize, default: u8) -> (r: Result<u8, IpcError>)
        ensures
            match r {
                Ok(v) => self@.u8_field(slot as int, default) == Ok::<u8, IpcErrorModel>(v),
                Err(e) => self@.u8_field(slot as int, default) == Err::<u8, IpcErrorModel>(e@),
            },
    {
        match self.field(slot) {
            Ok(Some(at)) => read_u8(self.buf, at, "u8 field"),
            Ok(None) => Ok(default),
            Err(e) => Err(e),
        }
    }

    /// An `i8` field, or `default` when it is absent.
    pub fn i8(&self, slot: usize, default: i8) -> (r: Result<i8, IpcError>)
        ensures
            match r {
                Ok(v) => self@.i8_field(slot as int, default) == Ok::<i8, IpcErrorModel>(v),
                Err(e) => self@.i8_field(slot as int, default) == Err::<i8, IpcErrorModel>(e@),
            },
    {
        match self.field(slot) {
            Ok(Some(at)) => read_i8(self.buf, at, "i8 field"),
            Ok(None) => Ok(default),
            Err(e) => Err(e),
        }
    }

    /// An `i16` field, or `default` when it is absent.
    pub fn i16(&self, slot: usize, default: i16) -> (r: Result<i16, IpcError>)
        ensures
            match r {
                Ok(v) => self@.i16_field(slot as int, default) == Ok::<i16, IpcErrorModel>(v),
                Err(e) => self@.i16_field(slot as int, default) == Err::<i16, IpcErrorModel>(e@),
            },
    {
        match self.field(slot) {
            Ok(Some(at)) => read_i16(self.buf, at, "i16 field"),
            Ok(None) => Ok(default),
            Err(e) => Err(e),
        }
    }

    /// An `i32` field, or `default` when it is absent.
    pub fn i32(&self, slot: usize, default: i32) -> (r: Result<i32, IpcError>)
        ensures
            match r {
                Ok(v) => self@.i32_field(slot as int, default) == Ok::<i32, IpcErrorModel>(v),
                Err(e) => self@.i32_field(slot as int, default) == Err::<i32, IpcErrorModel>(e@),
            },
    {
        match self.field(slot) {
            Ok(Some(at)) => read_i32(self.buf, at, "i32 field"),
            Ok(None) => Ok(default),
            Err(e) => Err(e),
        }
    }

    /// An `i64` field, or `default` when it is absent.
    pub fn i64(&self, slot: usize, default: i64) -> (r: Result<i64, IpcError>)
        ensures
            match r {
                Ok(v) => self@.i64_field(slot as int, default) == Ok::<i64, IpcErrorModel>(v),
                Err(e) => self@.i64_field(slot as int, default) == Err::<i64, IpcErrorModel>(e@),
            },
    {
        match self.field(slot) {
            Ok(Some(at)) => read_i64(self.buf, at, "i64 field"),
            Ok(None) => Ok(default),
            Err(e) => Err(e),
        }
    }

    /// A nested table field.
    pub fn table(&self, slot: usize) -> (r: Result<Option<Table<'a>>, IpcError>)
        ensures
            match r {
                Ok(Some(t)) => self@.table_field(slot as int) == Ok::<Option<TableModel>, IpcErrorModel>(
                    Some(t@),
                ) && t@.wf(),
                Ok(None) => self@.table_field(slot as int) == Ok::<Option<TableModel>, IpcErrorModel>(None),
                Err(e) => self@.table_field(slot as int) == Err::<Option<TableModel>, IpcErrorModel>(e@),
            },
    {
        match self.field(slot) {
            Ok(Some(at)) => match deref(self.buf, at, "nested table offset") {
                Ok(pos) => match Table::at(self.buf, pos) {
                    Ok(t) => Ok(Some(t)),
                    Err(e) => Err(e),
                },
                Err(e) => Err(e),
            },
            Ok(None) => Ok(None),
            Err(e) => Err(e),
        }
    }

    /// A string field.
    pub fn string(&self, slot: usize) -> (r: Result<Option<&'a str>, IpcError>)
        ensures
            match r {
                Ok(Some(s)) => self@.string_field(slot as int) == Ok::<Option<Seq<char>>, IpcErrorModel>(Some(s@)),
                Ok(None) => self@.string_field(slot as int) == Ok::<Option<Seq<char>>, IpcErrorModel>(None),
                Err(e) => self@.string_field(slot as int) == Err::<Option<Seq<char>>, IpcErrorModel>(e@),
            },
    {
        match self.field(slot) {
            Ok(Some(at)) => match deref(self.buf, at, "string offset") {
                Ok(pos) => match read_string(self.buf, pos) {
                    Ok(s) => Ok(Some(s)),
                    Err(e) => Err(e),
                },
                Err(e) => Err(e),
            },
            Ok(None) => Ok(None),
            Err(e) => Err(e),
        }
    }

    /// A vector field whose elements are `stride` bytes apart.
    pub fn vector(&self, slot: usize, stride: usize) -> (r: Result<Option<VectorSpan<'a>>, IpcError>)
        ensures
            match r {
                Ok(Some(s)) => self@.vector_field(slot as int, stride as int) == Ok::<
                    Option<SpanModel>,
                    IpcErrorModel,
                >(Some(s@)) && s@.wf(),
                Ok(None) => self@.vector_field(slot as int, stride as int) == Ok::<
                    Option<SpanModel>,
                    IpcErrorModel,
                >(None),
                Err(e) => self@.vector_field(slot as int, stride as int) == Err::<
                    Option<SpanModel>,
                    IpcErrorModel,
                >(e@),
            },
    {
        match self.field(slot) {
            Ok(Some(at)) => match deref(self.buf, at, "vector offset") {
                Ok(pos) => match VectorSpan::at(self.buf, pos, stride) {
                    Ok(s) => Ok(Some(s)),
                    Err(e) => Err(e),
                },
                Err(e) => Err(e),
            },
            Ok(None) => Ok(None),
            Err(e) => Err(e),
        }
    }

    /// The backing bytes.
    pub fn bytes(&self) -> (r: &'a [u8])
        ensures
            r@ == self@.buf,
    {
        self.buf
    }
}

/// A vector: an element count and the position of element zero.
#[derive(Debug, Clone, Copy)]
pub struct VectorSpan<'a> {
    buf: &'a [u8],
    start: usize,
    len: usize,
    stride: usize,
}

impl<'a> View for VectorSpan<'a> {
    type V = SpanModel;

    closed spec fn view(&self) -> SpanModel {
        SpanModel {
            buf: self.buf@,
            start: self.start as int,
            len: self.len as int,
            stride: self.stride as int,
        }
    }
}

impl<'a> VectorSpan<'a> {
    #[verifier::type_invariant]
    closed spec fn inv(self) -> bool {
        self@.wf()
    }

    /// The vector whose length prefix starts at `pos`.
    pub fn at(buf: &'a [u8], pos: usize, stride: usize) -> (r: Result<Self, IpcError>)
        ensures
            match r {
                Ok(s) => span_at(buf@, pos as int, stride as int) == Ok::<SpanModel, IpcErrorModel>(s@)
                    && s@.wf(),
                Err(e) => span_at(buf@, pos as int, stride as int) == Err::<SpanModel, IpcErrorModel>(e@),
            },
    {
        let len: u32 = match read_u32(buf, pos, "vector length") {
            Ok(v) => v,
            Err(e) => {
                return Err(e);
            },
        };
        assert(buf.len() == buf@.len());
        let start: usize = pos + 4;
        proof {
            assert(0 <= len * stride <= u32::MAX * usize::MAX) by (nonlinear_arith)
                requires
                    0 <= len <= u32::MAX,
                    0 <= stride <= usize::MAX,
            ;
            assert(u32::MAX * usize::MAX <= u128::MAX - usize::MAX) by (nonlinear_arith)
                requires
                    usize::MAX <= u64::MAX,
            ;
        }
        let span: u128 = len as u128 * stride as u128;
        if span > usize::MAX as u128 || start as u128 + span > usize::MAX as u128 {
            return Err(IpcError::malformed("vector length", pos));
        }
        if start as u128 + span > buf.len() as u128 {
            return Err(IpcError::malformed("vector body", pos));
        }
        Ok(VectorSpan { buf, start, len: len as usize, stride })
    }

    /// Number of elements.
    pub fn len(&self) -> (r: usize)
        ensures
            r == self@.len,
    {
        self.len
    }

    /// Whether the vector is empty.
    pub fn is_empty(&self) -> (r: bool)
        ensures
            r == (self@.len == 0),
    {
        self.len == 0
    }

    /// The position of element `index`.
    pub fn element(&self, index: usize) -> (r: Option<usize>)
        ensures
            match r {
                Some(at) => index < self@.len && at == self@.element_at(index as int),
                None => index >= self@.len,
            },
    {
        if index >= self.len {
            None
        } else {
            proof {
                use_type_invariant(self);
                assert(self.buf.len() == self.buf@.len());
                assert(0 <= index * self.stride <= self.len * self.stride) by (nonlinear_arith)
                    requires
                        0 <= index < self.len,
                        0 <= self.stride,
                ;
            }
            Some(self.start + index * self.stride)
        }
    }

    /// Element `index` as a table (vectors of offsets only).
    pub fn table(&self, index: usize) -> (r: Result<Table<'a>, IpcError>)
        ensures
            match r {
                Ok(t) => self@.table_item(index as int) == Ok::<TableModel, IpcErrorModel>(t@) && t@.wf(),
                Err(e) => self@.table_item(index as int) == Err::<TableModel, IpcErrorModel>(e@),
            },
    {
        match self.element(index) {
            None => Err(IpcError::malformed("vector index", self.start)),
            Some(at) => match deref(self.buf, at, "vector element offset") {
                Ok(pos) => Table::at(self.buf, pos),
                Err(e) => Err(e),
            },
        }
    }

    /// Element `index` as a string (vectors of offsets only).
    pub fn string(&self, index: usize) -> (r: Result<&'a str, IpcError>)
        ensures
            match r {
                Ok(s) => self@.string_item(index as int) == Ok::<Seq<char>, IpcErrorModel>(s@),
                Err(e) => self@.string_item(index as int) == Err::<Seq<char>, IpcErrorModel>(e@),
            },
    {
        match self.element(index) {
            None => Err(IpcError::malformed("vector index", self.start)),
            Some(at) => match deref(self.buf, at, "vector element offset") {
                Ok(pos) => read_string(self.buf, pos),
                Err(e) => Err(e),
            },
        }
    }

    /// The two integers of element `index` (vectors of 16-byte structs only).
    pub fn struct_pair(&self, index: usize) -> (r: Result<(i64, i64), IpcError>)
        ensures
            match r {
                Ok(p) => self@.pair_item(index as int) == Ok::<(i64, i64), IpcErrorModel>(p),
                Err(e) => self@.pair_item(index as int) == Err::<(i64, i64), IpcErrorModel>(e@),
            },
    {
        match self.element(index) {
            None => Err(IpcError::malformed("vector index", self.start)),
            Some(at) => match read_i64(self.buf, at, "struct field") {
                Ok(first) => {
                    assert(self.buf.len() == self.buf@.len());
                    match read_i64(self.buf, at + 8, "struct field") {
                        Ok(second) => Ok((first, second)),
                        Err(e) => Err(e),
                    }
                },
                Err(e) => Err(e),
            },
        }
    }
}

} // verus!
