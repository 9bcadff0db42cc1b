//! A back-to-front FlatBuffers writer.
//!
//! Objects are appended towards lower addresses, so a parent written after its
//! children stores plain forward offsets to them:
//!
//! 1. strings, vectors and nested tables are created before the table that
//!    refers to them;
//! 2. between [`FbBuilder::start_table`] and [`FbBuilder::end_table`] no other
//!    object is created;
//! 3. a field whose value equals its default is not written.
//!
//! A table whose vtable is byte-identical to one already written reuses it.
//!
//! Positions are distances from the end of the finished buffer. An object that
//! needs `address % a == 0` is placed at a distance that is a multiple of `a`,
//! and [`FbBuilder::finish`] pads the front so that the total length is a
//! multiple of the largest alignment used.
use vstd::prelude::*;
use vstd::slice::slice_subrange;
use vstd::string::StringSliceAdditionalSpecFns;
use vstd::bytes::{u16_to_le_bytes, u32_to_le_bytes, u64_to_le_bytes};
use vstd::utf8::encode_utf8;
use crate::le::{extend, extend_zeros, le_i16, le_i32, le_i64, le_u16, le_u32, pad_to, padded, zeros};
use crate::lex::bytes_equal;

verus! {

/// The initial working capacity.
const INITIAL_CAPACITY: usize = 1024;

/// The largest slot a table may have: its vtable's length has to fit a `usize`.
pub const MAX_SLOT: usize = 0x3FFF_FFF0;

/// Whether `object` stands at distance `d` from the end of `bytes`.
pub open spec fn bytes_at(bytes: Seq<u8>, d: int, object: Seq<u8>) -> bool {
    &&& object.len() <= d <= bytes.len()
    &&& bytes.subrange(bytes.len() - d, bytes.len() - d + object.len()) == object
}

/// What a builder holds.
pub struct FbModel {
    /// The bytes written so far, in address order.
    pub bytes: Seq<u8>,
    /// Largest alignment any object required.
    pub min_align: nat,
    /// Slot and distance of each field of the open table.
    pub locs: Seq<(nat, nat)>,
    /// Whether a table is open.
    pub open: bool,
    /// Distances of the vtables written so far.
    pub vtables: Seq<nat>,
    /// Whether some table is farther from its vtable than its first word tells.
    pub far: bool,
}

/// The vtable entry of a slot: how far behind the table's start its field is,
/// or zero. A slot written twice has its last field.
pub open spec fn entry_of(locs: Seq<(nat, nat)>, slot: nat, table: int) -> u16
    decreases locs.len(),
{
    if locs.len() == 0 {
        0
    } else if locs.last().0 == slot {
        (table - locs.last().1) as u16
    } else {
        entry_of(locs.drop_last(), slot, table)
    }
}

/// One more than the highest slot written.
pub open spec fn slot_count(locs: Seq<(nat, nat)>) -> nat
    decreases locs.len(),
{
    if locs.len() == 0 {
        0
    } else {
        let before = slot_count(locs.drop_last());
        if locs.last().0 + 1 > before {
            locs.last().0 + 1
        } else {
            before
        }
    }
}

/// The first `count` entries of a vtable.
pub open spec fn entries_bytes(locs: Seq<(nat, nat)>, count: nat, table: int) -> Seq<u8>
    decreases count,
{
    if count == 0 {
        Seq::empty()
    } else {
        entries_bytes(locs, (count - 1) as nat, table) + le_u16(
            entry_of(locs, (count - 1) as nat, table),
        )
    }
}

/// A vtable: its own length, the table's length, the entries.
pub open spec fn vtable_bytes(locs: Seq<(nat, nat)>, table: int, size: int) -> Seq<u8> {
    le_u16((4 + 2 * slot_count(locs)) as u16) + le_u16(size as u16) + entries_bytes(
        locs,
        slot_count(locs),
        table,
    )
}

/// The first of the recorded distances at which the candidate stands.
pub open spec fn find_vtable(vtables: Seq<nat>, bytes: Seq<u8>, candidate: Seq<u8>) -> Option<nat>
    decreases vtables.len(),
{
    if vtables.len() == 0 {
        None
    } else if bytes_at(bytes, vtables[0] as int, candidate) {
        Some(vtables[0])
    } else {
        find_vtable(vtables.drop_first(), bytes, candidate)
    }
}

/// The bytes with four of them, at distance `d`, replaced.
pub open spec fn patched(bytes: Seq<u8>, d: int, word: Seq<u8>) -> Seq<u8> {
    bytes.subrange(0, bytes.len() - d) + word + bytes.subrange(bytes.len() - d + 4, bytes.len() as int)
}

pub open spec fn max_nat(a: nat, b: nat) -> nat {
    if a >= b {
        a
    } else {
        b
    }
}

impl FbModel {
    /// Recorded positions are inside, and the alignment is one of those used.
    pub open spec fn wf(self) -> bool {
        &&& self.min_align == 1 || self.min_align == 2 || self.min_align == 4 || self.min_align == 8
        &&& forall|i: int|
            #![trigger self.locs[i]]
            0 <= i < self.locs.len() ==> self.locs[i].0 <= MAX_SLOT && self.locs[i].1
                <= self.bytes.len()
        &&& forall|i: int|
            #![trigger self.vtables[i]]
            0 <= i < self.vtables.len() ==> self.vtables[i] <= self.bytes.len()
        &&& self.far ==> self.bytes.len() > i32::MAX
    }

    /// A fresh builder.
    pub open spec fn empty() -> FbModel {
        FbModel {
            bytes: Seq::empty(),
            min_align: 1,
            locs: Seq::empty(),
            open: false,
            vtables: Seq::empty(),
            far: false,
        }
    }

    /// `object` in front.
    pub open spec fn push_bytes(self, object: Seq<u8>) -> FbModel {
        FbModel { bytes: object + self.bytes, ..self }
    }

    /// Padding, so that an object of `additional` bytes written next starts at
    /// a distance that is a multiple of `alignment`.
    #[verifier::opaque]
    pub open spec fn pre_align(self, additional: int, alignment: nat) -> FbModel {
        FbModel {
            bytes: zeros(pad_to(self.bytes.len() + additional, alignment as int) as nat) + self.bytes,
            min_align: max_nat(self.min_align, alignment),
            ..self
        }
    }

    /// A forward reference to the object at distance `target`.
    #[verifier::opaque]
    pub open spec fn push_offset(self, target: nat) -> FbModel {
        let aligned = self.pre_align(4, 4);
        aligned.push_bytes(le_u32((aligned.bytes.len() + 4 - target) as u32))
    }

    #[verifier::opaque]
    pub open spec fn push_u8(self, value: u8) -> FbModel {
        self.push_bytes(seq![value])
    }

    #[verifier::opaque]
    pub open spec fn push_u16(self, value: u16) -> FbModel {
        self.pre_align(2, 2).push_bytes(le_u16(value))
    }

    #[verifier::opaque]
    pub open spec fn push_i16(self, value: i16) -> FbModel {
        self.pre_align(2, 2).push_bytes(le_i16(value))
    }

    #[verifier::opaque]
    pub open spec fn push_u32(self, value: u32) -> FbModel {
        self.pre_align(4, 4).push_bytes(le_u32(value))
    }

    #[verifier::opaque]
    pub open spec fn push_i32(self, value: i32) -> FbModel {
        self.pre_align(4, 4).push_bytes(le_i32(value))
    }

    #[verifier::opaque]
    pub open spec fn push_i64(self, value: i64) -> FbModel {
        self.pre_align(8, 8).push_bytes(le_i64(value))
    }

    /// The last object pushed is the field of `slot`.
    pub open spec fn track(self, slot: nat) -> FbModel {
        FbModel { locs: self.locs.push((slot, self.bytes.len())), ..self }
    }

    /// A boolean field, left out when it equals the default.
    pub open spec fn slot_bool(self, slot: nat, value: bool, default: bool) -> FbModel {
        if value == default {
            self
        } else {
            self.push_u8(
                if value {
                    1u8
                } else {
                    0u8
                },
            ).track(slot)
        }
    }

    /// A field, left out when it equals the default.
    pub open spec fn slot_u8(self, slot: nat, value: u8, default: u8) -> FbModel {
        if value == default {
            self
        } else {
            self.push_u8(value).track(slot)
        }
    }

    /// A field, left out when it equals the default.
    pub open spec fn slot_i16(self, slot: nat, value: i16, default: i16) -> FbModel {
        if value == default {
            self
        } else {
            self.push_i16(value).track(slot)
        }
    }

    /// A field, left out when it equals the default.
    pub open spec fn slot_i32(self, slot: nat, value: i32, default: i32) -> FbModel {
        if value == default {
            self
        } else {
            self.push_i32(value).track(slot)
        }
    }

    /// A field, left out when it equals the default.
    pub open spec fn slot_i64(self, slot: nat, value: i64, default: i64) -> FbModel {
        if value == default {
            self
        } else {
            self.push_i64(value).track(slot)
        }
    }

    /// A reference field.
    pub open spec fn slot_offset(self, slot: nat, target: nat) -> FbModel {
        self.push_offset(target).track(slot)
    }

    /// A length-prefixed, NUL-terminated string.
    #[verifier::opaque]
    pub open spec fn create_string(self, text: Seq<char>) -> FbModel {
        let bytes = encode_utf8(text);
        self.pre_align(bytes.len() as int + 1, 4).push_u8(0).push_bytes(bytes).push_u32(bytes.len() as u32)
    }

    /// References, the last one written first.
    pub open spec fn push_offsets(self, targets: Seq<nat>) -> FbModel
        decreases targets.len(),
    {
        if targets.len() == 0 {
            self
        } else {
            self.push_offset(targets.last()).push_offsets(targets.drop_last())
        }
    }

    /// A vector of references.
    #[verifier::opaque]
    pub open spec fn create_offset_vector(self, targets: Seq<nat>) -> FbModel {
        self.pre_align(targets.len() as int * 4, 4).push_offsets(targets).push_u32(targets.len() as u32)
    }

    /// A vector of pairs, each pair's first integer first.
    #[verifier::opaque]
    pub open spec fn create_struct_pair_vector(self, items: Seq<(i64, i64)>) -> FbModel {
        self.pre_align(items.len() as int * 16, 8).push_bytes(pairs_bytes(items)).push_u32(items.len() as u32)
    }

    /// A table is open and has no fields yet.
    pub open spec fn start_table(self) -> FbModel {
        FbModel { locs: Seq::empty(), open: true, ..self }
    }

    /// The state with the table's first word written, as zero.
    #[verifier::opaque]
    pub open spec fn table_word(self) -> FbModel {
        self.pre_align(4, 4).push_bytes(zeros(4))
    }

    /// The vtable of the open table, started at distance `start`.
    pub open spec fn table_vtable(self, start: nat) -> Seq<u8> {
        let table = self.table_word().bytes.len() as int;
        vtable_bytes(self.locs, table, table - start)
    }

    /// The state with the open table's vtable written or found.
    pub open spec fn with_vtable(self, start: nat) -> FbModel {
        let word = self.table_word();
        let vtable = self.table_vtable(start);
        match find_vtable(word.vtables, word.bytes, vtable) {
            Some(_) => word,
            None => {
                let pushed = word.pre_align(vtable.len() as int, 2).push_bytes(vtable);
                FbModel { vtables: pushed.vtables.push(pushed.bytes.len()), ..pushed }
            },
        }
    }

    /// The distance of the open table's vtable.
    pub open spec fn vtable_distance(self, start: nat) -> nat {
        let word = self.table_word();
        match find_vtable(word.vtables, word.bytes, self.table_vtable(start)) {
            Some(d) => d,
            None => self.with_vtable(start).bytes.len(),
        }
    }

    /// The open table closed. Its first word tells how far before it its
    /// vtable stands.
    #[verifier::opaque]
    pub open spec fn end_table(self, start: nat) -> FbModel {
        let table = self.table_word().bytes.len();
        let done = self.with_vtable(start);
        FbModel {
            bytes: patched(
                done.bytes,
                table as int,
                le_i32((self.vtable_distance(start) - table) as i32),
            ),
            locs: Seq::empty(),
            open: false,
            far: done.far || !(i32::MIN <= self.vtable_distance(start) - table <= i32::MAX),
            ..done
        }
    }

    /// The root reference, padded so that the total length is a multiple of
    /// the largest alignment used.
    #[verifier::opaque]
    pub open spec fn finish(self, root: nat) -> FbModel {
        self.pre_align(4, max_nat(self.min_align, 4)).push_offset(root)
    }
}

/// A finished buffer is a multiple of its largest alignment long, and of four.
pub proof fn law_finished_length(m: FbModel, root: nat)
    requires
        m.wf(),
    ensures
        m.finish(root).min_align == max_nat(m.min_align, 4),
        m.finish(root).bytes.len() % max_nat(m.finish(root).min_align, 4) == 0,
{
    broadcast use crate::le::group_le;
    reveal(FbModel::finish);
    reveal(FbModel::pre_align);
    reveal(FbModel::push_offset);
    reveal(FbModel::push_bytes);
    let n = m.bytes.len() as int;
    let al = max_nat(m.min_align, 4) as int;
    let first = m.pre_align(4, al as nat);
    crate::le::lemma_padded(n + 4, al);
    assert(zeros(pad_to(n + 4, al) as nat).len() == pad_to(n + 4, al));
    assert(first.bytes.len() + 4 == padded(n + 4, al));
    let l = first.bytes.len() as int + 4;
    if al == 4 {
        assert(l % 4 == 0);
    } else {
        assert(al == 8 && l % 8 == 0);
        assert(l % 4 == 0);
    }
    let second = first.pre_align(4, 4);
    assert(second.bytes =~= first.bytes);
}

/// The bytes of a list of pairs.
pub open spec fn pairs_bytes(items: Seq<(i64, i64)>) -> Seq<u8>
    decreases items.len(),
{
    if items.len() == 0 {
        Seq::empty()
    } else {
        le_i64(items[0].0) + le_i64(items[0].1) + pairs_bytes(items.drop_first())
    }
}

/// A finished object, as its distance from the end of the buffer.
#[derive(Debug, Clone, Copy, PartialEq, Eq)]
pub struct WipOffset(usize);

impl View for WipOffset {
    type V = nat;

    closed spec fn view(&self) -> nat {
        self.0 as nat
    }
}

impl WipOffset {
    /// The distance from the end.
    pub fn value(self) -> (r: usize)
        ensures
            r == self@,
    {
        self.0
    }
}

/// The distances of a list of objects.
pub open spec fn distances(items: Seq<WipOffset>) -> Seq<nat> {
    Seq::new(items.len(), |i: int| items[i]@)
}

/// Where an open table starts.
#[derive(Debug, Clone, Copy)]
pub struct TableStart(usize);

impl View for TableStart {
    type V = nat;

    closed spec fn view(&self) -> nat {
        self.0 as nat
    }
}

/// A back-to-front builder.
#[derive(Debug)]
pub struct FbBuilder {
    buf: Vec<u8>,
    head: usize,
    min_align: usize,
    locs: Vec<(usize, usize)>,
    open: bool,
    vtables: Vec<usize>,
    far: bool,
}

impl View for FbBuilder {
    type V = FbModel;

    closed spec fn view(&self) -> FbModel {
        FbModel {
            bytes: self.buf@.subrange(self.head as int, self.buf@.len() as int),
            min_align: self.min_align as nat,
            locs: Seq::new(self.locs@.len(), |i: int| (self.locs@[i].0 as nat, self.locs@[i].1 as nat)),
            open: self.open,
            vtables: Seq::new(self.vtables@.len(), |i: int| self.vtables@[i] as nat),
            far: self.far,
        }
    }
}

/// A sum's remainder is that of the remainders' sum.
proof fn lemma_mod_sum(a: int, b: int, m: int)
    requires
        0 < m,
    ensures
        (a + b) % m == ((a % m) + (b % m)) % m,
{
    vstd::arithmetic::div_mod::lemma_add_mod_noop(a, b, m);
}

impl FbBuilder {
    /// The live bytes are inside the storage and the model is well formed.
    pub closed spec fn wf(self) -> bool {
        &&& self.head <= self.buf@.len()
        &&& self@.wf()
    }

    /// A well-formed builder has a well-formed model.
    pub proof fn lemma_wf(self)
        requires
            self.wf(),
        ensures
            self@.wf(),
    {
    }

    /// How many bytes can be written in front before the storage is regrown.
    pub closed spec fn room(self) -> nat {
        self.head as nat
    }

    /// An empty builder.
    pub fn new() -> (r: Self)
        ensures
            r.wf(),
            r@ == FbModel::empty(),
    {
        FbBuilder::with_capacity(INITIAL_CAPACITY)
    }

    /// An empty builder with room for `capacity` bytes, and for eight at least,
    /// before the first regrow.
    pub fn with_capacity(capacity: usize) -> (r: Self)
        ensures
            r.wf(),
            r@ == FbModel::empty(),
            r.room() == max_nat(capacity as nat, 8),
    {
        let capacity: usize = if capacity < 8 {
            8
        } else {
            capacity
        };
        let mut buf: Vec<u8> = Vec::new();
        extend_zeros(&mut buf, capacity);
        let r = FbBuilder {
            buf,
            head: capacity,
            min_align: 1,
            locs: Vec::new(),
            open: false,
            vtables: Vec::new(),
            far: false,
        };
        assert(r@.bytes =~= Seq::<u8>::empty());
        assert(r@.locs =~= Seq::<(nat, nat)>::empty());
        assert(r@.vtables =~= Seq::<nat>::empty());
        r
    }

    /// Drops every object, keeping the allocation.
    pub fn reset(&mut self)
        requires
            old(self).wf(),
        ensures
            final(self).wf(),
            final(self)@ == FbModel::empty(),
    {
        self.head = self.buf.len();
        self.min_align = 1;
        self.locs.clear();
        self.open = false;
        self.vtables.clear();
        self.far = false;
        assert(self@.bytes =~= Seq::<u8>::empty());
        assert(self@.locs =~= Seq::<(nat, nat)>::empty());
        assert(self@.vtables =~= Seq::<nat>::empty());
    }

    /// Bytes written so far.
    pub fn used(&self) -> (r: usize)
        requires
            self.wf(),
        ensures
            r == self@.bytes.len(),
    {
        self.buf.len() - self.head
    }

    /// The bytes written so far; the finished buffer after [`FbBuilder::finish`].
    pub fn finished_bytes(&self) -> (r: &[u8])
        requires
            self.wf(),
        ensures
            r@ == self@.bytes,
    {
        slice_subrange(self.buf.as_slice(), self.head, self.buf.len())
    }

    /// The largest alignment any object required.
    pub fn min_alignment(&self) -> (r: usize)
        ensures
            r == self@.min_align,
    {
        self.min_align
    }

    /// How many distinct vtables were written.
    pub fn vtable_count(&self) -> (r: usize)
        ensures
            r == self@.vtables.len(),
    {
        self.vtables.len()
    }

    /// Makes room for `n` more bytes in front, regrowing the storage only where it
    /// has less.
    fn make_space(&mut self, n: usize)
        requires
            old(self).wf(),
        ensures
            final(self).wf(),
            final(self)@ == old(self)@,
            final(self).room() >= n,
            old(self).room() >= n ==> *final(self) == *old(self),
            final(self).locs == old(self).locs,
            final(self).vtables == old(self).vtables,
    {
        if self.head >= n {
            return;
        }
        let used: usize = self.buf.len() - self.head;
        let mut grow: usize = n;
        if grow < used {
            grow = used;
        }
        if grow < INITIAL_CAPACITY {
            grow = INITIAL_CAPACITY;
        }
        let mut next: Vec<u8> = Vec::new();
        extend_zeros(&mut next, grow);
        extend(&mut next, slice_subrange(self.buf.as_slice(), self.head, self.buf.len()));
        self.buf = next;
        self.head = grow;
        assert(self@.bytes =~= old(self)@.bytes);
    }

    /// Appends bytes verbatim.
    fn push_bytes(&mut self, object: &[u8])
        requires
            old(self).wf(),
        ensures
            final(self).wf(),
            old(self)@.bytes.len() <= final(self)@.bytes.len(),
            final(self)@.open == old(self)@.open,
            final(self)@ == old(self)@.push_bytes(object@),
            old(self).room() >= object@.len() ==> final(self).room() == old(self).room() - object@.len(),
    {
        let n: usize = object.len();
        self.make_space(n);
        let ghost before = self.buf@;
        self.head = self.head - n;
        let start: usize = self.head;
        let mut i: usize = 0;
        while i < n
            invariant
                0 <= i <= n == object@.len(),
                start + n <= self.buf@.len(),
                start + n <= usize::MAX,
                start == self.head,
                self.buf@.len() == before.len(),
                forall|k: int| 0 <= k < i ==> self.buf@[start + k] == object@[k],
                forall|k: int| start + n <= k < before.len() ==> self.buf@[k] == before[k],
                self.min_align == old(self).min_align,
                self.locs == old(self).locs,
                self.open == old(self).open,
                self.vtables == old(self).vtables,
                self.far == old(self).far,
            decreases n - i,
        {
            self.buf[start + i] = object[i];
            i = i + 1;
        }
        proof {
            let was = before.subrange(start + n, before.len() as int);
            assert(old(self)@.bytes == was);
            assert(self@.bytes =~= object@ + was);
            assert(self@.locs =~= old(self)@.locs);
            assert(self@.vtables =~= old(self)@.vtables);
        }
    }

    /// Appends `count` zero bytes.
    fn push_zeros(&mut self, count: usize)
        requires
            old(self).wf(),
        ensures
            final(self).wf(),
            old(self)@.bytes.len() <= final(self)@.bytes.len(),
            final(self)@.open == old(self)@.open,
            final(self)@ == old(self)@.push_bytes(zeros(count as nat)),
    {
        let mut padding: Vec<u8> = Vec::new();
        extend_zeros(&mut padding, count);
        assert(padding@ =~= zeros(count as nat));
        self.push_bytes(padding.as_slice());
    }

    /// Pads so that an object of `additional` bytes written next starts at a
    /// distance that is a multiple of `alignment`.
    fn pre_align(&mut self, additional: usize, alignment: usize)
        requires
            old(self).wf(),
            alignment == 2 || alignment == 4 || alignment == 8,
        ensures
            final(self).wf(),
            old(self)@.bytes.len() <= final(self)@.bytes.len(),
            final(self)@.open == old(self)@.open,
            final(self)@ == old(self)@.pre_align(additional as int, alignment as nat),
    {
        reveal(FbModel::pre_align);
        if alignment > self.min_align {
            self.min_align = alignment;
        }
        assert(self@.locs =~= old(self)@.locs);
        assert(self@.vtables =~= old(self)@.vtables);
        assert(self@.bytes =~= old(self)@.bytes);
        let used: usize = self.used();
        let misalignment: usize = (used % alignment + additional % alignment) % alignment;
        proof {
            lemma_mod_sum(used as int, additional as int, alignment as int);
        }
        let count: usize = if misalignment == 0 {
            0
        } else {
            alignment - misalignment
        };
        self.push_zeros(count);
    }

    /// Appends a `u8`.
    pub fn push_u8(&mut self, value: u8)
        requires
            old(self).wf(),
        ensures
            final(self).wf(),
            old(self)@.bytes.len() <= final(self)@.bytes.len(),
            final(self)@.open == old(self)@.open,
            final(self)@ == old(self)@.push_u8(value),
    {
        reveal(FbModel::push_u8);
        let mut object: Vec<u8> = Vec::new();
        object.push(value);
        assert(object@ =~= seq![value]);
        self.push_bytes(object.as_slice());
    }

    /// Appends an `i8`.
    pub fn push_i8(&mut self, value: i8)
        requires
            old(self).wf(),
        ensures
            final(self).wf(),
            old(self)@.bytes.len() <= final(self)@.bytes.len(),
            final(self)@.open == old(self)@.open,
            final(self)@ == old(self)@.push_u8(value as u8),
    {
        self.push_u8(value as u8);
    }

    /// Appends a `u16`, aligned to 2.
    pub fn push_u16(&mut self, value: u16)
        requires
            old(self).wf(),
        ensures
            final(self).wf(),
            old(self)@.bytes.len() <= final(self)@.bytes.len(),
            final(self)@.open == old(self)@.open,
            final(self)@ == old(self)@.push_u16(value),
    {
        reveal(FbModel::push_u16);
        self.pre_align(2, 2);
        let object = u16_to_le_bytes(value);
        self.push_bytes(object.as_slice());
    }

    /// Appends an `i16`, aligned to 2.
    pub fn push_i16(&mut self, value: i16)
        requires
            old(self).wf(),
        ensures
            final(self).wf(),
            old(self)@.bytes.len() <= final(self)@.bytes.len(),
            final(self)@.open == old(self)@.open,
            final(self)@ == old(self)@.push_i16(value),
    {
        reveal(FbModel::push_i16);
        self.pre_align(2, 2);
        let object = u16_to_le_bytes(value as u16);
        self.push_bytes(object.as_slice());
    }

    /// Appends a `u32`, aligned to 4.
    pub fn push_u32(&mut self, value: u32)
        requires
            old(self).wf(),
        ensures
            final(self).wf(),
            old(self)@.bytes.len() <= final(self)@.bytes.len(),
            final(self)@.open == old(self)@.open,
            final(self)@ == old(self)@.push_u32(value),
    {
        reveal(FbModel::push_u32);
        self.pre_align(4, 4);
        let object = u32_to_le_bytes(value);
        self.push_bytes(object.as_slice());
    }

    /// Appends an `i32`, aligned to 4.
    pub fn push_i32(&mut self, value: i32)
        requires
            old(self).wf(),
        ensures
            final(self).wf(),
            old(self)@.bytes.len() <= final(self)@.bytes.len(),
            final(self)@.open == old(self)@.open,
            final(self)@ == old(self)@.push_i32(value),
    {
        reveal(FbModel::push_i32);
        self.pre_align(4, 4);
        let object = u32_to_le_bytes(value as u32);
        self.push_bytes(object.as_slice());
    }

    /// Appends an `i64`, aligned to 8.
    pub fn push_i64(&mut self, value: i64)
        requires
            old(self).wf(),
        ensures
            final(self).wf(),
            old(self)@.bytes.len() <= final(self)@.bytes.len(),
            final(self)@.open == old(self)@.open,
            final(self)@ == old(self)@.push_i64(value),
    {
        reveal(FbModel::push_i64);
        self.pre_align(8, 8);
        let object = u64_to_le_bytes(value as u64);
        self.push_bytes(object.as_slice());
    }

    /// Appends a forward reference to an object created before.
    pub fn push_offset(&mut self, target: WipOffset)
        requires
            old(self).wf(),
            target@ <= old(self)@.bytes.len(),
        ensures
            final(self).wf(),
            old(self)@.bytes.len() <= final(self)@.bytes.len(),
            final(self)@.open == old(self)@.open,
            final(self)@ == old(self)@.push_offset(target@),
    {
        reveal(FbModel::push_offset);
        self.pre_align(4, 4);
        let ahead: u128 = (self.used() - target.0) as u128 + 4;
        let object = u32_to_le_bytes(#[verifier::truncate] (ahead as u32));
        self.push_bytes(object.as_slice());
    }

    /// Creates a length-prefixed, NUL-terminated string.
    pub fn create_string(&mut self, value: &str) -> (r: WipOffset)
        requires
            old(self).wf(),
            !old(self)@.open,
        ensures
            final(self).wf(),
            old(self)@.bytes.len() <= final(self)@.bytes.len(),
            !final(self)@.open,
            final(self)@ == old(self)@.create_string(value@),
            r@ == final(self)@.bytes.len(),
    {
        reveal(FbModel::create_string);
        reveal(FbModel::pre_align);
        let bytes = value.as_bytes();
        let n: usize = bytes.len();
        proof {
            let u = self@.bytes.len() as int;
            assert((u + n + 1) % 4 == (u + (n % 4 + 1)) % 4);
        }
        self.pre_align(n % 4 + 1, 4);
        assert(self@ == old(self)@.pre_align(n + 1, 4));
        self.push_u8(0);
        self.push_bytes(bytes);
        self.push_u32(#[verifier::truncate] (n as u32));
        WipOffset(self.used())
    }

    /// Creates a vector of forward references.
    pub fn create_offset_vector(&mut self, items: &[WipOffset]) -> (r: WipOffset)
        requires
            old(self).wf(),
            !old(self)@.open,
            forall|i: int| 0 <= i < items@.len() ==> (#[trigger] items@[i])@ <= old(self)@.bytes.len(),
        ensures
            final(self).wf(),
            old(self)@.bytes.len() <= final(self)@.bytes.len(),
            final(self)@ == old(self)@.create_offset_vector(distances(items@)),
            !final(self)@.open,
            r@ == final(self)@.bytes.len(),
    {
        reveal(FbModel::create_offset_vector);
        reveal(FbModel::pre_align);
        let n: usize = items.len();
        let ghost targets = distances(items@);
        self.pre_align(0, 4);
        proof {
            let u = old(self)@.bytes.len() as int;
            assert((u + n * 4) % 4 == u % 4);
            assert(self@ == old(self)@.pre_align(n * 4, 4));
        }
        let ghost aligned = self@;
        let mut i: usize = n;
        assert(targets.take(n as int) =~= targets);
        while i > 0
            invariant
                0 <= i <= n == items@.len(),
                targets == distances(items@),
                self.wf(),
                !self@.open,
                old(self)@.bytes.len() <= aligned.bytes.len() <= self@.bytes.len(),
                forall|k: int| 0 <= k < n ==> (#[trigger] items@[k])@ <= aligned.bytes.len(),
                aligned.push_offsets(targets) == self@.push_offsets(targets.take(i as int)),
            decreases i,
        {
            i = i - 1;
            assert(targets.take(i + 1).last() == items@[i as int]@);
            assert(targets.take(i + 1).drop_last() =~= targets.take(i as int));
            self.push_offset(items[i]);
        }
        assert(self@.push_offsets(targets.take(0)) == self@);
        self.push_u32(#[verifier::truncate] (n as u32));
        WipOffset(self.used())
    }

    /// Creates a vector of 16-byte structs of two integers.
    pub fn create_struct_pair_vector(&mut self, items: &[(i64, i64)]) -> (r: WipOffset)
        requires
            old(self).wf(),
            !old(self)@.open,
        ensures
            final(self).wf(),
            old(self)@.bytes.len() <= final(self)@.bytes.len(),
            !final(self)@.open,
            final(self)@ == old(self)@.create_struct_pair_vector(items@),
            r@ == final(self)@.bytes.len(),
    {
        reveal(FbModel::create_struct_pair_vector);
        reveal(FbModel::pre_align);
        let n: usize = items.len();
        self.pre_align(0, 8);
        proof {
            let u = old(self)@.bytes.len() as int;
            assert((u + n * 16) % 8 == u % 8);
            assert(self@ == old(self)@.pre_align(n * 16, 8));
        }
        let ghost aligned = self@;
        let mut i: usize = n;
        assert(items@.skip(n as int) =~= Seq::<(i64, i64)>::empty());
        assert(self@.bytes =~= aligned.push_bytes(pairs_bytes(items@.skip(n as int))).bytes);
        while i > 0
            invariant
                0 <= i <= n == items@.len(),
                self.wf(),
                self@ == aligned.push_bytes(pairs_bytes(items@.skip(i as int))),
            decreases i,
        {
            i = i - 1;
            let (first, second) = items[i];
            let object = u64_to_le_bytes(second as u64);
            self.push_bytes(object.as_slice());
            let object = u64_to_le_bytes(first as u64);
            self.push_bytes(object.as_slice());
            proof {
                let rest = items@.skip(i as int);
                assert(rest.drop_first() =~= items@.skip(i + 1));
                assert(self@.bytes =~= aligned.push_bytes(pairs_bytes(rest)).bytes);
            }
        }
        assert(items@.skip(0) =~= items@);
        self.push_u32(#[verifier::truncate] (n as u32));
        WipOffset(self.used())
    }

    /// Opens a table.
    pub fn start_table(&mut self) -> (r: TableStart)
        requires
            old(self).wf(),
            !old(self)@.open,
        ensures
            final(self).wf(),
            old(self)@.bytes.len() <= final(self)@.bytes.len(),
            final(self)@ == old(self)@.start_table(),
            r@ == old(self)@.bytes.len(),
    {
        self.open = true;
        self.locs.clear();
        assert(self@.locs =~= Seq::<(nat, nat)>::empty());
        assert(self@.vtables =~= old(self)@.vtables);
        assert(self@.bytes =~= old(self)@.bytes);
        TableStart(self.used())
    }

    fn track_field(&mut self, slot: usize)
        requires
            old(self).wf(),
            slot <= MAX_SLOT,
        ensures
            final(self).wf(),
            old(self)@.bytes.len() <= final(self)@.bytes.len(),
            final(self)@.open == old(self)@.open,
            final(self)@ == old(self)@.track(slot as nat),
    {
        let distance: usize = self.used();
        self.locs.push((slot, distance));
        assert(self@.locs =~= old(self)@.locs.push((slot as nat, distance as nat)));
        assert(self@.vtables =~= old(self)@.vtables);
        assert(self@.bytes =~= old(self)@.bytes);
    }

    /// Writes a `bool` slot unless it equals the default.
    pub fn push_slot_bool(&mut self, slot: usize, value: bool, default: bool)
        requires
            old(self).wf(),
            slot <= MAX_SLOT,
        ensures
            final(self).wf(),
            old(self)@.bytes.len() <= final(self)@.bytes.len(),
            final(self)@.open == old(self)@.open,
            final(self)@ == old(self)@.slot_bool(slot as nat, value, default),
    {
        if value != default {
            self.push_u8(if value {
                1u8
            } else {
                0u8
            });
            self.track_field(slot);
        }
    }

    /// Writes a `u8` slot unless it equals the default.
    pub fn push_slot_u8(&mut self, slot: usize, value: u8, default: u8)
        requires
            old(self).wf(),
            slot <= MAX_SLOT,
        ensures
            final(self).wf(),
            old(self)@.bytes.len() <= final(self)@.bytes.len(),
            final(self)@.open == old(self)@.open,
            final(self)@ == old(self)@.slot_u8(slot as nat, value, default),
    {
        if value != default {
            self.push_u8(value);
            self.track_field(slot);
        }
    }

    /// Writes an `i8` slot unless it equals the default.
    pub fn push_slot_i8(&mut self, slot: usize, value: i8, default: i8)
        requires
            old(self).wf(),
            slot <= MAX_SLOT,
        ensures
            final(self).wf(),
            old(self)@.bytes.len() <= final(self)@.bytes.len(),
            final(self)@.open == old(self)@.open,
            final(self)@ == if value == default {
                old(self)@
            } else {
                old(self)@.push_u8(value as u8).track(slot as nat)
            },
    {
        if value != default {
            self.push_i8(value);
            self.track_field(slot);
        }
    }

    /// Writes an `i16` slot unless it equals the default.
    pub fn push_slot_i16(&mut self, slot: usize, value: i16, default: i16)
        requires
            old(self).wf(),
            slot <= MAX_SLOT,
        ensures
            final(self).wf(),
            old(self)@.bytes.len() <= final(self)@.bytes.len(),
            final(self)@.open == old(self)@.open,
            final(self)@ == old(self)@.slot_i16(slot as nat, value, default),
    {
        if value != default {
            self.push_i16(value);
            self.track_field(slot);
        }
    }

    /// Writes an `i32` slot unless it equals the default.
    pub fn push_slot_i32(&mut self, slot: usize, value: i32, default: i32)
        requires
            old(self).wf(),
            slot <= MAX_SLOT,
        ensures
            final(self).wf(),
            old(self)@.bytes.len() <= final(self)@.bytes.len(),
            final(self)@.open == old(self)@.open,
            final(self)@ == old(self)@.slot_i32(slot as nat, value, default),
    {
        if value != default {
            self.push_i32(value);
            self.track_field(slot);
        }
    }

    /// Writes an `i64` slot unless it equals the default.
    pub fn push_slot_i64(&mut self, slot: usize, value: i64, default: i64)
        requires
            old(self).wf(),
            slot <= MAX_SLOT,
        ensures
            final(self).wf(),
            old(self)@.bytes.len() <= final(self)@.bytes.len(),
            final(self)@.open == old(self)@.open,
            final(self)@ == old(self)@.slot_i64(slot as nat, value, default),
    {
        if value != default {
            self.push_i64(value);
            self.track_field(slot);
        }
    }

    /// Writes a reference slot; references have no default.
    pub fn push_slot_offset(&mut self, slot: usize, target: WipOffset)
        requires
            old(self).wf(),
            slot <= MAX_SLOT,
            target@ <= old(self)@.bytes.len(),
        ensures
            final(self).wf(),
            old(self)@.bytes.len() <= final(self)@.bytes.len(),
            final(self)@.open == old(self)@.open,
            final(self)@ == old(self)@.slot_offset(slot as nat, target@),
    {
        self.push_offset(target);
        self.track_field(slot);
    }

    /// The vtable entry of a slot of the table at distance `table`.
    fn vtable_entry(&self, slot: usize, table: usize) -> (r: u16)
        requires
            self.wf(),
            table >= self@.bytes.len(),
        ensures
            r == entry_of(self@.locs, slot as nat, table as int),
    {
        let mut i: usize = self.locs.len();
        let ghost locs = self@.locs;
        assert(locs.take(i as int) =~= locs);
        while i > 0
            invariant
                0 <= i <= self.locs@.len(),
                locs == self@.locs,
                self.wf(),
                table >= self@.bytes.len(),
                entry_of(locs, slot as nat, table as int) == entry_of(
                    locs.take(i as int),
                    slot as nat,
                    table as int,
                ),
            decreases i,
        {
            i = i - 1;
            let (at, distance) = self.locs[i];
            assert(locs.take(i + 1).last() == (at as nat, distance as nat));
            assert(locs.take(i + 1).drop_last() =~= locs.take(i as int));
            assert(locs[i as int].1 <= self@.bytes.len());
            if at == slot {
                return #[verifier::truncate] ((table - distance) as u16);
            }
        }
        0
    }

    /// One more than the highest slot written.
    fn count_slots(&self) -> (r: usize)
        requires
            self.wf(),
        ensures
            r == slot_count(self@.locs),
            r <= MAX_SLOT + 1,
    {
        let mut count: usize = 0;
        let mut i: usize = 0;
        let ghost locs = self@.locs;
        while i < self.locs.len()
            invariant
                0 <= i <= self.locs@.len(),
                locs == self@.locs,
                self.wf(),
                count <= MAX_SLOT + 1,
                count == slot_count(locs.take(i as int)),
            decreases self.locs@.len() - i,
        {
            assert(locs.take(i + 1).last() == locs[i as int]);
            assert(locs.take(i + 1).drop_last() =~= locs.take(i as int));
            let slot: usize = self.locs[i].0;
            assert(locs[i as int].0 == slot);
            if slot + 1 > count {
                count = slot + 1;
            }
            i = i + 1;
        }
        assert(locs.take(i as int) =~= locs);
        count
    }

    /// Closes the table, writing or reusing its vtable.
    pub fn end_table(&mut self, start: TableStart) -> (r: WipOffset)
        requires
            old(self).wf(),
            old(self)@.open,
            start@ <= old(self)@.bytes.len(),
        ensures
            final(self).wf(),
            old(self)@.bytes.len() <= final(self)@.bytes.len(),
            !final(self)@.open,
            final(self)@ == old(self)@.end_table(start@),
            r@ == old(self)@.table_word().bytes.len(),
            r@ <= final(self)@.bytes.len(),
    {
        reveal(FbModel::end_table);
        reveal(FbModel::table_word);
        reveal(FbModel::pre_align);
        self.pre_align(4, 4);
        self.push_zeros(4);
        let ghost word = self@;
        assert(word == old(self)@.table_word());
        let table: usize = self.used();
        let size: usize = table - start.0;

        let count: usize = self.count_slots();
        let mut vtable: Vec<u8> = u16_to_le_bytes(#[verifier::truncate] ((4 + 2 * count) as u16));
        let size_bytes = u16_to_le_bytes(#[verifier::truncate] (size as u16));
        extend(&mut vtable, size_bytes.as_slice());
        let ghost header = vtable@;
        let mut slot: usize = 0;
        assert(vtable@ =~= header + entries_bytes(word.locs, 0, table as int));
        while slot < count
            invariant
                0 <= slot <= count,
                self.wf(),
                self@ == word,
                table == word.bytes.len(),
                vtable@ == header + entries_bytes(word.locs, slot as nat, table as int),
            decreases count - slot,
        {
            let entry: u16 = self.vtable_entry(slot, table);
            let entry_bytes = u16_to_le_bytes(entry);
            extend(&mut vtable, entry_bytes.as_slice());
            slot = slot + 1;
            assert(vtable@ =~= header + entries_bytes(word.locs, slot as nat, table as int));
        }
        assert(vtable@ =~= old(self)@.table_vtable(start@));

        let found = self.find_vtable(vtable.as_slice());
        let vtable_distance: usize = match found {
            Some(d) => d,
            None => {
                self.pre_align(vtable.len(), 2);
                self.push_bytes(vtable.as_slice());
                let d: usize = self.used();
                let ghost pushed = self@;
                self.vtables.push(d);
                assert(self@.vtables =~= pushed.vtables.push(d as nat));
                assert(self@.bytes == pushed.bytes);
                d
            },
        };
        assert(self@ == old(self)@.with_vtable(start@));
        assert(vtable_distance == old(self)@.vtable_distance(start@));

        let soffset: i128 = vtable_distance as i128 - table as i128;
        let ghost unpatched = self@;
        self.patch_i32(table, #[verifier::truncate] (soffset as i32));
        let ghost patched_state = self@;
        self.open = false;
        self.locs.clear();
        self.far = self.far || soffset < i32::MIN as i128 || soffset > i32::MAX as i128;
        assert(self@.locs =~= Seq::<(nat, nat)>::empty());
        assert(self@.vtables =~= patched_state.vtables);
        assert(self@.bytes =~= patched_state.bytes);
        assert(self@.bytes.len() == unpatched.bytes.len()) by {
            broadcast use crate::le::group_le;
        }
        WipOffset(table)
    }

    /// Overwrites four bytes at `distance`.
    fn patch_i32(&mut self, distance: usize, value: i32)
        requires
            old(self).wf(),
            4 <= distance <= old(self)@.bytes.len(),
        ensures
            final(self).wf(),
            final(self)@ == (FbModel {
                bytes: patched(old(self)@.bytes, distance as int, le_i32(value)),
                ..old(self)@
            }),
    {
        broadcast use crate::le::group_le;
        let object = u32_to_le_bytes(value as u32);
        let at: usize = self.buf.len() - distance;
        let ghost before = self.buf@;
        self.buf[at] = object[0];
        self.buf[at + 1] = object[1];
        self.buf[at + 2] = object[2];
        self.buf[at + 3] = object[3];
        proof {
            let n = old(self)@.bytes.len();
            let lhs = self@.bytes;
            let rhs = patched(old(self)@.bytes, distance as int, le_i32(value));
            assert(lhs.len() == rhs.len());
            assert forall|k: int| 0 <= k < lhs.len() implies lhs[k] == rhs[k] by {
                let base = n - distance;
                if base <= k < base + 4 {
                    assert(rhs[k] == object@[k - base]);
                }
            }
            assert(lhs =~= rhs);
        }
    }

    /// A byte-identical vtable written before.
    fn find_vtable(&self, candidate: &[u8]) -> (r: Option<usize>)
        requires
            self.wf(),
        ensures
            match r {
                Some(d) => find_vtable(self@.vtables, self@.bytes, candidate@) == Some(d as nat) && d
                    <= self@.bytes.len(),
                None => find_vtable(self@.vtables, self@.bytes, candidate@) is None,
            },
    {
        let mut i: usize = 0;
        let live = slice_subrange(self.buf.as_slice(), self.head, self.buf.len());
        let ghost vtables = self@.vtables;
        assert(vtables.skip(0) =~= vtables);
        while i < self.vtables.len()
            invariant
                0 <= i <= self.vtables@.len(),
                self.wf(),
                vtables == self@.vtables,
                live@ == self@.bytes,
                find_vtable(vtables, live@, candidate@) == find_vtable(
                    vtables.skip(i as int),
                    live@,
                    candidate@,
                ),
            decreases self.vtables@.len() - i,
        {
            let d: usize = self.vtables[i];
            assert(vtables.skip(i as int)[0] == d);
            assert(vtables[i as int] <= self@.bytes.len());
            assert(vtables.skip(i as int).drop_first() =~= vtables.skip(i + 1));
            if candidate.len() <= d {
                let start: usize = live.len() - d;
                let existing = slice_subrange(live, start, start + candidate.len());
                if bytes_equal(existing, candidate) {
                    return Some(d);
                }
            }
            i = i + 1;
        }
        None
    }

    /// Writes the root reference and pads the total length to the buffer's
    /// alignment.
    pub fn finish(&mut self, root: WipOffset)
        requires
            old(self).wf(),
            !old(self)@.open,
            root@ <= old(self)@.bytes.len(),
        ensures
            final(self).wf(),
            old(self)@.bytes.len() <= final(self)@.bytes.len(),
            final(self)@ == old(self)@.finish(root@),
            final(self)@.bytes.len() % max_nat(final(self)@.min_align, 4) == 0,
    {
        reveal(FbModel::finish);
        proof {
            law_finished_length(self@, root@);
        }
        let alignment: usize = if self.min_align < 4 {
            4
        } else {
            self.min_align
        };
        self.pre_align(4, alignment);
        self.push_offset(root);
    }
}

impl Default for FbBuilder {
    fn default() -> (r: Self)
        ensures
            r.wf(),
            r@ == FbModel::empty(),
    {
        FbBuilder::new()
    }
}

} // verus!
