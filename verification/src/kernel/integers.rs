//! The integers that columns of the eight integer types hold.
use vstd::prelude::*;
use crate::array::column::ArrayRef;
use crate::array::model::ArrayV;
use crate::array::native::ArrowNativeType;
use crate::array::primitive::{values_of, PrimitiveArray};
use crate::datatype::{DataType, TypeModel};

verus! {

/// A primitive value that is an integer.
pub trait IntegerValue: ArrowNativeType {
    /// The integer.
    spec fn int_model(self) -> int;

    /// The least integer of the type.
    spec fn least() -> int;

    /// The greatest integer of the type.
    spec fn greatest() -> int;

    /// The integer lies in its type's range, and stands in for the value.
    proof fn lemma_integer(v: Self, w: Self)
        ensures
            i64::MIN <= Self::least() <= 0 < Self::greatest() <= u64::MAX,
            Self::least() <= v.int_model() <= Self::greatest(),
            v.int_model() == w.int_model() ==> v == w,
    ;

    /// The integer.
    fn widen(self) -> (r: i128)
        ensures
            r == self.int_model(),
    ;

    /// The value that an integer of the range is.
    fn narrow(x: i128) -> (r: Self)
        requires
            Self::least() <= x <= Self::greatest(),
        ensures
            r.int_model() == x,
    ;

    /// The range.
    fn range() -> (r: (i128, i128))
        ensures
            r.0 == Self::least(),
            r.1 == Self::greatest(),
    ;
}

impl IntegerValue for i8 {
    open spec fn int_model(self) -> int {
        self as int
    }

    open spec fn least() -> int {
        i8::MIN as int
    }

    open spec fn greatest() -> int {
        i8::MAX as int
    }

    proof fn lemma_integer(v: Self, w: Self) {
    }

    fn widen(self) -> (r: i128) {
        self as i128
    }

    fn narrow(x: i128) -> (r: Self) {
        x as i8
    }

    fn range() -> (r: (i128, i128)) {
        (-128, 127)
    }
}

impl IntegerValue for i16 {
    open spec fn int_model(self) -> int {
        self as int
    }

    open spec fn least() -> int {
        i16::MIN as int
    }

    open spec fn greatest() -> int {
        i16::MAX as int
    }

    proof fn lemma_integer(v: Self, w: Self) {
    }

    fn widen(self) -> (r: i128) {
        self as i128
    }

    fn narrow(x: i128) -> (r: Self) {
        x as i16
    }

    fn range() -> (r: (i128, i128)) {
        (-32768, 32767)
    }
}

impl IntegerValue for i32 {
    open spec fn int_model(self) -> int {
        self as int
    }

    open spec fn least() -> int {
        i32::MIN as int
    }

    open spec fn greatest() -> int {
        i32::MAX as int
    }

    proof fn lemma_integer(v: Self, w: Self) {
    }

    fn widen(self) -> (r: i128) {
        self as i128
    }

    fn narrow(x: i128) -> (r: Self) {
        x as i32
    }

    fn range() -> (r: (i128, i128)) {
        (-2147483648, 2147483647)
    }
}

impl IntegerValue for i64 {
    open spec fn int_model(self) -> int {
        self as int
    }

    open spec fn least() -> int {
        i64::MIN as int
    }

    open spec fn greatest() -> int {
        i64::MAX as int
    }

    proof fn lemma_integer(v: Self, w: Self) {
    }

    fn widen(self) -> (r: i128) {
        self as i128
    }

    fn narrow(x: i128) -> (r: Self) {
        x as i64
    }

    fn range() -> (r: (i128, i128)) {
        (-9223372036854775808, 9223372036854775807)
    }
}

impl IntegerValue for u8 {
    open spec fn int_model(self) -> int {
        self as int
    }

    open spec fn least() -> int {
        u8::MIN as int
    }

    open spec fn greatest() -> int {
        u8::MAX as int
    }

    proof fn lemma_integer(v: Self, w: Self) {
    }

    fn widen(self) -> (r: i128) {
        self as i128
    }

    fn narrow(x: i128) -> (r: Self) {
        x as u8
    }

    fn range() -> (r: (i128, i128)) {
        (0, 255)
    }
}

impl IntegerValue for u16 {
    open spec fn int_model(self) -> int {
        self as int
    }

    open spec fn least() -> int {
        u16::MIN as int
    }

    open spec fn greatest() -> int {
        u16::MAX as int
    }

    proof fn lemma_integer(v: Self, w: Self) {
    }

    fn widen(self) -> (r: i128) {
        self as i128
    }

    fn narrow(x: i128) -> (r: Self) {
        x as u16
    }

    fn range() -> (r: (i128, i128)) {
        (0, 65535)
    }
}

impl IntegerValue for u32 {
    open spec fn int_model(self) -> int {
        self as int
    }

    open spec fn least() -> int {
        u32::MIN as int
    }

    open spec fn greatest() -> int {
        u32::MAX as int
    }

    proof fn lemma_integer(v: Self, w: Self) {
    }

    fn widen(self) -> (r: i128) {
        self as i128
    }

    fn narrow(x: i128) -> (r: Self) {
        x as u32
    }

    fn range() -> (r: (i128, i128)) {
        (0, 4294967295)
    }
}

impl IntegerValue for u64 {
    open spec fn int_model(self) -> int {
        self as int
    }

    open spec fn least() -> int {
        u64::MIN as int
    }

    open spec fn greatest() -> int {
        u64::MAX as int
    }

    proof fn lemma_integer(v: Self, w: Self) {
    }

    fn widen(self) -> (r: i128) {
        self as i128
    }

    fn narrow(x: i128) -> (r: Self) {
        x as u64
    }

    fn range() -> (r: (i128, i128)) {
        (0, 18446744073709551615)
    }
}

/// Whether the type's values are integers.
pub open spec fn is_integer(t: TypeModel) -> bool {
    ||| t is Int8
    ||| t is Int16
    ||| t is Int32
    ||| t is Int64
    ||| t is UInt8
    ||| t is UInt16
    ||| t is UInt32
    ||| t is UInt64
}

/// The integer in slot `i`, nulls included as what stands under them.
pub open spec fn integer_at(a: ArrayV, i: int) -> int {
    match a.ty {
        TypeModel::Int8 => values_of::<i8>(a)[i] as int,
        TypeModel::Int16 => values_of::<i16>(a)[i] as int,
        TypeModel::Int32 => values_of::<i32>(a)[i] as int,
        TypeModel::Int64 => values_of::<i64>(a)[i] as int,
        TypeModel::UInt8 => values_of::<u8>(a)[i] as int,
        TypeModel::UInt16 => values_of::<u16>(a)[i] as int,
        TypeModel::UInt32 => values_of::<u32>(a)[i] as int,
        TypeModel::UInt64 => values_of::<u64>(a)[i] as int,
        _ => 0,
    }
}

/// The integers, none where a slot is null.
pub open spec fn integers_of(a: ArrayV) -> Seq<Option<int>> {
    Seq::new(
        a.len,
        |i: int|
            if a.valid_at(i) {
                Some(integer_at(a, i))
            } else {
                None
            },
    )
}

/// What a list of optional integers is.
pub open spec fn wide_model(r: Seq<Option<i128>>) -> Seq<Option<int>> {
    Seq::new(
        r.len(),
        |i: int|
            match r[i] {
                Some(x) => Some(x as int),
                None => None,
            },
    )
}

/// The integers of a column of one of the integer types.
fn widened<T: IntegerValue>(array: &ArrayRef) -> (r: Vec<Option<i128>>)
    requires
        array@.ty == T::type_model(),
    ensures
        r@.len() == array@.len,
        forall|i: int|
            #![trigger r@[i]]
            0 <= i < r@.len() ==> r@[i] == (if array@.valid_at(i) {
                Some(values_of::<T>(array@)[i].int_model() as i128)
            } else {
                None
            }),
        forall|i: int|
            #![trigger r@[i]]
            0 <= i < r@.len() && r@[i] is Some ==> r@[i]->0 == values_of::<T>(array@)[i].int_model(),
{
    let n: usize = array.len();
    let mut out: Vec<Option<i128>> = Vec::with_capacity(n);
    match PrimitiveArray::<T>::try_from_array(array) {
        Ok(typed) => {
            let mut i: usize = 0;
            while i < n
                invariant
                    0 <= i <= n == array@.len,
                    typed@ == array@,
                    out@.len() == i,
                    forall|k: int|
                        #![trigger out@[k]]
                        0 <= k < i ==> out@[k] == (if array@.valid_at(k) {
                            Some(values_of::<T>(array@)[k].int_model() as i128)
                        } else {
                            None
                        }),
                    forall|k: int|
                        #![trigger out@[k]]
                        0 <= k < i && out@[k] is Some ==> out@[k]->0 == values_of::<T>(array@)[k].int_model(),
                decreases n - i,
            {
                match typed.get(i) {
                    Some(v) => {
                        out.push(Some(v.widen()));
                    },
                    None => {
                        out.push(None);
                    },
                }
                i = i + 1;
            }
            out
        },
        Err(_) => out,
    }
}

/// The integers of a column, none where a slot is null; nothing where the
/// column's type is no integer type.
pub fn integers(array: &ArrayRef) -> (r: Option<Vec<Option<i128>>>)
    ensures
        match r {
            Some(v) => is_integer(array@.ty) && wide_model(v@) == integers_of(array@),
            None => !is_integer(array@.ty),
        },
{
    let out = match array.data_type() {
        DataType::Int8 => widened::<i8>(array),
        DataType::Int16 => widened::<i16>(array),
        DataType::Int32 => widened::<i32>(array),
        DataType::Int64 => widened::<i64>(array),
        DataType::UInt8 => widened::<u8>(array),
        DataType::UInt16 => widened::<u16>(array),
        DataType::UInt32 => widened::<u32>(array),
        DataType::UInt64 => widened::<u64>(array),
        _ => return None,
    };
    assert(wide_model(out@) =~= integers_of(array@));
    Some(out)
}

} // verus!
