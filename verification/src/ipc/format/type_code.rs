//! What a type table is: the union's discriminants, the unsupported ones included so that they can be named.
use vstd::prelude::*;

verus! {

/// No type.
pub const NONE: u8 = 0;

/// `Null`.
pub const NULL: u8 = 1;

/// `Int`.
pub const INT: u8 = 2;

/// `FloatingPoint`.
pub const FLOATING_POINT: u8 = 3;

/// `Binary`.
pub const BINARY: u8 = 4;

/// `Utf8`.
pub const UTF8: u8 = 5;

/// `Bool`.
pub const BOOL: u8 = 6;

/// `Decimal`.
pub const DECIMAL: u8 = 7;

/// `Date`.
pub const DATE: u8 = 8;

/// `Time`.
pub const TIME: u8 = 9;

/// `Timestamp`.
pub const TIMESTAMP: u8 = 10;

/// `Interval`.
pub const INTERVAL: u8 = 11;

/// `List`.
pub const LIST: u8 = 12;

/// `Struct_`.
pub const STRUCT: u8 = 13;

/// `Union`.
pub const UNION: u8 = 14;

/// `FixedSizeBinary`.
pub const FIXED_SIZE_BINARY: u8 = 15;

/// `FixedSizeList`.
pub const FIXED_SIZE_LIST: u8 = 16;

/// `Map`.
pub const MAP: u8 = 17;

/// `Duration`.
pub const DURATION: u8 = 18;

/// `LargeBinary`.
pub const LARGE_BINARY: u8 = 19;

/// `LargeUtf8`.
pub const LARGE_UTF8: u8 = 20;

/// `LargeList`.
pub const LARGE_LIST: u8 = 21;

/// `RunEndEncoded`.
pub const RUN_END_ENCODED: u8 = 22;

/// `BinaryView`.
pub const BINARY_VIEW: u8 = 23;

/// `Utf8View`.
pub const UTF8_VIEW: u8 = 24;

/// `ListView`.
pub const LIST_VIEW: u8 = 25;

/// `LargeListView`.
pub const LARGE_LIST_VIEW: u8 = 26;

/// The name of a discriminant.
pub open spec fn name_model(code: u8) -> Seq<char> {
    match code {
        0 => "none"@,
        1 => "Null"@,
        2 => "Int"@,
        3 => "FloatingPoint"@,
        4 => "Binary"@,
        5 => "Utf8"@,
        6 => "Bool"@,
        7 => "Decimal"@,
        8 => "Date"@,
        9 => "Time"@,
        10 => "Timestamp"@,
        11 => "Interval"@,
        12 => "List"@,
        13 => "Struct_"@,
        14 => "Union"@,
        15 => "FixedSizeBinary"@,
        16 => "FixedSizeList"@,
        17 => "Map"@,
        18 => "Duration"@,
        19 => "LargeBinary"@,
        20 => "LargeUtf8"@,
        21 => "LargeList"@,
        22 => "RunEndEncoded"@,
        23 => "BinaryView"@,
        24 => "Utf8View"@,
        25 => "ListView"@,
        26 => "LargeListView"@,
        _ => "unknown"@,
    }
}

/// The name of a discriminant.
pub fn name(code: u8) -> (r: &'static str)
    ensures
        r@ == name_model(code),
{
    match code {
        0 => "none",
        1 => "Null",
        2 => "Int",
        3 => "FloatingPoint",
        4 => "Binary",
        5 => "Utf8",
        6 => "Bool",
        7 => "Decimal",
        8 => "Date",
        9 => "Time",
        10 => "Timestamp",
        11 => "Interval",
        12 => "List",
        13 => "Struct_",
        14 => "Union",
        15 => "FixedSizeBinary",
        16 => "FixedSizeList",
        17 => "Map",
        18 => "Duration",
        19 => "LargeBinary",
        20 => "LargeUtf8",
        21 => "LargeList",
        22 => "RunEndEncoded",
        23 => "BinaryView",
        24 => "Utf8View",
        25 => "ListView",
        26 => "LargeListView",
        _ => "unknown",
    }
}

} // verus!
