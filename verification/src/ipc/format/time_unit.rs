//! Units of timestamps and durations. Only nanoseconds are written or read.
use vstd::prelude::*;

verus! {

/// Seconds.
pub const SECOND: i16 = 0;

/// Milliseconds, the default of a duration.
pub const MILLISECOND: i16 = 1;

/// Microseconds.
pub const MICROSECOND: i16 = 2;

/// Nanoseconds.
pub const NANOSECOND: i16 = 3;

/// The name of a unit.
pub open spec fn name_model(unit: i16) -> Seq<char> {
    match unit {
        0 => "second"@,
        1 => "millisecond"@,
        2 => "microsecond"@,
        3 => "nanosecond"@,
        _ => "unknown"@,
    }
}

/// The name of a unit.
pub fn name(unit: i16) -> (r: &'static str)
    ensures
        r@ == name_model(unit),
{
    match unit {
        0 => "second",
        1 => "millisecond",
        2 => "microsecond",
        3 => "nanosecond",
        _ => "unknown",
    }
}

} // verus!
