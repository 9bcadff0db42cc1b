//! What a message header is: the union's discriminants.
use vstd::prelude::*;

verus! {

/// No header.
pub const NONE: u8 = 0;

/// A schema.
pub const SCHEMA: u8 = 1;

/// A dictionary batch; refused.
pub const DICTIONARY_BATCH: u8 = 2;

/// A record batch.
pub const RECORD_BATCH: u8 = 3;

/// A tensor; not part of streams.
pub const TENSOR: u8 = 4;

/// A sparse tensor; not part of streams.
pub const SPARSE_TENSOR: u8 = 5;

/// The name of a discriminant.
pub open spec fn name_model(header: u8) -> Seq<char> {
    match header {
        0 => "none"@,
        1 => "Schema"@,
        2 => "DictionaryBatch"@,
        3 => "RecordBatch"@,
        4 => "Tensor"@,
        5 => "SparseTensor"@,
        _ => "unknown"@,
    }
}

/// The name of a discriminant.
pub fn name(header: u8) -> (r: &'static str)
    ensures
        r@ == name_model(header),
{
    match header {
        0 => "none",
        1 => "Schema",
        2 => "DictionaryBatch",
        3 => "RecordBatch",
        4 => "Tensor",
        5 => "SparseTensor",
        _ => "unknown",
    }
}

} // verus!
