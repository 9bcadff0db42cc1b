//! Columns.
pub mod build_laws;
pub mod cell_laws;
pub mod column;
pub mod flats;
pub mod fresh;
pub mod make_laws;
pub mod memory;
pub mod model;
pub mod native;
pub mod nested;
pub mod parts;
pub mod primitive;
pub mod strings;

pub use crate::array::column::{array_equal, slice_array, Array, ArrayRef, Body};
pub use crate::array::fresh::{new_empty_array, new_null_array};
pub use crate::array::flats::{BooleanArray, DurationArray, NullArray, TimestampArray};
pub use crate::array::native::{ArrowNativeType, F16, F32, F64};
pub use crate::array::nested::{FixedSizeBinaryArray, FixedSizeListArray, ListArray, StructArray};
pub use crate::array::primitive::{
    Float16Array, Float32Array, Float64Array, Int16Array, Int32Array, Int64Array, Int8Array, PrimitiveArray,
    UInt16Array, UInt32Array, UInt64Array, UInt8Array,
};
pub use crate::array::strings::{BinaryArray, LargeBinaryArray, LargeStringArray, StringArray};
