//! One image of a column of images.
//!
//! A column of images is a column of structs: `width` and `height` are 32-bit
//! counts, `channels` is an 8-bit count, and `data` lists the samples row by
//! row, all channels of a pixel together.
use vstd::prelude::*;
use crate::array::model::ArrayV;
use crate::array::native::{ArrowNativeType, F32, F64};
use crate::array::nested::{ListArray, StructArray};
use crate::array::primitive::{values_of, PrimitiveArray};
use crate::datatype::{clone_type, DataType, TypeModel};
use crate::error::{DataError, DataErrorModel};
use crate::float::{bits_of, decode_float, encode_float, number_of, FloatKind, Number};
use crate::kernel::numbers::double_of_integer;
use crate::schema::{first_named, lemma_first_named};
use crate::tensor::shape::index_refusal;
use crate::tensor::view::{make_view, TensorV, TensorView};

verus! {

/// What an image is: its samples, in their type.
pub enum ImageV {
    U8(TensorV<u8>),
    U16(TensorV<u16>),
    F32(TensorV<F32>),
}

impl ImageV {
    /// Rows, columns and channels.
    pub open spec fn shape(self) -> Seq<usize> {
        match self {
            ImageV::U8(t) => t.shape,
            ImageV::U16(t) => t.shape,
            ImageV::F32(t) => t.shape,
        }
    }

    /// The sample that an index names, as the bits of a double.
    pub open spec fn sample(self, index: Seq<usize>) -> int {
        match self {
            ImageV::U8(t) => double_of_integer(t.at(index) as int),
            ImageV::U16(t) => double_of_integer(t.at(index) as int),
            ImageV::F32(t) => bits_of(number_of(t.at(index).bits as int, FloatKind::Single), FloatKind::Double),
        }
    }
}

/// The column of the first field of a name, or the error of there being none.
pub open spec fn named_column(a: ArrayV, name: Seq<char>) -> Result<ArrayV, DataErrorModel> {
    match first_named(a.ty->Struct_0, name) {
        Some(k) => Ok(a.body->Struct_0[k as int]),
        None => Err(DataErrorModel::FieldNotFound { name }),
    }
}

/// Whether row `row` of a column of images has a value in a column of its own.
pub open spec fn present(a: ArrayV, column: ArrayV, row: int) -> bool {
    row < column.len && a.valid_at(row) && column.valid_at(row)
}

/// Why row `row` of a column of a name has no value.
pub open spec fn absent(column: ArrayV, name: Seq<char>, row: int) -> DataErrorModel {
    if row < column.len {
        DataErrorModel::RequiredFieldIsNull { field: name, row: row as usize }
    } else {
        DataErrorModel::IndexOutOfBounds { index: row as usize, len: column.len as usize }
    }
}

/// The value in row `row` of the column of a name, or why there is none.
pub open spec fn field_value<T: ArrowNativeType>(a: ArrayV, name: Seq<char>, row: int) -> Result<T, DataErrorModel> {
    match named_column(a, name) {
        Err(e) => Err(e),
        Ok(column) => if column.ty != T::type_model() {
            Err(DataErrorModel::DowncastFailed { expected: "PrimitiveArray"@, actual: column.ty })
        } else if present(a, column, row) {
            Ok(values_of::<T>(column)[row])
        } else {
            Err(absent(column, name, row))
        },
    }
}

/// The samples in row `row`, or why there are none.
pub open spec fn samples_of(a: ArrayV, row: int) -> Result<ArrayV, DataErrorModel> {
    match named_column(a, "data"@) {
        Err(e) => Err(e),
        Ok(column) => if !(column.ty is List) {
            Err(DataErrorModel::DowncastFailed { expected: "ListArray"@, actual: column.ty })
        } else if present(a, column, row) {
            let offsets = column.body->List_offsets;
            Ok(column.body->List_child.sliced(offsets[row] as int, offsets[row + 1] - offsets[row]))
        } else {
            Err(absent(column, "data"@, row))
        },
    }
}

/// The image of samples in a shape, or why there is none.
pub open spec fn image_of_samples(samples: ArrayV, shape: Seq<usize>) -> Result<ImageV, DataErrorModel> {
    match samples.ty {
        TypeModel::UInt8 => match make_view(values_of::<u8>(samples), shape) {
            Ok(t) => Ok(ImageV::U8(t)),
            Err(e) => Err(e),
        },
        TypeModel::UInt16 => match make_view(values_of::<u16>(samples), shape) {
            Ok(t) => Ok(ImageV::U16(t)),
            Err(e) => Err(e),
        },
        TypeModel::Float32 => match make_view(values_of::<F32>(samples), shape) {
            Ok(t) => Ok(ImageV::F32(t)),
            Err(e) => Err(e),
        },
        _ => Err(DataErrorModel::TypeMismatch { expected: TypeModel::UInt8, actual: samples.ty }),
    }
}

/// The image in row `row` of a column of images, or the first reason that there
/// is none.
pub open spec fn image_of(a: ArrayV, row: int) -> Result<ImageV, DataErrorModel> {
    match field_value::<u32>(a, "width"@, row) {
        Err(e) => Err(e),
        Ok(width) => match field_value::<u32>(a, "height"@, row) {
            Err(e) => Err(e),
            Ok(height) => match field_value::<u8>(a, "channels"@, row) {
                Err(e) => Err(e),
                Ok(channels) => match samples_of(a, row) {
                    Err(e) => Err(e),
                    Ok(samples) => image_of_samples(
                        samples,
                        seq![height as usize, width as usize, channels as usize],
                    ),
                },
            },
        },
    }
}

/// The value in row `row` of the column of a name.
fn read_field<T: ArrowNativeType>(array: &StructArray, name: &str, row: usize) -> (r: Result<T, DataError>)
    ensures
        match r {
            Ok(v) => field_value::<T>(array@, name@, row as int) == Ok::<T, DataErrorModel>(v),
            Err(e) => field_value::<T>(array@, name@, row as int) == Err::<T, DataErrorModel>(e@),
        },
{
    let column = match array.try_column_by_name(name) {
        Ok(c) => c,
        Err(e) => return Err(e),
    };
    let typed = match PrimitiveArray::<T>::try_from_array(&column) {
        Ok(t) => t,
        Err(e) => return Err(e),
    };
    let n: usize = typed.len();
    let rows: usize = array.len();
    proof {
        lemma_first_named(array@.ty->Struct_0, name@);
        let k = first_named(array@.ty->Struct_0, name@)->Some_0 as int;
        assert(array@.body->Struct_0[k].len == rows);
    }
    let found = if array.is_null(row) {
        None
    } else {
        typed.get(row)
    };
    match found {
        Some(v) => Ok(v),
        None => if row < n {
            Err(DataError::RequiredFieldIsNull { field: name.to_owned(), row })
        } else {
            Err(DataError::IndexOutOfBounds { index: row, len: n })
        },
    }
}

/// One image: rows, columns and channels of samples.
#[derive(Debug)]
#[non_exhaustive]
pub enum ImageView {
    /// Samples of 8 bits.
    U8(TensorView<u8>),
    /// Samples of 16 bits.
    U16(TensorView<u16>),
    /// Single-precision samples.
    F32(TensorView<F32>),
}

impl View for ImageView {
    type V = ImageV;

    open spec fn view(&self) -> ImageV {
        match self {
            ImageView::U8(t) => ImageV::U8(t@),
            ImageView::U16(t) => ImageV::U16(t@),
            ImageView::F32(t) => ImageV::F32(t@),
        }
    }
}

impl Clone for ImageView {
    fn clone(&self) -> (r: Self)
        ensures
            r@ == self@,
    {
        match self {
            ImageView::U8(t) => ImageView::U8(t.clone()),
            ImageView::U16(t) => ImageView::U16(t.clone()),
            ImageView::F32(t) => ImageView::F32(t.clone()),
        }
    }
}

impl ImageView {
    /// The image in row `row` of a column of images.
    pub fn from_struct_row(array: &StructArray, row: usize) -> (r: Result<ImageView, DataError>)
        ensures
            match r {
                Ok(v) => image_of(array@, row as int) == Ok::<ImageV, DataErrorModel>(v@) && v@.shape().len() == 3,
                Err(e) => image_of(array@, row as int) == Err::<ImageV, DataErrorModel>(e@),
            },
    {
        let width: u32 = match read_field::<u32>(array, "width", row) {
            Ok(v) => v,
            Err(e) => return Err(e),
        };
        let height: u32 = match read_field::<u32>(array, "height", row) {
            Ok(v) => v,
            Err(e) => return Err(e),
        };
        let channels: u8 = match read_field::<u8>(array, "channels", row) {
            Ok(v) => v,
            Err(e) => return Err(e),
        };
        let mut shape: Vec<usize> = Vec::with_capacity(3);
        shape.push(height as usize);
        shape.push(width as usize);
        shape.push(channels as usize);
        assert(shape@ =~= seq![height as usize, width as usize, channels as usize]);
        let column = match array.try_column_by_name("data") {
            Ok(c) => c,
            Err(e) => return Err(e),
        };
        let list = match ListArray::try_from_array(&column) {
            Ok(l) => l,
            Err(e) => return Err(e),
        };
        let n: usize = list.len();
        let samples = match list.get(row) {
            Some(s) => s,
            None => return Err(
                if row < n {
                    DataError::RequiredFieldIsNull { field: "data".to_owned(), row }
                } else {
                    DataError::IndexOutOfBounds { index: row, len: n }
                },
            ),
        };
        match samples.data_type() {
            DataType::UInt8 => match PrimitiveArray::<u8>::try_from_array(&samples) {
                Ok(typed) => match TensorView::from_primitive(&typed, shape) {
                    Ok(t) => Ok(ImageView::U8(t)),
                    Err(e) => Err(e),
                },
                Err(e) => Err(e),
            },
            DataType::UInt16 => match PrimitiveArray::<u16>::try_from_array(&samples) {
                Ok(typed) => match TensorView::from_primitive(&typed, shape) {
                    Ok(t) => Ok(ImageView::U16(t)),
                    Err(e) => Err(e),
                },
                Err(e) => Err(e),
            },
            DataType::Float32 => match PrimitiveArray::<F32>::try_from_array(&samples) {
                Ok(typed) => match TensorView::from_primitive(&typed, shape) {
                    Ok(t) => Ok(ImageView::F32(t)),
                    Err(e) => Err(e),
                },
                Err(e) => Err(e),
            },
            other => Err(DataError::type_mismatch(DataType::UInt8, clone_type(other))),
        }
    }

    /// Rows, columns and channels.
    #[must_use]
    pub fn shape(&self) -> (r: &[usize])
        ensures
            r@ == self@.shape(),
    {
        match self {
            ImageView::U8(t) => t.shape(),
            ImageView::U16(t) => t.shape(),
            ImageView::F32(t) => t.shape(),
        }
    }

    /// How many rows there are.
    #[must_use]
    pub fn height(&self) -> (r: usize)
        requires
            self@.shape().len() > 0,
        ensures
            r == self@.shape()[0],
    {
        self.shape()[0]
    }

    /// How many columns there are.
    #[must_use]
    pub fn width(&self) -> (r: usize)
        requires
            self@.shape().len() > 1,
        ensures
            r == self@.shape()[1],
    {
        self.shape()[1]
    }

    /// How many channels there are.
    #[must_use]
    pub fn channels(&self) -> (r: usize)
        requires
            self@.shape().len() > 2,
        ensures
            r == self@.shape()[2],
    {
        self.shape()[2]
    }

    /// The 8-bit samples, if that is what the image has.
    #[must_use]
    pub fn as_u8(&self) -> (r: Option<&TensorView<u8>>)
        ensures
            match r {
                Some(t) => self@ == ImageV::U8(t@),
                None => !(self@ is U8),
            },
    {
        match self {
            ImageView::U8(t) => Some(t),
            _ => None,
        }
    }

    /// The 16-bit samples, if that is what the image has.
    #[must_use]
    pub fn as_u16(&self) -> (r: Option<&TensorView<u16>>)
        ensures
            match r {
                Some(t) => self@ == ImageV::U16(t@),
                None => !(self@ is U16),
            },
    {
        match self {
            ImageView::U16(t) => Some(t),
            _ => None,
        }
    }

    /// The single-precision samples, if that is what the image has.
    #[must_use]
    pub fn as_f32(&self) -> (r: Option<&TensorView<F32>>)
        ensures
            match r {
                Some(t) => self@ == ImageV::F32(t@),
                None => !(self@ is F32),
            },
    {
        match self {
            ImageView::F32(t) => Some(t),
            _ => None,
        }
    }

    /// The sample at a row, a column and a channel, as a double.
    pub fn get_f64(&self, index: &[usize]) -> (r: Result<F64, DataError>)
        ensures
            match r {
                Ok(v) => index_refusal(index@, self@.shape()) is None && v@ == self@.sample(index@),
                Err(e) => index_refusal(index@, self@.shape()) == Some(e@),
            },
    {
        match self {
            ImageView::U8(t) => match t.get(index) {
                Ok(v) => Ok(widen_sample(v as u64)),
                Err(e) => Err(e),
            },
            ImageView::U16(t) => match t.get(index) {
                Ok(v) => Ok(widen_sample(v as u64)),
                Err(e) => Err(e),
            },
            ImageView::F32(t) => match t.get(index) {
                Ok(v) => Ok(
                    F64::from_bits(
                        encode_float(decode_float(v.to_bits() as u64, FloatKind::Single), FloatKind::Double),
                    ),
                ),
                Err(e) => Err(e),
            },
        }
    }
}

/// A count as a double.
fn widen_sample(v: u64) -> (r: F64)
    ensures
        r@ == double_of_integer(v as int),
{
    F64::from_bits(
        encode_float(Number::Finite { negative: false, mantissa: v, exponent: 0 }, FloatKind::Double),
    )
}

} // verus!
