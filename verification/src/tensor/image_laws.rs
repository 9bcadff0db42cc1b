//! Where the samples of an image lie, and what doubles they are read as.
use vstd::prelude::*;
use vstd::arithmetic::power2::pow2;
use crate::array::model::ArrayV;
use crate::array::native::{ArrowNativeType, F32, F64};
use crate::array::primitive::values_of;
use crate::error::DataErrorModel;
use crate::float::FloatKind;
use crate::float_laws::{
    has_sign, is_endless, is_finite, law_doubles_hold_their_mantissas, law_widening_keeps_the_number, worth,
};
use crate::schema::lemma_first_named_is;
use crate::tensor::image::{image_of, ImageV};
use crate::tensor::shape::{
    distance, elements, head_product, index_refusal, lemma_products, row_major, shape_fits, tail_product,
};
use crate::tensor::view::{make_view, TensorV};

verus! {

/// The place of an index among elements laid out row by row: the place of the row
/// times the row's length, plus the place in the row.
pub open spec fn place(index: Seq<usize>, shape: Seq<usize>, count: nat) -> nat
    decreases count,
{
    if count == 0 {
        0
    } else {
        place(index, shape, (count - 1) as nat) * shape[count - 1] as nat + index[count - 1] as nat
    }
}

/// Whether an index has a component for each axis, each below its extent.
pub open spec fn inside(index: Seq<usize>, shape: Seq<usize>) -> bool {
    index.len() == shape.len() && forall|k: int|
        #![trigger index[k]]
        0 <= k < index.len() ==> index[k] < shape[k]
}

/// Axes that all have room span something.
proof fn lemma_room(shape: Seq<usize>, count: nat)
    requires
        count <= shape.len(),
        forall|k: int| #![trigger shape[k]] 0 <= k < shape.len() ==> shape[k] > 0,
    ensures
        head_product(shape, count) >= 1,
    decreases count,
{
    if count > 0 {
        lemma_room(shape, (count - 1) as nat);
        let h = head_product(shape, (count - 1) as nat);
        let d = shape[count - 1] as nat;
        assert(h * d >= 1) by (nonlinear_arith)
            requires
                h >= 1,
                d >= 1,
        ;
    }
}

/// Strides of a row-by-row layout lead to the place of an index.
pub proof fn lemma_place(index: Seq<usize>, shape: Seq<usize>, count: nat)
    requires
        shape_fits(shape),
        inside(index, shape),
        count <= shape.len(),
    ensures
        distance(index, row_major(shape), count) == place(index, shape, count) * tail_product(shape, count),
    decreases count,
{
    if count == 0 {
        assert(0 * tail_product(shape, count) == 0) by (nonlinear_arith);
    } else {
        let c = (count - 1) as nat;
        lemma_place(index, shape, c);
        assert forall|k: int| #![trigger shape[k]] 0 <= k < shape.len() implies shape[k] > 0 by {
            assert(index[k] < shape[k]);
        }
        lemma_room(shape, count);
        lemma_products(shape, count);
        let h = head_product(shape, count);
        let t = tail_product(shape, count);
        assert(t <= h * t) by (nonlinear_arith)
            requires
                h >= 1,
                t >= 0,
        ;
        let s = shape[c as int] as nat;
        let i = index[c as int] as nat;
        let p = place(index, shape, c);
        assert(row_major(shape)[c as int] == t);
        assert(p * (s * t) + i * t == (p * s + i) * t) by (nonlinear_arith);
    }
}

/// A view of values in a shape reads at each index the value at its place, row by
/// row.
pub proof fn law_views_read_row_by_row<T>(values: Seq<T>, shape: Seq<usize>, t: TensorV<T>, index: Seq<usize>)
    requires
        make_view(values, shape) == Ok::<TensorV<T>, DataErrorModel>(t),
        inside(index, shape),
    ensures
        t.shape == shape,
        t.at(index) == values[place(index, shape, shape.len()) as int],
{
    lemma_place(index, shape, shape.len());
    let p = place(index, shape, shape.len());
    assert(tail_product(shape, shape.len()) == 1);
    assert(p * 1 == p) by (nonlinear_arith);
}

/// An index is accepted exactly where it has a component for each axis, each below
/// its extent.
pub proof fn law_indices_inside_are_accepted(index: Seq<usize>, shape: Seq<usize>)
    ensures
        index_refusal(index, shape) is None <==> inside(index, shape),
{
    if index.len() == shape.len() {
        lemma_outside(index, shape, shape.len());
    }
}

proof fn lemma_outside(index: Seq<usize>, shape: Seq<usize>, count: nat)
    requires
        count <= index.len() == shape.len(),
    ensures
        crate::tensor::shape::first_outside(index, shape, count) is None <==> forall|k: int|
            #![trigger index[k]]
            0 <= k < count ==> index[k] < shape[k],
    decreases count,
{
    if count > 0 {
        lemma_outside(index, shape, (count - 1) as nat);
    }
}

/// A sample is read as the double of its own number: an integer as that integer,
/// a single as the number it is, with its sign.
pub proof fn law_samples_are_kept(image: ImageV, index: Seq<usize>, v: F64)
    requires
        v@ == image.sample(index),
    ensures
        match image {
            ImageV::U8(t) => {
                &&& is_finite(v.bits as int, FloatKind::Double)
                &&& !has_sign(v.bits as int, FloatKind::Double)
                &&& worth(v.bits as int, FloatKind::Double) == t.at(index) as nat * pow2(1074)
            },
            ImageV::U16(t) => {
                &&& is_finite(v.bits as int, FloatKind::Double)
                &&& !has_sign(v.bits as int, FloatKind::Double)
                &&& worth(v.bits as int, FloatKind::Double) == t.at(index) as nat * pow2(1074)
            },
            ImageV::F32(t) => {
                let c = t.at(index).bits as int;
                &&& has_sign(v.bits as int, FloatKind::Double) == has_sign(c, FloatKind::Single)
                &&& is_finite(v.bits as int, FloatKind::Double) == is_finite(c, FloatKind::Single)
                &&& is_endless(v.bits as int, FloatKind::Double) == is_endless(c, FloatKind::Single)
                &&& is_finite(c, FloatKind::Single) ==> worth(v.bits as int, FloatKind::Double) == worth(
                    c,
                    FloatKind::Single,
                )
            },
        },
{
    match image {
        ImageV::U8(t) => {
            law_doubles_hold_their_mantissas(false, t.at(index) as u64, 0);
        },
        ImageV::U16(t) => {
            law_doubles_hold_their_mantissas(false, t.at(index) as u64, 0);
        },
        ImageV::F32(t) => {
            law_widening_keeps_the_number(t.at(index).bits as int, FloatKind::Single);
        },
    }
}

/// Whether column `k` of a struct is the first of a name.
pub open spec fn first_of_name(a: ArrayV, k: int, name: Seq<char>) -> bool {
    &&& 0 <= k < a.ty->Struct_0.len()
    &&& a.ty->Struct_0[k].name == name
    &&& forall|j: int| #![trigger a.ty->Struct_0[j]] 0 <= j < k ==> a.ty->Struct_0[j].name != name
}

/// The values of a slice are those of the column from the slice's start.
proof fn lemma_sliced_values<T: ArrowNativeType>(a: ArrayV, offset: int, len: int, i: int)
    requires
        a.wf(),
        a.body is Fixed,
        a.width() == T::width(),
        0 <= offset,
        0 <= i < len,
        offset + len <= a.len,
    ensures
        values_of::<T>(a.sliced(offset, len))[i] == values_of::<T>(a)[offset + i],
{
    let w = T::width() as int;
    let bytes = a.body->Fixed_0;
    let part = a.sliced(offset, len).body->Fixed_0;
    assert(0 <= i * w && i * w + w <= len * w && (offset + i) * w == offset * w + i * w && (offset + len) * w == offset
        * w + len * w && 0 <= offset * w && (offset + len) * w <= a.len * w) by (nonlinear_arith)
        requires
            0 <= i < len,
            0 <= offset,
            offset + len <= a.len,
            w >= 0,
    ;
    assert(part.subrange(i * w, i * w + w) =~= bytes.subrange((offset + i) * w, (offset + i) * w + w));
}

/// An image has as many rows, columns and channels as its row says under
/// `height`, `width` and `channels`. The sample of a row, a column and a channel
/// is the one that lies there in the row's list under `data`: all channels of a
/// pixel together, all pixels of a row together.
pub proof fn law_images_lie_row_by_row(
    a: ArrayV,
    row: int,
    image: ImageV,
    w: int,
    h: int,
    c: int,
    d: int,
    y: usize,
    x: usize,
    z: usize,
)
    requires
        a.wf(),
        a.ty is Struct,
        0 <= row < a.len,
        image_of(a, row) == Ok::<ImageV, DataErrorModel>(image),
        first_of_name(a, w, "width"@),
        first_of_name(a, h, "height"@),
        first_of_name(a, c, "channels"@),
        first_of_name(a, d, "data"@),
        image.shape().len() == 3,
        y < image.shape()[0],
        x < image.shape()[1],
        z < image.shape()[2],
    ensures
        ({
            let columns = a.body->Struct_0;
            let height = values_of::<u32>(columns[h])[row];
            let width = values_of::<u32>(columns[w])[row];
            let channels = values_of::<u8>(columns[c])[row];
            let start = columns[d].body->List_offsets[row] as int;
            let samples = *columns[d].body->List_child;
            let index = seq![y, x, z];
            let at = start + (y * width + x) * channels + z;
            &&& image.shape()[0] == height && image.shape()[1] == width && image.shape()[2] == channels
            &&& columns[d].body->List_offsets[row + 1] - start == height * width * channels
            &&& match image {
                ImageV::U8(t) => samples.ty is UInt8 && t.at(index) == values_of::<u8>(samples)[at],
                ImageV::U16(t) => samples.ty is UInt16 && t.at(index) == values_of::<u16>(samples)[at],
                ImageV::F32(t) => samples.ty is Float32 && t.at(index) == values_of::<F32>(samples)[at],
            }
        }),
{
    let columns = a.body->Struct_0;
    let fields = a.ty->Struct_0;
    lemma_first_named_is(fields, "width"@, w);
    lemma_first_named_is(fields, "height"@, h);
    lemma_first_named_is(fields, "channels"@, c);
    lemma_first_named_is(fields, "data"@, d);
    let height = values_of::<u32>(columns[h])[row];
    let width = values_of::<u32>(columns[w])[row];
    let channels = values_of::<u8>(columns[c])[row];
    let shape = seq![height as usize, width as usize, channels as usize];
    let offsets = columns[d].body->List_offsets;
    let samples = *columns[d].body->List_child;
    let start = offsets[row] as int;
    let len = offsets[row + 1] - start;
    let part = samples.sliced(start, len);
    let index = seq![y, x, z];
    assert(columns[d].wf());
    assert(samples.wf());
    assert(0 <= start <= start + len <= samples.len);
    assert(inside(index, shape)) by {
        assert(index[0] < shape[0] && index[1] < shape[1] && index[2] < shape[2]);
    }
    assert(elements(shape) == height * width * channels) by {
        reveal_with_fuel(head_product, 4);
        assert(1 * height as nat == height) by (nonlinear_arith);
    }
    let p = place(index, shape, 3);
    assert(p == (y * width + x) * channels + z) by {
        reveal_with_fuel(place, 4);
        assert(0 * height as nat == 0) by (nonlinear_arith);
    }
    assert(0 <= p < len) by {
        assert(y * width + x < height * width) by (nonlinear_arith)
            requires
                y < height,
                x < width,
        ;
        let q = y * width + x;
        let r = height * width;
        assert(q * channels + z < r * channels) by (nonlinear_arith)
            requires
                q < r,
                z < channels,
        ;
        assert(q * channels >= 0) by (nonlinear_arith)
            requires
                q >= 0,
        ;
        assert(y * width >= 0) by (nonlinear_arith);
    }
    match image {
        ImageV::U8(t) => {
            law_views_read_row_by_row(values_of::<u8>(part), shape, t, index);
            lemma_sliced_values::<u8>(samples, start, len, p as int);
        },
        ImageV::U16(t) => {
            law_views_read_row_by_row(values_of::<u16>(part), shape, t, index);
            lemma_sliced_values::<u16>(samples, start, len, p as int);
        },
        ImageV::F32(t) => {
            law_views_read_row_by_row(values_of::<F32>(part), shape, t, index);
            lemma_sliced_values::<F32>(samples, start, len, p as int);
        },
    }
}

} // verus!
