//! Arrays as the operators see them, and the small helpers on shapes and
//! axes that several operators share.

use crate::backend;
pub use crate::backend::{NdArray, NdArrayView};
use crate::backend::{array_is_standard, view_is_standard};
use crate::model::Arr;
use crate::op::ComputeError;
use crate::semantics::{normalized_index, selected_positions};
use crate::shape::{
    extents, lemma_representable_extents, normalized_axis, representable, scalar_shape, size,
    splice, valid_axis,
};
use vstd::prelude::*;

verus! {

impl NdArray {
    /// The array of the given shape that lists `data` in row-major order.
    /// Fails with `IncompatibleShape` exactly when the shape is not
    /// representable or does not ask for `data.len()` elements.
    pub fn from_shape_vec(shape: Vec<usize>, data: Vec<i64>) -> (r: Result<NdArray, ComputeError>)
        ensures
            r is Ok <==> representable(shape@) && data.len() == size(shape@),
            r matches Ok(a) ==> a@ == (Arr { shape: shape@, data: data@ }) && array_is_standard(a),
            r matches Err(e) ==> e == ComputeError::IncompatibleShape,
    {
        match backend::from_shape_vec(&shape, data) {
            Ok(a) => Ok(a),
            Err(_) => Err(ComputeError::IncompatibleShape),
        }
    }

    /// A read-only view of the whole array.
    pub fn as_view<'a>(&'a self) -> (v: NdArrayView<'a>)
        ensures
            v@ == self@,
            view_is_standard(v) == array_is_standard(*self),
    {
        backend::view(self)
    }

    /// The extents of the array, one per axis.
    pub fn shape(&self) -> (s: Vec<usize>)
        ensures
            s@ == self@.shape,
            representable(s@),
    {
        backend::shape(&backend::view(self))
    }

    /// The elements in row-major order.
    pub fn to_vec(&self) -> (v: Vec<i64>)
        ensures
            v@ == self@.data,
            self@.wf(),
    {
        backend::iter(&backend::view(self))
    }
}

impl<'a> NdArrayView<'a> {
    /// The extents of the view, one per axis.
    pub fn shape(&self) -> (s: Vec<usize>)
        ensures
            s@ == self@.shape,
            representable(s@),
    {
        backend::shape(self)
    }

    /// The number of elements.
    pub fn len(&self) -> (n: usize)
        ensures
            n == self@.data.len(),
            n <= isize::MAX,
            self@.wf(),
    {
        backend::len(self)
    }

    /// The number of axes.
    pub fn ndim(&self) -> (n: usize)
        ensures
            n == self@.rank(),
    {
        backend::ndim(self)
    }

    /// Whether the elements are stored contiguously in row-major order.
    pub fn is_standard_layout(&self) -> (b: bool)
        ensures
            b == view_is_standard(*self),
    {
        backend::is_standard_layout(self)
    }

    /// The elements in row-major order.
    pub fn to_vec(&self) -> (v: Vec<i64>)
        ensures
            v@ == self@.data,
            self@.wf(),
    {
        backend::iter(self)
    }

    /// Whether the two views begin at the same element in memory, as a view
    /// and its clone do.  Views that do show the same first element, and the
    /// same elements when alike in shape and both stored in row-major order.
    pub fn shares_storage(&self, other: &NdArrayView) -> (r: bool)
        ensures
            r && self@.data.len() > 0 && other@.data.len() > 0 ==> self@.data[0] == other@.data[0],
            r && self@.shape == other@.shape && view_is_standard(*self) && view_is_standard(*other)
                ==> self@ == other@,
    {
        backend::same_start(self, other)
    }
}

impl<'a> Clone for NdArrayView<'a> {
    /// Another view of the same storage.
    fn clone(&self) -> (r: Self)
        ensures
            r@ == self@,
            view_is_standard(r) == view_is_standard(*self),
    {
        backend::clone_view(self)
    }
}

/// The axis that `axis` denotes among `ndim` axes, counting negative numbers
/// from the last axis.
pub fn normalize_negative_axis(axis: isize, ndim: usize) -> (r: usize)
    requires
        valid_axis(axis as int, ndim as int),
    ensures
        r == normalized_axis(axis as int, ndim as int),
        r < ndim,
{
    if axis < 0 {
        let back: usize = (-(axis + 1)) as usize;
        ndim - 1 - back
    } else {
        axis as usize
    }
}

/// Whether `shape` is the shape of a scalar.
pub fn is_scalar_shape(shape: &Vec<usize>) -> (b: bool)
    ensures
        b == scalar_shape(shape@),
{
    shape.len() == 0 || (shape.len() == 1 && shape[0] == 0)
}

/// The extents of `x` as a one-axis array.
pub fn shape_of_view(x: &NdArrayView) -> (r: NdArray)
    requires
        x@.rank() <= isize::MAX,
    ensures
        r@ == Arr::vector(extents(x@.shape)),
        array_is_standard(r),
{
    let shape = x.shape();
    let rank: usize = shape.len();
    let mut data: Vec<i64> = Vec::with_capacity(rank);
    proof {
        lemma_representable_extents(shape@);
    }
    let mut d: usize = 0;
    while d < rank
        invariant
            rank == shape.len(),
            d <= rank,
            data@ == extents(shape@).subrange(0, d as int),
            forall|k: int| 0 <= k < shape.len() ==> #[trigger] shape[k] <= isize::MAX,
        decreases rank - d,
    {
        data.push(shape[d] as i64);
        d += 1;
        assert(data@ =~= extents(shape@).subrange(0, d as int));
    }
    assert(data@ =~= extents(shape@));
    let dims: Vec<usize> = vec![rank];
    proof {
        assert(dims@ =~= seq![rank]);
        assert(dims@.drop_last() =~= Seq::<usize>::empty());
        assert(size(dims@) == rank) by {
            assert(size(dims@.drop_last()) == 1);
        }
        assert(crate::shape::size_nonzero(dims@) <= rank || crate::shape::size_nonzero(dims@) == 1) by {
            assert(crate::shape::size_nonzero(dims@.drop_last()) == 1);
        }
    }
    match backend::from_shape_vec(&dims, data) {
        Ok(a) => a,
        Err(_) => {
            proof {
                assert(false);
            }
            backend::from_elem(0)
        },
    }
}

/// A freshly allocated array with the shape and elements of `x`.
pub fn deep_copy(x: &NdArrayView) -> (r: NdArray)
    ensures
        r@ == x@,
        array_is_standard(r),
{
    let shape = x.shape();
    let data = x.to_vec();
    match backend::from_shape_vec(&shape, data) {
        Ok(a) => a,
        Err(_) => {
            proof {
                assert(false);
            }
            backend::from_elem(0)
        },
    }
}

/// `shape` with the axis `axis` replaced by the axes `middle`.
pub fn spliced(shape: &Vec<usize>, axis: usize, middle: &Vec<usize>) -> (r: Vec<usize>)
    requires
        axis < shape.len(),
    ensures
        r@ == splice(shape@, axis as int, middle@),
{
    let mut out: Vec<usize> = Vec::new();
    let mut d: usize = 0;
    while d < axis
        invariant
            d <= axis < shape.len(),
            out@ == shape@.subrange(0, d as int),
        decreases axis - d,
    {
        out.push(shape[d]);
        d += 1;
        assert(out@ =~= shape@.subrange(0, d as int));
    }
    let mut m: usize = 0;
    while m < middle.len()
        invariant
            m <= middle.len(),
            out@ == shape@.subrange(0, axis as int) + middle@.subrange(0, m as int),
        decreases middle.len() - m,
    {
        out.push(middle[m]);
        m += 1;
        assert(out@ =~= shape@.subrange(0, axis as int) + middle@.subrange(0, m as int));
    }
    assert(middle@.subrange(0, middle.len() as int) =~= middle@);
    let mut e: usize = axis + 1;
    while e < shape.len()
        invariant
            axis < e <= shape.len(),
            out@ == shape@.subrange(0, axis as int) + middle@ + shape@.subrange(axis + 1, e as int),
        decreases shape.len() - e,
    {
        out.push(shape[e]);
        e += 1;
        assert(out@ =~= shape@.subrange(0, axis as int) + middle@ + shape@.subrange(
            axis + 1,
            e as int,
        ));
    }
    out
}

/// The positions that the elements of `indices` denote on an axis of extent
/// `size`, counting negative elements from the end.
pub fn normalize_negative_axes(indices: &NdArrayView, size: usize) -> (r: Vec<usize>)
    requires
        forall|t: int| 0 <= t < indices@.data.len() ==> -(size as int) <= #[trigger] indices@.data[t] < size,
    ensures
        r@ == selected_positions(indices@.data, size as int, true),
        forall|t: int| 0 <= t < r.len() ==> #[trigger] r[t] < size,
{
    let raw = indices.to_vec();
    let mut out: Vec<usize> = Vec::with_capacity(raw.len());
    let mut t: usize = 0;
    while t < raw.len()
        invariant
            t <= raw.len(),
            raw@ == indices@.data,
            forall|k: int| 0 <= k < raw.len() ==> -(size as int) <= #[trigger] raw[k] < size,
            out@ == selected_positions(raw@, size as int, true).subrange(0, t as int),
            forall|k: int| 0 <= k < out.len() ==> #[trigger] out[k] < size,
        decreases raw.len() - t,
    {
        let e: i64 = raw[t];
        let position: usize = if e < 0 {
            let back: usize = (-(e + 1)) as usize;
            size - 1 - back
        } else {
            e as usize
        };
        assert(position == normalized_index(e as int, size as int));
        out.push(position);
        t += 1;
        assert(out@ =~= selected_positions(raw@, size as int, true).subrange(0, t as int));
    }
    assert(out@ =~= selected_positions(raw@, size as int, true));
    out
}

/// The positions that the elements of `indices` denote when none of them is
/// negative.
pub fn to_positions(indices: &NdArrayView, size: usize) -> (r: Vec<usize>)
    requires
        forall|t: int| 0 <= t < indices@.data.len() ==> 0 <= #[trigger] indices@.data[t] < size,
    ensures
        r@ == selected_positions(indices@.data, size as int, false),
        forall|t: int| 0 <= t < r.len() ==> #[trigger] r[t] < size,
{
    let raw = indices.to_vec();
    let mut out: Vec<usize> = Vec::with_capacity(raw.len());
    let mut t: usize = 0;
    while t < raw.len()
        invariant
            t <= raw.len(),
            raw@ == indices@.data,
            forall|k: int| 0 <= k < raw.len() ==> 0 <= #[trigger] raw[k] < size,
            out@ == selected_positions(raw@, size as int, false).subrange(0, t as int),
            forall|k: int| 0 <= k < out.len() ==> #[trigger] out[k] < size,
        decreases raw.len() - t,
    {
        let e: i64 = raw[t];
        out.push(e as usize);
        t += 1;
        assert(out@ =~= selected_positions(raw@, size as int, false).subrange(0, t as int));
    }
    assert(out@ =~= selected_positions(raw@, size as int, false));
    out
}

} // verus!
