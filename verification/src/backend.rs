//! The boundary to the `ndarray` crate.
//!
//! Arrays and array views are those of `ndarray`, held opaquely.  Contracts
//! speak of one through three names: its shape, its elements in logical
//! (row-major) order, and whether it is stored contiguously in that order.
//! Each function here is a thin wrapper around the backend functions that
//! its comment names, and restates in its contract what `ndarray` documents
//! for them; none of these contracts is proved.  Everything else in the
//! crate is verified against them.

use crate::model::Arr;
use crate::semantics;
use crate::semantics::fits_i64;
use crate::shape::{in_bounds, representable, size};
use crate::slicing::{slice, slice_assigned, slice_in_range, sliced_shape, SliceOrIndex};
use vstd::prelude::*;

verus! {

/// An owned dynamic-rank array of `i64`: `ndarray::ArrayD<i64>`.
#[verifier::external_body]
pub struct NdArray {
    inner: ndarray::ArrayD<i64>,
}

/// A read-only view into the storage of some array:
/// `ndarray::ArrayViewD<'a, i64>`.
#[verifier::external_body]
pub struct NdArrayView<'a> {
    inner: ndarray::ArrayViewD<'a, i64>,
}

/// The error that `ndarray` reports for shapes that do not fit.
#[verifier::external_type_specification]
#[verifier::external_body]
pub struct ExShapeError(ndarray::ShapeError);

/// The extents of an array, one per axis.
pub uninterp spec fn array_shape(a: NdArray) -> Seq<usize>;

/// The elements of an array in logical order (last index varying fastest).
pub uninterp spec fn array_elems(a: NdArray) -> Seq<i64>;

/// Whether the array is stored contiguously in logical order.
pub uninterp spec fn array_is_standard(a: NdArray) -> bool;

/// The extents of a view, one per axis.
pub uninterp spec fn view_shape(v: NdArrayView) -> Seq<usize>;

/// The elements that a view shows, in logical order.
pub uninterp spec fn view_elems(v: NdArrayView) -> Seq<i64>;

/// Whether the elements that a view shows are stored contiguously in
/// logical order.
pub uninterp spec fn view_is_standard(v: NdArrayView) -> bool;

impl View for NdArray {
    type V = Arr;

    open spec fn view(&self) -> Arr {
        Arr { shape: array_shape(*self), data: array_elems(*self) }
    }
}

impl<'a> View for NdArrayView<'a> {
    type V = Arr;

    open spec fn view(&self) -> Arr {
        Arr { shape: view_shape(*self), data: view_elems(*self) }
    }
}

/// `ArrayBase::from_shape_vec` with a row-major shape: the array of the
/// given shape that lists `data` in logical order.  It fails exactly when
/// the shape is not representable or does not ask for `data.len()` elements.
#[verifier::external_body]
pub(crate) fn from_shape_vec(shape: &Vec<usize>, data: Vec<i64>) -> (r: Result<NdArray, ndarray::ShapeError>)
    ensures
        r is Ok <==> (representable(shape@) && data.len() == size(shape@)),
        r is Ok ==> array_shape(r->Ok_0) == shape@,
        r is Ok ==> array_elems(r->Ok_0) == data@,
        r is Ok ==> array_is_standard(r->Ok_0),
{
    match ndarray::ArrayD::from_shape_vec(ndarray::IxDyn(shape.as_slice()), data) {
        Ok(inner) => Ok(NdArray { inner }),
        Err(e) => Err(e),
    }
}

/// `ArrayBase::zeros`: the array of the given shape filled with zeros.
/// The backend panics on a shape that is not representable.
#[verifier::external_body]
pub(crate) fn zeros(shape: &Vec<usize>) -> (a: NdArray)
    requires
        representable(shape@),
    ensures
        array_shape(a) == shape@,
        array_elems(a) == Arr::filled(shape@, 0).data,
        array_is_standard(a),
{
    NdArray { inner: ndarray::ArrayD::zeros(ndarray::IxDyn(shape.as_slice())) }
}

/// `ArrayBase::from_elem` with the empty shape: the array without axes
/// whose single element is `value`.
#[verifier::external_body]
pub(crate) fn from_elem(value: i64) -> (a: NdArray)
    ensures
        array_shape(a) == Seq::<usize>::empty(),
        array_elems(a) == seq![value],
        array_is_standard(a),
{
    NdArray { inner: ndarray::ArrayD::from_elem(ndarray::IxDyn(&[]), value) }
}

/// `ArrayBase::view`: a read-only view of the whole array.
#[verifier::external_body]
pub(crate) fn view<'a>(a: &'a NdArray) -> (v: NdArrayView<'a>)
    ensures
        view_shape(v) == array_shape(*a),
        view_elems(v) == array_elems(*a),
        view_is_standard(v) == array_is_standard(*a),
{
    NdArrayView { inner: a.inner.view() }
}

/// `ArrayBase::view` of a view: a view of the same elements that lives as
/// long as the borrow.
#[verifier::external_body]
pub(crate) fn reborrow<'a>(v: &'a NdArrayView) -> (r: NdArrayView<'a>)
    ensures
        view_shape(r) == view_shape(*v),
        view_elems(r) == view_elems(*v),
        view_is_standard(r) == view_is_standard(*v),
{
    NdArrayView { inner: v.inner.view() }
}

/// `ArrayBase::shape`: the extents of the view.  The backend keeps the
/// product of the non-zero extents of every array within `isize::MAX`.
#[verifier::external_body]
pub(crate) fn shape(v: &NdArrayView) -> (s: Vec<usize>)
    ensures
        s@ == view_shape(*v),
        representable(s@),
{
    v.inner.shape().to_vec()
}

/// `ArrayBase::len`: the number of elements, which is the product of the
/// extents.  The backend keeps it within `isize::MAX`.
#[verifier::external_body]
pub(crate) fn len(v: &NdArrayView) -> (n: usize)
    ensures
        n == view_elems(*v).len(),
        n == size(view_shape(*v)),
        n <= isize::MAX,
{
    v.inner.len()
}

/// `ArrayBase::ndim`: the number of axes.
#[verifier::external_body]
pub(crate) fn ndim(v: &NdArrayView) -> (n: usize)
    ensures
        n == view_shape(*v).len(),
{
    v.inner.ndim()
}

/// `ArrayBase::is_standard_layout`.
#[verifier::external_body]
pub(crate) fn is_standard_layout(v: &NdArrayView) -> (b: bool)
    ensures
        b == view_is_standard(*v),
{
    v.inner.is_standard_layout()
}

/// `ArrayBase::iter`, collected: the elements in logical order, as many as
/// the product of the extents.
#[verifier::external_body]
pub(crate) fn iter(v: &NdArrayView) -> (r: Vec<i64>)
    ensures
        r@ == view_elems(*v),
        r.len() == size(view_shape(*v)),
{
    v.inner.iter().cloned().collect()
}

/// `Clone::clone` of a view copies the view, not the elements: the clone
/// shows the same storage.
#[verifier::external_body]
pub(crate) fn clone_view<'a>(v: &NdArrayView<'a>) -> (r: NdArrayView<'a>)
    ensures
        view_shape(r) == view_shape(*v),
        view_elems(r) == view_elems(*v),
        view_is_standard(r) == view_is_standard(*v),
{
    NdArrayView { inner: v.inner.clone() }
}

/// `ArrayBase::into_shape` on an owned array stored in logical order: the
/// same elements in the same order under the new shape.  It fails exactly
/// when the new shape is not representable or asks for another number of
/// elements.
#[verifier::external_body]
pub(crate) fn array_into_shape(a: NdArray, shape: &Vec<usize>) -> (r: Result<NdArray, ndarray::ShapeError>)
    requires
        array_is_standard(a),
    ensures
        r is Ok <==> (representable(shape@) && size(shape@) == size(array_shape(a))),
        r is Ok ==> array_shape(r->Ok_0) == shape@,
        r is Ok ==> array_elems(r->Ok_0) == array_elems(a),
        r is Ok ==> array_is_standard(r->Ok_0),
{
    match a.inner.into_shape(ndarray::IxDyn(shape.as_slice())) {
        Ok(inner) => Ok(NdArray { inner }),
        Err(e) => Err(e),
    }
}

/// `ArrayBase::into_shape` on a view stored in logical order: a view of the
/// same elements in the same order under the new shape.  It fails exactly
/// when the new shape is not representable or asks for another number of
/// elements.
#[verifier::external_body]
pub(crate) fn view_into_shape<'a>(v: NdArrayView<'a>, shape: &Vec<usize>) -> (r: Result<NdArrayView<'a>, ndarray::ShapeError>)
    requires
        view_is_standard(v),
    ensures
        r is Ok <==> (representable(shape@) && size(shape@) == size(view_shape(v))),
        r is Ok ==> view_shape(r->Ok_0) == shape@,
        r is Ok ==> view_elems(r->Ok_0) == view_elems(v),
        r is Ok ==> view_is_standard(r->Ok_0),
{
    match v.inner.into_shape(ndarray::IxDyn(shape.as_slice())) {
        Ok(inner) => Ok(NdArrayView { inner }),
        Err(e) => Err(e),
    }
}

/// `ArrayBase::select`: a new array made of the sub-arrays of `v` at the
/// given positions along `axis`.  The backend panics when the axis or a
/// position is out of bounds, or when the result is not representable.
#[verifier::external_body]
pub(crate) fn select(v: &NdArrayView, axis: usize, indices: &Vec<usize>) -> (r: NdArray)
    requires
        axis < view_shape(*v).len(),
        forall|t: int| 0 <= t < indices.len() ==> indices[t] < view_shape(*v)[axis as int],
        representable(view_shape(*v).update(axis as int, indices.len())),
    ensures
        array_shape(r) == view_shape(*v).update(axis as int, indices.len()),
        array_elems(r) == semantics::select(v@, axis as int, indices@).data,
        array_is_standard(r),
{
    NdArray { inner: v.inner.select(ndarray::Axis(axis), indices.as_slice()) }
}

/// The sum of two elements.
pub(crate) fn accumulate(a: i64, b: i64) -> (r: i64)
    requires
        fits_i64(a + b),
    ensures
        r == a + b,
{
    a + b
}

/// `ArrayBase::index_axis_mut` and `ArrayBase::zip_mut_with`: adds the
/// sub-array of `src` at position `t` along `axis` to the sub-array of `acc`
/// at position `i` along `axis`, element by element.  The two sub-arrays
/// have the same shape, and every sum is an `i64`.
#[verifier::external_body]
pub(crate) fn index_axis_add(acc: &mut NdArray, axis: usize, i: usize, src: &NdArrayView, t: usize)
    requires
        axis < array_shape(*old(acc)).len(),
        view_shape(*src).len() == array_shape(*old(acc)).len(),
        i < array_shape(*old(acc))[axis as int],
        t < view_shape(*src)[axis as int],
        forall|d: int|
            0 <= d < view_shape(*src).len() && d != axis ==> view_shape(*src)[d] == array_shape(
                *old(acc),
            )[d],
        forall|idx: Seq<int>|
            in_bounds(array_shape(*old(acc)), idx) && idx[axis as int] == i ==> fits_i64(
                old(acc)@.at(idx) + src@.at(idx.update(axis as int, t as int)),
            ),
    ensures
        array_shape(*final(acc)) == array_shape(*old(acc)),
        array_elems(*final(acc)) == semantics::scatter_add(old(acc)@, axis as int, i as int, src@, t as int).data,
        array_is_standard(*final(acc)) == array_is_standard(*old(acc)),
{
    let sub = src.inner.index_axis(ndarray::Axis(axis), t);
    acc.inner.index_axis_mut(ndarray::Axis(axis), i).zip_mut_with(&sub, |a, g| *a = accumulate(*a, *g));
}

/// What a sequence of views shows, one model per view.
pub open spec fn models(xs: Seq<NdArrayView>) -> Seq<Arr> {
    Seq::new(xs.len(), |j: int| xs[j]@)
}

/// `ArrayBase::slice_collapse`: the view narrowed, axis by axis, to what the
/// entries select; the rank stays.  The backend panics when an entry does
/// not fit its axis; it multiplies the stride of an axis by the step.
#[verifier::external_body]
pub(crate) fn slice_collapse<'a>(v: NdArrayView<'a>, indices: &Vec<SliceOrIndex>) -> (r: NdArrayView<'a>)
    requires
        slice_in_range(view_shape(v), indices@),
    ensures
        view_shape(r) == sliced_shape(view_shape(v), indices@),
        view_elems(r) == slice(v@, indices@).data,
{
    let spec: Vec<ndarray::SliceOrIndex> = indices.iter().map(|e| match *e {
        SliceOrIndex::Slice { start, end, step } => ndarray::SliceOrIndex::Slice { start, end, step },
        SliceOrIndex::Index(i) => ndarray::SliceOrIndex::Index(i),
    }).collect();
    let mut inner = v.inner;
    inner.slice_collapse(spec.as_slice());
    NdArrayView { inner }
}

/// `ArrayBase::view_mut`, `ArrayBase::slice_collapse` and
/// `ArrayBase::zip_mut_with`: overwrites the elements of `acc` that the
/// entries select with the elements of `src`, which has the shape of that
/// selection.
#[verifier::external_body]
pub(crate) fn slice_assign(acc: &mut NdArray, indices: &Vec<SliceOrIndex>, src: &NdArrayView)
    requires
        slice_in_range(array_shape(*old(acc)), indices@),
        view_shape(*src) == sliced_shape(array_shape(*old(acc)), indices@),
    ensures
        array_shape(*final(acc)) == array_shape(*old(acc)),
        array_elems(*final(acc)) == slice_assigned(old(acc)@, indices@, src@).data,
        array_is_standard(*final(acc)) == array_is_standard(*old(acc)),
{
    let spec: Vec<ndarray::SliceOrIndex> = indices.iter().map(|e| match *e {
        SliceOrIndex::Slice { start, end, step } => ndarray::SliceOrIndex::Slice { start, end, step },
        SliceOrIndex::Index(i) => ndarray::SliceOrIndex::Index(i),
    }).collect();
    let mut region = acc.inner.view_mut();
    region.slice_collapse(spec.as_slice());
    region.zip_mut_with(&src.inner, |a, g| *a = *g);
}

/// `ndarray::stack`: a new array that lays the views end to end along
/// `axis`.  It fails exactly when the views disagree in an extent other than
/// that of `axis`.  The backend adds up the extents along `axis` and
/// allocates the result, so both must be representable.
#[verifier::external_body]
pub(crate) fn stack(axis: usize, xs: &Vec<NdArrayView>) -> (r: Result<NdArray, ndarray::ShapeError>)
    requires
        xs.len() >= 1,
        axis < view_shape(xs[0]).len(),
        forall|j: int| 0 <= j < xs.len() ==> view_shape(#[trigger] xs[j]).len() == view_shape(xs[0]).len(),
        semantics::concatenable(models(xs@), axis as int) ==> semantics::extent_sum(
            models(xs@),
            axis as int,
            xs.len() as int,
        ) <= usize::MAX && representable(semantics::concat_shape(models(xs@), axis as int)),
    ensures
        r is Ok <==> semantics::concatenable(models(xs@), axis as int),
        r is Ok ==> array_shape(r->Ok_0) == semantics::concat_shape(models(xs@), axis as int),
        r is Ok ==> array_elems(r->Ok_0) == semantics::concat(models(xs@), axis as int).data,
        r is Ok ==> array_is_standard(r->Ok_0),
{
    let views: Vec<ndarray::ArrayViewD<i64>> = xs.iter().map(|x| x.inner.view()).collect();
    match ndarray::stack(ndarray::Axis(axis), views.as_slice()) {
        Ok(inner) => Ok(NdArray { inner }),
        Err(e) => Err(e),
    }
}

/// `ArrayBase::get` on a view with one axis: the element at position `i`, or
/// `None` past the end.
#[verifier::external_body]
pub(crate) fn get(v: &NdArrayView, i: usize) -> (r: Option<i64>)
    requires
        view_shape(*v).len() == 1,
    ensures
        r == (if i < view_elems(*v).len() {
            Some(view_elems(*v)[i as int])
        } else {
            None
        }),
{
    v.inner.get(i).cloned()
}

/// `ArrayBase::index_axis_move`: the view narrowed to position `index` along
/// `axis`, with that axis removed.  The backend panics when the axis or the
/// position is out of bounds.  The strides of the other axes stay, so a
/// view stored in logical order stays so when the axis had extent one.
#[verifier::external_body]
pub(crate) fn index_axis_move<'a>(v: NdArrayView<'a>, axis: usize, index: usize) -> (r: NdArrayView<'a>)
    requires
        axis < view_shape(v).len(),
        index < view_shape(v)[axis as int],
    ensures
        view_shape(r) == view_shape(v).remove(axis as int),
        view_elems(r) == semantics::index_axis(v@, axis as int, index as int).data,
        view_is_standard(v) && view_shape(v)[axis as int] == 1 ==> view_is_standard(r),
{
    NdArrayView { inner: v.inner.index_axis_move(ndarray::Axis(axis), index) }
}

/// `AddAssign` of an array with a view: adds to every element of `acc` the
/// element of `rhs` that stands there once `rhs` is broadcast to the shape
/// of `acc`.  The backend panics when `rhs` cannot be broadcast; the sums
/// are formed in `i64`.
#[verifier::external_body]
pub(crate) fn add_assign(acc: &mut NdArray, rhs: &NdArrayView)
    requires
        semantics::broadcastable(view_shape(*rhs), array_shape(*old(acc))),
        forall|idx: Seq<int>|
            in_bounds(array_shape(*old(acc)), idx) ==> fits_i64(
                #[trigger] old(acc)@.at(idx) + rhs@.at(
                    semantics::broadcast_index(view_shape(*rhs), array_shape(*old(acc)), idx),
                ),
            ),
    ensures
        array_shape(*final(acc)) == array_shape(*old(acc)),
        array_elems(*final(acc)) == semantics::add_broadcast(old(acc)@, rhs@).data,
        array_is_standard(*final(acc)) == array_is_standard(*old(acc)),
{
    acc.inner += &rhs.inner;
}

/// `MulAssign` of an array with a view: multiplies every element of `acc` by
/// the element of `rhs` that stands there once `rhs` is broadcast to the
/// shape of `acc`.  The backend panics when `rhs` cannot be broadcast; the
/// products are formed in `i64`.
#[verifier::external_body]
pub(crate) fn mul_assign(acc: &mut NdArray, rhs: &NdArrayView)
    requires
        semantics::broadcastable(view_shape(*rhs), array_shape(*old(acc))),
        forall|idx: Seq<int>|
            in_bounds(array_shape(*old(acc)), idx) ==> fits_i64(
                #[trigger] old(acc)@.at(idx) * rhs@.at(
                    semantics::broadcast_index(view_shape(*rhs), array_shape(*old(acc)), idx),
                ),
            ),
    ensures
        array_shape(*final(acc)) == array_shape(*old(acc)),
        array_elems(*final(acc)) == semantics::mul_broadcast(old(acc)@, rhs@).data,
        array_is_standard(*final(acc)) == array_is_standard(*old(acc)),
{
    acc.inner *= &rhs.inner;
}

/// `ArrayBase::sum_axis`: a new array, without the axis, of the sums of
/// the lanes of `v` along `axis`.  The backend panics when the axis is out
/// of bounds; it adds up the elements of a lane in `i64`, in an order of
/// its choosing.
#[verifier::external_body]
pub(crate) fn sum_axis(v: &NdArrayView, axis: usize) -> (r: NdArray)
    requires
        axis < view_shape(*v).len(),
        semantics::axis_sum_fits(v@, axis as int),
    ensures
        array_shape(r) == view_shape(*v).remove(axis as int),
        array_elems(r) == semantics::reduce_sum(v@, axis as int, false).data,
        array_is_standard(r),
{
    NdArray { inner: v.inner.sum_axis(ndarray::Axis(axis)) }
}

/// `ArrayBase::as_ptr` of two views, compared: whether both begin at the
/// same element in memory.  The pointer is that of the first element, and
/// the element at a multi-index lies at the offset that the strides give
/// from it.  So two views that begin at the same element show the same
/// first element, and the same elements throughout when they have one shape
/// and are both stored in logical order.  An address is no part of what a
/// view shows, so nothing says when the answer is yes.
#[verifier::external_body]
pub(crate) fn same_start(a: &NdArrayView, b: &NdArrayView) -> (r: bool)
    ensures
        r && view_elems(*a).len() > 0 && view_elems(*b).len() > 0 ==> view_elems(*a)[0]
            == view_elems(*b)[0],
        r && view_shape(*a) == view_shape(*b) && view_is_standard(*a) && view_is_standard(*b)
            ==> view_elems(*a) == view_elems(*b),
{
    a.inner.as_ptr() == b.inner.as_ptr()
}

} // verus!
