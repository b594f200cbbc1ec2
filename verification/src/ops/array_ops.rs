//! Operators that rearrange, select and combine arrays.

use crate::backend;
use crate::backend::{models, view_is_standard};
use crate::graph::{no_gradients, Graph, Operator};
use crate::ops::math_ops::ReduceSum;
use crate::model::{lemma_arr_ext, lemma_build, Arr};
use crate::ndarray_ext::{
    deep_copy, is_scalar_shape, normalize_negative_axes, normalize_negative_axis, shape_of_view,
    spliced, to_positions, NdArrayView,
};
use crate::op::{
    gives_error, gives_owned, gives_standard, gives_view, ArrRepr, ComputeError, ComputeResults,
};
use crate::semantics::{
    accumulated, accumulation_fits, as_extents, asks_inference, bin_op_shape, concat,
    concat_shape, concatenable, contribution, extent_sum, fits_i64, gather, gather_grad,
    given_product, lemma_accumulate_step, lemma_extent_sum_constant, lemma_extent_sum_monotone,
    lemma_expanded_shape, lemma_index_unit_axis, lemma_partial_product_monotone,
    lemma_partial_product_zero, lemma_squeezed_shape, lemma_sum_shape, normalized_index, one_hot,
    partial_product, requested_shape, reshapable, selected_positions, tile, valid_request, INFER,
};
use crate::semantics::{
    broadcast_index, broadcastable, clip, clip_grad, expand_dims,
    expand_position, expandable, expanded_shape, inside, is_set_difference, map_elements,
    mul_broadcast, squeezable, squeeze, squeeze_position, squeezed_shape, sum_fits, sum_n,
    summable,
};
use crate::sorting::{lemma_sorted, sorted, sorted_copy, strictly_ascending};
use std::collections::HashSet;
use vstd::std_specs::hash::group_hash_axioms;
use crate::shape::{
    extents, in_bounds, lemma_offset_bounds, lemma_representable_extents, lemma_size_nonnegative,
    lemma_size_singleton,
    lemma_size_splice, lemma_size_update, lemma_splice_forms, normalized_axis, representable,
    scalar_shape, size, size_nonzero, splice, valid_axis,
};
use crate::slicing::{
    axis_range, lemma_split_is_axis_range, slice, slice_assigned, slice_in_range, sliced_shape,
    split_indices, well_formed_slice, SliceOrIndex,
};
use vstd::pervasive::unreached;
use vstd::prelude::*;

verus! {

pub struct ExpandDims;

pub struct Squeeze;

pub struct Slice {
    pub indices: Vec<SliceOrIndex>,
}

pub struct SliceGrad {
    pub indices: Vec<SliceOrIndex>,
}

pub struct Split {
    pub axis: isize,
    pub start_index: isize,
    pub end_index: isize,
}

pub struct SplitGrad {
    pub axis: isize,
    pub start_index: isize,
    pub end_index: isize,
}

pub struct Tile {
    pub axis: isize,
    pub num: usize,
}

pub struct Concat {
    pub axis: isize,
}

pub struct ConcatGrad {
    pub axis: isize,
    pub index: usize,
}

pub struct Clip {
    pub min: i64,
    pub max: i64,
}

pub struct ClipGrad {
    pub min: i64,
    pub max: i64,
}

pub struct AddN;

pub struct Gather {
    pub axis: isize,
    pub should_normalize_negative_indices: bool,
}

pub struct GatherGrad {
    pub axis: isize,
}

pub struct IndexOp {
    pub index: isize,
}

pub struct IndexOpGrad {
    pub index: isize,
}

pub struct SetDiff1D;

pub struct Shape;

pub struct Rank;

pub struct Size;

pub struct Reshape;

pub struct InferBinOpShape;

impl Gather {
    /// The stable name of the operator, for diagnostics.
    pub fn name(&self) -> (r: &'static str)
        ensures
            r@ == "Gather"@,
    {
        "Gather"
    }

    /// Whether every element of `indices` names a position on an axis of the
    /// given extent.
    pub open spec fn indices_in_range(self, indices: Seq<i64>, extent: int) -> bool {
        forall|t: int|
            0 <= t < indices.len() ==> (if self.should_normalize_negative_indices {
                -extent <= #[trigger] indices[t] < extent
            } else {
                0 <= #[trigger] indices[t] < extent
            })
    }

    /// Forward: `xs[0]` holds the indices and `xs[1]` the array to gather
    /// from.  The output has the axes of `xs[1]` before the axis, then the
    /// axes of the index array, then the axes of `xs[1]` after the axis.
    pub fn compute<'v>(&self, xs: &Vec<NdArrayView<'v>>) -> (r: ComputeResults<'v>)
        requires
            xs.len() >= 2,
            valid_axis(self.axis as int, xs[1]@.rank()),
            self.indices_in_range(
                xs[0]@.data,
                xs[1]@.shape[normalized_axis(self.axis as int, xs[1]@.rank())] as int,
            ),
            representable(
                splice(
                    xs[1]@.shape,
                    normalized_axis(self.axis as int, xs[1]@.rank()),
                    xs[0]@.shape,
                ),
            ),
        ensures
            gives_owned(
                r@,
                gather(
                    xs[1]@,
                    xs[0]@,
                    normalized_axis(self.axis as int, xs[1]@.rank()),
                    self.should_normalize_negative_indices,
                ),
            ),
    {
        let param = &xs[1];
        let indices = &xs[0];
        let indices_shape = indices.shape();
        let param_shape = param.shape();
        let axis = normalize_negative_axis(self.axis, param.ndim());
        let output_shape = spliced(&param_shape, axis, &indices_shape);
        let count: usize = indices.len();
        let flat_indices = if self.should_normalize_negative_indices {
            normalize_negative_axes(indices, param_shape[axis])
        } else {
            to_positions(indices, param_shape[axis])
        };
        proof {
            let pre = param_shape@.subrange(0, axis as int);
            let suf = param_shape@.subrange(axis + 1, param_shape.len() as int);
            lemma_size_splice(param_shape@, axis as int, indices_shape@);
            lemma_size_update(param_shape@, axis as int, count);
            lemma_size_nonnegative(indices_shape@);
            lemma_size_nonnegative(pre);
            lemma_size_nonnegative(suf);
            let m: int = if count == 0 {
                1
            } else {
                count as int
            };
            assert(size_nonzero(pre) * m * size_nonzero(suf) <= size_nonzero(pre) * size_nonzero(
                indices_shape@,
            ) * size_nonzero(suf)) by (nonlinear_arith)
                requires
                    1 <= m <= size_nonzero(indices_shape@),
                    1 <= size_nonzero(pre),
                    1 <= size_nonzero(suf),
            ;
        }
        let selected = backend::select(param, axis, &flat_indices);
        match backend::array_into_shape(selected, &output_shape) {
            Ok(a) => vec![Ok(ArrRepr::Owned(a))],
            Err(_) => unreached(),
        }
    }
}

impl GatherGrad {
    /// The stable name of the operator, for diagnostics.
    pub fn name(&self) -> (r: &'static str)
        ensures
            r@ == "GatherGrad"@,
    {
        "GatherGrad"
    }

    /// The axis of `param` along which the gather selected.
    pub open spec fn axis_in(self, param: Arr) -> int {
        normalized_axis(self.axis as int, param.rank())
    }

    /// The positions along the axis that the index array selected.
    pub open spec fn positions(self, indices: Arr, param: Arr) -> Seq<usize> {
        selected_positions(indices.data, param.shape[self.axis_in(param)] as int, true)
    }

    /// The shape under which the incoming gradient is read: that of `param`
    /// with one position along the axis for each index.
    pub open spec fn incoming_shape(self, indices: Arr, param: Arr) -> Seq<usize> {
        param.shape.update(self.axis_in(param), indices.data.len() as usize)
    }

    /// Backward of a gather: `xs[0]` holds the indices, `xs[1]` the array
    /// that was gathered from and `xs[2]` the incoming gradient.  The output
    /// has the shape of `xs[1]`; each sub-array of the gradient is added at
    /// the position it was gathered from.
    pub fn compute<'v>(&self, xs: &Vec<NdArrayView<'v>>) -> (r: ComputeResults<'v>)
        requires
            xs.len() >= 3,
            valid_axis(self.axis as int, xs[1]@.rank()),
            forall|t: int|
                0 <= t < xs[0]@.data.len() ==> -(xs[1]@.shape[self.axis_in(xs[1]@)] as int)
                    <= #[trigger] xs[0]@.data[t] < xs[1]@.shape[self.axis_in(xs[1]@)],
            view_is_standard(xs[2]),
            size(xs[2]@.shape) == size(self.incoming_shape(xs[0]@, xs[1]@)),
            representable(self.incoming_shape(xs[0]@, xs[1]@)),
            accumulation_fits(
                xs[1]@.shape,
                self.axis_in(xs[1]@),
                self.positions(xs[0]@, xs[1]@),
                xs[2]@.reshaped(self.incoming_shape(xs[0]@, xs[1]@)),
            ),
        ensures
            gives_owned(
                r@,
                gather_grad(
                    xs[1]@.shape,
                    self.axis_in(xs[1]@),
                    self.positions(xs[0]@, xs[1]@),
                    xs[2]@,
                ),
            ),
    {
        let indices = &xs[0];
        let param = &xs[1];
        let param_shape = param.shape();
        let axis = normalize_negative_axis(self.axis, param.ndim());
        let positions = normalize_negative_axes(indices, param_shape[axis]);
        let count: usize = positions.len();
        let single: Vec<usize> = vec![count];
        let incoming_shape = spliced(&param_shape, axis, &single);
        proof {
            lemma_splice_forms(param_shape@, axis as int, count);
            assert(single@ =~= seq![count]);
        }
        // read the incoming gradient with one position along the axis per index
        let gy = match backend::view_into_shape(xs[2].clone(), &incoming_shape) {
            Ok(v) => v,
            Err(_) => unreached(),
        };
        let mut gx = backend::zeros(&param_shape);
        let ghost src = gy@;
        proof {
            lemma_build(
                param_shape@,
                |idx: Seq<int>| contribution(positions@, src, axis as int, idx, 0) as i64,
            );
            assert(gx@.data =~= accumulated(param_shape@, axis as int, positions@, src, 0).data);
        }
        let mut t: usize = 0;
        while t < count
            invariant
                t <= count,
                count == positions.len(),
                axis < param_shape.len(),
                gy@ == src,
                src.shape == param_shape@.update(axis as int, count),
                forall|k: int| 0 <= k < positions.len() ==> #[trigger] positions[k] < param_shape[axis as int],
                accumulation_fits(param_shape@, axis as int, positions@, src),
                gx@ == accumulated(param_shape@, axis as int, positions@, src, t as nat),
                crate::backend::array_is_standard(gx),
            decreases count - t,
        {
            let i: usize = positions[t];
            proof {
                lemma_build(
                    param_shape@,
                    |idx: Seq<int>| contribution(positions@, src, axis as int, idx, t as nat) as i64,
                );
                assert forall|idx: Seq<int>|
                    in_bounds(param_shape@, idx) && idx[axis as int] == i implies fits_i64(
                    gx@.at(idx) + src.at(idx.update(axis as int, t as int)),
                ) by {
                    assert(fits_i64(contribution(positions@, src, axis as int, idx, t as nat)));
                    assert(fits_i64(
                        contribution(positions@, src, axis as int, idx, (t + 1) as nat),
                    ));
                }
                lemma_accumulate_step(param_shape@, axis as int, positions@, src, t as nat);
            }
            backend::index_axis_add(&mut gx, axis, i, &gy, t);
            t += 1;
        }
        vec![Ok(ArrRepr::Owned(gx))]
    }
}

impl Concat {
    /// The stable name of the operator, for diagnostics.
    pub fn name(&self) -> (r: &'static str)
        ensures
            r@ == "Concat"@,
    {
        "Concat"
    }

    /// Forward: the inputs laid end to end along the axis.  Fails with
    /// `IncompatibleShape` exactly when the inputs disagree in rank or in an
    /// extent other than that of the axis.
    pub fn compute<'v>(&self, xs: &Vec<NdArrayView<'v>>) -> (r: ComputeResults<'v>)
        requires
            xs.len() >= 1,
            valid_axis(self.axis as int, xs[0]@.rank()),
            concatenable(models(xs@), normalized_axis(self.axis as int, xs[0]@.rank()))
                ==> extent_sum(
                models(xs@),
                normalized_axis(self.axis as int, xs[0]@.rank()),
                xs.len() as int,
            ) <= usize::MAX && representable(
                concat_shape(models(xs@), normalized_axis(self.axis as int, xs[0]@.rank())),
            ),
        ensures
            concatenable(models(xs@), normalized_axis(self.axis as int, xs[0]@.rank()))
                ==> gives_owned(
                r@,
                concat(models(xs@), normalized_axis(self.axis as int, xs[0]@.rank())),
            ),
            !concatenable(models(xs@), normalized_axis(self.axis as int, xs[0]@.rank()))
                ==> gives_error(r@, ComputeError::IncompatibleShape),
    {
        let rank: usize = xs[0].ndim();
        let axis = normalize_negative_axis(self.axis, rank);
        let mut j: usize = 1;
        while j < xs.len()
            invariant
                1 <= j <= xs.len(),
                rank == xs[0]@.rank(),
                forall|k: int| 0 <= k < j ==> (#[trigger] xs[k])@.shape.len() == rank,
            decreases xs.len() - j,
        {
            if xs[j].ndim() != rank {
                proof {
                    assert(models(xs@)[j as int] == xs[j as int]@);
                    assert(models(xs@)[0] == xs[0]@);
                }
                return vec![Err(ComputeError::IncompatibleShape)];
            }
            j += 1;
        }
        match backend::stack(axis, xs) {
            Ok(y) => vec![Ok(ArrRepr::Owned(y))],
            Err(_) => vec![Err(ComputeError::IncompatibleShape)],
        }
    }
}

impl ConcatGrad {
    /// The stable name of the operator, for diagnostics.
    pub fn name(&self) -> (r: &'static str)
        ensures
            r@ == "ConcatGrad"@,
    {
        "ConcatGrad"
    }

    /// Backward of a concatenation for the input in slot `index`: `xs[0]`
    /// holds the incoming gradient and `xs[1..]` the inputs that were
    /// concatenated.  The output is the part of the gradient that lies where
    /// that input lay: it begins after the extents of the inputs before it
    /// and spans its own extent.
    pub fn compute<'v>(&self, xs: &Vec<NdArrayView<'v>>) -> (r: ComputeResults<'v>)
        requires
            xs.len() >= 2,
            self.index < xs.len() - 1,
            valid_axis(self.axis as int, xs[1]@.rank()),
            normalized_axis(self.axis as int, xs[1]@.rank()) < xs[0]@.rank(),
            forall|j: int|
                1 <= j <= self.index + 1 ==> normalized_axis(self.axis as int, xs[1]@.rank())
                    < (#[trigger] xs[j])@.rank(),
            extent_sum(
                models(xs@).skip(1),
                normalized_axis(self.axis as int, xs[1]@.rank()),
                self.index + 1,
            ) <= xs[0]@.shape[normalized_axis(self.axis as int, xs[1]@.rank())],
        ensures
            gives_view(
                r@,
                axis_range(
                    xs[0]@,
                    normalized_axis(self.axis as int, xs[1]@.rank()),
                    extent_sum(
                        models(xs@).skip(1),
                        normalized_axis(self.axis as int, xs[1]@.rank()),
                        self.index as int,
                    ),
                    xs[self.index + 1]@.shape[normalized_axis(self.axis as int, xs[1]@.rank())] as int,
                ),
            ),
    {
        let gy = &xs[0];
        let axis = normalize_negative_axis(self.axis, xs[1].ndim());
        let ghost ins = models(xs@).skip(1);
        let gy_shape = gy.shape();
        // make slice indices
        let mut start_idx: usize = 0;
        let mut j: usize = 0;
        while j < self.index
            invariant
                j <= self.index < xs.len() - 1,
                ins == models(xs@).skip(1),
                start_idx == extent_sum(ins, axis as int, j as int),
                extent_sum(ins, axis as int, self.index + 1) <= gy_shape[axis as int],
                axis < gy_shape.len(),
                forall|k: int| 1 <= k <= self.index + 1 ==> axis < (#[trigger] xs[k])@.rank(),
            decreases self.index - j,
        {
            let shape = xs[j + 1].shape();
            proof {
                assert(ins[j as int] == xs[j + 1]@);
                lemma_extent_sum_monotone(ins, axis as int, j + 1, self.index + 1);
            }
            start_idx += shape[axis];
            j += 1;
        }
        let region_shape = xs[self.index + 1].shape();
        let region_len: usize = region_shape[axis];
        proof {
            assert(ins[self.index as int] == xs[self.index + 1]@);
            lemma_representable_extents(gy_shape@);
            lemma_split_is_axis_range(
                gy@,
                axis as int,
                start_idx as isize,
                (start_idx + region_len) as isize,
            );
        }
        let indices = make_indices_for_split(
            gy,
            start_idx as isize,
            (start_idx + region_len) as isize,
            axis,
        );
        let ret = backend::slice_collapse(gy.clone(), &indices);
        vec![Ok(ArrRepr::View(ret))]
    }
}

impl Tile {
    /// The stable name of the operator, for diagnostics.
    pub fn name(&self) -> (r: &'static str)
        ensures
            r@ == "Tile"@,
    {
        "Tile"
    }

    /// Forward: `num` copies of the input laid end to end along the axis.
    pub fn compute<'v>(&self, xs: &Vec<NdArrayView<'v>>) -> (r: ComputeResults<'v>)
        requires
            xs.len() >= 1,
            valid_axis(self.axis as int, xs[0]@.rank()),
            self.num >= 1,
            self.num * xs[0]@.shape[normalized_axis(self.axis as int, xs[0]@.rank())] <= usize::MAX,
            representable(
                xs[0]@.shape.update(
                    normalized_axis(self.axis as int, xs[0]@.rank()),
                    (self.num * xs[0]@.shape[normalized_axis(self.axis as int, xs[0]@.rank())]) as usize,
                ),
            ),
        ensures
            gives_owned(
                r@,
                tile(xs[0]@, normalized_axis(self.axis as int, xs[0]@.rank()), self.num as int),
            ),
    {
        let x = &xs[0];
        let axis = normalize_negative_axis(self.axis, x.ndim());
        let mut views: Vec<NdArrayView<'v>> = Vec::with_capacity(self.num);
        let mut j: usize = 0;
        while j < self.num
            invariant
                j <= self.num,
                views.len() == j,
                forall|k: int| 0 <= k < j ==> (#[trigger] views[k])@ == x@,
            decreases self.num - j,
        {
            views.push(x.clone());
            j += 1;
        }
        proof {
            let copies = Seq::new(self.num as nat, |k: int| x@);
            assert(models(views@) =~= copies);
            lemma_extent_sum_constant(x@, self.num as nat, axis as int, self.num as int);
            assert(concatenable(copies, axis as int));
        }
        match backend::stack(axis, &views) {
            Ok(y) => vec![Ok(ArrRepr::Owned(y))],
            Err(_) => unreached(),
        }
    }
}

impl Split {
    /// The stable name of the operator, for diagnostics.
    pub fn name(&self) -> (r: &'static str)
        ensures
            r@ == "Split"@,
    {
        "Split"
    }

    /// Forward: a view of the sub-arrays of the input from `start_index` to
    /// `end_index` along the axis.
    pub fn compute<'v>(&self, xs: &Vec<NdArrayView<'v>>) -> (r: ComputeResults<'v>)
        requires
            xs.len() >= 1,
            valid_axis(self.axis as int, xs[0]@.rank()),
            slice_in_range(
                xs[0]@.shape,
                split_indices(
                    xs[0]@.rank(),
                    normalized_axis(self.axis as int, xs[0]@.rank()),
                    self.start_index,
                    self.end_index,
                ),
            ),
        ensures
            gives_view(
                r@,
                slice(
                    xs[0]@,
                    split_indices(
                        xs[0]@.rank(),
                        normalized_axis(self.axis as int, xs[0]@.rank()),
                        self.start_index,
                        self.end_index,
                    ),
                ),
            ),
    {
        let x = &xs[0];
        let axis = normalize_negative_axis(self.axis, x.ndim());
        let indices = make_indices_for_split(x, self.start_index, self.end_index, axis);
        let ret = backend::slice_collapse(x.clone(), &indices);
        vec![Ok(ArrRepr::View(ret))]
    }
}

impl SplitGrad {
    /// The stable name of the operator, for diagnostics.
    pub fn name(&self) -> (r: &'static str)
        ensures
            r@ == "SplitGrad"@,
    {
        "SplitGrad"
    }

    /// Backward of a split: `xs[0]` holds the input of the split and `xs[1]`
    /// the incoming gradient.  The output has the shape of `xs[0]`: zero
    /// everywhere but in the range that the split took, which holds the
    /// gradient.
    pub fn compute<'v>(&self, xs: &Vec<NdArrayView<'v>>) -> (r: ComputeResults<'v>)
        requires
            xs.len() >= 2,
            valid_axis(self.axis as int, xs[0]@.rank()),
            slice_in_range(
                xs[0]@.shape,
                split_indices(
                    xs[0]@.rank(),
                    normalized_axis(self.axis as int, xs[0]@.rank()),
                    self.start_index,
                    self.end_index,
                ),
            ),
            xs[1]@.shape == sliced_shape(
                xs[0]@.shape,
                split_indices(
                    xs[0]@.rank(),
                    normalized_axis(self.axis as int, xs[0]@.rank()),
                    self.start_index,
                    self.end_index,
                ),
            ),
        ensures
            gives_owned(
                r@,
                slice_assigned(
                    Arr::filled(xs[0]@.shape, 0),
                    split_indices(
                        xs[0]@.rank(),
                        normalized_axis(self.axis as int, xs[0]@.rank()),
                        self.start_index,
                        self.end_index,
                    ),
                    xs[1]@,
                ),
            ),
    {
        let x = &xs[0];
        let gy = &xs[1];
        let mut gx = backend::zeros(&x.shape());
        let axis = normalize_negative_axis(self.axis, x.ndim());
        let indices = make_indices_for_split(x, self.start_index, self.end_index, axis);
        backend::slice_assign(&mut gx, &indices, gy);
        vec![Ok(ArrRepr::Owned(gx))]
    }
}

/// The slice specification that takes the range from `start_index` to
/// `end_index` along `axis` and every other axis of `x` whole.
pub fn make_indices_for_split(x: &NdArrayView, start_index: isize, end_index: isize, axis: usize) -> (r: Vec<SliceOrIndex>)
    requires
        axis < x@.rank(),
    ensures
        r@ == split_indices(x@.rank(), axis as int, start_index, end_index),
{
    let ndim: usize = x.ndim();
    let mut out: Vec<SliceOrIndex> = Vec::with_capacity(ndim);
    let mut i: usize = 0;
    while i < ndim
        invariant
            i <= ndim,
            ndim == x@.rank(),
            out@ == split_indices(ndim as int, axis as int, start_index, end_index).subrange(
                0,
                i as int,
            ),
        decreases ndim - i,
    {
        if i == axis {
            out.push(SliceOrIndex::Slice { start: start_index, end: Some(end_index), step: 1 });
        } else {
            // full slice
            out.push(SliceOrIndex::Slice { start: 0, end: None, step: 1 });
        }
        i += 1;
        assert(out@ =~= split_indices(ndim as int, axis as int, start_index, end_index).subrange(
            0,
            i as int,
        ));
    }
    assert(out@ =~= split_indices(ndim as int, axis as int, start_index, end_index));
    out
}

impl Slice {
    /// The stable name of the operator, for diagnostics.
    pub fn name(&self) -> (r: &'static str)
        ensures
            r@ == "Slice"@,
    {
        "Slice"
    }

    /// Forward: a view of what the specification selects from the input,
    /// with the rank of the input.  Fails with `MalformedSlice` exactly when
    /// the specification does not have one entry per axis or has a zero
    /// step.
    pub fn compute<'v>(&self, xs: &Vec<NdArrayView<'v>>) -> (r: ComputeResults<'v>)
        requires
            xs.len() >= 1,
            well_formed_slice(xs[0]@.shape, self.indices@) ==> slice_in_range(
                xs[0]@.shape,
                self.indices@,
            ),
        ensures
            well_formed_slice(xs[0]@.shape, self.indices@) ==> gives_view(
                r@,
                slice(xs[0]@, self.indices@),
            ),
            !well_formed_slice(xs[0]@.shape, self.indices@) ==> gives_error(
                r@,
                ComputeError::MalformedSlice,
            ),
    {
        let x = &xs[0];
        if !is_well_formed(&self.indices, x.ndim()) {
            return vec![Err(ComputeError::MalformedSlice)];
        }
        let y = backend::slice_collapse(x.clone(), &self.indices);
        vec![Ok(ArrRepr::View(y))]
    }
}

impl SliceGrad {
    /// The stable name of the operator, for diagnostics.
    pub fn name(&self) -> (r: &'static str)
        ensures
            r@ == "SliceGrad"@,
    {
        "SliceGrad"
    }

    /// Backward of a slice: `xs[0]` holds the input of the slice and `xs[1]`
    /// the incoming gradient.  The output has the shape of `xs[0]`: zero
    /// everywhere but at the selected elements, which hold the gradient.
    /// Fails with `MalformedSlice` as the slice does.
    pub fn compute<'v>(&self, xs: &Vec<NdArrayView<'v>>) -> (r: ComputeResults<'v>)
        requires
            xs.len() >= 2,
            well_formed_slice(xs[0]@.shape, self.indices@) ==> slice_in_range(
                xs[0]@.shape,
                self.indices@,
            ) && xs[1]@.shape == sliced_shape(xs[0]@.shape, self.indices@),
        ensures
            well_formed_slice(xs[0]@.shape, self.indices@) ==> gives_owned(
                r@,
                slice_assigned(Arr::filled(xs[0]@.shape, 0), self.indices@, xs[1]@),
            ),
            !well_formed_slice(xs[0]@.shape, self.indices@) ==> gives_error(
                r@,
                ComputeError::MalformedSlice,
            ),
    {
        let x = &xs[0];
        let gy = &xs[1];
        if !is_well_formed(&self.indices, x.ndim()) {
            return vec![Err(ComputeError::MalformedSlice)];
        }
        let mut gx = backend::zeros(&x.shape());
        // sliced view
        backend::slice_assign(&mut gx, &self.indices, gy);
        vec![Ok(ArrRepr::Owned(gx))]
    }
}

/// Whether a slice specification has one entry per axis and no zero step.
pub fn is_well_formed(indices: &Vec<SliceOrIndex>, ndim: usize) -> (b: bool)
    ensures
        b == (indices.len() == ndim && forall|d: int|
            0 <= d < indices.len() ==> (#[trigger] indices[d]).well_formed()),
{
    if indices.len() != ndim {
        return false;
    }
    let mut d: usize = 0;
    while d < indices.len()
        invariant
            d <= indices.len(),
            forall|k: int| 0 <= k < d ==> (#[trigger] indices[k]).well_formed(),
        decreases indices.len() - d,
    {
        match indices[d] {
            SliceOrIndex::Slice { start, end, step } => {
                if step == 0 {
                    return false;
                }
            },
            SliceOrIndex::Index(i) => {},
        }
        d += 1;
    }
    true
}

/// The product of the entries that give an extent, or `None` when it does
/// not fit in a `usize`.
pub fn checked_given_product(entries: &Vec<i64>) -> (r: Option<usize>)
    requires
        valid_request(entries@),
    ensures
        r matches Some(p) ==> p == given_product(entries@),
        r is None ==> given_product(entries@) > usize::MAX,
{
    let mut z: usize = 0;
    while z < entries.len()
        invariant
            z <= entries.len(),
            forall|d: int| 0 <= d < z ==> #[trigger] entries[d] != 0,
        decreases entries.len() - z,
    {
        if entries[z] == 0 {
            proof {
                lemma_partial_product_zero(entries@, z as int, entries.len() as int);
            }
            return Some(0);
        }
        z += 1;
    }
    let mut product: usize = 1;
    let mut k: usize = 0;
    while k < entries.len()
        invariant
            k <= entries.len(),
            valid_request(entries@),
            forall|d: int| 0 <= d < entries.len() ==> #[trigger] entries[d] != 0,
            product == partial_product(entries@, k as int),
        decreases entries.len() - k,
    {
        if entries[k] != INFER {
            let factor: usize = entries[k] as usize;
            match product.checked_mul(factor) {
                Some(next) => {
                    product = next;
                },
                None => {
                    proof {
                        lemma_partial_product_monotone(
                            entries@,
                            k + 1,
                            entries.len() as int,
                        );
                    }
                    return None;
                },
            }
        } else {
            assert(product * 1 == product);
        }
        k += 1;
    }
    Some(product)
}

/// The shape that the entries request for an array of `len` elements, or
/// `None` when an extent is to be inferred and does not divide evenly.
pub fn infer_shape(entries: &Vec<i64>, len: usize) -> (r: Option<Vec<usize>>)
    requires
        valid_request(entries@),
    ensures
        r is None <==> asks_inference(entries@) && !(0 < given_product(entries@) <= usize::MAX
            && len as int % given_product(entries@) == 0),
        r matches Some(t) ==> t@ == requested_shape(entries@, len as int),
{
    let mut found: bool = false;
    let mut s: usize = 0;
    while s < entries.len()
        invariant
            s <= entries.len(),
            found <==> exists|d: int| 0 <= d < s && entries[d] == INFER,
        decreases entries.len() - s,
    {
        if entries[s] == INFER {
            found = true;
        }
        s += 1;
    }
    let mut extent: usize = 0;
    if found {
        match checked_given_product(entries) {
            Some(product) => {
                if product == 0 || len % product != 0 {
                    return None;
                }
                extent = len / product;
            },
            None => {
                return None;
            },
        }
    }
    let mut target: Vec<usize> = Vec::with_capacity(entries.len());
    let mut d: usize = 0;
    while d < entries.len()
        invariant
            d <= entries.len(),
            valid_request(entries@),
            found ==> extent == len as int / given_product(entries@),
            found <==> asks_inference(entries@),
            target@ == requested_shape(entries@, len as int).subrange(0, d as int),
        decreases entries.len() - d,
    {
        if entries[d] != INFER {
            target.push(entries[d] as usize);
        } else {
            target.push(extent);
        }
        d += 1;
        assert(target@ =~= requested_shape(entries@, len as int).subrange(0, d as int));
    }
    assert(target@ =~= requested_shape(entries@, len as int));
    Some(target)
}

impl Reshape {
    /// The stable name of the operator, for diagnostics.
    pub fn name(&self) -> (r: &'static str)
        ensures
            r@ == "Reshape"@,
    {
        "Reshape"
    }

    /// Forward: `xs[0]` under the shape that the elements of `xs[1]`
    /// request, in which one entry may ask for its extent to be inferred.
    /// The output is a view when `xs[0]` is stored contiguously in row-major
    /// order and a copy otherwise.  Fails with `ReshapeMismatch` exactly
    /// when an inferred extent does not divide evenly or the requested shape
    /// does not hold the elements of `xs[0]`.
    pub fn compute<'v>(&self, xs: &Vec<NdArrayView<'v>>) -> (r: ComputeResults<'v>)
        requires
            xs.len() >= 2,
            valid_request(xs[1]@.data),
        ensures
            reshapable(xs[1]@.data, xs[0]@.data.len() as int) && view_is_standard(xs[0])
                ==> gives_view(
                r@,
                xs[0]@.reshaped(requested_shape(xs[1]@.data, xs[0]@.data.len() as int)),
            ) && gives_standard(r@),
            reshapable(xs[1]@.data, xs[0]@.data.len() as int) && !view_is_standard(xs[0])
                ==> gives_owned(
                r@,
                xs[0]@.reshaped(requested_shape(xs[1]@.data, xs[0]@.data.len() as int)),
            ),
            !reshapable(xs[1]@.data, xs[0]@.data.len() as int) ==> gives_error(
                r@,
                ComputeError::ReshapeMismatch,
            ),
    {
        let x = &xs[0];
        let entries = xs[1].to_vec();
        let target = match infer_shape(&entries, x.len()) {
            Some(t) => t,
            None => {
                return vec![Err(ComputeError::ReshapeMismatch)];
            },
        };
        // a view that is not stored in row-major order is copied first
        if x.is_standard_layout() {
            match backend::view_into_shape(x.clone(), &target) {
                Ok(a) => vec![Ok(ArrRepr::View(a))],
                Err(_) => vec![Err(ComputeError::ReshapeMismatch)],
            }
        } else {
            match backend::array_into_shape(deep_copy(x), &target) {
                Ok(a) => vec![Ok(ArrRepr::Owned(a))],
                Err(_) => vec![Err(ComputeError::ReshapeMismatch)],
            }
        }
    }
}

impl IndexOp {
    /// The stable name of the operator, for diagnostics.
    pub fn name(&self) -> (r: &'static str)
        ensures
            r@ == "IndexOp"@,
    {
        "IndexOp"
    }

    /// Forward: the element of the input at the row-major position `index`,
    /// counted from the end when negative, as an array without axes.
    pub fn compute<'v>(&self, xs: &Vec<NdArrayView<'v>>) -> (r: ComputeResults<'v>)
        requires
            xs.len() >= 1,
            view_is_standard(xs[0]),
            -(xs[0]@.data.len() as int) <= self.index < xs[0]@.data.len(),
        ensures
            gives_owned(
                r@,
                Arr::scalar(
                    xs[0]@.data[normalized_index(self.index as int, xs[0]@.data.len() as int)],
                ),
            ),
    {
        let x = &xs[0];
        let len: usize = x.len();
        let i: usize = if self.index < 0 {
            len - 1 - ((-(self.index + 1)) as usize)
        } else {
            self.index as usize
        };
        let flat_shape: Vec<usize> = vec![len];
        proof {
            assert(flat_shape@ =~= seq![len]);
            lemma_size_singleton(len);
        }
        let flat_x = match backend::view_into_shape(x.clone(), &flat_shape) {
            Ok(v) => v,
            Err(_) => unreached(),
        };
        match backend::get(&flat_x, i) {
            Some(ret) => vec![Ok(ArrRepr::Owned(backend::from_elem(ret)))],
            None => unreached(),
        }
    }
}

impl IndexOpGrad {
    /// The stable name of the operator, for diagnostics.
    pub fn name(&self) -> (r: &'static str)
        ensures
            r@ == "IndexOpGrad"@,
    {
        "IndexOpGrad"
    }

    /// Backward of an element extraction: `xs[0]` holds the input of the
    /// extraction and `xs[1]` the incoming gradient, an array without axes.
    /// The output has the shape of `xs[0]`: zero everywhere but at the
    /// extracted position, which holds the gradient.
    pub fn compute<'v>(&self, xs: &Vec<NdArrayView<'v>>) -> (r: ComputeResults<'v>)
        requires
            xs.len() >= 2,
            xs[1]@.rank() == 0,
            -(xs[0]@.data.len() as int) <= self.index < xs[0]@.data.len(),
        ensures
            gives_owned(
                r@,
                one_hot(
                    xs[0]@,
                    normalized_index(self.index as int, xs[0]@.data.len() as int),
                    xs[1]@.data[0],
                ),
            ),
    {
        let x = &xs[0];
        let gy = xs[1].to_vec();
        let shape = x.shape();
        let len: usize = x.len();
        let i: usize = if self.index < 0 {
            len - 1 - ((-(self.index + 1)) as usize)
        } else {
            self.index as usize
        };
        assert(size(xs[1]@.shape) == 1);
        let mut data: Vec<i64> = vec![0i64; len];
        data.set(i, gy[0]);
        assert(data@ =~= one_hot(x@, i as int, gy[0]).data);
        match backend::from_shape_vec(&shape, data) {
            Ok(result) => vec![Ok(ArrRepr::Owned(result))],
            Err(_) => unreached(),
        }
    }
}

impl Shape {
    /// The stable name of the operator, for diagnostics.
    pub fn name(&self) -> (r: &'static str)
        ensures
            r@ == "Shape"@,
    {
        "Shape"
    }

    /// Forward: the extents of the input as a one-axis array.
    pub fn compute<'v>(&self, xs: &Vec<NdArrayView<'v>>) -> (r: ComputeResults<'v>)
        requires
            xs.len() >= 1,
            xs[0]@.rank() <= isize::MAX,
        ensures
            gives_owned(r@, Arr::vector(extents(xs[0]@.shape))),
    {
        vec![Ok(ArrRepr::Owned(shape_of_view(&xs[0])))]
    }
}

impl Rank {
    /// The stable name of the operator, for diagnostics.
    pub fn name(&self) -> (r: &'static str)
        ensures
            r@ == "Rank"@,
    {
        "Rank"
    }

    /// Forward: the number of axes of the input as an array without axes.
    pub fn compute<'v>(&self, xs: &Vec<NdArrayView<'v>>) -> (r: ComputeResults<'v>)
        requires
            xs.len() >= 1,
            xs[0]@.rank() <= i64::MAX,
        ensures
            gives_owned(r@, Arr::scalar(xs[0]@.rank() as i64)),
    {
        vec![Ok(ArrRepr::Owned(backend::from_elem(xs[0].ndim() as i64)))]
    }
}

impl Size {
    /// The stable name of the operator, for diagnostics.
    pub fn name(&self) -> (r: &'static str)
        ensures
            r@ == "Size"@,
    {
        "Size"
    }

    /// Forward: the number of elements of the input as an array without
    /// axes.
    pub fn compute<'v>(&self, xs: &Vec<NdArrayView<'v>>) -> (r: ComputeResults<'v>)
        requires
            xs.len() >= 1,
        ensures
            gives_owned(r@, Arr::scalar(xs[0]@.data.len() as i64)),
    {
        vec![Ok(ArrRepr::Owned(backend::from_elem(xs[0].len() as i64)))]
    }
}

/// The extents that the elements of a shape array list.
pub fn to_extents(values: &NdArrayView) -> (r: Vec<usize>)
    requires
        forall|d: int| 0 <= d < values@.data.len() ==> 0 <= #[trigger] values@.data[d] <= usize::MAX,
    ensures
        r@ == as_extents(values@.data),
        forall|d: int| 0 <= d < r.len() ==> #[trigger] r[d] <= i64::MAX,
{
    let raw = values.to_vec();
    let mut out: Vec<usize> = Vec::with_capacity(raw.len());
    let mut d: usize = 0;
    while d < raw.len()
        invariant
            d <= raw.len(),
            raw@ == values@.data,
            forall|k: int| 0 <= k < raw.len() ==> 0 <= #[trigger] raw[k] <= usize::MAX,
            out@ == as_extents(raw@).subrange(0, d as int),
            forall|k: int| 0 <= k < out.len() ==> #[trigger] out[k] <= i64::MAX,
        decreases raw.len() - d,
    {
        out.push(raw[d] as usize);
        d += 1;
        assert(out@ =~= as_extents(raw@).subrange(0, d as int));
    }
    assert(out@ =~= as_extents(raw@));
    out
}

impl InferBinOpShape {
    /// The stable name of the operator, for diagnostics.
    pub fn name(&self) -> (r: &'static str)
        ensures
            r@ == "InferBinOpShape"@,
    {
        "InferBinOpShape"
    }

    /// Forward: `xs[0]` and `xs[1]` list the extents of two operands.  When
    /// neither is the shape of a scalar the output lists the larger extent
    /// on each axis; otherwise it is a view of the input that is not.
    pub fn compute<'v>(&self, xs: &Vec<NdArrayView<'v>>) -> (r: ComputeResults<'v>)
        requires
            xs.len() >= 2,
            forall|d: int| 0 <= d < xs[0]@.data.len() ==> 0 <= #[trigger] xs[0]@.data[d] <= usize::MAX,
            forall|d: int| 0 <= d < xs[1]@.data.len() ==> 0 <= #[trigger] xs[1]@.data[d] <= usize::MAX,
            !scalar_shape(as_extents(xs[0]@.data)) && !scalar_shape(as_extents(xs[1]@.data))
                ==> xs[0]@.data.len() == xs[1]@.data.len(),
        ensures
            !scalar_shape(as_extents(xs[0]@.data)) && !scalar_shape(as_extents(xs[1]@.data))
                ==> gives_owned(
                r@,
                Arr::vector(
                    extents(bin_op_shape(as_extents(xs[0]@.data), as_extents(xs[1]@.data))),
                ),
            ),
            !scalar_shape(as_extents(xs[0]@.data)) && scalar_shape(as_extents(xs[1]@.data))
                ==> gives_view(r@, xs[0]@) && gives_standard(r@) == view_is_standard(xs[0]),
            scalar_shape(as_extents(xs[0]@.data)) ==> gives_view(r@, xs[1]@) && gives_standard(r@)
                == view_is_standard(xs[1]),
    {
        let a_shape = to_extents(&xs[0]);
        let b_shape = to_extents(&xs[1]);
        let a_is_scalar = is_scalar_shape(&a_shape);
        let b_is_scalar = is_scalar_shape(&b_shape);
        if !a_is_scalar && !b_is_scalar {
            let a_rank: usize = xs[0].len();
            let ghost expected = extents(bin_op_shape(a_shape@, b_shape@));
            let mut max: Vec<i64> = Vec::with_capacity(a_rank);
            let mut d: usize = 0;
            while d < a_rank
                invariant
                    d <= a_rank,
                    a_rank == a_shape.len(),
                    a_rank == b_shape.len(),
                    !scalar_shape(a_shape@),
                    !scalar_shape(b_shape@),
                    forall|k: int| 0 <= k < a_shape.len() ==> #[trigger] a_shape[k] <= i64::MAX,
                    forall|k: int| 0 <= k < b_shape.len() ==> #[trigger] b_shape[k] <= i64::MAX,
                    expected == extents(bin_op_shape(a_shape@, b_shape@)),
                    max@ == expected.subrange(0, d as int),
                decreases a_rank - d,
            {
                let a: usize = a_shape[d];
                let b: usize = b_shape[d];
                max.push((if a >= b { a } else { b }) as i64);
                d += 1;
                assert(max@ =~= expected.subrange(0, d as int));
            }
            assert(max@ =~= expected);
            let dims: Vec<usize> = vec![a_rank];
            proof {
                assert(dims@ =~= seq![a_rank]);
                lemma_size_singleton(a_rank);
            }
            match backend::from_shape_vec(&dims, max) {
                Ok(a) => vec![Ok(ArrRepr::Owned(a))],
                Err(_) => unreached(),
            }
        } else if !a_is_scalar {
            vec![Ok(ArrRepr::View(xs[0].clone()))]
        } else {
            vec![Ok(ArrRepr::View(xs[1].clone()))]
        }
    }
}

impl Squeeze {
    /// The stable name of the operator, for diagnostics.
    pub fn name(&self) -> (r: &'static str)
        ensures
            r@ == "Squeeze"@,
    {
        "Squeeze"
    }

    /// Forward: a view of `xs[0]` without the axes that the elements of
    /// `xs[1]` name, each of which has extent one.  The entries are taken in
    /// ascending order.
    pub fn compute<'v>(&self, xs: &Vec<NdArrayView<'v>>) -> (r: ComputeResults<'v>)
        requires
            xs.len() >= 2,
            squeezable(xs[0]@.shape, sorted(xs[1]@.data), xs[1]@.data.len() as int),
        ensures
            gives_view(r@, squeeze(xs[0]@, xs[1]@.data)),
            view_is_standard(xs[0]) ==> gives_standard(r@),
    {
        let mut x = xs[0].clone();
        let axes = sorted_copy(xs[1].to_vec());
        let ghost shape0 = xs[0]@.shape;
        let ghost data0 = xs[0]@.data;
        let total: usize = xs[0].len();
        let rank: usize = xs[0].ndim();
        proof {
            lemma_sorted(xs[1]@.data);
        }
        let mut adjust: usize = 0;
        while adjust < axes.len()
            invariant
                adjust <= axes.len(),
                rank == shape0.len(),
                squeezable(shape0, axes@, axes.len() as int),
                data0.len() == size(shape0),
                x@ == (Arr { shape: squeezed_shape(shape0, axes@, adjust as int), data: data0 }),
                view_is_standard(xs[0]) ==> view_is_standard(x),
            decreases axes.len() - adjust,
        {
            let i: i64 = axes[adjust];
            let ndim: usize = x.ndim();
            proof {
                assert(squeezable(shape0, axes@, adjust as int));
                lemma_squeezed_shape(shape0, axes@, adjust as int);
                let prev = squeezed_shape(shape0, axes@, adjust as int);
                let a = squeeze_position(axes@[adjust as int] as int, prev.len() as int, adjust as int);
                assert(0 <= a < prev.len() && prev[a] == 1);
            }
            let axis: usize = if i < 0 {
                ndim - 1 - ((-(i + 1)) as usize) - adjust
            } else {
                (i as usize) - adjust
            };
            proof {
                lemma_index_unit_axis(x@, axis as int);
            }
            // the axis has extent one, so its only position is kept
            x = backend::index_axis_move(x, axis, 0);
            adjust += 1;
        }
        vec![Ok(ArrRepr::View(x))]
    }
}

impl ExpandDims {
    /// The stable name of the operator, for diagnostics.
    pub fn name(&self) -> (r: &'static str)
        ensures
            r@ == "ExpandDims"@,
    {
        "ExpandDims"
    }

    /// Forward: a view of `xs[0]`, which is stored contiguously in row-major
    /// order, with an axis of extent one inserted at each position that the
    /// elements of `xs[1]` name.  The entries are taken in ascending order.
    pub fn compute<'v>(&self, xs: &Vec<NdArrayView<'v>>) -> (r: ComputeResults<'v>)
        requires
            xs.len() >= 2,
            view_is_standard(xs[0]),
            expandable(xs[0]@.shape, sorted(xs[1]@.data), xs[1]@.data.len() as int),
        ensures
            gives_view(r@, expand_dims(xs[0]@, xs[1]@.data)),
            gives_standard(r@),
    {
        let ret = xs[0].clone();
        let axes = sorted_copy(xs[1].to_vec());
        let rank: usize = ret.ndim();
        let mut output_shape = ret.shape();
        let ghost shape0 = xs[0]@.shape;
        let total: usize = ret.len();
        proof {
            lemma_sorted(xs[1]@.data);
        }
        let mut k: usize = 0;
        while k < axes.len()
            invariant
                k <= axes.len(),
                rank == shape0.len(),
                axes.len() == xs[1]@.data.len(),
                expandable(shape0, axes@, axes.len() as int),
                output_shape@ == expanded_shape(shape0, axes@, k as int),
            decreases axes.len() - k,
        {
            let i: i64 = axes[k];
            proof {
                assert(expandable(shape0, axes@, k as int));
                lemma_expanded_shape(shape0, axes@, k as int);
                let p = expand_position(axes@[k as int] as int, shape0.len() as int);
                assert(0 <= p <= shape0.len() + k);
            }
            let axis: usize = if i < 0 {
                rank - 1 - ((-(i + 1)) as usize)
            } else {
                i as usize
            };
            output_shape.insert(axis, 1);
            k += 1;
        }
        proof {
            lemma_expanded_shape(shape0, axes@, axes.len() as int);
        }
        match backend::view_into_shape(ret, &output_shape) {
            Ok(v) => vec![Ok(ArrRepr::View(v))],
            Err(_) => unreached(),
        }
    }
}

impl SetDiff1D {
    /// The stable name of the operator, for diagnostics.
    pub fn name(&self) -> (r: &'static str)
        ensures
            r@ == "SetDiff1D"@,
    {
        "SetDiff1D"
    }

    /// Forward: the values that occur in `xs[0]` and not in `xs[1]`, once
    /// each and in increasing order, as a one-axis array.
    pub fn compute<'v>(&self, xs: &Vec<NdArrayView<'v>>) -> (r: ComputeResults<'v>)
        requires
            xs.len() >= 2,
        ensures
            r@.len() == 1,
            r@[0] matches Ok(ArrRepr::Owned(a)) && a@.shape == seq![a@.data.len() as usize]
                && is_set_difference(a@.data, xs[0]@.data, xs[1]@.data)
                && backend::array_is_standard(a),
    {
        broadcast use group_hash_axioms;

        let a = sorted_copy(xs[0].to_vec());
        let b = xs[1].to_vec();
        let bound: usize = xs[0].len();
        proof {
            lemma_sorted(xs[0]@.data);
        }
        let mut set_b: HashSet<i64> = HashSet::new();
        let mut k: usize = 0;
        while k < b.len()
            invariant
                k <= b.len(),
                forall|v: i64| set_b@.contains(v) <==> exists|j: int| 0 <= j < k && b[j] == v,
            decreases b.len() - k,
        {
            set_b.insert(b[k]);
            k += 1;
        }
        assert forall|v: i64| set_b@.contains(v) <==> b@.contains(v) by {
            if b@.contains(v) {
                let j = choose|j: int| 0 <= j < b@.len() && b@[j] == v;
                assert(0 <= j < k && b[j] == v);
            }
        }
        let mut vec: Vec<i64> = Vec::new();
        let mut t: usize = 0;
        while t < a.len()
            invariant
                t <= a.len(),
                a.len() <= bound,
                crate::sorting::ascending(a@),
                forall|v: i64| set_b@.contains(v) <==> b@.contains(v),
                vec.len() <= t,
                strictly_ascending(vec@),
                forall|j: int| 0 <= j < vec.len() ==> !b@.contains(#[trigger] vec[j]),
                forall|j: int|
                    0 <= j < vec.len() ==> exists|i: int| 0 <= i < t && a[i] == #[trigger] vec[j],
                forall|i: int| 0 <= i < t && !b@.contains(a[i]) ==> vec@.contains(#[trigger] a[i]),
                t > 0 && vec.len() > 0 ==> vec[vec.len() - 1] <= a[t - 1],
            decreases a.len() - t,
        {
            let e: i64 = a[t];
            if !set_b.contains(&e) {
                if vec.len() == 0 || vec[vec.len() - 1] != e {
                    proof {
                        assert forall|j: int| 0 <= j < vec.len() implies vec[j] < e by {
                            let i = choose|i: int| 0 <= i < t && a[i] == vec[j];
                            assert(vec[j] <= vec[vec.len() - 1]);
                        }
                    }
                    let ghost before = vec@;
                    vec.push(e);
                    proof {
                        assert forall|i: int| 0 <= i < t + 1 && !b@.contains(a[i]) implies vec@.contains(
                            #[trigger] a[i],
                        ) by {
                            if i < t {
                                let j = choose|j: int| 0 <= j < before.len() && before[j] == a[i];
                                assert(vec@[j] == a[i]);
                            } else {
                                assert(vec@[vec.len() - 1] == a[i]);
                            }
                        }
                        assert forall|j: int| 0 <= j < vec.len() implies exists|i: int|
                            0 <= i < t + 1 && a[i] == #[trigger] vec[j] by {
                            if j < before.len() {
                                let i = choose|i: int| 0 <= i < t && a[i] == before[j];
                                assert(0 <= i < t + 1 && a[i] == vec[j]);
                            } else {
                                assert(a[t as int] == vec[j]);
                            }
                        }
                    }
                } else {
                    assert(vec@[vec.len() - 1] == a[t as int]);
                }
            }
            t += 1;
        }
        let len: usize = vec.len();
        let dims: Vec<usize> = vec![len];
        proof {
            assert(dims@ =~= seq![len]);
            lemma_size_singleton(len);
            assert forall|v: i64| vec@.contains(v) <==> xs[0]@.data.contains(v) && !xs[1]@.data.contains(
                v,
            ) by {
                if vec@.contains(v) {
                    let j = choose|j: int| 0 <= j < vec@.len() && vec@[j] == v;
                    let i = choose|i: int| 0 <= i < t && a[i] == vec[j];
                    assert(a@.contains(v));
                }
                if xs[0]@.data.contains(v) && !xs[1]@.data.contains(v) {
                    assert(a@.contains(v));
                    let i = choose|i: int| 0 <= i < a@.len() && a@[i] == v;
                    assert(vec@.contains(a[i]));
                }
            }
        }
        match backend::from_shape_vec(&dims, vec) {
            Ok(ret) => vec![Ok(ArrRepr::Owned(ret))],
            Err(_) => unreached(),
        }
    }
}

/// Whether an array of shape `from` can be broadcast to the shape `to`.
pub fn can_broadcast(from: &Vec<usize>, to: &Vec<usize>) -> (b: bool)
    ensures
        b == broadcastable(from@, to@),
{
    if from.len() > to.len() {
        return false;
    }
    let shift: usize = to.len() - from.len();
    let mut d: usize = 0;
    while d < from.len()
        invariant
            d <= from.len() <= to.len(),
            shift == to.len() - from.len(),
            forall|k: int| 0 <= k < d ==> #[trigger] from[k] == to[k + to.len() - from.len()] || from[k] == 1,
        decreases from.len() - d,
    {
        if from[d] != to[d + shift] && from[d] != 1 {
            return false;
        }
        d += 1;
    }
    true
}

impl AddN {
    /// The stable name of the operator, for diagnostics.
    pub fn name(&self) -> (r: &'static str)
        ensures
            r@ == "AddN"@,
    {
        "AddN"
    }

    /// Forward: the sum of the inputs, element by element, each input after
    /// the first broadcast to the shape of the first.  A single input is
    /// handed back as a view of its own storage.  Fails with
    /// `IncompatibleShape` exactly when an input cannot be broadcast.
    pub fn compute<'v>(&self, xs: &Vec<NdArrayView<'v>>) -> (r: ComputeResults<'v>)
        requires
            xs.len() >= 1,
            summable(models(xs@)) ==> sum_fits(models(xs@)),
        ensures
            xs.len() == 1 ==> gives_view(r@, xs[0]@) && gives_standard(r@) == view_is_standard(
                xs[0],
            ),
            xs.len() > 1 && summable(models(xs@)) ==> gives_owned(
                r@,
                sum_n(models(xs@), xs.len() as int),
            ),
            xs.len() > 1 && !summable(models(xs@)) ==> gives_error(
                r@,
                ComputeError::IncompatibleShape,
            ),
    {
        if 1 == xs.len() {
            return vec![Ok(ArrRepr::View(xs[0].clone()))];
        }
        let shape = xs[0].shape();
        let ghost ms = models(xs@);
        let mut c: usize = 1;
        while c < xs.len()
            invariant
                1 <= c <= xs.len(),
                ms == models(xs@),
                shape@ == xs[0]@.shape,
                forall|k: int| 1 <= k < c ==> broadcastable((#[trigger] ms[k]).shape, ms[0].shape),
            decreases xs.len() - c,
        {
            if !can_broadcast(&xs[c].shape(), &shape) {
                proof {
                    assert(ms[c as int] == xs[c as int]@);
                }
                return vec![Err(ComputeError::IncompatibleShape)];
            }
            proof {
                assert(ms[c as int] == xs[c as int]@);
            }
            c += 1;
        }
        let mut base = crate::ndarray_ext::deep_copy(&xs[0]);
        let mut k: usize = 1;
        while k < xs.len()
            invariant
                1 <= k <= xs.len(),
                ms == models(xs@),
                summable(ms),
                sum_fits(ms),
                base@ == sum_n(ms, k as int),
                backend::array_is_standard(base),
            decreases xs.len() - k,
        {
            proof {
                lemma_sum_shape(ms, k as int);
                assert(ms[k as int] == xs[k as int]@);
            }
            backend::add_assign(&mut base, &xs[k]);
            k += 1;
        }
        vec![Ok(ArrRepr::Owned(base))]
    }
}

impl Clip {
    /// The stable name of the operator, for diagnostics.
    pub fn name(&self) -> (r: &'static str)
        ensures
            r@ == "Clip"@,
    {
        "Clip"
    }

    /// Forward: every element of the input clamped from above by `max`, then
    /// from below by `min`.
    pub fn compute<'v>(&self, xs: &Vec<NdArrayView<'v>>) -> (r: ComputeResults<'v>)
        requires
            xs.len() >= 1,
        ensures
            gives_owned(r@, clip(xs[0]@, self.min, self.max)),
    {
        let values = xs[0].to_vec();
        let shape = xs[0].shape();
        let mut out: Vec<i64> = Vec::with_capacity(values.len());
        let mut p: usize = 0;
        while p < values.len()
            invariant
                p <= values.len(),
                out@ == clip(xs[0]@, self.min, self.max).data.subrange(0, p as int),
                values@ == xs[0]@.data,
            decreases values.len() - p,
        {
            let a: i64 = values[p];
            let capped: i64 = if a <= self.max {
                a
            } else {
                self.max
            };
            out.push(if capped >= self.min { capped } else { self.min });
            p += 1;
            assert(out@ =~= clip(xs[0]@, self.min, self.max).data.subrange(0, p as int));
        }
        assert(out@ =~= clip(xs[0]@, self.min, self.max).data);
        match backend::from_shape_vec(&shape, out) {
            Ok(ret) => vec![Ok(ArrRepr::Owned(ret))],
            Err(_) => unreached(),
        }
    }
}

impl ClipGrad {
    /// The stable name of the operator, for diagnostics.
    pub fn name(&self) -> (r: &'static str)
        ensures
            r@ == "ClipGrad"@,
    {
        "ClipGrad"
    }

    /// Backward of a clip: `xs[0]` holds the input of the clip and `xs[1]`
    /// the incoming gradient.  The output holds the gradient where the input
    /// lies strictly between `min` and `max`, and zero elsewhere.  Fails
    /// with `IncompatibleShape` exactly when the gradient cannot be
    /// broadcast to the shape of the input.
    pub fn compute<'v>(&self, xs: &Vec<NdArrayView<'v>>) -> (r: ComputeResults<'v>)
        requires
            xs.len() >= 2,
        ensures
            broadcastable(xs[1]@.shape, xs[0]@.shape) ==> gives_owned(
                r@,
                clip_grad(xs[0]@, xs[1]@, self.min, self.max),
            ),
            !broadcastable(xs[1]@.shape, xs[0]@.shape) ==> gives_error(
                r@,
                ComputeError::IncompatibleShape,
            ),
    {
        let values = xs[0].to_vec();
        let shape = xs[0].shape();
        if !can_broadcast(&xs[1].shape(), &shape) {
            return vec![Err(ComputeError::IncompatibleShape)];
        }
        let ghost gate = map_elements(xs[0]@, |a: i64| inside(a, self.min, self.max));
        let mut out: Vec<i64> = Vec::with_capacity(values.len());
        let mut p: usize = 0;
        while p < values.len()
            invariant
                p <= values.len(),
                gate == map_elements(xs[0]@, |a: i64| inside(a, self.min, self.max)),
                out@ == gate.data.subrange(0, p as int),
                values@ == xs[0]@.data,
            decreases values.len() - p,
        {
            let x: i64 = values[p];
            // x > min && x < max
            out.push(if x > self.min && x < self.max { 1 } else { 0 });
            p += 1;
            assert(out@ =~= gate.data.subrange(0, p as int));
        }
        assert(out@ =~= gate.data);
        let mut ret = match backend::from_shape_vec(&shape, out) {
            Ok(ret) => ret,
            Err(_) => unreached(),
        };
        proof {
            let x = xs[0]@;
            let gy = xs[1]@;
            let want = clip_grad(x, gy, self.min, self.max);
            let got = mul_broadcast(gate, gy);
            lemma_build(
                x.shape,
                |idx: Seq<int>|
                    (gate.at(idx) * gy.at(broadcast_index(gy.shape, gate.shape, idx))) as i64,
            );
            lemma_build(
                x.shape,
                |idx: Seq<int>|
                    if self.min < x.at(idx) && x.at(idx) < self.max {
                        gy.at(broadcast_index(gy.shape, x.shape, idx))
                    } else {
                        0
                    },
            );
            assert forall|idx: Seq<int>| in_bounds(x.shape, idx) implies fits_i64(
                #[trigger] gate.at(idx) * gy.at(broadcast_index(gy.shape, x.shape, idx)),
            ) && got.at(idx) == want.at(idx) by {
                lemma_offset_bounds(x.shape, idx);
                let g = gy.at(broadcast_index(gy.shape, x.shape, idx));
                assert(gate.at(idx) == inside(x.at(idx), self.min, self.max));
                assert(1 * g == g && 0 * g == 0);
            }
            lemma_arr_ext(got, want);
        }
        backend::mul_assign(&mut ret, &xs[1]);
        vec![Ok(ArrRepr::Owned(ret))]
    }
}

impl InferBinOpShape {
    /// Backward: no input has a gradient.
    pub fn grad(&self, g: &mut Graph, gy: usize, inputs: &Vec<usize>, output: usize) -> (r: Vec<Option<usize>>)
        requires
            old(g).ready(gy, inputs@, output),
        ensures
            *final(g) == *old(g),
            r@ == Seq::new(inputs.len() as nat, |k: int| None::<usize>),
    {
        no_gradients(inputs.len())
    }
}

impl Shape {
    /// Backward: the output holds no numeric content of the input, so no input has a gradient.
    pub fn grad(&self, g: &mut Graph, gy: usize, inputs: &Vec<usize>, output: usize) -> (r: Vec<Option<usize>>)
        requires
            old(g).ready(gy, inputs@, output),
        ensures
            *final(g) == *old(g),
            r@ == Seq::new(inputs.len() as nat, |k: int| None::<usize>),
    {
        no_gradients(inputs.len())
    }
}

impl Rank {
    /// Backward: the output holds no numeric content of the input, so no input has a gradient.
    pub fn grad(&self, g: &mut Graph, gy: usize, inputs: &Vec<usize>, output: usize) -> (r: Vec<Option<usize>>)
        requires
            old(g).ready(gy, inputs@, output),
        ensures
            *final(g) == *old(g),
            r@ == Seq::new(inputs.len() as nat, |k: int| None::<usize>),
    {
        no_gradients(inputs.len())
    }
}

impl Size {
    /// Backward: the output holds no numeric content of the input, so no input has a gradient.
    pub fn grad(&self, g: &mut Graph, gy: usize, inputs: &Vec<usize>, output: usize) -> (r: Vec<Option<usize>>)
        requires
            old(g).ready(gy, inputs@, output),
        ensures
            *final(g) == *old(g),
            r@ == Seq::new(inputs.len() as nat, |k: int| None::<usize>),
    {
        no_gradients(inputs.len())
    }
}

impl SetDiff1D {
    /// Backward: no input has a gradient.
    pub fn grad(&self, g: &mut Graph, gy: usize, inputs: &Vec<usize>, output: usize) -> (r: Vec<Option<usize>>)
        requires
            old(g).ready(gy, inputs@, output),
        ensures
            *final(g) == *old(g),
            r@ == Seq::new(inputs.len() as nat, |k: int| None::<usize>),
    {
        no_gradients(inputs.len())
    }
}

impl IndexOpGrad {
    /// Backward: no input has a gradient.
    pub fn grad(&self, g: &mut Graph, gy: usize, inputs: &Vec<usize>, output: usize) -> (r: Vec<Option<usize>>)
        requires
            old(g).ready(gy, inputs@, output),
        ensures
            *final(g) == *old(g),
            r@ == Seq::new(inputs.len() as nat, |k: int| None::<usize>),
    {
        no_gradients(inputs.len())
    }
}

impl GatherGrad {
    /// Backward: no input has a gradient.
    pub fn grad(&self, g: &mut Graph, gy: usize, inputs: &Vec<usize>, output: usize) -> (r: Vec<Option<usize>>)
        requires
            old(g).ready(gy, inputs@, output),
        ensures
            *final(g) == *old(g),
            r@ == Seq::new(inputs.len() as nat, |k: int| None::<usize>),
    {
        no_gradients(inputs.len())
    }
}

impl ClipGrad {
    /// Backward: no input has a gradient.
    pub fn grad(&self, g: &mut Graph, gy: usize, inputs: &Vec<usize>, output: usize) -> (r: Vec<Option<usize>>)
        requires
            old(g).ready(gy, inputs@, output),
        ensures
            *final(g) == *old(g),
            r@ == Seq::new(inputs.len() as nat, |k: int| None::<usize>),
    {
        no_gradients(inputs.len())
    }
}

impl ConcatGrad {
    /// Backward: no input has a gradient.
    pub fn grad(&self, g: &mut Graph, gy: usize, inputs: &Vec<usize>, output: usize) -> (r: Vec<Option<usize>>)
        requires
            old(g).ready(gy, inputs@, output),
        ensures
            *final(g) == *old(g),
            r@ == Seq::new(inputs.len() as nat, |k: int| None::<usize>),
    {
        no_gradients(inputs.len())
    }
}

impl SplitGrad {
    /// Backward: no input has a gradient.
    pub fn grad(&self, g: &mut Graph, gy: usize, inputs: &Vec<usize>, output: usize) -> (r: Vec<Option<usize>>)
        requires
            old(g).ready(gy, inputs@, output),
        ensures
            *final(g) == *old(g),
            r@ == Seq::new(inputs.len() as nat, |k: int| None::<usize>),
    {
        no_gradients(inputs.len())
    }
}

impl SliceGrad {
    /// Backward: no input has a gradient.
    pub fn grad(&self, g: &mut Graph, gy: usize, inputs: &Vec<usize>, output: usize) -> (r: Vec<Option<usize>>)
        requires
            old(g).ready(gy, inputs@, output),
        ensures
            *final(g) == *old(g),
            r@ == Seq::new(inputs.len() as nat, |k: int| None::<usize>),
    {
        no_gradients(inputs.len())
    }
}

impl Reshape {
    /// Backward: the incoming gradient reshaped to the shape of the first
    /// input, which a `Shape` node recovers; the requested shape has no
    /// gradient.
    pub fn grad(&self, g: &mut Graph, gy: usize, inputs: &Vec<usize>, output: usize) -> (r: Vec<Option<usize>>)
        requires
            old(g).ready(gy, inputs@, output),
            inputs.len() == 2,
        ensures
            final(g).extends(*old(g), 2),
            final(g).nodes[old(g).size()].is(Operator::Shape(Shape), seq![inputs[0]], None),
            final(g).nodes[old(g).size() + 1].is(
                Operator::Reshape(Reshape),
                seq![gy, old(g).size() as usize],
                None,
            ),
            r@ == seq![Some((old(g).size() + 1) as usize), None],
    {
        let shape = g.unary(Operator::Shape(Shape), inputs[0]);
        let gx = g.binary(Operator::Reshape(Reshape), gy, shape);
        vec![Some(gx), None]
    }
}

impl IndexOp {
    /// Backward: a dedicated operator applied to the input and the incoming
    /// gradient, with the declared shape of the input.
    pub fn grad(&self, g: &mut Graph, gy: usize, inputs: &Vec<usize>, output: usize) -> (r: Vec<Option<usize>>)
        requires
            old(g).ready(gy, inputs@, output),
            inputs.len() == 1,
        ensures
            final(g).extends(*old(g), 1),
            final(g).nodes[old(g).size()].is(
                Operator::IndexOpGrad(IndexOpGrad { index: self.index }),
                seq![inputs[0], gy],
                old(g).shape_of(inputs[0] as int),
            ),
            r@ == seq![Some(old(g).size() as usize)],
    {
        let op = IndexOpGrad { index: self.index };
        let shape = g.shape(inputs[0]);
        let gx = g.build(Operator::IndexOpGrad(op), vec![inputs[0], gy], shape);
        vec![Some(gx)]
    }
}

impl Gather {
    /// Backward: the indices have no gradient; that of the array gathered
    /// from is a dedicated operator applied to the indices, the array and
    /// the incoming gradient, with the declared shape of the array.
    pub fn grad(&self, g: &mut Graph, gy: usize, inputs: &Vec<usize>, output: usize) -> (r: Vec<Option<usize>>)
        requires
            old(g).ready(gy, inputs@, output),
            inputs.len() == 2,
        ensures
            final(g).extends(*old(g), 1),
            final(g).nodes[old(g).size()].is(
                Operator::GatherGrad(GatherGrad { axis: self.axis }),
                seq![inputs[0], inputs[1], gy],
                old(g).shape_of(inputs[1] as int),
            ),
            r@ == seq![None, Some(old(g).size() as usize)],
    {
        let shape = g.shape(inputs[1]);
        let gx = g.build(
            Operator::GatherGrad(GatherGrad { axis: self.axis }),
            vec![inputs[0], inputs[1], gy],
            shape,
        );
        vec![None, Some(gx)]
    }
}

impl AddN {
    /// Backward: every input receives the incoming gradient itself; no node
    /// is added.
    pub fn grad(&self, g: &mut Graph, gy: usize, inputs: &Vec<usize>, output: usize) -> (r: Vec<Option<usize>>)
        requires
            old(g).ready(gy, inputs@, output),
        ensures
            *final(g) == *old(g),
            r@ == Seq::new(inputs.len() as nat, |k: int| Some(gy)),
    {
        let mut out: Vec<Option<usize>> = Vec::with_capacity(inputs.len());
        let mut k: usize = 0;
        while k < inputs.len()
            invariant
                k <= inputs.len(),
                out@ == Seq::new(k as nat, |j: int| Some(gy)),
            decreases inputs.len() - k,
        {
            out.push(Some(gy));
            k += 1;
            assert(out@ =~= Seq::new(k as nat, |j: int| Some(gy)));
        }
        out
    }
}

impl Clip {
    /// Backward: a dedicated operator applied to the input and the incoming
    /// gradient, with the declared shape of the gradient.
    pub fn grad(&self, g: &mut Graph, gy: usize, inputs: &Vec<usize>, output: usize) -> (r: Vec<Option<usize>>)
        requires
            old(g).ready(gy, inputs@, output),
            inputs.len() == 1,
        ensures
            final(g).extends(*old(g), 1),
            final(g).nodes[old(g).size()].is(
                Operator::ClipGrad(ClipGrad { min: self.min, max: self.max }),
                seq![inputs[0], gy],
                old(g).shape_of(gy as int),
            ),
            r@ == seq![Some(old(g).size() as usize)],
    {
        let shape = g.shape(gy);
        let gx = g.build(
            Operator::ClipGrad(ClipGrad { min: self.min, max: self.max }),
            vec![inputs[0], gy],
            shape,
        );
        vec![Some(gx)]
    }
}

impl Concat {
    /// Backward: one dedicated operator per input, each applied to the
    /// incoming gradient followed by all inputs and told which slot it
    /// recovers, with the declared shape of the input in that slot.
    pub fn grad(&self, g: &mut Graph, gy: usize, inputs: &Vec<usize>, output: usize) -> (r: Vec<Option<usize>>)
        requires
            old(g).ready(gy, inputs@, output),
        ensures
            final(g).extends(*old(g), inputs.len() as int),
            forall|i: int|
                0 <= i < inputs.len() ==> (#[trigger] final(g).nodes[old(g).size() + i]).is(
                    Operator::ConcatGrad(ConcatGrad { axis: self.axis, index: i as usize }),
                    seq![gy] + inputs@,
                    old(g).shape_of(inputs[i] as int),
                ),
            r@ == Seq::new(inputs.len() as nat, |i: int| Some((old(g).size() + i) as usize)),
    {
        let ghost start = g.size();
        let ghost before = *g;
        let mut out: Vec<Option<usize>> = Vec::with_capacity(inputs.len());
        let mut i: usize = 0;
        while i < inputs.len()
            invariant
                i <= inputs.len(),
                start == before.size(),
                before.ready(gy, inputs@, output),
                g.extends(before, i as int),
                forall|j: int|
                    0 <= j < i ==> (#[trigger] g.nodes[start + j]).is(
                        Operator::ConcatGrad(ConcatGrad { axis: self.axis, index: j as usize }),
                        seq![gy] + inputs@,
                        before.shape_of(inputs[j] as int),
                    ),
                out@ == Seq::new(i as nat, |j: int| Some((start + j) as usize)),
            decreases inputs.len() - i,
        {
            // [gy, x1, x2, x3, ...]
            let mut merged_inputs: Vec<usize> = Vec::new();
            merged_inputs.push(gy);
            let mut k: usize = 0;
            while k < inputs.len()
                invariant
                    k <= inputs.len(),
                    merged_inputs@ == seq![gy] + inputs@.subrange(0, k as int),
                decreases inputs.len() - k,
            {
                merged_inputs.push(inputs[k]);
                k += 1;
                assert(merged_inputs@ =~= seq![gy] + inputs@.subrange(0, k as int));
            }
            assert(merged_inputs@ =~= seq![gy] + inputs@);
            let shape = g.shape(inputs[i]);
            let ghost mid = *g;
            let gx = g.build(
                Operator::ConcatGrad(ConcatGrad { index: i, axis: self.axis }),
                merged_inputs,
                shape,
            );
            out.push(Some(gx));
            i += 1;
            proof {
                assert(out@ =~= Seq::new(i as nat, |j: int| Some((start + j) as usize)));
                assert forall|j: int| 0 <= j < i implies (#[trigger] g.nodes[start + j]).is(
                    Operator::ConcatGrad(ConcatGrad { axis: self.axis, index: j as usize }),
                    seq![gy] + inputs@,
                    before.shape_of(inputs[j] as int),
                ) by {
                    if j < i - 1 {
                        assert(g.nodes[start + j] == mid.nodes[start + j]);
                    }
                }
            }
        }
        out
    }
}

impl Tile {
    /// Backward: the sum of the incoming gradient along the axis, which is
    /// kept.
    pub fn grad(&self, g: &mut Graph, gy: usize, inputs: &Vec<usize>, output: usize) -> (r: Vec<Option<usize>>)
        requires
            old(g).ready(gy, inputs@, output),
            inputs.len() == 1,
        ensures
            final(g).extends(*old(g), 1),
            final(g).nodes[old(g).size()].is(
                Operator::ReduceSum(ReduceSum { axis: self.axis, keep_dims: true }),
                seq![gy],
                None,
            ),
            r@ == seq![Some(old(g).size() as usize)],
    {
        let gx = g.unary(Operator::ReduceSum(ReduceSum { axis: self.axis, keep_dims: true }), gy);
        vec![Some(gx)]
    }
}

impl Split {
    /// Backward: a dedicated operator applied to the input and the incoming
    /// gradient, with the declared shape of the input.
    pub fn grad(&self, g: &mut Graph, gy: usize, inputs: &Vec<usize>, output: usize) -> (r: Vec<Option<usize>>)
        requires
            old(g).ready(gy, inputs@, output),
            inputs.len() == 1,
        ensures
            final(g).extends(*old(g), 1),
            final(g).nodes[old(g).size()].is(
                Operator::SplitGrad(
                    SplitGrad {
                        axis: self.axis,
                        start_index: self.start_index,
                        end_index: self.end_index,
                    },
                ),
                seq![inputs[0], gy],
                old(g).shape_of(inputs[0] as int),
            ),
            r@ == seq![Some(old(g).size() as usize)],
    {
        let op = SplitGrad {
            axis: self.axis,
            start_index: self.start_index,
            end_index: self.end_index,
        };
        let shape = g.shape(inputs[0]);
        let gx = g.build(Operator::SplitGrad(op), vec![inputs[0], gy], shape);
        vec![Some(gx)]
    }
}

impl Slice {
    /// Backward: a dedicated operator with the same specification, applied
    /// to the input and the incoming gradient, with the declared shape of
    /// the input.
    pub fn grad(&self, g: &mut Graph, gy: usize, inputs: &Vec<usize>, output: usize) -> (r: Vec<Option<usize>>)
        requires
            old(g).ready(gy, inputs@, output),
            inputs.len() == 1,
        ensures
            final(g).extends(*old(g), 1),
            final(g).nodes[old(g).size()].is(
                Operator::SliceGrad(SliceGrad { indices: self.indices }),
                seq![inputs[0], gy],
                old(g).shape_of(inputs[0] as int),
            ),
            r@ == seq![Some(old(g).size() as usize)],
    {
        let mut indices: Vec<SliceOrIndex> = Vec::with_capacity(self.indices.len());
        let mut d: usize = 0;
        while d < self.indices.len()
            invariant
                d <= self.indices.len(),
                indices@ == self.indices@.subrange(0, d as int),
            decreases self.indices.len() - d,
        {
            indices.push(self.indices[d]);
            d += 1;
            assert(indices@ =~= self.indices@.subrange(0, d as int));
        }
        assert(indices@ =~= self.indices@);
        let op = SliceGrad { indices };
        let shape = g.shape(inputs[0]);
        let gx = g.build(Operator::SliceGrad(op), vec![inputs[0], gy], shape);
        vec![Some(gx)]
    }
}

impl Squeeze {
    /// Backward: the incoming gradient expanded at the same axes; the axes
    /// have no gradient.
    pub fn grad(&self, g: &mut Graph, gy: usize, inputs: &Vec<usize>, output: usize) -> (r: Vec<Option<usize>>)
        requires
            old(g).ready(gy, inputs@, output),
            inputs.len() == 2,
        ensures
            final(g).extends(*old(g), 1),
            final(g).nodes[old(g).size()].is(
                Operator::ExpandDims(ExpandDims),
                seq![gy, inputs[1]],
                None,
            ),
            r@ == seq![Some(old(g).size() as usize), None],
    {
        let gx = g.binary(Operator::ExpandDims(ExpandDims), gy, inputs[1]);
        vec![Some(gx), None]
    }
}

impl ExpandDims {
    /// Backward: the incoming gradient squeezed at the same axes; the axes
    /// have no gradient.
    pub fn grad(&self, g: &mut Graph, gy: usize, inputs: &Vec<usize>, output: usize) -> (r: Vec<Option<usize>>)
        requires
            old(g).ready(gy, inputs@, output),
            inputs.len() == 2,
        ensures
            final(g).extends(*old(g), 1),
            final(g).nodes[old(g).size()].is(Operator::Squeeze(Squeeze), seq![gy, inputs[1]], None),
            r@ == seq![Some(old(g).size() as usize), None],
    {
        let gx = g.binary(Operator::Squeeze(Squeeze), gy, inputs[1]);
        vec![Some(gx), None]
    }
}

} // verus!
