//! Reductions, which the gradients of the array operators are built from.

use crate::backend;
use crate::ndarray_ext::{normalize_negative_axis, NdArrayView};
use crate::op::{gives_owned, ArrRepr, ComputeResults};
use crate::semantics::{axis_sum_fits, lemma_reduce_sum_keep_dims, reduce_sum};
use crate::shape::{lemma_representable_without_axis, normalized_axis, valid_axis};
use vstd::prelude::*;

verus! {

/// Sum along one axis.
pub struct ReduceSum {
    pub axis: isize,
    pub keep_dims: bool,
}

impl ReduceSum {
    /// The stable name of the operator, for diagnostics.
    pub fn name(&self) -> (r: &'static str)
        ensures
            r@ == "ReduceSum"@,
    {
        "ReduceSum"
    }

    /// Forward: the sums of the elements of the input along the axis.  The
    /// axis is dropped from the output, or kept with extent one when
    /// `keep_dims` is set.
    pub fn compute<'v>(&self, xs: &Vec<NdArrayView<'v>>) -> (r: ComputeResults<'v>)
        requires
            xs.len() >= 1,
            valid_axis(self.axis as int, xs[0]@.rank()),
            axis_sum_fits(xs[0]@, normalized_axis(self.axis as int, xs[0]@.rank())),
        ensures
            gives_owned(
                r@,
                reduce_sum(
                    xs[0]@,
                    normalized_axis(self.axis as int, xs[0]@.rank()),
                    self.keep_dims,
                ),
            ),
    {
        let x = &xs[0];
        let axis = normalize_negative_axis(self.axis, x.ndim());
        let summed = backend::sum_axis(x, axis);
        if self.keep_dims {
            let mut shape = x.shape();
            shape.set(axis, 1);
            proof {
                lemma_reduce_sum_keep_dims(x@, axis as int);
                lemma_representable_without_axis(x@.shape, axis as int);
            }
            match backend::array_into_shape(summed, &shape) {
                Ok(y) => vec![Ok(ArrRepr::Owned(y))],
                Err(_) => vstd::pervasive::unreached(),
            }
        } else {
            vec![Ok(ArrRepr::Owned(summed))]
        }
    }
}

} // verus!
