//! What an operator's forward computation hands back.

use crate::backend::{array_is_standard, view_is_standard, NdArray, NdArrayView};
use crate::model::Arr;
use crate::shape::representable;
use vstd::prelude::*;

verus! {

/// Why a forward computation could not produce its output.
#[derive(Debug, Clone, Copy, PartialEq, Eq, Structural)]
pub enum ComputeError {
    /// The shapes of the inputs do not go together.
    IncompatibleShape,
    /// The requested shape does not hold the number of elements of the input.
    ReshapeMismatch,
    /// A slice specification has the wrong number of entries or a zero step.
    MalformedSlice,
}

/// An array produced by a forward computation: either freshly allocated, or
/// a view into the storage of one of the inputs.
pub enum ArrRepr<'v> {
    Owned(NdArray),
    View(NdArrayView<'v>),
}

impl<'v> View for ArrRepr<'v> {
    type V = Arr;

    open spec fn view(&self) -> Arr {
        match *self {
            ArrRepr::Owned(a) => a@,
            ArrRepr::View(v) => v@,
        }
    }
}

impl<'v> ArrRepr<'v> {
    /// Whether the array is a view into the storage of an input.
    pub fn is_view(&self) -> (b: bool)
        ensures
            b == (*self is View),
    {
        match self {
            ArrRepr::Owned(_) => false,
            ArrRepr::View(_) => true,
        }
    }

    /// A view of the array, whichever way it is held.
    pub fn as_view<'a>(&'a self) -> (v: NdArrayView<'a>)
        ensures
            v@ == self@,
            view_is_standard(v) == match *self {
                ArrRepr::Owned(a) => array_is_standard(a),
                ArrRepr::View(w) => view_is_standard(w),
            },
    {
        match self {
            ArrRepr::Owned(a) => a.as_view(),
            ArrRepr::View(w) => crate::backend::reborrow(w),
        }
    }

    /// The extents of the array, one per axis.
    pub fn shape(&self) -> (s: Vec<usize>)
        ensures
            s@ == self@.shape,
            representable(s@),
    {
        match self {
            ArrRepr::Owned(a) => a.shape(),
            ArrRepr::View(w) => w.shape(),
        }
    }

    /// The elements in row-major order.
    pub fn to_vec(&self) -> (v: Vec<i64>)
        ensures
            v@ == self@.data,
            self@.wf(),
    {
        match self {
            ArrRepr::Owned(a) => a.to_vec(),
            ArrRepr::View(w) => w.to_vec(),
        }
    }
}

/// One result per output of the operator.
pub type ComputeResults<'v> = Vec<Result<ArrRepr<'v>, ComputeError>>;

/// The computation has one output: a freshly allocated array equal to `t`,
/// stored contiguously in logical order.
pub open spec fn gives_owned(r: Seq<Result<ArrRepr, ComputeError>>, t: Arr) -> bool {
    &&& r.len() == 1
    &&& r[0] matches Ok(ArrRepr::Owned(a))
    &&& a@ == t
    &&& array_is_standard(a)
}

/// The computation has one output: a view equal to `t`.
pub open spec fn gives_view(r: Seq<Result<ArrRepr, ComputeError>>, t: Arr) -> bool {
    &&& r.len() == 1
    &&& r[0] matches Ok(ArrRepr::View(v))
    &&& v@ == t
}

/// The one output of the computation is stored contiguously in row-major
/// order.
pub open spec fn gives_standard(r: Seq<Result<ArrRepr, ComputeError>>) -> bool {
    &&& r.len() == 1
    &&& match r[0] {
        Ok(ArrRepr::Owned(a)) => array_is_standard(a),
        Ok(ArrRepr::View(v)) => view_is_standard(v),
        Err(_) => false,
    }
}

/// The computation has one output, which is the error `e`.
pub open spec fn gives_error(r: Seq<Result<ArrRepr, ComputeError>>, e: ComputeError) -> bool {
    &&& r.len() == 1
    &&& r[0] == Err::<ArrRepr, ComputeError>(e)
}

} // verus!
