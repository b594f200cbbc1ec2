//! The mathematical model of a dense array: a shape and the elements in
//! row-major order.

use crate::shape::{in_bounds, lemma_offset_bounds, lemma_unravel, offset, size, unravel};
use vstd::prelude::*;

verus! {

/// What an array is to a contract: its extents, and its elements listed in
/// logical (row-major) order.
pub struct Arr {
    pub shape: Seq<usize>,
    pub data: Seq<i64>,
}

impl Arr {
    /// The array holds exactly as many elements as its shape asks for.
    pub open spec fn wf(self) -> bool {
        self.data.len() == size(self.shape)
    }

    pub open spec fn rank(self) -> int {
        self.shape.len() as int
    }

    /// The element at multi-index `idx`.
    pub open spec fn at(self, idx: Seq<int>) -> i64 {
        self.data[offset(self.shape, idx)]
    }

    /// The array of the given shape whose element at each multi-index `idx`
    /// is `f(idx)`.
    pub open spec fn build(shape: Seq<usize>, f: spec_fn(Seq<int>) -> i64) -> Arr {
        Arr { shape, data: Seq::new(size(shape) as nat, |p: int| f(unravel(shape, p))) }
    }

    /// The same elements in the same order under another shape.
    pub open spec fn reshaped(self, shape: Seq<usize>) -> Arr {
        Arr { shape, data: self.data }
    }

    /// The array of the given shape with every element equal to `value`.
    pub open spec fn filled(shape: Seq<usize>, value: i64) -> Arr {
        Arr { shape, data: Seq::new(size(shape) as nat, |p: int| value) }
    }

    /// The array without axes that holds the single element `value`.
    pub open spec fn scalar(value: i64) -> Arr {
        Arr { shape: Seq::empty(), data: seq![value] }
    }

    /// The one-axis array that lists `values`.
    pub open spec fn vector(values: Seq<i64>) -> Arr {
        Arr { shape: seq![values.len() as usize], data: values }
    }
}

/// `Arr::build` makes a well-formed array whose element at an in-bounds
/// multi-index is what the function gives there.
pub proof fn lemma_build(shape: Seq<usize>, f: spec_fn(Seq<int>) -> i64)
    ensures
        Arr::build(shape, f).wf(),
        Arr::build(shape, f).shape == shape,
        forall|idx: Seq<int>| in_bounds(shape, idx) ==> #[trigger] Arr::build(shape, f).at(idx) == f(idx),
{
    crate::shape::lemma_size_nonnegative(shape);
    assert forall|idx: Seq<int>| in_bounds(shape, idx) implies #[trigger] Arr::build(shape, f).at(
        idx,
    ) == f(idx) by {
        lemma_offset_bounds(shape, idx);
        crate::shape::lemma_unravel_offset(shape, idx);
    }
}

/// Two well-formed arrays of one shape that agree at every in-bounds
/// multi-index are the same array.
pub proof fn lemma_arr_ext(a: Arr, b: Arr)
    requires
        a.wf(),
        b.wf(),
        a.shape == b.shape,
        forall|idx: Seq<int>| in_bounds(a.shape, idx) ==> #[trigger] a.at(idx) == b.at(idx),
    ensures
        a == b,
{
    assert forall|p: int| 0 <= p < a.data.len() implies a.data[p] == b.data[p] by {
        lemma_unravel(a.shape, p);
        let idx = unravel(a.shape, p);
        assert(a.at(idx) == b.at(idx));
    }
    assert(a.data =~= b.data);
}

/// A filled array is well formed and holds the value everywhere.
pub proof fn lemma_filled(shape: Seq<usize>, value: i64)
    ensures
        Arr::filled(shape, value).wf(),
        forall|idx: Seq<int>| in_bounds(shape, idx) ==> #[trigger] Arr::filled(shape, value).at(idx) == value,
{
    crate::shape::lemma_size_nonnegative(shape);
    assert forall|idx: Seq<int>| in_bounds(shape, idx) implies #[trigger] Arr::filled(
        shape,
        value,
    ).at(idx) == value by {
        lemma_offset_bounds(shape, idx);
    }
}

} // verus!
