//! Per-axis slice specifications and what they select.

use crate::model::{lemma_arr_ext, lemma_build, Arr};
use crate::shape::in_bounds;
use vstd::prelude::*;

verus! {

/// What to take along one axis: a range with a step, or a single position.
///
/// In a range, `end` is exclusive and `None` stands for the end of the axis.
/// Negative `start`, `end` and positions count from the end of the axis.  A
/// negative step walks the range backwards, starting from its last position.
#[derive(Clone, Copy, Debug, PartialEq, Eq)]
pub enum SliceOrIndex {
    Slice { start: isize, end: Option<isize>, step: isize },
    Index(isize),
}

/// The position that a possibly negative position denotes on an axis of
/// extent `n`.
pub open spec fn abs_index(n: int, i: int) -> int {
    if i < 0 {
        n + i
    } else {
        i
    }
}

pub open spec fn abs(x: int) -> int {
    if x < 0 {
        -x
    } else {
        x
    }
}

impl SliceOrIndex {
    /// The whole axis, in order.
    pub open spec fn full() -> SliceOrIndex {
        SliceOrIndex::Slice { start: 0, end: None, step: 1 }
    }

    /// First position of the range that the entry covers on an axis of
    /// extent `n`.
    pub open spec fn lo(self, n: int) -> int {
        match self {
            SliceOrIndex::Slice { start, end, step } => abs_index(n, start as int),
            SliceOrIndex::Index(i) => abs_index(n, i as int),
        }
    }

    /// End (exclusive) of the range that the entry covers; a range whose end
    /// lies before its start is empty.
    pub open spec fn hi(self, n: int) -> int {
        match self {
            SliceOrIndex::Slice { start, end, step } => {
                let e = match end {
                    Some(e) => abs_index(n, e as int),
                    None => n,
                };
                if e < self.lo(n) {
                    self.lo(n)
                } else {
                    e
                }
            },
            SliceOrIndex::Index(i) => self.lo(n) + 1,
        }
    }

    /// Distance between consecutive selected positions; negative when the
    /// range is walked backwards.
    pub open spec fn stride(self) -> int {
        match self {
            SliceOrIndex::Slice { start, end, step } => step as int,
            SliceOrIndex::Index(i) => 1,
        }
    }

    /// The step is not zero.
    pub open spec fn well_formed(self) -> bool {
        self.stride() != 0
    }

    /// The entry can be applied to an axis of extent `n`: its range lies
    /// within the axis, its step is at most the extent in magnitude, and a
    /// range that is walked backwards is not empty.
    pub open spec fn in_range(self, n: int) -> bool {
        match self {
            SliceOrIndex::Slice { start, end, step } => {
                &&& -n <= start <= n
                &&& (end matches Some(e) ==> -n <= e <= n)
                &&& 1 <= abs(step as int)
                &&& abs(step as int) <= n || abs(step as int) == 1
                &&& (step < 0 ==> self.lo(n) < self.hi(n))
            },
            SliceOrIndex::Index(i) => -n <= i < n,
        }
    }

    /// Number of positions that the entry selects.
    pub open spec fn count(self, n: int) -> int {
        (self.hi(n) - self.lo(n) + abs(self.stride()) - 1) / abs(self.stride())
    }

    /// The position selected first.
    pub open spec fn first(self, n: int) -> int {
        if self.stride() < 0 {
            self.hi(n) - 1
        } else {
            self.lo(n)
        }
    }

    /// The position selected `j`-th.
    pub open spec fn source(self, n: int, j: int) -> int {
        self.first(n) + j * self.stride()
    }

    /// Whether position `p` of the axis is selected.
    pub open spec fn selects(self, n: int, p: int) -> bool {
        &&& (p - self.first(n)) % self.stride() == 0
        &&& 0 <= (p - self.first(n)) / self.stride() < self.count(n)
    }
}

/// A slice specification with one well-formed entry per axis.
pub open spec fn well_formed_slice(shape: Seq<usize>, spec: Seq<SliceOrIndex>) -> bool {
    &&& spec.len() == shape.len()
    &&& forall|d: int| 0 <= d < spec.len() ==> (#[trigger] spec[d]).well_formed()
}

/// Every entry can be applied to its axis.
pub open spec fn slice_in_range(shape: Seq<usize>, spec: Seq<SliceOrIndex>) -> bool {
    &&& spec.len() == shape.len()
    &&& forall|d: int| 0 <= d < spec.len() ==> (#[trigger] spec[d]).in_range(shape[d] as int)
}

/// Shape of a slice: on each axis, the number of selected positions.
pub open spec fn sliced_shape(shape: Seq<usize>, spec: Seq<SliceOrIndex>) -> Seq<usize> {
    Seq::new(shape.len(), |d: int| spec[d].count(shape[d] as int) as usize)
}

/// The multi-index in the sliced array's source that the multi-index `idx`
/// of the slice shows.
pub open spec fn slice_source(shape: Seq<usize>, spec: Seq<SliceOrIndex>, idx: Seq<int>) -> Seq<int> {
    Seq::new(shape.len(), |d: int| spec[d].source(shape[d] as int, idx[d]))
}

/// The slice of `x` that `spec` describes, with the rank of `x`: an axis
/// reduced to a single position keeps extent one.
pub open spec fn slice(x: Arr, spec: Seq<SliceOrIndex>) -> Arr {
    Arr::build(
        sliced_shape(x.shape, spec),
        |idx: Seq<int>| x.at(slice_source(x.shape, spec, idx)),
    )
}

/// Whether `spec` selects the multi-index `idx` of an array of shape `shape`.
pub open spec fn slice_selects(shape: Seq<usize>, spec: Seq<SliceOrIndex>, idx: Seq<int>) -> bool {
    forall|d: int| 0 <= d < shape.len() ==> (#[trigger] spec[d]).selects(shape[d] as int, idx[d])
}

/// The multi-index of the slice that shows the selected multi-index `idx`.
pub open spec fn slice_target(shape: Seq<usize>, spec: Seq<SliceOrIndex>, idx: Seq<int>) -> Seq<int> {
    Seq::new(
        shape.len(),
        |d: int| (idx[d] - spec[d].first(shape[d] as int)) / spec[d].stride(),
    )
}

/// `acc` with the elements that `spec` selects replaced by those of `src`,
/// which has the shape of the slice.
pub open spec fn slice_assigned(acc: Arr, spec: Seq<SliceOrIndex>, src: Arr) -> Arr {
    Arr::build(
        acc.shape,
        |idx: Seq<int>|
            if slice_selects(acc.shape, spec, idx) {
                src.at(slice_target(acc.shape, spec, idx))
            } else {
                acc.at(idx)
            },
    )
}

/// The specification that takes the range from `start` to `end` along `axis`
/// and every other axis whole.
pub open spec fn split_indices(rank: int, axis: int, start: isize, end: isize) -> Seq<SliceOrIndex> {
    Seq::new(
        rank as nat,
        |d: int|
            if d == axis {
                SliceOrIndex::Slice { start, end: Some(end), step: 1 }
            } else {
                SliceOrIndex::full()
            },
    )
}

/// The `len` sub-arrays of `x` along `axis` that begin at position `start`.
pub open spec fn axis_range(x: Arr, axis: int, start: int, len: int) -> Arr {
    Arr::build(
        x.shape.update(axis, len as usize),
        |idx: Seq<int>| x.at(idx.update(axis, idx[axis] + start)),
    )
}

/// With a step of one an entry selects its range in order.
pub proof fn lemma_unit_step(entry: SliceOrIndex, n: int)
    requires
        entry.stride() == 1,
    ensures
        entry.count(n) == entry.hi(n) - entry.lo(n),
        forall|j: int| #[trigger] entry.source(n, j) == entry.lo(n) + j,
        forall|p: int| #[trigger] entry.selects(n, p) <==> entry.lo(n) <= p < entry.hi(n),
{
    let m: int = entry.hi(n) - entry.lo(n);
    assert(abs(entry.stride()) == 1);
    assert((m + 1 - 1) / 1 == m);
    assert forall|j: int| #[trigger] entry.source(n, j) == entry.lo(n) + j by {
        assert(j * 1 == j);
    }
    assert forall|p: int| #[trigger] entry.selects(n, p) <==> entry.lo(n) <= p < entry.hi(n) by {
        let q: int = p - entry.first(n);
        assert(q % 1 == 0);
        assert(q / 1 == q);
    }
}

/// Taking a range of non-negative bounds along one axis and every other
/// axis whole is taking that range of sub-arrays.
pub proof fn lemma_split_is_axis_range(x: Arr, axis: int, start: isize, end: isize)
    requires
        0 <= axis < x.shape.len(),
        0 <= start <= end <= x.shape[axis],
    ensures
        slice(x, split_indices(x.rank(), axis, start, end)) == axis_range(
            x,
            axis,
            start as int,
            end - start,
        ),
        slice_in_range(x.shape, split_indices(x.rank(), axis, start, end)),
{
    let spec = split_indices(x.rank(), axis, start, end);
    let a = slice(x, spec);
    let b = axis_range(x, axis, start as int, end - start);
    assert forall|d: int| 0 <= d < spec.len() implies (#[trigger] spec[d]).in_range(
        x.shape[d] as int,
    ) by {}
    assert(a.shape =~= b.shape) by {
        assert forall|d: int| 0 <= d < x.shape.len() implies a.shape[d] == b.shape[d] by {
            lemma_unit_step(spec[d], x.shape[d] as int);
        }
    }
    lemma_build(a.shape, |idx: Seq<int>| x.at(slice_source(x.shape, spec, idx)));
    lemma_build(b.shape, |idx: Seq<int>| x.at(idx.update(axis, idx[axis] + start)));
    assert forall|idx: Seq<int>| in_bounds(a.shape, idx) implies #[trigger] a.at(idx) == b.at(
        idx,
    ) by {
        assert(slice_source(x.shape, spec, idx) =~= idx.update(axis, idx[axis] + start)) by {
            assert forall|d: int| 0 <= d < x.shape.len() implies slice_source(x.shape, spec, idx)[d]
                == idx.update(axis, idx[axis] + start)[d] by {
                lemma_unit_step(spec[d], x.shape[d] as int);
            }
        }
    }
    lemma_arr_ext(a, b);
}

/// The range of an applicable entry lies on its axis, and the entry selects
/// no more positions than the range holds.
pub proof fn lemma_entry_range(entry: SliceOrIndex, n: int)
    requires
        0 <= n,
        entry.in_range(n),
    ensures
        0 <= entry.lo(n) <= entry.hi(n) <= n,
        0 <= entry.count(n) <= entry.hi(n) - entry.lo(n),
        entry.count(n) == 0 <==> entry.hi(n) == entry.lo(n),
{
    let m: int = entry.hi(n) - entry.lo(n);
    let a: int = abs(entry.stride());
    assert(0 <= (m + a - 1) / a <= m && ((m + a - 1) / a == 0 <==> m == 0)) by (nonlinear_arith)
        requires
            0 <= m,
            1 <= a,
    ;
}

/// The position that an applicable entry selects `j`-th lies on the axis,
/// and is selected at place `j`.
pub proof fn lemma_entry_source(entry: SliceOrIndex, n: int, j: int)
    requires
        0 <= n,
        entry.in_range(n),
        0 <= j < entry.count(n),
    ensures
        0 <= entry.source(n, j) < n,
        entry.selects(n, entry.source(n, j)),
        (entry.source(n, j) - entry.first(n)) / entry.stride() == j,
{
    lemma_entry_range(entry, n);
    let m: int = entry.hi(n) - entry.lo(n);
    let a: int = abs(entry.stride());
    let step: int = entry.stride();
    assert(j * a <= m - 1) by (nonlinear_arith)
        requires
            0 <= j < (m + a - 1) / a,
            0 <= m,
            1 <= a,
    ;
    assert(j * step == if step < 0 {
        -(j * a)
    } else {
        j * a
    }) by (nonlinear_arith)
        requires
            a == if step < 0 {
                -step
            } else {
                step
            },
    ;
    assert((j * step) % step == 0 && (j * step) / step == j) by (nonlinear_arith)
        requires
            step != 0,
    ;
}

/// A multi-index of a slice shows an element of the sliced array, which the
/// specification selects at exactly that multi-index.
pub proof fn lemma_slice_source(shape: Seq<usize>, spec: Seq<SliceOrIndex>, idx: Seq<int>)
    requires
        slice_in_range(shape, spec),
        in_bounds(sliced_shape(shape, spec), idx),
    ensures
        in_bounds(shape, slice_source(shape, spec, idx)),
        slice_selects(shape, spec, slice_source(shape, spec, idx)),
        slice_target(shape, spec, slice_source(shape, spec, idx)) == idx,
{
    let src = slice_source(shape, spec, idx);
    assert forall|d: int| 0 <= d < shape.len() implies 0 <= #[trigger] src[d] < shape[d] && (
    #[trigger] spec[d]).selects(shape[d] as int, src[d]) && (src[d] - spec[d].first(
        shape[d] as int,
    )) / spec[d].stride() == idx[d] by {
        assert(spec[d].in_range(shape[d] as int));
        lemma_entry_range(spec[d], shape[d] as int);
        assert(0 <= idx[d] < sliced_shape(shape, spec)[d]);
        lemma_entry_source(spec[d], shape[d] as int, idx[d]);
    }
    assert(slice_target(shape, spec, src) =~= idx);
}

} // verus!
