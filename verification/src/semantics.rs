//! What each array operation computes, stated on the mathematical model.

use crate::model::{lemma_arr_ext, lemma_build, Arr};
use crate::shape::{
    in_bounds, lemma_offset_unit_axis, lemma_size_unit_axis, lemma_unravel, representable,
    scalar_shape, size, unravel,
};
use crate::sorting::sorted;
use vstd::prelude::*;

verus! {

/// `value` is an `i64`.
pub open spec fn fits_i64(value: int) -> bool {
    i64::MIN <= value <= i64::MAX
}

/// The array made of the sub-arrays of `x` at the positions `indices` along
/// `axis`, in the order in which `indices` lists them.
pub open spec fn select(x: Arr, axis: int, indices: Seq<usize>) -> Arr {
    Arr::build(
        x.shape.update(axis, indices.len() as usize),
        |idx: Seq<int>| x.at(idx.update(axis, indices[idx[axis]] as int)),
    )
}

/// The position that the index value `i` denotes on an axis of the given
/// extent, counting negative values from the end.
pub open spec fn normalized_index(i: int, extent: int) -> int {
    if i < 0 {
        i + extent
    } else {
        i
    }
}

/// The positions that an index array selects on an axis of the given extent.
pub open spec fn selected_positions(indices: Seq<i64>, extent: int, normalize: bool) -> Seq<usize> {
    Seq::new(
        indices.len(),
        |t: int|
            if normalize {
                normalized_index(indices[t] as int, extent) as usize
            } else {
                indices[t] as usize
            },
    )
}

/// Shape of a gather: the axes of `param` before `axis`, then the axes of the
/// index array, then the axes of `param` after `axis`.
pub open spec fn gather_shape(param: Seq<usize>, indices: Seq<usize>, axis: int) -> Seq<usize> {
    param.subrange(0, axis) + indices + param.subrange(axis + 1, param.len() as int)
}

/// Gather: the sub-arrays of `param` along `axis` at the positions that the
/// elements of `indices` name, arranged in the shape of `indices`.
pub open spec fn gather(param: Arr, indices: Arr, axis: int, normalize: bool) -> Arr {
    select(
        param,
        axis,
        selected_positions(indices.data, param.shape[axis] as int, normalize),
    ).reshaped(gather_shape(param.shape, indices.shape, axis))
}

/// `acc` with the sub-array of `src` at position `t` along `axis` added to
/// its sub-array at position `i` along `axis`.
pub open spec fn scatter_add(acc: Arr, axis: int, i: int, src: Arr, t: int) -> Arr {
    Arr::build(
        acc.shape,
        |idx: Seq<int>|
            if idx[axis] == i {
                (acc.at(idx) + src.at(idx.update(axis, t))) as i64
            } else {
                acc.at(idx)
            },
    )
}

/// Sum of the elements of `src` that the first `n` selected positions send to
/// the multi-index `idx`: the `t`-th sub-array of `src` along `axis` goes to
/// position `positions[t]`.
pub open spec fn contribution(positions: Seq<usize>, src: Arr, axis: int, idx: Seq<int>, n: nat) -> int
    decreases n,
{
    if n == 0 {
        0
    } else {
        contribution(positions, src, axis, idx, (n - 1) as nat) + if positions[n - 1] == idx[axis] {
            src.at(idx.update(axis, n - 1)) as int
        } else {
            0
        }
    }
}

/// The array of the given shape that has accumulated the first `n`
/// sub-arrays of `src` at their selected positions.
pub open spec fn accumulated(shape: Seq<usize>, axis: int, positions: Seq<usize>, src: Arr, n: nat) -> Arr {
    Arr::build(shape, |idx: Seq<int>| contribution(positions, src, axis, idx, n) as i64)
}

/// Gradient of a gather with respect to `param`: every sub-array of the
/// incoming gradient is added at the position it was gathered from, so a
/// position gathered several times receives the sum.
pub open spec fn gather_grad(param_shape: Seq<usize>, axis: int, positions: Seq<usize>, gy: Arr) -> Arr {
    accumulated(
        param_shape,
        axis,
        positions,
        gy.reshaped(param_shape.update(axis, positions.len() as usize)),
        positions.len(),
    )
}

/// Every partial sum that the accumulation forms is an `i64`.
pub open spec fn accumulation_fits(shape: Seq<usize>, axis: int, positions: Seq<usize>, src: Arr) -> bool {
    forall|idx: Seq<int>, m: nat|
        in_bounds(shape, idx) && m <= positions.len() ==> fits_i64(
            #[trigger] contribution(positions, src, axis, idx, m),
        )
}

/// Adding the `t`-th sub-array at its position turns the accumulation of the
/// first `t` sub-arrays into that of the first `t + 1`.
pub proof fn lemma_accumulate_step(shape: Seq<usize>, axis: int, positions: Seq<usize>, src: Arr, t: nat)
    requires
        t < positions.len(),
        accumulation_fits(shape, axis, positions, src),
    ensures
        scatter_add(
            accumulated(shape, axis, positions, src, t),
            axis,
            positions[t as int] as int,
            src,
            t as int,
        ) == accumulated(shape, axis, positions, src, t + 1),
{
    let acc = accumulated(shape, axis, positions, src, t);
    let next = accumulated(shape, axis, positions, src, t + 1);
    let step = scatter_add(acc, axis, positions[t as int] as int, src, t as int);
    lemma_build(shape, |idx: Seq<int>| contribution(positions, src, axis, idx, t) as i64);
    lemma_build(shape, |idx: Seq<int>| contribution(positions, src, axis, idx, t + 1) as i64);
    lemma_build(
        shape,
        |idx: Seq<int>|
            if idx[axis] == positions[t as int] as int {
                (acc.at(idx) + src.at(idx.update(axis, t as int))) as i64
            } else {
                acc.at(idx)
            },
    );
    assert forall|idx: Seq<int>| in_bounds(shape, idx) implies #[trigger] step.at(idx) == next.at(
        idx,
    ) by {
        assert(fits_i64(contribution(positions, src, axis, idx, t)));
        assert(fits_i64(contribution(positions, src, axis, idx, t + 1)));
        assert(acc.at(idx) == contribution(positions, src, axis, idx, t));
    }
    lemma_arr_ext(step, next);
}

/// Sum of the extents along `axis` of the first `k` arrays.
pub open spec fn extent_sum(xs: Seq<Arr>, axis: int, k: int) -> int
    decreases k,
{
    if k <= 0 {
        0
    } else {
        extent_sum(xs, axis, k - 1) + xs[k - 1].shape[axis]
    }
}

/// Among the first `k` arrays laid end to end along `axis`, the one that
/// covers position `j`.
pub open spec fn segment_of(xs: Seq<Arr>, axis: int, j: int, k: int) -> int
    decreases k,
{
    if k <= 1 {
        0
    } else if j >= extent_sum(xs, axis, k - 1) {
        k - 1
    } else {
        segment_of(xs, axis, j, k - 1)
    }
}

/// The arrays can be laid end to end along `axis`: there is at least one,
/// and they agree in rank and in every extent but that of `axis`.
pub open spec fn concatenable(xs: Seq<Arr>, axis: int) -> bool {
    &&& xs.len() >= 1
    &&& 0 <= axis < xs[0].shape.len()
    &&& forall|j: int| 0 <= j < xs.len() ==> (#[trigger] xs[j]).shape.len() == xs[0].shape.len()
    &&& forall|j: int, d: int|
        0 <= j < xs.len() && 0 <= d < xs[0].shape.len() && d != axis ==> #[trigger] xs[j].shape[d]
            == xs[0].shape[d]
}

/// Shape of the concatenation: that of the first array, with the extent of
/// `axis` replaced by the sum of all extents along it.
pub open spec fn concat_shape(xs: Seq<Arr>, axis: int) -> Seq<usize> {
    xs[0].shape.update(axis, extent_sum(xs, axis, xs.len() as int) as usize)
}

/// The arrays laid end to end along `axis`.
pub open spec fn concat(xs: Seq<Arr>, axis: int) -> Arr {
    Arr::build(
        concat_shape(xs, axis),
        |idx: Seq<int>|
            {
                let s = segment_of(xs, axis, idx[axis], xs.len() as int);
                xs[s].at(idx.update(axis, idx[axis] - extent_sum(xs, axis, s)))
            },
    )
}

/// `num` copies of `x` laid end to end along `axis`.
pub open spec fn tile(x: Arr, axis: int, num: int) -> Arr {
    concat(Seq::new(num as nat, |j: int| x), axis)
}

/// Extents add up monotonically.
pub proof fn lemma_extent_sum_monotone(xs: Seq<Arr>, axis: int, j: int, k: int)
    requires
        0 <= j <= k,
    ensures
        0 <= extent_sum(xs, axis, j) <= extent_sum(xs, axis, k),
    decreases k,
{
    if j < k {
        lemma_extent_sum_monotone(xs, axis, j, k - 1);
    } else if k > 0 {
        lemma_extent_sum_monotone(xs, axis, j - 1, k - 1);
    }
}

/// The extents of `k` copies of one array add up to `k` times its extent.
pub proof fn lemma_extent_sum_constant(x: Arr, n: nat, axis: int, k: int)
    requires
        0 <= k <= n,
    ensures
        extent_sum(Seq::new(n, |j: int| x), axis, k) == k * x.shape[axis],
    decreases k,
{
    if k > 0 {
        lemma_extent_sum_constant(x, n, axis, k - 1);
        assert(k * x.shape[axis] == (k - 1) * x.shape[axis] + x.shape[axis]) by (nonlinear_arith);
    } else {
        assert(0 * x.shape[axis] == 0);
    }
}

/// The entry of a requested shape that asks for an extent to be inferred.
pub const INFER: i64 = -1;

/// Product of those among the first `k` entries of a requested shape that
/// give an extent.
pub open spec fn partial_product(entries: Seq<i64>, k: int) -> int
    decreases k,
{
    if k <= 0 {
        1
    } else {
        partial_product(entries, k - 1) * (if entries[k - 1] == INFER {
            1int
        } else {
            entries[k - 1] as int
        })
    }
}

/// Product of the entries of a requested shape that give an extent.
pub open spec fn given_product(entries: Seq<i64>) -> int {
    partial_product(entries, entries.len() as int)
}

/// Some entry asks for its extent to be inferred.
pub open spec fn asks_inference(entries: Seq<i64>) -> bool {
    exists|d: int| 0 <= d < entries.len() && entries[d] == INFER
}

/// A requested shape: every entry gives an extent or asks for it to be
/// inferred, and at most one entry does the latter.
pub open spec fn valid_request(entries: Seq<i64>) -> bool {
    &&& forall|d: int|
        0 <= d < entries.len() ==> #[trigger] entries[d] == INFER || 0 <= entries[d]
            <= usize::MAX
    &&& forall|d: int, e: int|
        0 <= d < entries.len() && 0 <= e < entries.len() && entries[d] == INFER && entries[e]
            == INFER ==> d == e
}

/// The shape that a request denotes for an array of `len` elements: an
/// inferred extent is `len` divided by the product of the given extents.
pub open spec fn requested_shape(entries: Seq<i64>, len: int) -> Seq<usize> {
    Seq::new(
        entries.len(),
        |d: int|
            if entries[d] == INFER {
                (len / given_product(entries)) as usize
            } else {
                entries[d] as usize
            },
    )
}

/// An array of `len` elements can take the requested shape: an inferred
/// extent divides evenly, and the shape is representable and holds `len`
/// elements.
pub open spec fn reshapable(entries: Seq<i64>, len: int) -> bool {
    &&& asks_inference(entries) ==> 0 < given_product(entries) <= usize::MAX && len
        % given_product(entries) == 0
    &&& representable(requested_shape(entries, len))
    &&& size(requested_shape(entries, len)) == len
}

/// The extents that the elements of a shape array list.
pub open spec fn as_extents(values: Seq<i64>) -> Seq<usize> {
    Seq::new(values.len(), |d: int| values[d] as usize)
}

/// Shape of the result of a broadcasting binary operation on operands of the
/// shapes `a` and `b`: the larger extent on each axis, or the shape of the
/// other operand when one is a scalar.
pub open spec fn bin_op_shape(a: Seq<usize>, b: Seq<usize>) -> Seq<usize> {
    if !scalar_shape(a) && !scalar_shape(b) {
        Seq::new(
            a.len(),
            |d: int|
                if a[d] >= b[d] {
                    a[d]
                } else {
                    b[d]
                },
        )
    } else if !scalar_shape(a) {
        a
    } else {
        b
    }
}

/// The array of the shape of `like` that is zero everywhere but at row-major
/// position `position`, where it holds `value`.
pub open spec fn one_hot(like: Arr, position: int, value: i64) -> Arr {
    Arr {
        shape: like.shape,
        data: Seq::new(
            like.data.len(),
            |p: int|
                if p == position {
                    value
                } else {
                    0
                },
        ),
    }
}

/// A product with a zero factor is zero.
pub proof fn lemma_partial_product_zero(entries: Seq<i64>, d: int, k: int)
    requires
        0 <= d < k <= entries.len(),
        entries[d] == 0,
    ensures
        partial_product(entries, k) == 0,
    decreases k,
{
    if d < k - 1 {
        lemma_partial_product_zero(entries, d, k - 1);
        assert(0 * (if entries[k - 1] == INFER {
            1int
        } else {
            entries[k - 1] as int
        }) == 0);
    } else {
        assert(partial_product(entries, k - 1) * 0 == 0);
    }
}

/// A product of factors that are at least one is at least one and grows with
/// the number of factors.
pub proof fn lemma_partial_product_monotone(entries: Seq<i64>, j: int, k: int)
    requires
        0 <= j <= k <= entries.len(),
        forall|d: int| 0 <= d < entries.len() ==> #[trigger] entries[d] == INFER || entries[d] >= 1,
    ensures
        1 <= partial_product(entries, j) <= partial_product(entries, k),
    decreases k,
{
    if k > 0 {
        if j < k {
            lemma_partial_product_monotone(entries, j, k - 1);
        } else {
            lemma_partial_product_monotone(entries, j - 1, k - 1);
        }
        let f: int = if entries[k - 1] == INFER {
            1int
        } else {
            entries[k - 1] as int
        };
        let p: int = partial_product(entries, k - 1);
        assert(p <= p * f) by (nonlinear_arith)
            requires
                1 <= p,
                1 <= f,
        ;
    }
}

/// The sub-array of `x` at position `index` along `axis`, without that axis.
pub open spec fn index_axis(x: Arr, axis: int, index: int) -> Arr {
    Arr::build(x.shape.remove(axis), |idx: Seq<int>| x.at(idx.insert(axis, index)))
}

/// Taking the only sub-array along an axis of extent one leaves the elements
/// as they are and drops the axis.
pub proof fn lemma_index_unit_axis(x: Arr, axis: int)
    requires
        x.wf(),
        0 <= axis < x.shape.len(),
        x.shape[axis] == 1,
    ensures
        index_axis(x, axis, 0) == x.reshaped(x.shape.remove(axis)),
{
    let small = x.shape.remove(axis);
    let a = index_axis(x, axis, 0);
    let b = x.reshaped(small);
    lemma_size_unit_axis(x.shape, axis);
    lemma_build(small, |idx: Seq<int>| x.at(idx.insert(axis, 0)));
    assert forall|idx: Seq<int>| in_bounds(small, idx) implies #[trigger] a.at(idx) == b.at(
        idx,
    ) by {
        lemma_offset_unit_axis(x.shape, axis, idx);
    }
    lemma_arr_ext(a, b);
}

/// The axis that the `done + 1`-th entry of a squeeze removes from an array
/// that has `rank` axes left: a negative entry counts from the last axis
/// that is left, and every entry is moved down by the number of axes
/// already removed.
pub open spec fn squeeze_position(entry: int, rank: int, done: int) -> int {
    (if entry < 0 {
        rank + entry
    } else {
        entry
    }) - done
}

/// The shape after the first `k` entries of a squeeze have been applied.
pub open spec fn squeezed_shape(shape: Seq<usize>, axes: Seq<i64>, k: int) -> Seq<usize>
    decreases k,
{
    if k <= 0 {
        shape
    } else {
        let prev = squeezed_shape(shape, axes, k - 1);
        prev.remove(squeeze_position(axes[k - 1] as int, prev.len() as int, k - 1))
    }
}

/// Each of the first `k` entries of a squeeze names an axis of extent one of
/// the array that the entries before it leave.
pub open spec fn squeezable(shape: Seq<usize>, axes: Seq<i64>, k: int) -> bool {
    forall|j: int|
        0 <= j < k ==> {
            let prev = #[trigger] squeezed_shape(shape, axes, j);
            let a = squeeze_position(axes[j] as int, prev.len() as int, j);
            0 <= a < prev.len() && prev[a] == 1
        }
}

/// Squeeze: `x` without the axes that the entries name, taken in ascending
/// order.
pub open spec fn squeeze(x: Arr, axes: Seq<i64>) -> Arr {
    x.reshaped(squeezed_shape(x.shape, sorted(axes), axes.len() as int))
}

/// The position at which an entry of an expansion inserts an axis into an
/// array that had `rank` axes at the start: a negative entry counts from the
/// last of those.
pub open spec fn expand_position(entry: int, rank: int) -> int {
    if entry < 0 {
        rank + entry
    } else {
        entry
    }
}

/// The shape after the first `k` entries of an expansion have been applied.
pub open spec fn expanded_shape(shape: Seq<usize>, axes: Seq<i64>, k: int) -> Seq<usize>
    decreases k,
{
    if k <= 0 {
        shape
    } else {
        expanded_shape(shape, axes, k - 1).insert(
            expand_position(axes[k - 1] as int, shape.len() as int),
            1,
        )
    }
}

/// Each of the first `k` entries of an expansion names a position in the
/// array that the entries before it leave.
pub open spec fn expandable(shape: Seq<usize>, axes: Seq<i64>, k: int) -> bool {
    forall|j: int|
        0 <= j < k ==> 0 <= #[trigger] expand_position(axes[j] as int, shape.len() as int)
            <= shape.len() + j
}

/// Expansion: `x` with an axis of extent one inserted at each position that
/// the entries name, taken in ascending order.
pub open spec fn expand_dims(x: Arr, axes: Seq<i64>) -> Arr {
    x.reshaped(expanded_shape(x.shape, sorted(axes), axes.len() as int))
}

/// Applying entries of an expansion keeps the size, and adds one axis each.
pub proof fn lemma_expanded_shape(shape: Seq<usize>, axes: Seq<i64>, k: int)
    requires
        0 <= k,
        expandable(shape, axes, k),
    ensures
        expanded_shape(shape, axes, k).len() == shape.len() + k,
        size(expanded_shape(shape, axes, k)) == size(shape),
        crate::shape::size_nonzero(expanded_shape(shape, axes, k)) == crate::shape::size_nonzero(
            shape,
        ),
    decreases k,
{
    if k > 0 {
        lemma_expanded_shape(shape, axes, k - 1);
        let p = expand_position(axes[k - 1] as int, shape.len() as int);
        lemma_size_unit_axis(expanded_shape(shape, axes, k - 1), p);
    }
}

/// Applying entries of a squeeze keeps the size, and removes one axis each.
pub proof fn lemma_squeezed_shape(shape: Seq<usize>, axes: Seq<i64>, k: int)
    requires
        0 <= k,
        squeezable(shape, axes, k),
    ensures
        squeezed_shape(shape, axes, k).len() == shape.len() - k,
        size(squeezed_shape(shape, axes, k)) == size(shape),
    decreases k,
{
    if k > 0 {
        lemma_squeezed_shape(shape, axes, k - 1);
        let prev = squeezed_shape(shape, axes, k - 1);
        let a = squeeze_position(axes[k - 1] as int, prev.len() as int, k - 1);
        lemma_size_unit_axis(prev, a);
    }
}

/// An array of shape `from` can stand for one of shape `to`: the axes of
/// `from` are matched with the last axes of `to`, and each has the same
/// extent or extent one.
pub open spec fn broadcastable(from: Seq<usize>, to: Seq<usize>) -> bool {
    &&& from.len() <= to.len()
    &&& forall|d: int|
        0 <= d < from.len() ==> #[trigger] from[d] == to[d + to.len() - from.len()] || from[d] == 1
}

/// The multi-index of an array of shape `from` that stands at multi-index
/// `idx` of the shape `to` it is broadcast to.
pub open spec fn broadcast_index(from: Seq<usize>, to: Seq<usize>, idx: Seq<int>) -> Seq<int> {
    Seq::new(
        from.len(),
        |d: int|
            if from[d] == to[d + to.len() - from.len()] {
                idx[d + to.len() - from.len()]
            } else {
                0
            },
    )
}

/// `a` with `b`, broadcast to the shape of `a`, added element by element.
pub open spec fn add_broadcast(a: Arr, b: Arr) -> Arr {
    Arr::build(
        a.shape,
        |idx: Seq<int>| (a.at(idx) + b.at(broadcast_index(b.shape, a.shape, idx))) as i64,
    )
}

/// `a` with `b`, broadcast to the shape of `a`, multiplied element by
/// element.
pub open spec fn mul_broadcast(a: Arr, b: Arr) -> Arr {
    Arr::build(
        a.shape,
        |idx: Seq<int>| (a.at(idx) * b.at(broadcast_index(b.shape, a.shape, idx))) as i64,
    )
}

/// Sum of the first `k` arrays, each broadcast to the shape of the first.
pub open spec fn sum_n(xs: Seq<Arr>, k: int) -> Arr
    decreases k,
{
    if k <= 1 {
        xs[0]
    } else {
        add_broadcast(sum_n(xs, k - 1), xs[k - 1])
    }
}

/// Every array after the first can be broadcast to the shape of the first.
pub open spec fn summable(xs: Seq<Arr>) -> bool {
    forall|k: int| 1 <= k < xs.len() ==> broadcastable((#[trigger] xs[k]).shape, xs[0].shape)
}

/// Every partial sum of the arrays is made of `i64` elements.
pub open spec fn sum_fits(xs: Seq<Arr>) -> bool {
    forall|k: int, idx: Seq<int>|
        1 <= k < xs.len() && in_bounds(xs[0].shape, idx) ==> fits_i64(
            #[trigger] sum_n(xs, k).at(idx) + xs[k].at(
                broadcast_index(xs[k].shape, xs[0].shape, idx),
            ),
        )
}

/// `a` clamped from above by `hi`, then from below by `lo`.
pub open spec fn clamp(a: i64, lo: i64, hi: i64) -> i64 {
    let capped = if a <= hi {
        a
    } else {
        hi
    };
    if capped >= lo {
        capped
    } else {
        lo
    }
}

/// Every element replaced by what `f` gives for it.
pub open spec fn map_elements(x: Arr, f: spec_fn(i64) -> i64) -> Arr {
    Arr { shape: x.shape, data: Seq::new(x.data.len(), |p: int| f(x.data[p])) }
}

/// Clip: every element clamped into the range from `lo` to `hi`.
pub open spec fn clip(x: Arr, lo: i64, hi: i64) -> Arr {
    map_elements(x, |a: i64| clamp(a, lo, hi))
}

/// One where the element lies strictly between `lo` and `hi`, zero
/// elsewhere.
pub open spec fn inside(a: i64, lo: i64, hi: i64) -> i64 {
    if lo < a && a < hi {
        1
    } else {
        0
    }
}

/// Gradient of a clip: the incoming gradient, broadcast to the shape of `x`,
/// where the element of `x` lies strictly between `lo` and `hi`, and zero
/// elsewhere.
pub open spec fn clip_grad(x: Arr, gy: Arr, lo: i64, hi: i64) -> Arr {
    Arr::build(
        x.shape,
        |idx: Seq<int>|
            if lo < x.at(idx) && x.at(idx) < hi {
                gy.at(broadcast_index(gy.shape, x.shape, idx))
            } else {
                0
            },
    )
}

/// Rectifier: every negative element replaced by zero.
pub open spec fn relu(x: Arr) -> Arr {
    map_elements(
        x,
        |a: i64|
            if a >= 0 {
                a
            } else {
                0
            },
    )
}

/// `r` lists, in increasing order and once each, the values that occur in
/// `a` and not in `b`.
pub open spec fn is_set_difference(r: Seq<i64>, a: Seq<i64>, b: Seq<i64>) -> bool {
    &&& crate::sorting::strictly_ascending(r)
    &&& forall|v: i64| r.contains(v) <==> a.contains(v) && !b.contains(v)
}

/// Every partial sum has the shape of the first array.
pub proof fn lemma_sum_shape(xs: Seq<Arr>, k: int)
    ensures
        sum_n(xs, k).shape == xs[0].shape,
    decreases k,
{
    if k > 1 {
        lemma_sum_shape(xs, k - 1);
    }
}

/// Sum of the first `n` elements of `x` along `axis` in the lane through
/// `idx`; the coordinate of `idx` along `axis` does not matter.
pub open spec fn lane_sum(x: Arr, axis: int, idx: Seq<int>, n: int) -> int
    decreases n,
{
    if n <= 0 {
        0
    } else {
        lane_sum(x, axis, idx, n - 1) + x.at(idx.update(axis, n - 1))
    }
}

/// Sum of the magnitudes of the first `n` elements of `x` along `axis` in
/// the lane through `idx`.
pub open spec fn lane_magnitude(x: Arr, axis: int, idx: Seq<int>, n: int) -> int
    decreases n,
{
    if n <= 0 {
        0
    } else {
        lane_magnitude(x, axis, idx, n - 1) + crate::slicing::abs(
            x.at(idx.update(axis, n - 1)) as int,
        )
    }
}

/// Along `axis`, the magnitudes of the elements of every lane add up to an
/// `i64`, so the elements of a lane can be summed in any order.
pub open spec fn axis_sum_fits(x: Arr, axis: int) -> bool {
    forall|idx: Seq<int>|
        in_bounds(x.shape, idx) ==> #[trigger] lane_magnitude(
            x,
            axis,
            idx,
            x.shape[axis] as int,
        ) <= i64::MAX
}

/// Sum along `axis`: each element of the output is the sum of one lane of
/// `x`.  The output has the shape of `x` without the axis, or with extent
/// one along it when `keep_dims` is set.
pub open spec fn reduce_sum(x: Arr, axis: int, keep_dims: bool) -> Arr {
    if keep_dims {
        Arr::build(
            x.shape.update(axis, 1),
            |idx: Seq<int>| lane_sum(x, axis, idx, x.shape[axis] as int) as i64,
        )
    } else {
        Arr::build(
            x.shape.remove(axis),
            |idx: Seq<int>| lane_sum(x, axis, idx.insert(axis, 0), x.shape[axis] as int) as i64,
        )
    }
}

/// The sum of a lane does not depend on the coordinate along the axis of the
/// multi-index that names the lane.
pub proof fn lemma_lane_sum_coordinate(x: Arr, axis: int, idx: Seq<int>, c: int, n: int)
    requires
        0 <= axis < idx.len(),
    ensures
        lane_sum(x, axis, idx.update(axis, c), n) == lane_sum(x, axis, idx, n),
    decreases n,
{
    if n > 0 {
        lemma_lane_sum_coordinate(x, axis, idx, c, n - 1);
        assert(idx.update(axis, c).update(axis, n - 1) =~= idx.update(axis, n - 1));
    }
}

/// Keeping the summed axis with extent one is reshaping the sum without it.
pub proof fn lemma_reduce_sum_keep_dims(x: Arr, axis: int)
    requires
        0 <= axis < x.shape.len(),
    ensures
        reduce_sum(x, axis, false).reshaped(x.shape.update(axis, 1)) == reduce_sum(x, axis, true),
        size(x.shape.update(axis, 1)) == size(x.shape.remove(axis)),
        crate::shape::size_nonzero(x.shape.update(axis, 1)) == crate::shape::size_nonzero(
            x.shape.remove(axis),
        ),
{
    let kept = x.shape.update(axis, 1);
    let dropped = x.shape.remove(axis);
    assert(kept.remove(axis) =~= dropped);
    lemma_size_unit_axis(kept, axis);
    let a = reduce_sum(x, axis, false).reshaped(kept);
    let b = reduce_sum(x, axis, true);
    crate::shape::lemma_size_nonnegative(dropped);
    assert forall|p: int| 0 <= p < size(dropped) implies a.data[p] == b.data[p] by {
        lemma_unravel(kept, p);
        lemma_unravel(dropped, p);
        let full = unravel(kept, p);
        let small = unravel(dropped, p);
        assert(full[axis] == 0);
        assert(full.remove(axis).insert(axis, 0) =~= full);
        lemma_offset_unit_axis(kept, axis, full.remove(axis));
        crate::shape::lemma_offset_injective(dropped, full.remove(axis), small);
    }
    assert(a.data =~= b.data);
}

} // verus!
