//! Laws that relate the operators to one another.

use crate::model::{lemma_arr_ext, lemma_build, lemma_filled, Arr};
use crate::semantics::{
    accumulation_fits, asks_inference, concat, concat_shape, concatenable, contribution,
    expand_dims, expandable, expanded_shape, extent_sum, gather_grad, lane_sum,
    lemma_expanded_shape, lemma_extent_sum_constant, lemma_extent_sum_monotone,
    lemma_squeezed_shape, reduce_sum, requested_shape, reshapable, segment_of, squeezable, squeeze,
    squeeze_position, squeezed_shape, tile,
};
use crate::shape::{extents, in_bounds, lemma_representable_extents, representable};
use crate::slicing::{
    axis_range, lemma_slice_source, lemma_split_is_axis_range, slice, slice_assigned,
    slice_in_range, slice_selects, slice_source, slice_target, sliced_shape, split_indices,
    SliceOrIndex,
};
use crate::semantics::is_set_difference;
use crate::sorting::{lemma_sorted, sorted, strictly_ascending};
use vstd::arithmetic::div_mod::{lemma_fundamental_div_mod, lemma_mod_bound};
use vstd::prelude::*;

verus! {

/// A position below the total extent is covered by exactly one of the
/// arrays laid end to end: the one that `segment_of` names.
pub proof fn lemma_segment_covers(xs: Seq<Arr>, axis: int, j: int, n: int)
    requires
        1 <= n <= xs.len(),
        0 <= j < extent_sum(xs, axis, n),
    ensures
        0 <= segment_of(xs, axis, j, n) < n,
        extent_sum(xs, axis, segment_of(xs, axis, j, n)) <= j < extent_sum(
            xs,
            axis,
            segment_of(xs, axis, j, n) + 1,
        ),
    decreases n,
{
    if n > 1 && j < extent_sum(xs, axis, n - 1) {
        lemma_segment_covers(xs, axis, j, n - 1);
    }
}

/// The array in slot `k` covers the positions from the sum of the extents
/// before it up to the sum that includes its own.
pub proof fn lemma_segment_of_slot(xs: Seq<Arr>, axis: int, j: int, k: int, n: int)
    requires
        0 <= k < n <= xs.len(),
        extent_sum(xs, axis, k) <= j < extent_sum(xs, axis, k + 1),
    ensures
        segment_of(xs, axis, j, n) == k,
    decreases n,
{
    if k < n - 1 {
        lemma_extent_sum_monotone(xs, axis, k + 1, n - 1);
        lemma_segment_of_slot(xs, axis, j, k, n - 1);
    }
}

/// Concatenation and split are inverse: the range of a concatenation that
/// begins after the extents of the arrays before slot `k` and spans the
/// extent of the array in slot `k` is that array.
pub proof fn law_split_of_concat(xs: Seq<Arr>, axis: int, k: int)
    requires
        concatenable(xs, axis),
        forall|j: int| 0 <= j < xs.len() ==> (#[trigger] xs[j]).wf(),
        extent_sum(xs, axis, xs.len() as int) <= usize::MAX,
        0 <= k < xs.len(),
    ensures
        axis_range(
            concat(xs, axis),
            axis,
            extent_sum(xs, axis, k),
            xs[k].shape[axis] as int,
        ) == xs[k],
{
    let n = xs.len() as int;
    let whole = concat(xs, axis);
    let start = extent_sum(xs, axis, k);
    let part = axis_range(whole, axis, start, xs[k].shape[axis] as int);
    lemma_extent_sum_monotone(xs, axis, k + 1, n);
    lemma_extent_sum_monotone(xs, axis, k, k + 1);
    assert(part.shape =~= xs[k].shape) by {
        assert(xs[k].shape.len() == xs[0].shape.len());
        assert forall|d: int| 0 <= d < xs[k].shape.len() implies part.shape[d] == xs[k].shape[d] by {
            if d != axis {
                assert(xs[k].shape[d] == xs[0].shape[d]);
            }
        }
    }
    lemma_build(
        concat_shape(xs, axis),
        |idx: Seq<int>|
            {
                let s = segment_of(xs, axis, idx[axis], n);
                xs[s].at(idx.update(axis, idx[axis] - extent_sum(xs, axis, s)))
            },
    );
    lemma_build(part.shape, |idx: Seq<int>| whole.at(idx.update(axis, idx[axis] + start)));
    assert forall|idx: Seq<int>| in_bounds(part.shape, idx) implies #[trigger] part.at(idx)
        == xs[k].at(idx) by {
        let moved = idx.update(axis, idx[axis] + start);
        assert(in_bounds(whole.shape, moved)) by {
            assert forall|d: int| 0 <= d < whole.shape.len() implies 0 <= #[trigger] moved[d]
                < whole.shape[d] by {
                if d != axis {
                    assert(moved[d] == idx[d]);
                    assert(xs[k].shape[d] == xs[0].shape[d]);
                }
            }
        }
        lemma_segment_of_slot(xs, axis, moved[axis], k, n);
        assert(moved.update(axis, moved[axis] - start) =~= idx);
    }
    lemma_arr_ext(part, xs[k]);
}

/// The same law in terms of the slice that a split takes: with bounds that
/// fit in an `isize`, splitting a concatenation at the bounds of slot `k`
/// recovers the array in slot `k`.
pub proof fn law_split_recovers_slot(xs: Seq<Arr>, axis: int, k: int)
    requires
        concatenable(xs, axis),
        forall|j: int| 0 <= j < xs.len() ==> (#[trigger] xs[j]).wf(),
        extent_sum(xs, axis, xs.len() as int) <= isize::MAX,
        0 <= k < xs.len(),
    ensures
        slice(
            concat(xs, axis),
            split_indices(
                xs[0].rank(),
                axis,
                extent_sum(xs, axis, k) as isize,
                extent_sum(xs, axis, k + 1) as isize,
            ),
        ) == xs[k],
{
    let n = xs.len() as int;
    lemma_extent_sum_monotone(xs, axis, k + 1, n);
    lemma_extent_sum_monotone(xs, axis, k, k + 1);
    law_split_of_concat(xs, axis, k);
    lemma_split_is_axis_range(
        concat(xs, axis),
        axis,
        extent_sum(xs, axis, k) as isize,
        extent_sum(xs, axis, k + 1) as isize,
    );
}

/// The parts of a gradient that the backward of a concatenation hands to
/// the inputs: the part for slot `k` is the range of the gradient where the
/// array in slot `k` lay.
pub open spec fn concat_grad_parts(gy: Arr, xs: Seq<Arr>, axis: int) -> Seq<Arr> {
    Seq::new(
        xs.len(),
        |k: int| axis_range(gy, axis, extent_sum(xs, axis, k), xs[k].shape[axis] as int),
    )
}

/// The parts have the extents of the inputs.
pub proof fn lemma_parts_extents(gy: Arr, xs: Seq<Arr>, axis: int, k: int)
    requires
        0 <= k <= xs.len(),
        0 <= axis < gy.shape.len(),
    ensures
        extent_sum(concat_grad_parts(gy, xs, axis), axis, k) == extent_sum(xs, axis, k),
    decreases k,
{
    if k > 0 {
        lemma_parts_extents(gy, xs, axis, k - 1);
    }
}

/// The backward of a concatenation partitions the incoming gradient: laid
/// end to end, the parts handed to the inputs are the gradient again, with
/// no overlap and no gap.
pub proof fn law_concat_grad_partitions(gy: Arr, xs: Seq<Arr>, axis: int)
    requires
        concatenable(xs, axis),
        gy.wf(),
        gy.shape == concat_shape(xs, axis),
        extent_sum(xs, axis, xs.len() as int) <= usize::MAX,
    ensures
        concat(concat_grad_parts(gy, xs, axis), axis) == gy,
{
    let n = xs.len() as int;
    let parts = concat_grad_parts(gy, xs, axis);
    let whole = concat(parts, axis);
    lemma_parts_extents(gy, xs, axis, n);
    lemma_extent_sum_monotone(xs, axis, 0, n);
    assert(whole.shape =~= gy.shape);
    lemma_build(
        concat_shape(parts, axis),
        |idx: Seq<int>|
            {
                let s = segment_of(parts, axis, idx[axis], n);
                parts[s].at(idx.update(axis, idx[axis] - extent_sum(parts, axis, s)))
            },
    );
    assert forall|idx: Seq<int>| in_bounds(gy.shape, idx) implies #[trigger] whole.at(idx)
        == gy.at(idx) by {
        let j = idx[axis];
        lemma_segment_covers(parts, axis, j, n);
        let s = segment_of(parts, axis, j, n);
        lemma_parts_extents(gy, xs, axis, s);
        lemma_parts_extents(gy, xs, axis, s + 1);
        let start = extent_sum(xs, axis, s);
        let local = idx.update(axis, j - start);
        lemma_build(parts[s].shape, |i: Seq<int>| gy.at(i.update(axis, i[axis] + start)));
        assert(in_bounds(parts[s].shape, local)) by {
            assert forall|d: int| 0 <= d < parts[s].shape.len() implies 0 <= #[trigger] local[d]
                < parts[s].shape[d] by {
                if d != axis {
                    assert(local[d] == idx[d]);
                }
            }
        }
        assert(local.update(axis, local[axis] + start) =~= idx);
    }
    lemma_arr_ext(whole, gy);
}

/// Removing an axis before the place where an axis of extent one was
/// inserted is inserting it one place earlier after the removal.
pub proof fn lemma_remove_before_insert(x: Seq<usize>, q: int, a: int)
    requires
        0 <= a < q <= x.len(),
    ensures
        x.insert(q, 1).remove(a) == x.remove(a).insert(q - 1, 1),
        x.insert(q, 1)[a] == x[a],
{
    assert(x.insert(q, 1).remove(a) =~= x.remove(a).insert(q - 1, 1));
}

/// Squeezing at entries that all lie before an inserted axis of extent one
/// leaves that axis in place, moved down by the number of removed axes.
pub proof fn lemma_squeeze_under_insert(t: Seq<usize>, s: Seq<i64>, j: int, p: int)
    requires
        0 <= j <= s.len(),
        squeezable(t, s, j),
        forall|i: int| 0 <= i < j ==> 0 <= #[trigger] s[i] < p,
        0 <= p <= t.len(),
    ensures
        j <= p,
        squeezed_shape(t.insert(p, 1), s, j) == squeezed_shape(t, s, j).insert(p - j, 1),
        squeezable(t.insert(p, 1), s, j),
    decreases j,
{
    if j > 0 {
        assert(squeezable(t, s, j - 1));
        lemma_squeeze_under_insert(t, s, j - 1, p);
        lemma_squeezed_shape(t, s, j - 1);
        let prev = squeezed_shape(t, s, j - 1);
        let a = squeeze_position(s[j - 1] as int, prev.len() as int, j - 1);
        assert(0 <= a < prev.len() && prev[a] == 1);
        assert(0 <= s[j - 1] < p);
        lemma_remove_before_insert(prev, p - (j - 1), a);
        let moved = squeezed_shape(t.insert(p, 1), s, j - 1);
        assert(squeeze_position(s[j - 1] as int, moved.len() as int, j - 1) == a);
        assert forall|i: int| 0 <= i < j implies {
            let before = #[trigger] squeezed_shape(t.insert(p, 1), s, i);
            let at = squeeze_position(s[i] as int, before.len() as int, i);
            0 <= at < before.len() && before[at] == 1
        } by {
            if i < j - 1 {
                assert(squeezable(t.insert(p, 1), s, j - 1));
            }
        }
    }
}

/// Expanding at increasing non-negative entries and squeezing at the same
/// entries gives back the shape.
pub proof fn lemma_squeeze_expanded(shape: Seq<usize>, s: Seq<i64>, k: int)
    requires
        0 <= k <= s.len(),
        strictly_ascending(s),
        forall|i: int| 0 <= i < s.len() ==> 0 <= #[trigger] s[i],
        expandable(shape, s, k),
    ensures
        squeezable(expanded_shape(shape, s, k), s, k),
        squeezed_shape(expanded_shape(shape, s, k), s, k) == shape,
    decreases k,
{
    if k > 0 {
        assert(expandable(shape, s, k - 1));
        lemma_squeeze_expanded(shape, s, k - 1);
        lemma_expanded_shape(shape, s, k - 1);
        let before = expanded_shape(shape, s, k - 1);
        let p = s[k - 1] as int;
        assert(crate::semantics::expand_position(s[k - 1] as int, shape.len() as int) == p);
        assert(0 <= crate::semantics::expand_position(s[k - 1] as int, shape.len() as int)
            <= shape.len() + (k - 1));
        lemma_squeeze_under_insert(before, s, k - 1, p);
        let after = expanded_shape(shape, s, k);
        let prev = squeezed_shape(after, s, k - 1);
        assert(prev == shape.insert(p - (k - 1), 1));
        assert(squeeze_position(s[k - 1] as int, prev.len() as int, k - 1) == p - (k - 1));
        assert(prev.remove(p - (k - 1)) =~= shape);
        assert forall|i: int| 0 <= i < k implies {
            let b = #[trigger] squeezed_shape(after, s, i);
            let at = squeeze_position(s[i] as int, b.len() as int, i);
            0 <= at < b.len() && b[at] == 1
        } by {
            if i < k - 1 {
                assert(squeezable(after, s, k - 1));
            }
        }
    }
}

/// Squeeze undoes ExpandDims: for distinct non-negative axes at which the
/// array can be expanded, squeezing the expanded array at the same axes is
/// possible and gives back the array.
pub proof fn law_squeeze_of_expand_dims(x: Arr, axes: Seq<i64>)
    requires
        x.wf(),
        strictly_ascending(sorted(axes)),
        forall|d: int| 0 <= d < axes.len() ==> 0 <= #[trigger] axes[d],
        expandable(x.shape, sorted(axes), axes.len() as int),
    ensures
        squeezable(expand_dims(x, axes).shape, sorted(axes), axes.len() as int),
        squeeze(expand_dims(x, axes), axes) == x,
{
    let s = sorted(axes);
    lemma_sorted(axes);
    assert forall|i: int| 0 <= i < s.len() implies 0 <= #[trigger] s[i] by {
        assert(s.contains(s[i]));
        assert(axes.contains(s[i]));
        let d = choose|d: int| 0 <= d < axes.len() && axes[d] == s[i];
        assert(0 <= axes[d]);
    }
    lemma_squeeze_expanded(x.shape, s, s.len() as int);
}

/// Reshape undoes Reshape: an array that was given a shape it can take can
/// be given its own shape again, and is then the array it was.
pub proof fn law_reshape_round_trip(x: Arr, entries: Seq<i64>)
    requires
        x.wf(),
        representable(x.shape),
        reshapable(entries, x.data.len() as int),
    ensures
        reshapable(extents(x.shape), x.data.len() as int),
        x.reshaped(requested_shape(entries, x.data.len() as int)).reshaped(
            requested_shape(extents(x.shape), x.data.len() as int),
        ) == x,
{
    let back = extents(x.shape);
    lemma_representable_extents(x.shape);
    assert(!asks_inference(back));
    assert(requested_shape(back, x.data.len() as int) =~= x.shape);
}

/// A multi-index that no selected position sends anything to receives
/// nothing.
pub proof fn lemma_contribution_none(positions: Seq<usize>, src: Arr, axis: int, idx: Seq<int>, n: nat)
    requires
        n <= positions.len(),
        forall|u: int| 0 <= u < n ==> #[trigger] positions[u] != idx[axis],
    ensures
        contribution(positions, src, axis, idx, n) == 0,
    decreases n,
{
    if n > 0 {
        lemma_contribution_none(positions, src, axis, idx, (n - 1) as nat);
    }
}

/// A multi-index that exactly one selected position sends to receives the
/// element sent from there.
pub proof fn lemma_contribution_single(positions: Seq<usize>, src: Arr, axis: int, idx: Seq<int>, s: int, n: nat)
    requires
        0 <= s < n <= positions.len(),
        positions[s] == idx[axis],
        forall|u: int| 0 <= u < n && u != s ==> #[trigger] positions[u] != idx[axis],
    ensures
        contribution(positions, src, axis, idx, n) == src.at(idx.update(axis, s)),
    decreases n,
{
    if s == n - 1 {
        lemma_contribution_none(positions, src, axis, idx, (n - 1) as nat);
    } else {
        lemma_contribution_single(positions, src, axis, idx, s, (n - 1) as nat);
    }
}

/// The backward of a gather accumulates: each element of the result is the
/// sum of all the elements of the incoming gradient that were gathered from
/// its position.
pub proof fn law_gather_grad_accumulates(shape: Seq<usize>, axis: int, positions: Seq<usize>, gy: Arr, idx: Seq<int>)
    requires
        in_bounds(shape, idx),
        accumulation_fits(
            shape,
            axis,
            positions,
            gy.reshaped(shape.update(axis, positions.len() as usize)),
        ),
    ensures
        gather_grad(shape, axis, positions, gy).at(idx) == contribution(
            positions,
            gy.reshaped(shape.update(axis, positions.len() as usize)),
            axis,
            idx,
            positions.len(),
        ),
{
    let src = gy.reshaped(shape.update(axis, positions.len() as usize));
    lemma_build(
        shape,
        |i: Seq<int>| contribution(positions, src, axis, i, positions.len()) as i64,
    );
    assert(crate::semantics::fits_i64(contribution(positions, src, axis, idx, positions.len())));
}

/// A position that was gathered twice receives the sum of the two slices of
/// the incoming gradient, not just the last of them.
pub proof fn law_gather_grad_sums_repeated_index(
    shape: Seq<usize>,
    axis: int,
    positions: Seq<usize>,
    gy: Arr,
    idx: Seq<int>,
    s: int,
    t: int,
)
    requires
        in_bounds(shape, idx),
        0 <= s < t < positions.len(),
        positions[s] == idx[axis],
        positions[t] == idx[axis],
        forall|u: int|
            0 <= u < positions.len() && u != s && u != t ==> #[trigger] positions[u] != idx[axis],
        accumulation_fits(
            shape,
            axis,
            positions,
            gy.reshaped(shape.update(axis, positions.len() as usize)),
        ),
    ensures
        gather_grad(shape, axis, positions, gy).at(idx) == gy.reshaped(
            shape.update(axis, positions.len() as usize),
        ).at(idx.update(axis, s)) + gy.reshaped(
            shape.update(axis, positions.len() as usize),
        ).at(idx.update(axis, t)),
{
    let src = gy.reshaped(shape.update(axis, positions.len() as usize));
    law_gather_grad_accumulates(shape, axis, positions, gy, idx);
    lemma_contribution_two(positions, src, axis, idx, s, t, positions.len());
}

/// A multi-index that exactly two selected positions send to receives the
/// sum of the two elements sent.
pub proof fn lemma_contribution_two(positions: Seq<usize>, src: Arr, axis: int, idx: Seq<int>, s: int, t: int, n: nat)
    requires
        0 <= s < t < n <= positions.len(),
        positions[s] == idx[axis],
        positions[t] == idx[axis],
        forall|u: int| 0 <= u < n && u != s && u != t ==> #[trigger] positions[u] != idx[axis],
    ensures
        contribution(positions, src, axis, idx, n) == src.at(idx.update(axis, s)) + src.at(
            idx.update(axis, t),
        ),
    decreases n,
{
    if t == n - 1 {
        lemma_contribution_single(positions, src, axis, idx, s, (n - 1) as nat);
    } else {
        lemma_contribution_two(positions, src, axis, idx, s, t, (n - 1) as nat);
    }
}

/// A lane of ones adds up to its length.
pub proof fn lemma_lane_of_ones(shape: Seq<usize>, axis: int, idx: Seq<int>, n: int)
    requires
        0 <= axis < shape.len(),
        0 <= n <= shape[axis],
        in_bounds(shape.update(axis, 1), idx),
    ensures
        lane_sum(Arr::filled(shape, 1), axis, idx, n) == n,
    decreases n,
{
    if n > 0 {
        lemma_lane_of_ones(shape, axis, idx, n - 1);
        lemma_filled(shape, 1);
        let at = idx.update(axis, n - 1);
        assert(in_bounds(shape, at)) by {
            assert forall|d: int| 0 <= d < shape.len() implies 0 <= #[trigger] at[d] < shape[d] by {
                if d != axis {
                    assert(at[d] == idx[d]);
                    assert(shape.update(axis, 1)[d] == shape[d]);
                }
            }
        }
    }
}

/// Summation is the adjoint of tiling: for an array with a single position
/// along the axis that is tiled `num` times, the gradient of the sum of all
/// elements of the tiling, which is one at every element of the tiling, is
/// sent back by the backward of the tiling as `num` at every element of the
/// array.
pub proof fn law_tile_gradient_of_sum(x: Arr, axis: int, num: int)
    requires
        x.wf(),
        0 <= axis < x.shape.len(),
        x.shape[axis] == 1,
        1 <= num <= usize::MAX,
        num <= i64::MAX,
    ensures
        reduce_sum(Arr::filled(tile(x, axis, num).shape, 1), axis, true) == Arr::filled(
            x.shape,
            num as i64,
        ),
{
    let copies = Seq::new(num as nat, |j: int| x);
    lemma_extent_sum_constant(x, num as nat, axis, num);
    let tiled = tile(x, axis, num).shape;
    assert(tiled == x.shape.update(axis, num as usize));
    let ones = Arr::filled(tiled, 1);
    let got = reduce_sum(ones, axis, true);
    let want = Arr::filled(x.shape, num as i64);
    assert(tiled.update(axis, 1) =~= x.shape);
    lemma_build(x.shape, |idx: Seq<int>| lane_sum(ones, axis, idx, tiled[axis] as int) as i64);
    lemma_filled(x.shape, num as i64);
    assert forall|idx: Seq<int>| in_bounds(x.shape, idx) implies #[trigger] got.at(idx) == want.at(
        idx,
    ) by {
        lemma_lane_of_ones(tiled, axis, idx, num);
    }
    lemma_arr_ext(got, want);
}

/// The backward of a slice is its exact inverse on what the slice selects:
/// slicing the array that holds a gradient at the selected elements gives
/// the gradient back.
pub proof fn law_slice_of_slice_grad(acc: Arr, spec: Seq<SliceOrIndex>, gy: Arr)
    requires
        gy.wf(),
        slice_in_range(acc.shape, spec),
        gy.shape == sliced_shape(acc.shape, spec),
    ensures
        slice(slice_assigned(acc, spec, gy), spec) == gy,
{
    let scattered = slice_assigned(acc, spec, gy);
    let back = slice(scattered, spec);
    lemma_build(
        acc.shape,
        |idx: Seq<int>|
            if slice_selects(acc.shape, spec, idx) {
                gy.at(slice_target(acc.shape, spec, idx))
            } else {
                acc.at(idx)
            },
    );
    lemma_build(
        sliced_shape(acc.shape, spec),
        |idx: Seq<int>| scattered.at(slice_source(acc.shape, spec, idx)),
    );
    assert forall|idx: Seq<int>| in_bounds(gy.shape, idx) implies #[trigger] back.at(idx) == gy.at(
        idx,
    ) by {
        lemma_slice_source(acc.shape, spec, idx);
    }
    lemma_arr_ext(back, gy);
}

/// A tiling repeats the array: its element at a multi-index is the element
/// of the array at the same multi-index, with the position along the axis
/// taken modulo the extent of the array.
pub proof fn law_tile_repeats(x: Arr, axis: int, num: int, idx: Seq<int>)
    requires
        0 <= axis < x.shape.len(),
        1 <= num,
        num * x.shape[axis] <= usize::MAX,
        in_bounds(tile(x, axis, num).shape, idx),
    ensures
        tile(x, axis, num).shape == x.shape.update(axis, (num * x.shape[axis]) as usize),
        tile(x, axis, num).at(idx) == x.at(idx.update(axis, idx[axis] % (x.shape[axis] as int))),
{
    let copies = Seq::new(num as nat, |j: int| x);
    let k: int = x.shape[axis] as int;
    let j: int = idx[axis];
    lemma_extent_sum_constant(x, num as nat, axis, num);
    assert(0 <= j < num * k);
    assert(k > 0) by (nonlinear_arith)
        requires
            0 <= j < num * k,
            0 <= k,
            1 <= num,
    ;
    let s: int = j / k;
    lemma_fundamental_div_mod(j, k);
    lemma_mod_bound(j, k);
    assert(0 <= s < num) by (nonlinear_arith)
        requires
            0 <= j < num * k,
            k > 0,
            j == k * s + j % k,
            0 <= j % k < k,
    ;
    lemma_extent_sum_constant(x, num as nat, axis, s);
    lemma_extent_sum_constant(x, num as nat, axis, s + 1);
    assert(s * k <= j < (s + 1) * k) by (nonlinear_arith)
        requires
            j == k * s + j % k,
            0 <= j % k < k,
    ;
    lemma_segment_of_slot(copies, axis, j, s, num);
    lemma_build(
        concat_shape(copies, axis),
        |i: Seq<int>|
            {
                let seg = segment_of(copies, axis, i[axis], num);
                copies[seg].at(i.update(axis, i[axis] - extent_sum(copies, axis, seg)))
            },
    );
    assert(j - s * k == j % k) by (nonlinear_arith)
        requires
            j == k * s + j % k,
    ;
}

/// Two lists of the same values in increasing order are the same list.
pub proof fn lemma_strictly_ascending_unique(a: Seq<i64>, b: Seq<i64>)
    requires
        strictly_ascending(a),
        strictly_ascending(b),
        forall|v: i64| a.contains(v) <==> b.contains(v),
    ensures
        a == b,
    decreases a.len(),
{
    if a.len() == 0 {
        if b.len() > 0 {
            assert(b.contains(b[0]));
        }
        assert(a =~= b);
    } else {
        let top = a.last();
        assert(a.contains(top));
        assert(b.contains(top));
        let at = choose|i: int| 0 <= i < b.len() && b[i] == top;
        assert(b.contains(b.last()));
        assert(a.contains(b.last()));
        let back = choose|i: int| 0 <= i < a.len() && a[i] == b.last();
        assert(b.last() == top);
        let a0 = a.drop_last();
        let b0 = b.drop_last();
        assert forall|v: i64| a0.contains(v) <==> b0.contains(v) by {
            if a0.contains(v) {
                let i = choose|i: int| 0 <= i < a0.len() && a0[i] == v;
                assert(a[i] == v && v < top);
                assert(a.contains(v));
                let j = choose|j: int| 0 <= j < b.len() && b[j] == v;
                assert(j < b.len() - 1);
                assert(b0[j] == v);
            }
            if b0.contains(v) {
                let i = choose|i: int| 0 <= i < b0.len() && b0[i] == v;
                assert(b[i] == v && v < top);
                assert(b.contains(v));
                let j = choose|j: int| 0 <= j < a.len() && a[j] == v;
                assert(j < a.len() - 1);
                assert(a0[j] == v);
            }
        }
        lemma_strictly_ascending_unique(a0, b0);
        assert(a =~= a0.push(top));
        assert(b =~= b0.push(top));
    }
}

/// The set difference of two lists of values is unique: whatever lists, in
/// increasing order and once each, the values of `a` that are not in `b`,
/// is the same list.
pub proof fn law_set_difference_unique(r1: Seq<i64>, r2: Seq<i64>, a: Seq<i64>, b: Seq<i64>)
    requires
        is_set_difference(r1, a, b),
        is_set_difference(r2, a, b),
    ensures
        r1 == r2,
{
    lemma_strictly_ascending_unique(r1, r2);
}

/// Increasing whole numbers grow at least as fast as their places.
pub proof fn lemma_ascending_gaps(s: Seq<i64>, j: int, i: int)
    requires
        strictly_ascending(s),
        0 <= j <= i < s.len(),
    ensures
        s[j] - j <= s[i] - i,
    decreases i - j,
{
    if j < i {
        lemma_ascending_gaps(s, j, i - 1);
    }
}

/// Inserting an axis of extent one at or before an axis that is then
/// removed is removing that axis first and inserting afterwards.
pub proof fn lemma_insert_before_remove(x: Seq<usize>, p: int, r: int)
    requires
        0 <= p <= r < x.len(),
    ensures
        x.remove(r).insert(p, 1) == x.insert(p, 1).remove(r + 1),
{
    assert(x.remove(r).insert(p, 1) =~= x.insert(p, 1).remove(r + 1));
}

/// Expanding a shape from which an axis was removed, at entries that all
/// lie at or before that axis, is expanding the shape and removing the axis
/// afterwards, which the inserted axes have moved up.
pub proof fn lemma_expand_under_remove(x: Seq<usize>, s: Seq<i64>, k: int, q: int)
    requires
        0 <= k <= s.len(),
        0 <= q < x.len(),
        forall|i: int| 0 <= i < k ==> 0 <= #[trigger] s[i] && s[i] - i <= q,
    ensures
        expandable(x, s, k),
        expanded_shape(x.remove(q), s, k) == expanded_shape(x, s, k).remove(q + k),
    decreases k,
{
    assert forall|j: int| 0 <= j < k implies 0 <= #[trigger] crate::semantics::expand_position(
        s[j] as int,
        x.len() as int,
    ) <= x.len() + j by {
        assert(0 <= s[j] && s[j] - j <= q);
    }
    if k > 0 {
        lemma_expand_under_remove(x, s, k - 1, q);
        lemma_expanded_shape(x, s, k - 1);
        assert(0 <= s[k - 1] && s[k - 1] - (k - 1) <= q);
        lemma_insert_before_remove(expanded_shape(x, s, k - 1), s[k - 1] as int, q + k - 1);
    } else {
    }
}

/// After the first `k` entries of a squeeze, the axes beyond the last one
/// removed are those of the shape, moved down by `k`.
pub proof fn lemma_squeezed_tail(shape: Seq<usize>, s: Seq<i64>, k: int, j: int)
    requires
        0 <= k <= s.len(),
        strictly_ascending(s),
        forall|i: int| 0 <= i < s.len() ==> 0 <= #[trigger] s[i],
        squeezable(shape, s, k),
        k > 0 ==> s[k - 1] - (k - 1) <= j,
        0 <= j < shape.len() - k,
    ensures
        squeezed_shape(shape, s, k)[j] == shape[j + k],
    decreases k,
{
    if k > 0 {
        assert(squeezable(shape, s, k - 1));
        lemma_squeezed_shape(shape, s, k - 1);
        let prev = squeezed_shape(shape, s, k - 1);
        let a = squeeze_position(s[k - 1] as int, prev.len() as int, k - 1);
        assert(0 <= a < prev.len() && prev[a] == 1);
        if k > 1 {
            lemma_ascending_gaps(s, k - 2, k - 1);
        }
        lemma_squeezed_tail(shape, s, k - 1, j + 1);
    }
}

/// Squeezing at increasing non-negative entries and expanding at the same
/// entries gives back the shape.
pub proof fn lemma_expand_squeezed(shape: Seq<usize>, s: Seq<i64>, k: int)
    requires
        0 <= k <= s.len(),
        strictly_ascending(s),
        forall|i: int| 0 <= i < s.len() ==> 0 <= #[trigger] s[i],
        squeezable(shape, s, k),
    ensures
        expandable(squeezed_shape(shape, s, k), s, k),
        expanded_shape(squeezed_shape(shape, s, k), s, k) == shape,
    decreases k,
{
    if k > 0 {
        assert(squeezable(shape, s, k - 1));
        lemma_expand_squeezed(shape, s, k - 1);
        lemma_squeezed_shape(shape, s, k - 1);
        lemma_squeezed_shape(shape, s, k);
        let prev = squeezed_shape(shape, s, k - 1);
        let now = squeezed_shape(shape, s, k);
        let q = squeeze_position(s[k - 1] as int, prev.len() as int, k - 1);
        assert(0 <= q < prev.len() && prev[q] == 1);
        assert(q == s[k - 1] - (k - 1));
        assert forall|i: int| 0 <= i < k - 1 implies 0 <= #[trigger] s[i] && s[i] - i <= q by {
            lemma_ascending_gaps(s, i, k - 1);
        }
        lemma_expand_under_remove(prev, s, k - 1, q);
        if k > 1 {
            lemma_ascending_gaps(s, k - 2, k - 1);
        }
        lemma_squeezed_tail(shape, s, k - 1, q);
        let at = s[k - 1] as int;
        assert(shape[at] == 1);
        assert(shape.remove(at).insert(at, 1) =~= shape);
        assert(crate::semantics::expand_position(s[k - 1] as int, now.len() as int) == at);
        assert forall|j: int| 0 <= j < k implies 0 <= #[trigger] crate::semantics::expand_position(
            s[j] as int,
            now.len() as int,
        ) <= now.len() + j by {
            lemma_ascending_gaps(s, j, k - 1);
        }
    }
}

/// ExpandDims undoes Squeeze: for distinct non-negative axes at which the
/// array can be squeezed, expanding the squeezed array at the same axes is
/// possible and gives back the array.
pub proof fn law_expand_dims_of_squeeze(x: Arr, axes: Seq<i64>)
    requires
        x.wf(),
        strictly_ascending(sorted(axes)),
        forall|d: int| 0 <= d < axes.len() ==> 0 <= #[trigger] axes[d],
        squeezable(x.shape, sorted(axes), axes.len() as int),
    ensures
        expandable(squeeze(x, axes).shape, sorted(axes), axes.len() as int),
        expand_dims(squeeze(x, axes), axes) == x,
{
    let s = sorted(axes);
    lemma_sorted(axes);
    assert forall|i: int| 0 <= i < s.len() implies 0 <= #[trigger] s[i] by {
        assert(s.contains(s[i]));
        assert(axes.contains(s[i]));
        let d = choose|d: int| 0 <= d < axes.len() && axes[d] == s[i];
        assert(0 <= axes[d]);
    }
    lemma_expand_squeezed(x.shape, s, s.len() as int);
}

} // verus!
