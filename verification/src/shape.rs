//! Shapes and row-major indexing.
//!
//! A shape is a sequence of extents, one per axis.  An element of an array of
//! that shape is addressed either by a multi-index (one coordinate per axis)
//! or by its position in row-major order, where the last coordinate varies
//! fastest.  This module defines both addressings and proves that they are
//! in one-to-one correspondence.

use vstd::arithmetic::div_mod::{
    lemma_fundamental_div_mod, lemma_fundamental_div_mod_converse, lemma_mod_bound,
};
use vstd::arithmetic::mul::{lemma_mul_inequality, lemma_mul_nonnegative};
use vstd::prelude::*;

verus! {

/// Number of elements of an array of the given shape: the product of its
/// extents (1 for the empty shape, which is the shape of a scalar).
pub open spec fn size(shape: Seq<usize>) -> int
    decreases shape.len(),
{
    if shape.len() == 0 {
        1
    } else {
        size(shape.drop_last()) * (shape.last() as int)
    }
}

/// Product of the extents that are not zero.
pub open spec fn size_nonzero(shape: Seq<usize>) -> int
    decreases shape.len(),
{
    if shape.len() == 0 {
        1
    } else if shape.last() == 0 {
        size_nonzero(shape.drop_last())
    } else {
        size_nonzero(shape.drop_last()) * (shape.last() as int)
    }
}

/// A shape that an array can have: the product of its non-zero extents does
/// not exceed `isize::MAX`.
pub open spec fn representable(shape: Seq<usize>) -> bool {
    size_nonzero(shape) <= isize::MAX
}

/// `idx` addresses an element of an array of shape `shape`.
pub open spec fn in_bounds(shape: Seq<usize>, idx: Seq<int>) -> bool {
    &&& idx.len() == shape.len()
    &&& forall|d: int| 0 <= d < shape.len() ==> 0 <= #[trigger] idx[d] < shape[d]
}

/// Row-major position of the element addressed by `idx`.
pub open spec fn offset(shape: Seq<usize>, idx: Seq<int>) -> int
    decreases shape.len(),
{
    if shape.len() == 0 {
        0
    } else {
        offset(shape.drop_last(), idx.drop_last()) * (shape.last() as int) + idx.last()
    }
}

/// Multi-index of the element at row-major position `p`.
pub open spec fn unravel(shape: Seq<usize>, p: int) -> Seq<int>
    decreases shape.len(),
{
    if shape.len() == 0 {
        Seq::empty()
    } else {
        unravel(shape.drop_last(), p / (shape.last() as int)).push(p % (shape.last() as int))
    }
}

/// The axis that a possibly negative axis number denotes in an array of
/// `rank` axes: negative numbers count from the last axis.
pub open spec fn normalized_axis(axis: int, rank: int) -> int {
    if axis < 0 {
        rank + axis
    } else {
        axis
    }
}

/// `axis` denotes one of the `rank` axes.
pub open spec fn valid_axis(axis: int, rank: int) -> bool {
    -rank <= axis < rank
}

/// A shape denotes a scalar if it has no axis, or a single axis of extent
/// zero.
pub open spec fn scalar_shape(shape: Seq<usize>) -> bool {
    shape.len() == 0 || (shape.len() == 1 && shape[0] == 0)
}

/// The size of a shape is not negative and is zero exactly when some extent
/// is; the product of the non-zero extents bounds it.
pub proof fn lemma_size_nonnegative(shape: Seq<usize>)
    ensures
        0 <= size(shape),
        1 <= size_nonzero(shape),
        size(shape) <= size_nonzero(shape),
        size(shape) != 0 ==> size(shape) == size_nonzero(shape),
        size(shape) == 0 <==> exists|d: int| 0 <= d < shape.len() && shape[d] == 0,
    decreases shape.len(),
{
    if shape.len() > 0 {
        let head = shape.drop_last();
        let last: int = shape.last() as int;
        lemma_size_nonnegative(head);
        lemma_mul_nonnegative(size(head), last);
        assert(size_nonzero(head) * 1 == size_nonzero(head));
        if last != 0 {
            lemma_mul_inequality(1, size_nonzero(head), last);
            lemma_mul_inequality(size(head), size_nonzero(head), last);
            assert(size(head) * last == 0 <==> size(head) == 0) by (nonlinear_arith)
                requires
                    last > 0,
                    size(head) >= 0,
            ;
        } else {
            assert(size(head) * 0 == 0);
        }
        if size(shape) == 0 {
            if last == 0 {
                assert(shape[shape.len() - 1] == 0);
            } else {
                let d: int = choose|d: int| 0 <= d < head.len() && head[d] == 0;
                assert(shape[d] == 0);
            }
        }
        if exists|d: int| 0 <= d < shape.len() && shape[d] == 0 {
            let d: int = choose|d: int| 0 <= d < shape.len() && shape[d] == 0;
            if d < head.len() {
                assert(head[d] == 0);
            }
        }
    }
}

/// An in-bounds multi-index lies at a position below the size.
pub proof fn lemma_offset_bounds(shape: Seq<usize>, idx: Seq<int>)
    requires
        in_bounds(shape, idx),
    ensures
        0 <= offset(shape, idx) < size(shape),
    decreases shape.len(),
{
    if shape.len() > 0 {
        let head = shape.drop_last();
        let last: int = shape.last() as int;
        assert(in_bounds(head, idx.drop_last())) by {
            assert forall|d: int| 0 <= d < head.len() implies 0 <= #[trigger] idx.drop_last()[d]
                < head[d] by {
                assert(idx.drop_last()[d] == idx[d]);
            }
        }
        lemma_offset_bounds(head, idx.drop_last());
        let o: int = offset(head, idx.drop_last());
        assert(0 <= idx[shape.len() - 1] < last);
        assert(0 <= o * last + idx.last() < size(head) * last) by (nonlinear_arith)
            requires
                0 <= o < size(head),
                0 <= idx.last() < last,
        ;
    }
}

/// Every position below the size is the position of exactly the multi-index
/// that `unravel` gives for it, and that multi-index is in bounds.
pub proof fn lemma_unravel(shape: Seq<usize>, p: int)
    requires
        0 <= p < size(shape),
    ensures
        in_bounds(shape, unravel(shape, p)),
        offset(shape, unravel(shape, p)) == p,
    decreases shape.len(),
{
    if shape.len() > 0 {
        let head = shape.drop_last();
        let last: int = shape.last() as int;
        lemma_size_nonnegative(head);
        assert(last > 0 && 0 <= p / last < size(head)) by (nonlinear_arith)
            requires
                0 <= p < size(head) * last,
                0 <= size(head),
                0 <= last,
        ;
        lemma_unravel(head, p / last);
        lemma_mod_bound(p, last);
        lemma_fundamental_div_mod(p, last);
        let u = unravel(shape, p);
        assert(u.drop_last() =~= unravel(head, p / last));
        assert(in_bounds(shape, u)) by {
            assert forall|d: int| 0 <= d < shape.len() implies 0 <= #[trigger] u[d] < shape[d] by {
                if d < head.len() {
                    assert(u[d] == unravel(head, p / last)[d]);
                    assert(shape[d] == head[d]);
                }
            }
        }
        assert(last * (p / last) == (p / last) * last) by (nonlinear_arith);
    } else {
        assert(unravel(shape, p) =~= Seq::<int>::empty());
    }
}

/// `unravel` inverts `offset` on in-bounds multi-indices.
pub proof fn lemma_unravel_offset(shape: Seq<usize>, idx: Seq<int>)
    requires
        in_bounds(shape, idx),
    ensures
        unravel(shape, offset(shape, idx)) == idx,
    decreases shape.len(),
{
    if shape.len() > 0 {
        let head = shape.drop_last();
        let last: int = shape.last() as int;
        assert(in_bounds(head, idx.drop_last())) by {
            assert forall|d: int| 0 <= d < head.len() implies 0 <= #[trigger] idx.drop_last()[d]
                < head[d] by {
                assert(idx.drop_last()[d] == idx[d]);
            }
        }
        lemma_unravel_offset(head, idx.drop_last());
        let o: int = offset(head, idx.drop_last());
        assert(0 <= idx[shape.len() - 1] < last);
        lemma_fundamental_div_mod_converse(o * last + idx.last(), last, o, idx.last());
        assert(unravel(shape, offset(shape, idx)) =~= idx);
    } else {
        assert(unravel(shape, offset(shape, idx)) =~= idx);
    }
}

/// Two in-bounds multi-indices at the same position are the same.
pub proof fn lemma_offset_injective(shape: Seq<usize>, a: Seq<int>, b: Seq<int>)
    requires
        in_bounds(shape, a),
        in_bounds(shape, b),
        offset(shape, a) == offset(shape, b),
    ensures
        a == b,
{
    lemma_unravel_offset(shape, a);
    lemma_unravel_offset(shape, b);
}

/// The size of a concatenation of shapes is the product of their sizes.
pub proof fn lemma_size_concat(a: Seq<usize>, b: Seq<usize>)
    ensures
        size(a + b) == size(a) * size(b),
        size_nonzero(a + b) == size_nonzero(a) * size_nonzero(b),
    decreases b.len(),
{
    if b.len() == 0 {
        assert(a + b =~= a);
        assert(size(a) * 1 == size(a));
        assert(size_nonzero(a) * 1 == size_nonzero(a));
    } else {
        assert((a + b).drop_last() =~= a + b.drop_last());
        lemma_size_concat(a, b.drop_last());
        let sa: int = size(a);
        let sb: int = size(b.drop_last());
        let l: int = b.last() as int;
        assert((sa * sb) * l == sa * (sb * l)) by (nonlinear_arith);
        let na: int = size_nonzero(a);
        let nb: int = size_nonzero(b.drop_last());
        assert((na * nb) * l == na * (nb * l)) by (nonlinear_arith);
    }
}

} // verus!

verus! {

/// The row-major listing of a shape's extents as array elements.
pub open spec fn extents(shape: Seq<usize>) -> Seq<i64> {
    Seq::new(shape.len(), |d: int| shape[d] as i64)
}

/// Every extent of a representable shape is at most `isize::MAX`.
pub proof fn lemma_representable_extents(shape: Seq<usize>)
    requires
        representable(shape),
    ensures
        forall|d: int| 0 <= d < shape.len() ==> #[trigger] shape[d] <= isize::MAX,
    decreases shape.len(),
{
    if shape.len() > 0 {
        let head = shape.drop_last();
        let last: int = shape.last() as int;
        lemma_size_nonnegative(head);
        if last != 0 {
            assert(size_nonzero(head) <= size_nonzero(head) * last && last <= size_nonzero(head)
                * last) by (nonlinear_arith)
                requires
                    1 <= size_nonzero(head),
                    1 <= last,
            ;
        }
        lemma_representable_extents(head);
        assert forall|d: int| 0 <= d < shape.len() implies #[trigger] shape[d] <= isize::MAX by {
            if d < head.len() {
                assert(shape[d] == head[d]);
            }
        }
    }
}

} // verus!

verus! {

/// `shape` with the axis `axis` replaced by the axes `middle`.
pub open spec fn splice(shape: Seq<usize>, axis: int, middle: Seq<usize>) -> Seq<usize> {
    shape.subrange(0, axis) + middle + shape.subrange(axis + 1, shape.len() as int)
}

/// A shape of one axis holds as many elements as the extent of that axis.
pub proof fn lemma_size_singleton(n: usize)
    ensures
        size(seq![n]) == n,
        size_nonzero(seq![n]) == if n == 0 {
            1int
        } else {
            n as int
        },
{
    assert(seq![n].drop_last() =~= Seq::<usize>::empty());
    assert(size(seq![n]) == size(Seq::<usize>::empty()) * (n as int));
    assert(size_nonzero(Seq::<usize>::empty()) == 1);
}

/// Splicing multiplies the sizes of the three parts.
pub proof fn lemma_size_splice(shape: Seq<usize>, axis: int, middle: Seq<usize>)
    requires
        0 <= axis < shape.len(),
    ensures
        size(splice(shape, axis, middle)) == size(shape.subrange(0, axis)) * size(middle) * size(
            shape.subrange(axis + 1, shape.len() as int),
        ),
        size_nonzero(splice(shape, axis, middle)) == size_nonzero(shape.subrange(0, axis))
            * size_nonzero(middle) * size_nonzero(shape.subrange(axis + 1, shape.len() as int)),
{
    let pre = shape.subrange(0, axis);
    let suf = shape.subrange(axis + 1, shape.len() as int);
    lemma_size_concat(pre, middle);
    lemma_size_concat(pre + middle, suf);
}

/// Replacing one extent is splicing in a single axis; removing an axis is
/// splicing in none; and a shape is itself spliced with its own axis.
pub proof fn lemma_splice_forms(shape: Seq<usize>, axis: int, n: usize)
    requires
        0 <= axis < shape.len(),
    ensures
        shape.update(axis, n) == splice(shape, axis, seq![n]),
        shape.remove(axis) == splice(shape, axis, Seq::empty()),
        shape == splice(shape, axis, seq![shape[axis]]),
{
    assert(shape.update(axis, n) =~= splice(shape, axis, seq![n]));
    assert(shape.remove(axis) =~= splice(shape, axis, Seq::empty()));
    assert(shape =~= splice(shape, axis, seq![shape[axis]]));
}

/// Sizes of a shape with one extent replaced.
pub proof fn lemma_size_update(shape: Seq<usize>, axis: int, n: usize)
    requires
        0 <= axis < shape.len(),
    ensures
        size(shape.update(axis, n)) == size(shape.subrange(0, axis)) * (n as int) * size(
            shape.subrange(axis + 1, shape.len() as int),
        ),
        size_nonzero(shape.update(axis, n)) == size_nonzero(shape.subrange(0, axis)) * (if n == 0 {
            1int
        } else {
            n as int
        }) * size_nonzero(shape.subrange(axis + 1, shape.len() as int)),
{
    lemma_splice_forms(shape, axis, n);
    lemma_size_splice(shape, axis, seq![n]);
    lemma_size_singleton(n);
}

} // verus!

verus! {

/// Inserting or removing an axis of extent one changes neither the size nor
/// whether the shape is representable.
pub proof fn lemma_size_unit_axis(shape: Seq<usize>, axis: int)
    requires
        0 <= axis <= shape.len(),
    ensures
        size(shape.insert(axis, 1)) == size(shape),
        size_nonzero(shape.insert(axis, 1)) == size_nonzero(shape),
        axis < shape.len() && shape[axis] == 1 ==> size(shape.remove(axis)) == size(shape)
            && size_nonzero(shape.remove(axis)) == size_nonzero(shape),
{
    let pre = shape.subrange(0, axis);
    let suf = shape.subrange(axis, shape.len() as int);
    assert(shape =~= pre + suf);
    assert(shape.insert(axis, 1) =~= (pre + seq![1usize]) + suf);
    lemma_size_concat(pre, suf);
    lemma_size_concat(pre, seq![1usize]);
    lemma_size_concat(pre + seq![1usize], suf);
    lemma_size_singleton(1usize);
    assert(size(pre) * 1 == size(pre));
    assert(size_nonzero(pre) * 1 == size_nonzero(pre));
    if axis < shape.len() && shape[axis] == 1 {
        let rest = shape.subrange(axis + 1, shape.len() as int);
        assert(shape.remove(axis) =~= pre + rest);
        assert(shape =~= (pre + seq![1usize]) + rest);
        lemma_size_concat(pre, rest);
        lemma_size_concat(pre + seq![1usize], rest);
    }
}

/// In an array with an axis of extent one, an element lies at the same
/// row-major position as in the array without that axis.
pub proof fn lemma_offset_unit_axis(shape: Seq<usize>, axis: int, idx: Seq<int>)
    requires
        0 <= axis < shape.len(),
        shape[axis] == 1,
        idx.len() == shape.len() - 1,
    ensures
        offset(shape, idx.insert(axis, 0)) == offset(shape.remove(axis), idx),
        in_bounds(shape.remove(axis), idx) <==> in_bounds(shape, idx.insert(axis, 0)),
    decreases shape.len(),
{
    let full = idx.insert(axis, 0);
    let small = shape.remove(axis);
    if axis == shape.len() - 1 {
        assert(full.drop_last() =~= idx);
        assert(shape.drop_last() =~= small);
        assert(offset(shape.drop_last(), full.drop_last()) * 1 == offset(small, idx));
    } else {
        assert(full.drop_last() =~= idx.drop_last().insert(axis, 0));
        assert(shape.drop_last().remove(axis) =~= small.drop_last());
        lemma_offset_unit_axis(shape.drop_last(), axis, idx.drop_last());
        assert(small.last() == shape.last());
        assert(full.last() == idx.last());
    }
    if in_bounds(small, idx) {
        assert forall|d: int| 0 <= d < shape.len() implies 0 <= #[trigger] full[d] < shape[d] by {
            if d < axis {
                assert(full[d] == idx[d] && shape[d] == small[d]);
            } else if d > axis {
                assert(full[d] == idx[d - 1] && shape[d] == small[d - 1]);
            }
        }
    }
    if in_bounds(shape, full) {
        assert forall|d: int| 0 <= d < small.len() implies 0 <= #[trigger] idx[d] < small[d] by {
            if d < axis {
                assert(full[d] == idx[d] && shape[d] == small[d]);
            } else {
                assert(full[d + 1] == idx[d] && shape[d + 1] == small[d]);
            }
        }
    }
}

} // verus!

verus! {

/// A representable shape stays representable when an axis is removed.
pub proof fn lemma_representable_without_axis(shape: Seq<usize>, axis: int)
    requires
        0 <= axis < shape.len(),
        representable(shape),
    ensures
        representable(shape.remove(axis)),
{
    lemma_splice_forms(shape, axis, shape[axis]);
    lemma_size_splice(shape, axis, seq![shape[axis]]);
    lemma_size_splice(shape, axis, Seq::empty());
    lemma_size_singleton(shape[axis]);
    let pre = size_nonzero(shape.subrange(0, axis));
    let suf = size_nonzero(shape.subrange(axis + 1, shape.len() as int));
    let mid = size_nonzero(seq![shape[axis]]);
    lemma_size_nonnegative(shape.subrange(0, axis));
    lemma_size_nonnegative(shape.subrange(axis + 1, shape.len() as int));
    assert(pre * 1 * suf <= pre * mid * suf) by (nonlinear_arith)
        requires
            1 <= pre,
            1 <= suf,
            1 <= mid,
    ;
}

} // verus!
