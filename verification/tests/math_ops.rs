use autograd::ndarray_ext::NdArray;
use autograd::op::ArrRepr;
use autograd::ops::array_ops::Tile;
use autograd::ops::math_ops::ReduceSum;

fn tensor(shape: Vec<usize>, data: Vec<i64>) -> NdArray {
    NdArray::from_shape_vec(shape, data).unwrap()
}

fn summed(op: ReduceSum, x: &NdArray) -> (Vec<usize>, Vec<i64>) {
    let r = op.compute(&vec![x.as_view()]);
    match &r[0] {
        Ok(ArrRepr::Owned(a)) => (a.shape(), a.to_vec()),
        _ => panic!("expected an owned array"),
    }
}

#[test]
fn reduce_sum_drops_the_axis() {
    let x = tensor(vec![2, 3], vec![1, 2, 3, 4, 5, 6]);
    assert_eq!(summed(ReduceSum { axis: 0, keep_dims: false }, &x), (vec![3], vec![5, 7, 9]));
    assert_eq!(summed(ReduceSum { axis: 1, keep_dims: false }, &x), (vec![2], vec![6, 15]));
    assert_eq!(summed(ReduceSum { axis: -1, keep_dims: false }, &x), (vec![2], vec![6, 15]));
}

#[test]
fn reduce_sum_keeps_the_axis_with_extent_one() {
    let x = tensor(vec![2, 3], vec![1, 2, 3, 4, 5, 6]);
    assert_eq!(summed(ReduceSum { axis: 0, keep_dims: true }, &x), (vec![1, 3], vec![5, 7, 9]));
    assert_eq!(summed(ReduceSum { axis: 1, keep_dims: true }, &x), (vec![2, 1], vec![6, 15]));
}

#[test]
fn reduce_sum_along_a_middle_axis() {
    let x = tensor(vec![2, 2, 2], vec![1, 2, 3, 4, 5, 6, 7, 8]);
    assert_eq!(
        summed(ReduceSum { axis: 1, keep_dims: false }, &x),
        (vec![2, 2], vec![4, 6, 12, 14])
    );
}

#[test]
fn reduce_sum_of_an_empty_axis_is_zero() {
    let x = tensor(vec![2, 0], vec![]);
    assert_eq!(summed(ReduceSum { axis: 1, keep_dims: false }, &x), (vec![2], vec![0, 0]));
}

#[test]
fn reduce_sum_reports_its_name() {
    assert_eq!(ReduceSum { axis: 0, keep_dims: true }.name(), "ReduceSum");
}

#[test]
fn gradient_of_the_sum_of_a_tiling_is_the_number_of_copies() {
    // x has a single position along the tiled axis
    let x = tensor(vec![2, 1], vec![5, 6]);
    let tiled = Tile { axis: 1, num: 4 }.compute(&vec![x.as_view()]);
    let shape = match &tiled[0] {
        Ok(y) => y.shape(),
        Err(e) => panic!("unexpected error {:?}", e),
    };
    assert_eq!(shape, vec![2, 4]);
    // the gradient of sum(y) with respect to y is one everywhere
    let ones = tensor(shape, vec![1; 8]);
    // the backward of the tiling sums it along the axis and keeps the axis
    assert_eq!(
        summed(ReduceSum { axis: 1, keep_dims: true }, &ones),
        (x.shape(), vec![4, 4])
    );
}
