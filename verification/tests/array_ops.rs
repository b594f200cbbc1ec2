use autograd::ndarray_ext::{NdArray, NdArrayView};
use autograd::op::{ArrRepr, ComputeError};
use autograd::ops::array_ops::{
    make_indices_for_split, AddN, Clip, ClipGrad, Concat, ConcatGrad, ExpandDims, Gather,
    GatherGrad, IndexOp, IndexOpGrad, InferBinOpShape, Rank, Reshape, SetDiff1D, Shape, Size,
    Slice, SliceGrad, Split, SplitGrad, Squeeze, Tile,
};
use autograd::slicing::SliceOrIndex;

fn arr(shape: Vec<usize>, data: Vec<i64>) -> NdArray {
    NdArray::from_shape_vec(shape, data).unwrap()
}

fn owned(r: &Vec<Result<ArrRepr, ComputeError>>) -> (Vec<usize>, Vec<i64>) {
    assert_eq!(r.len(), 1);
    match &r[0] {
        Ok(a) => {
            assert!(!a.is_view());
            (a.shape(), a.to_vec())
        }
        Err(e) => panic!("unexpected error {:?}", e),
    }
}

fn viewed(r: &Vec<Result<ArrRepr, ComputeError>>) -> (Vec<usize>, Vec<i64>) {
    assert_eq!(r.len(), 1);
    match &r[0] {
        Ok(a) => {
            assert!(a.is_view());
            (a.shape(), a.to_vec())
        }
        Err(e) => panic!("unexpected error {:?}", e),
    }
}

fn failed(r: &Vec<Result<ArrRepr, ComputeError>>) -> ComputeError {
    assert_eq!(r.len(), 1);
    match &r[0] {
        Ok(_) => panic!("expected an error"),
        Err(e) => *e,
    }
}

fn full() -> SliceOrIndex {
    SliceOrIndex::Slice { start: 0, end: None, step: 1 }
}

#[test]
fn from_shape_vec_lists_elements_in_row_major_order() {
    let a = arr(vec![2, 3], vec![1, 2, 3, 4, 5, 6]);
    assert_eq!(a.shape(), vec![2, 3]);
    assert_eq!(a.to_vec(), vec![1, 2, 3, 4, 5, 6]);
    let v = a.as_view();
    assert_eq!(v.ndim(), 2);
    assert_eq!(v.len(), 6);
    assert!(v.is_standard_layout());
}

#[test]
fn from_shape_vec_rejects_wrong_element_count() {
    let r = NdArray::from_shape_vec(vec![2, 3], vec![1, 2, 3, 4, 5]);
    assert!(matches!(r, Err(ComputeError::IncompatibleShape)));
    let r = NdArray::from_shape_vec(vec![], vec![]);
    assert!(matches!(r, Err(ComputeError::IncompatibleShape)));
}

#[test]
fn from_shape_vec_accepts_scalar_and_empty() {
    let s = arr(vec![], vec![9]);
    assert_eq!(s.shape(), Vec::<usize>::new());
    assert_eq!(s.to_vec(), vec![9]);
    let e = arr(vec![0, 4], vec![]);
    assert_eq!(e.shape(), vec![0, 4]);
    assert_eq!(e.to_vec(), Vec::<i64>::new());
}

#[test]
fn gather_selects_sub_arrays_in_index_order() {
    let param = arr(vec![3, 2], vec![1, 2, 3, 4, 5, 6]);
    let indices = arr(vec![2], vec![2, 0]);
    let op = Gather { axis: 0, should_normalize_negative_indices: false };
    let r = op.compute(&vec![indices.as_view(), param.as_view()]);
    assert_eq!(owned(&r), (vec![2, 2], vec![5, 6, 1, 2]));
}

#[test]
fn gather_counts_negative_indices_from_the_end() {
    let param = arr(vec![3, 2], vec![1, 2, 3, 4, 5, 6]);
    let indices = arr(vec![2], vec![-1, -3]);
    let op = Gather { axis: 0, should_normalize_negative_indices: true };
    let r = op.compute(&vec![indices.as_view(), param.as_view()]);
    assert_eq!(owned(&r), (vec![2, 2], vec![5, 6, 1, 2]));
}

#[test]
fn gather_output_takes_the_shape_of_the_indices() {
    let param = arr(vec![3, 2], vec![1, 2, 3, 4, 5, 6]);
    let indices = arr(vec![2, 2], vec![0, 1, 2, 0]);
    let op = Gather { axis: 0, should_normalize_negative_indices: false };
    let r = op.compute(&vec![indices.as_view(), param.as_view()]);
    assert_eq!(owned(&r), (vec![2, 2, 2], vec![1, 2, 3, 4, 5, 6, 1, 2]));
}

#[test]
fn gather_along_the_last_axis() {
    let param = arr(vec![2, 3], vec![1, 2, 3, 4, 5, 6]);
    let indices = arr(vec![3], vec![2, 2, 0]);
    let op = Gather { axis: -1, should_normalize_negative_indices: false };
    let r = op.compute(&vec![indices.as_view(), param.as_view()]);
    assert_eq!(owned(&r), (vec![2, 3], vec![3, 3, 1, 6, 6, 4]));
}

#[test]
fn gather_with_scalar_index_drops_the_axis() {
    let param = arr(vec![2, 3], vec![1, 2, 3, 4, 5, 6]);
    let indices = arr(vec![], vec![1]);
    let op = Gather { axis: 0, should_normalize_negative_indices: false };
    let r = op.compute(&vec![indices.as_view(), param.as_view()]);
    assert_eq!(owned(&r), (vec![3], vec![4, 5, 6]));
}

#[test]
fn gather_grad_sums_gradients_of_a_repeated_index() {
    let param = arr(vec![2, 2], vec![10, 20, 30, 40]);
    let indices = arr(vec![3], vec![0, 0, 1]);
    let gy = arr(vec![3, 2], vec![1, 2, 3, 4, 5, 6]);
    let op = GatherGrad { axis: 0 };
    let r = op.compute(&vec![indices.as_view(), param.as_view(), gy.as_view()]);
    // position 0 receives both slices that were gathered from it
    assert_eq!(owned(&r), (vec![2, 2], vec![1 + 3, 2 + 4, 5, 6]));
}

#[test]
fn gather_grad_leaves_unselected_positions_zero() {
    let param = arr(vec![3, 2], vec![0, 0, 0, 0, 0, 0]);
    let indices = arr(vec![2], vec![2, 2]);
    let gy = arr(vec![2, 2], vec![1, 2, 3, 4]);
    let op = GatherGrad { axis: 0 };
    let r = op.compute(&vec![indices.as_view(), param.as_view(), gy.as_view()]);
    assert_eq!(owned(&r), (vec![3, 2], vec![0, 0, 0, 0, 4, 6]));
}

#[test]
fn gather_grad_along_axis_one_with_negative_axis_and_index() {
    let param = arr(vec![2, 3], vec![0, 0, 0, 0, 0, 0]);
    let indices = arr(vec![2], vec![-1, 0]);
    let gy = arr(vec![2, 2], vec![1, 2, 3, 4]);
    let op = GatherGrad { axis: -1 };
    let r = op.compute(&vec![indices.as_view(), param.as_view(), gy.as_view()]);
    assert_eq!(owned(&r), (vec![2, 3], vec![2, 0, 1, 4, 0, 3]));
}

#[test]
fn gather_grad_reads_gradient_shaped_like_the_indices() {
    let param = arr(vec![3], vec![0, 0, 0]);
    let indices = arr(vec![2, 2], vec![0, 1, 1, 1]);
    let gy = arr(vec![2, 2], vec![1, 10, 100, 1000]);
    let op = GatherGrad { axis: 0 };
    let r = op.compute(&vec![indices.as_view(), param.as_view(), gy.as_view()]);
    assert_eq!(owned(&r), (vec![3], vec![1, 1110, 0]));
}

#[test]
fn concat_along_the_first_axis() {
    let a = arr(vec![1, 2], vec![1, 2]);
    let b = arr(vec![2, 2], vec![3, 4, 5, 6]);
    let r = Concat { axis: 0 }.compute(&vec![a.as_view(), b.as_view()]);
    assert_eq!(owned(&r), (vec![3, 2], vec![1, 2, 3, 4, 5, 6]));
}

#[test]
fn concat_along_the_last_axis() {
    let a = arr(vec![2, 1], vec![1, 4]);
    let b = arr(vec![2, 2], vec![2, 3, 5, 6]);
    let r = Concat { axis: -1 }.compute(&vec![a.as_view(), b.as_view()]);
    assert_eq!(owned(&r), (vec![2, 3], vec![1, 2, 3, 4, 5, 6]));
}

#[test]
fn concat_of_a_single_input_copies_it() {
    let a = arr(vec![2, 2], vec![1, 2, 3, 4]);
    let r = Concat { axis: 1 }.compute(&vec![a.as_view()]);
    assert_eq!(owned(&r), (vec![2, 2], vec![1, 2, 3, 4]));
}

#[test]
fn concat_with_an_empty_input() {
    let a = arr(vec![0, 2], vec![]);
    let b = arr(vec![1, 2], vec![7, 8]);
    let r = Concat { axis: 0 }.compute(&vec![a.as_view(), b.as_view(), a.as_view()]);
    assert_eq!(owned(&r), (vec![1, 2], vec![7, 8]));
}

#[test]
fn concat_rejects_disagreeing_extents() {
    let a = arr(vec![1, 2], vec![1, 2]);
    let b = arr(vec![1, 3], vec![3, 4, 5]);
    let r = Concat { axis: 0 }.compute(&vec![a.as_view(), b.as_view()]);
    assert_eq!(failed(&r), ComputeError::IncompatibleShape);
}

#[test]
fn concat_rejects_disagreeing_ranks() {
    let a = arr(vec![2], vec![1, 2]);
    let b = arr(vec![1, 2], vec![3, 4]);
    let r = Concat { axis: 0 }.compute(&vec![a.as_view(), b.as_view()]);
    assert_eq!(failed(&r), ComputeError::IncompatibleShape);
}

#[test]
fn concat_grad_hands_each_input_its_part_of_the_gradient() {
    let a = arr(vec![1, 2], vec![0, 0]);
    let b = arr(vec![2, 2], vec![0, 0, 0, 0]);
    let c = arr(vec![3, 2], vec![0, 0, 0, 0, 0, 0]);
    let gy = arr(vec![6, 2], vec![1, 2, 3, 4, 5, 6, 7, 8, 9, 10, 11, 12]);
    let xs = vec![gy.as_view(), a.as_view(), b.as_view(), c.as_view()];
    let r0 = ConcatGrad { axis: 0, index: 0 }.compute(&xs);
    assert_eq!(viewed(&r0), (vec![1, 2], vec![1, 2]));
    let r1 = ConcatGrad { axis: 0, index: 1 }.compute(&xs);
    assert_eq!(viewed(&r1), (vec![2, 2], vec![3, 4, 5, 6]));
    let r2 = ConcatGrad { axis: 0, index: 2 }.compute(&xs);
    assert_eq!(viewed(&r2), (vec![3, 2], vec![7, 8, 9, 10, 11, 12]));
}

#[test]
fn concat_grad_along_the_last_axis() {
    let a = arr(vec![2, 1], vec![0, 0]);
    let b = arr(vec![2, 2], vec![0, 0, 0, 0]);
    let gy = arr(vec![2, 3], vec![1, 2, 3, 4, 5, 6]);
    let xs = vec![gy.as_view(), a.as_view(), b.as_view()];
    let r0 = ConcatGrad { axis: -1, index: 0 }.compute(&xs);
    assert_eq!(viewed(&r0), (vec![2, 1], vec![1, 4]));
    let r1 = ConcatGrad { axis: -1, index: 1 }.compute(&xs);
    assert_eq!(viewed(&r1), (vec![2, 2], vec![2, 3, 5, 6]));
}

#[test]
fn split_of_concat_recovers_the_inputs() {
    let a = arr(vec![2, 1], vec![1, 4]);
    let b = arr(vec![2, 2], vec![2, 3, 5, 6]);
    let c = arr(vec![2, 3], vec![7, 8, 9, 10, 11, 12]);
    let r = Concat { axis: 1 }.compute(&vec![a.as_view(), b.as_view(), c.as_view()]);
    let whole = match &r[0] {
        Ok(w) => w.as_view(),
        Err(e) => panic!("unexpected error {:?}", e),
    };
    let xs = vec![whole];
    let ra = Split { axis: 1, start_index: 0, end_index: 1 }.compute(&xs);
    assert_eq!(viewed(&ra), (a.shape(), a.to_vec()));
    let rb = Split { axis: 1, start_index: 1, end_index: 3 }.compute(&xs);
    assert_eq!(viewed(&rb), (b.shape(), b.to_vec()));
    let rc = Split { axis: 1, start_index: 3, end_index: 6 }.compute(&xs);
    assert_eq!(viewed(&rc), (c.shape(), c.to_vec()));
}

#[test]
fn concat_of_concat_grad_parts_is_the_gradient() {
    let a = arr(vec![1, 2], vec![0, 0]);
    let b = arr(vec![2, 2], vec![0, 0, 0, 0]);
    let gy = arr(vec![3, 2], vec![1, 2, 3, 4, 5, 6]);
    let xs = vec![gy.as_view(), a.as_view(), b.as_view()];
    let r0 = ConcatGrad { axis: 0, index: 0 }.compute(&xs);
    let r1 = ConcatGrad { axis: 0, index: 1 }.compute(&xs);
    let first = match &r0[0] {
        Ok(p) => p.as_view(),
        Err(e) => panic!("unexpected error {:?}", e),
    };
    let second = match &r1[0] {
        Ok(p) => p.as_view(),
        Err(e) => panic!("unexpected error {:?}", e),
    };
    let back = Concat { axis: 0 }.compute(&vec![first, second]);
    assert_eq!(owned(&back), (gy.shape(), gy.to_vec()));
}

#[test]
fn split_takes_a_range_along_the_axis() {
    let x = arr(vec![4, 2], vec![1, 2, 3, 4, 5, 6, 7, 8]);
    let r = Split { axis: 0, start_index: 1, end_index: 3 }.compute(&vec![x.as_view()]);
    assert_eq!(viewed(&r), (vec![2, 2], vec![3, 4, 5, 6]));
}

#[test]
fn split_counts_negative_bounds_from_the_end() {
    let x = arr(vec![5], vec![1, 2, 3, 4, 5]);
    let r = Split { axis: -1, start_index: -3, end_index: -1 }.compute(&vec![x.as_view()]);
    assert_eq!(viewed(&r), (vec![2], vec![3, 4]));
}

#[test]
fn split_with_end_before_start_is_empty() {
    let x = arr(vec![5], vec![1, 2, 3, 4, 5]);
    let r = Split { axis: 0, start_index: 3, end_index: 1 }.compute(&vec![x.as_view()]);
    assert_eq!(viewed(&r), (vec![0], vec![]));
}

#[test]
fn split_grad_puts_the_gradient_back_in_its_range() {
    let x = arr(vec![4, 2], vec![0, 0, 0, 0, 0, 0, 0, 0]);
    let gy = arr(vec![2, 2], vec![1, 2, 3, 4]);
    let op = SplitGrad { axis: 0, start_index: 1, end_index: 3 };
    let r = op.compute(&vec![x.as_view(), gy.as_view()]);
    assert_eq!(owned(&r), (vec![4, 2], vec![0, 0, 1, 2, 3, 4, 0, 0]));
}

#[test]
fn make_indices_for_split_ranges_one_axis() {
    let x = arr(vec![2, 3, 4], vec![0; 24]);
    let indices = make_indices_for_split(&x.as_view(), 1, 3, 1);
    assert_eq!(
        indices,
        vec![
            SliceOrIndex::Slice { start: 0, end: None, step: 1 },
            SliceOrIndex::Slice { start: 1, end: Some(3), step: 1 },
            SliceOrIndex::Slice { start: 0, end: None, step: 1 },
        ]
    );
}

#[test]
fn slice_with_a_step() {
    let x = arr(vec![10], vec![0, 1, 2, 3, 4, 5, 6, 7, 8, 9]);
    let op = Slice { indices: vec![SliceOrIndex::Slice { start: 1, end: Some(8), step: 2 }] };
    let r = op.compute(&vec![x.as_view()]);
    assert_eq!(viewed(&r), (vec![4], vec![1, 3, 5, 7]));
}

#[test]
fn slice_with_a_negative_step_walks_the_range_backwards() {
    let x = arr(vec![10], vec![0, 1, 2, 3, 4, 5, 6, 7, 8, 9]);
    let op = Slice { indices: vec![SliceOrIndex::Slice { start: 1, end: Some(8), step: -2 }] };
    let r = op.compute(&vec![x.as_view()]);
    assert_eq!(viewed(&r), (vec![4], vec![7, 5, 3, 1]));
    let op = Slice { indices: vec![SliceOrIndex::Slice { start: 0, end: None, step: -1 }] };
    let r = op.compute(&vec![x.as_view()]);
    assert_eq!(viewed(&r), (vec![10], vec![9, 8, 7, 6, 5, 4, 3, 2, 1, 0]));
}

#[test]
fn slice_on_two_axes() {
    let x = arr(vec![3, 4], vec![0, 1, 2, 3, 10, 11, 12, 13, 20, 21, 22, 23]);
    let op = Slice {
        indices: vec![
            SliceOrIndex::Slice { start: 1, end: None, step: 1 },
            SliceOrIndex::Slice { start: -3, end: Some(-1), step: 1 },
        ],
    };
    let r = op.compute(&vec![x.as_view()]);
    assert_eq!(viewed(&r), (vec![2, 2], vec![11, 12, 21, 22]));
}

#[test]
fn slice_at_a_single_position_keeps_the_axis() {
    let x = arr(vec![3, 2], vec![1, 2, 3, 4, 5, 6]);
    let op = Slice { indices: vec![SliceOrIndex::Index(-1), full()] };
    let r = op.compute(&vec![x.as_view()]);
    assert_eq!(viewed(&r), (vec![1, 2], vec![5, 6]));
}

#[test]
fn slice_rejects_wrong_number_of_entries() {
    let x = arr(vec![3, 2], vec![1, 2, 3, 4, 5, 6]);
    let op = Slice { indices: vec![full()] };
    let r = op.compute(&vec![x.as_view()]);
    assert_eq!(failed(&r), ComputeError::MalformedSlice);
}

#[test]
fn slice_rejects_zero_step() {
    let x = arr(vec![3], vec![1, 2, 3]);
    let op = Slice { indices: vec![SliceOrIndex::Slice { start: 0, end: None, step: 0 }] };
    let r = op.compute(&vec![x.as_view()]);
    assert_eq!(failed(&r), ComputeError::MalformedSlice);
}

#[test]
fn slice_grad_scatters_into_zeros() {
    let x = arr(vec![10], vec![0; 10]);
    let gy = arr(vec![4], vec![1, 2, 3, 4]);
    let op = SliceGrad { indices: vec![SliceOrIndex::Slice { start: 1, end: Some(8), step: 2 }] };
    let r = op.compute(&vec![x.as_view(), gy.as_view()]);
    assert_eq!(owned(&r), (vec![10], vec![0, 1, 0, 2, 0, 3, 0, 4, 0, 0]));
}

#[test]
fn slice_grad_with_a_negative_step() {
    let x = arr(vec![6], vec![0; 6]);
    let gy = arr(vec![3], vec![1, 2, 3]);
    let op = SliceGrad { indices: vec![SliceOrIndex::Slice { start: 0, end: None, step: -2 }] };
    let r = op.compute(&vec![x.as_view(), gy.as_view()]);
    // the slice shows positions 5, 3, 1 in that order
    assert_eq!(owned(&r), (vec![6], vec![0, 3, 0, 2, 0, 1]));
}

#[test]
fn slice_grad_inverts_slice() {
    let x = arr(vec![3, 4], vec![0, 1, 2, 3, 10, 11, 12, 13, 20, 21, 22, 23]);
    let indices = vec![SliceOrIndex::Index(1), SliceOrIndex::Slice { start: 0, end: None, step: 3 }];
    let forward = Slice { indices: indices.clone() }.compute(&vec![x.as_view()]);
    assert_eq!(viewed(&forward), (vec![1, 2], vec![10, 13]));
    let gy = match &forward[0] {
        Ok(g) => g.as_view(),
        Err(e) => panic!("unexpected error {:?}", e),
    };
    let r = SliceGrad { indices }.compute(&vec![x.as_view(), gy]);
    assert_eq!(owned(&r), (vec![3, 4], vec![0, 0, 0, 0, 10, 0, 0, 13, 0, 0, 0, 0]));
}

#[test]
fn slice_grad_rejects_malformed_specification() {
    let x = arr(vec![3], vec![1, 2, 3]);
    let gy = arr(vec![3], vec![1, 2, 3]);
    let op = SliceGrad { indices: vec![] };
    let r = op.compute(&vec![x.as_view(), gy.as_view()]);
    assert_eq!(failed(&r), ComputeError::MalformedSlice);
}

#[test]
fn tile_repeats_along_the_axis() {
    let x = arr(vec![2, 2], vec![1, 2, 3, 4]);
    let r = Tile { axis: 0, num: 2 }.compute(&vec![x.as_view()]);
    assert_eq!(owned(&r), (vec![4, 2], vec![1, 2, 3, 4, 1, 2, 3, 4]));
    let r = Tile { axis: -1, num: 3 }.compute(&vec![x.as_view()]);
    assert_eq!(owned(&r), (vec![2, 6], vec![1, 2, 1, 2, 1, 2, 3, 4, 3, 4, 3, 4]));
}

#[test]
fn reshape_infers_one_extent() {
    let x = arr(vec![2, 3], vec![1, 2, 3, 4, 5, 6]);
    let shape = arr(vec![2], vec![3, -1]);
    let r = Reshape.compute(&vec![x.as_view(), shape.as_view()]);
    assert_eq!(viewed(&r), (vec![3, 2], vec![1, 2, 3, 4, 5, 6]));
    let shape = arr(vec![1], vec![-1]);
    let r = Reshape.compute(&vec![x.as_view(), shape.as_view()]);
    assert_eq!(viewed(&r), (vec![6], vec![1, 2, 3, 4, 5, 6]));
}

#[test]
fn reshape_of_contiguous_input_is_a_view_of_its_storage() {
    let x = arr(vec![2, 3], vec![1, 2, 3, 4, 5, 6]);
    let shape = arr(vec![3], vec![1, 6, 1]);
    let xs = vec![x.as_view(), shape.as_view()];
    let r = Reshape.compute(&xs);
    assert_eq!(viewed(&r), (vec![1, 6, 1], vec![1, 2, 3, 4, 5, 6]));
    match &r[0] {
        Ok(a) => assert!(a.as_view().shares_storage(&xs[0])),
        Err(e) => panic!("unexpected error {:?}", e),
    }
}

#[test]
fn reshape_of_strided_input_copies() {
    let x = arr(vec![2, 3], vec![1, 2, 3, 4, 5, 6]);
    let sliced = Slice {
        indices: vec![full(), SliceOrIndex::Slice { start: 0, end: None, step: 2 }],
    }
    .compute(&vec![x.as_view()]);
    let strided = match &sliced[0] {
        Ok(s) => s.as_view(),
        Err(e) => panic!("unexpected error {:?}", e),
    };
    assert!(!strided.is_standard_layout());
    let shape = arr(vec![1], vec![4]);
    let r = Reshape.compute(&vec![strided, shape.as_view()]);
    assert_eq!(owned(&r), (vec![4], vec![1, 3, 4, 6]));
}

#[test]
fn reshape_rejects_indivisible_inference() {
    let x = arr(vec![2, 3], vec![1, 2, 3, 4, 5, 6]);
    let shape = arr(vec![2], vec![4, -1]);
    let r = Reshape.compute(&vec![x.as_view(), shape.as_view()]);
    assert_eq!(failed(&r), ComputeError::ReshapeMismatch);
    let shape = arr(vec![2], vec![0, -1]);
    let r = Reshape.compute(&vec![x.as_view(), shape.as_view()]);
    assert_eq!(failed(&r), ComputeError::ReshapeMismatch);
}

#[test]
fn reshape_rejects_wrong_size() {
    let x = arr(vec![2, 3], vec![1, 2, 3, 4, 5, 6]);
    let shape = arr(vec![2], vec![4, 2]);
    let r = Reshape.compute(&vec![x.as_view(), shape.as_view()]);
    assert_eq!(failed(&r), ComputeError::ReshapeMismatch);
}

#[test]
fn reshape_there_and_back() {
    let x = arr(vec![2, 3], vec![1, 2, 3, 4, 5, 6]);
    let there = arr(vec![3], vec![3, -1, 1]);
    let r = Reshape.compute(&vec![x.as_view(), there.as_view()]);
    assert_eq!(viewed(&r), (vec![3, 2, 1], vec![1, 2, 3, 4, 5, 6]));
    let mid = match &r[0] {
        Ok(m) => m.as_view(),
        Err(e) => panic!("unexpected error {:?}", e),
    };
    let own_shape = Shape.compute(&vec![x.as_view()]);
    let back_shape = match &own_shape[0] {
        Ok(s) => s.as_view(),
        Err(e) => panic!("unexpected error {:?}", e),
    };
    let back = Reshape.compute(&vec![mid, back_shape]);
    assert_eq!(viewed(&back), (x.shape(), x.to_vec()));
}

#[test]
fn index_op_counts_negative_index_from_the_end() {
    let x = arr(vec![5], vec![10, 20, 30, 40, 50]);
    let r = IndexOp { index: -1 }.compute(&vec![x.as_view()]);
    assert_eq!(owned(&r), (vec![], vec![50]));
    let r = IndexOp { index: 1 }.compute(&vec![x.as_view()]);
    assert_eq!(owned(&r), (vec![], vec![20]));
}

#[test]
fn index_op_reads_the_flattened_array() {
    let x = arr(vec![2, 3], vec![1, 2, 3, 4, 5, 6]);
    let r = IndexOp { index: 4 }.compute(&vec![x.as_view()]);
    assert_eq!(owned(&r), (vec![], vec![5]));
    let r = IndexOp { index: -6 }.compute(&vec![x.as_view()]);
    assert_eq!(owned(&r), (vec![], vec![1]));
}

#[test]
fn index_op_grad_sets_the_single_position() {
    let x = arr(vec![5], vec![10, 20, 30, 40, 50]);
    let gy = arr(vec![], vec![7]);
    let r = IndexOpGrad { index: -1 }.compute(&vec![x.as_view(), gy.as_view()]);
    assert_eq!(owned(&r), (vec![5], vec![0, 0, 0, 0, 7]));
    let x = arr(vec![2, 2], vec![1, 2, 3, 4]);
    let r = IndexOpGrad { index: 2 }.compute(&vec![x.as_view(), gy.as_view()]);
    assert_eq!(owned(&r), (vec![2, 2], vec![0, 0, 7, 0]));
}

#[test]
fn expand_dims_inserts_unit_axes() {
    let x = arr(vec![2, 3], vec![1, 2, 3, 4, 5, 6]);
    let axes = arr(vec![2], vec![2, 0]);
    let r = ExpandDims.compute(&vec![x.as_view(), axes.as_view()]);
    assert_eq!(viewed(&r), (vec![1, 2, 1, 3], vec![1, 2, 3, 4, 5, 6]));
}

#[test]
fn expand_dims_counts_negative_axis_from_the_input_rank() {
    let x = arr(vec![3], vec![1, 2, 3]);
    let axes = arr(vec![1], vec![-1]);
    let r = ExpandDims.compute(&vec![x.as_view(), axes.as_view()]);
    assert_eq!(viewed(&r), (vec![1, 3], vec![1, 2, 3]));
}

#[test]
fn squeeze_removes_unit_axes() {
    let x = arr(vec![1, 2, 1, 3], vec![1, 2, 3, 4, 5, 6]);
    let axes = arr(vec![2], vec![2, 0]);
    let r = Squeeze.compute(&vec![x.as_view(), axes.as_view()]);
    assert_eq!(viewed(&r), (vec![2, 3], vec![1, 2, 3, 4, 5, 6]));
}

#[test]
fn squeeze_with_a_negative_axis() {
    let x = arr(vec![2, 3, 1], vec![1, 2, 3, 4, 5, 6]);
    let axes = arr(vec![1], vec![-1]);
    let r = Squeeze.compute(&vec![x.as_view(), axes.as_view()]);
    assert_eq!(viewed(&r), (vec![2, 3], vec![1, 2, 3, 4, 5, 6]));
}

#[test]
fn squeeze_undoes_expand_dims() {
    let x = arr(vec![2, 3], vec![1, 2, 3, 4, 5, 6]);
    let axes = arr(vec![3], vec![4, 0, 2]);
    let expanded = ExpandDims.compute(&vec![x.as_view(), axes.as_view()]);
    assert_eq!(viewed(&expanded), (vec![1, 2, 1, 3, 1], vec![1, 2, 3, 4, 5, 6]));
    let e = match &expanded[0] {
        Ok(e) => e.as_view(),
        Err(e) => panic!("unexpected error {:?}", e),
    };
    let r = Squeeze.compute(&vec![e, axes.as_view()]);
    assert_eq!(viewed(&r), (x.shape(), x.to_vec()));
}

#[test]
fn set_diff_is_sorted_and_without_duplicates() {
    let a = arr(vec![6], vec![3, 1, 2, 3, 5, -4]);
    let b = arr(vec![3], vec![2, 7, 2]);
    let r = SetDiff1D.compute(&vec![a.as_view(), b.as_view()]);
    assert_eq!(owned(&r), (vec![4], vec![-4, 1, 3, 5]));
}

#[test]
fn set_diff_can_be_empty() {
    let a = arr(vec![2], vec![1, 1]);
    let b = arr(vec![1], vec![1]);
    let r = SetDiff1D.compute(&vec![a.as_view(), b.as_view()]);
    assert_eq!(owned(&r), (vec![0], vec![]));
}

#[test]
fn add_n_of_one_input_is_a_view_of_its_storage() {
    let x = arr(vec![2, 2], vec![1, 2, 3, 4]);
    let xs = vec![x.as_view()];
    let r = AddN.compute(&xs);
    assert_eq!(viewed(&r), (vec![2, 2], vec![1, 2, 3, 4]));
    match &r[0] {
        Ok(a) => assert!(a.as_view().shares_storage(&xs[0])),
        Err(e) => panic!("unexpected error {:?}", e),
    }
    // a copy with the same elements does not share the storage
    let y = arr(vec![2, 2], vec![1, 2, 3, 4]);
    assert!(!y.as_view().shares_storage(&xs[0]));
}

#[test]
fn add_n_sums_element_by_element() {
    let a = arr(vec![2, 2], vec![1, 2, 3, 4]);
    let b = arr(vec![2, 2], vec![10, 20, 30, 40]);
    let c = arr(vec![2, 2], vec![100, 200, 300, 400]);
    let r = AddN.compute(&vec![a.as_view(), b.as_view()]);
    assert_eq!(owned(&r), (vec![2, 2], vec![11, 22, 33, 44]));
    let r = AddN.compute(&vec![a.as_view(), b.as_view(), c.as_view()]);
    assert_eq!(owned(&r), (vec![2, 2], vec![111, 222, 333, 444]));
}

#[test]
fn add_n_broadcasts_later_inputs_to_the_first() {
    let a = arr(vec![2, 3], vec![1, 2, 3, 4, 5, 6]);
    let row = arr(vec![3], vec![10, 20, 30]);
    let col = arr(vec![2, 1], vec![100, 200]);
    let s = arr(vec![], vec![1000]);
    let r = AddN.compute(&vec![a.as_view(), row.as_view(), col.as_view(), s.as_view()]);
    assert_eq!(owned(&r), (vec![2, 3], vec![1111, 1122, 1133, 1214, 1225, 1236]));
}

#[test]
fn add_n_rejects_input_that_cannot_be_broadcast() {
    let a = arr(vec![2, 3], vec![1, 2, 3, 4, 5, 6]);
    let b = arr(vec![2], vec![1, 2]);
    let r = AddN.compute(&vec![a.as_view(), b.as_view()]);
    assert_eq!(failed(&r), ComputeError::IncompatibleShape);
    let wide = arr(vec![1, 2, 3], vec![1, 2, 3, 4, 5, 6]);
    let r = AddN.compute(&vec![a.as_view(), wide.as_view()]);
    assert_eq!(failed(&r), ComputeError::IncompatibleShape);
}

#[test]
fn clip_clamps_into_the_range() {
    let x = arr(vec![5], vec![-5, 0, 3, 7, 10]);
    let r = Clip { min: 0, max: 7 }.compute(&vec![x.as_view()]);
    assert_eq!(owned(&r), (vec![5], vec![0, 0, 3, 7, 7]));
}

#[test]
fn clip_grad_is_zero_on_the_boundary() {
    let x = arr(vec![5], vec![-5, 0, 3, 7, 10]);
    let gy = arr(vec![5], vec![1, 2, 3, 4, 5]);
    let r = ClipGrad { min: 0, max: 7 }.compute(&vec![x.as_view(), gy.as_view()]);
    // only the element strictly inside (0, 7) lets the gradient through
    assert_eq!(owned(&r), (vec![5], vec![0, 0, 3, 0, 0]));
}

#[test]
fn clip_grad_broadcasts_the_gradient() {
    let x = arr(vec![2, 2], vec![1, 9, 2, 3]);
    let gy = arr(vec![2], vec![5, 6]);
    let r = ClipGrad { min: 0, max: 4 }.compute(&vec![x.as_view(), gy.as_view()]);
    assert_eq!(owned(&r), (vec![2, 2], vec![5, 0, 5, 6]));
}

#[test]
fn clip_grad_rejects_gradient_that_cannot_be_broadcast() {
    let x = arr(vec![2, 2], vec![1, 9, 2, 3]);
    let gy = arr(vec![3], vec![5, 6, 7]);
    let r = ClipGrad { min: 0, max: 4 }.compute(&vec![x.as_view(), gy.as_view()]);
    assert_eq!(failed(&r), ComputeError::IncompatibleShape);
}

#[test]
fn shape_rank_and_size_report_metadata() {
    let x = arr(vec![2, 3, 4], vec![0; 24]);
    let xs = vec![x.as_view()];
    assert_eq!(owned(&Shape.compute(&xs)), (vec![3], vec![2, 3, 4]));
    assert_eq!(owned(&Rank.compute(&xs)), (vec![], vec![3]));
    assert_eq!(owned(&Size.compute(&xs)), (vec![], vec![24]));
    let s = arr(vec![], vec![5]);
    let xs = vec![s.as_view()];
    assert_eq!(owned(&Shape.compute(&xs)), (vec![0], vec![]));
    assert_eq!(owned(&Rank.compute(&xs)), (vec![], vec![0]));
    assert_eq!(owned(&Size.compute(&xs)), (vec![], vec![1]));
}

#[test]
fn infer_bin_op_shape_takes_the_larger_extents() {
    let a = arr(vec![3], vec![2, 1, 4]);
    let b = arr(vec![3], vec![1, 3, 4]);
    let r = InferBinOpShape.compute(&vec![a.as_view(), b.as_view()]);
    assert_eq!(owned(&r), (vec![3], vec![2, 3, 4]));
}

#[test]
fn infer_bin_op_shape_passes_the_other_shape_for_a_scalar() {
    let a = arr(vec![2], vec![2, 3]);
    let scalar = arr(vec![0], vec![]);
    let zero = arr(vec![1], vec![0]);
    let xs = vec![a.as_view(), scalar.as_view()];
    let r = InferBinOpShape.compute(&xs);
    assert_eq!(viewed(&r), (vec![2], vec![2, 3]));
    let xs = vec![scalar.as_view(), a.as_view()];
    let r = InferBinOpShape.compute(&xs);
    assert_eq!(viewed(&r), (vec![2], vec![2, 3]));
    let xs = vec![zero.as_view(), a.as_view()];
    let r = InferBinOpShape.compute(&xs);
    assert_eq!(viewed(&r), (vec![2], vec![2, 3]));
    let xs = vec![scalar.as_view(), zero.as_view()];
    let r = InferBinOpShape.compute(&xs);
    assert_eq!(viewed(&r), (vec![1], vec![0]));
}

#[test]
fn operators_report_their_names() {
    assert_eq!(ExpandDims.name(), "ExpandDims");
    assert_eq!(Squeeze.name(), "Squeeze");
    assert_eq!(Slice { indices: vec![] }.name(), "Slice");
    assert_eq!(SliceGrad { indices: vec![] }.name(), "SliceGrad");
    assert_eq!(Split { axis: 0, start_index: 0, end_index: 0 }.name(), "Split");
    assert_eq!(SplitGrad { axis: 0, start_index: 0, end_index: 0 }.name(), "SplitGrad");
    assert_eq!(Tile { axis: 0, num: 1 }.name(), "Tile");
    assert_eq!(Concat { axis: 0 }.name(), "Concat");
    assert_eq!(ConcatGrad { axis: 0, index: 0 }.name(), "ConcatGrad");
    assert_eq!(Clip { min: 0, max: 1 }.name(), "Clip");
    assert_eq!(ClipGrad { min: 0, max: 1 }.name(), "ClipGrad");
    assert_eq!(AddN.name(), "AddN");
    assert_eq!(Gather { axis: 0, should_normalize_negative_indices: false }.name(), "Gather");
    assert_eq!(GatherGrad { axis: 0 }.name(), "GatherGrad");
    assert_eq!(IndexOp { index: 0 }.name(), "IndexOp");
    assert_eq!(IndexOpGrad { index: 0 }.name(), "IndexOpGrad");
    assert_eq!(SetDiff1D.name(), "SetDiff1D");
    assert_eq!(Shape.name(), "Shape");
    assert_eq!(Rank.name(), "Rank");
    assert_eq!(Size.name(), "Size");
    assert_eq!(Reshape.name(), "Reshape");
    assert_eq!(InferBinOpShape.name(), "InferBinOpShape");
}

#[test]
fn view_clone_shares_storage() {
    let x = arr(vec![3], vec![1, 2, 3]);
    let v: NdArrayView = x.as_view();
    let w = v.clone();
    assert!(w.shares_storage(&v));
    assert_eq!(w.to_vec(), vec![1, 2, 3]);
}

#[test]
fn views_that_share_storage_show_the_same_elements() {
    let x = arr(vec![2, 3], vec![1, 2, 3, 4, 5, 6]);
    let v = x.as_view();
    let w = v.clone();
    assert!(w.shares_storage(&v));
    assert_eq!(w.shape(), v.shape());
    assert!(w.is_standard_layout() && v.is_standard_layout());
    assert_eq!(w.to_vec(), v.to_vec());
    // a slice that begins one element later does not begin at the same element
    let tail = Slice { indices: vec![full(), SliceOrIndex::Slice { start: 1, end: None, step: 1 }] }
        .compute(&vec![x.as_view()]);
    match &tail[0] {
        Ok(t) => assert!(!t.as_view().shares_storage(&v)),
        Err(e) => panic!("unexpected error {:?}", e),
    }
    // a slice that begins at the same element shows the same first element
    let head = Slice { indices: vec![full(), SliceOrIndex::Slice { start: 0, end: Some(2), step: 1 }] }
        .compute(&vec![x.as_view()]);
    match &head[0] {
        Ok(h) => {
            let h = h.as_view();
            assert!(h.shares_storage(&v));
            assert_eq!(h.to_vec()[0], v.to_vec()[0]);
        }
        Err(e) => panic!("unexpected error {:?}", e),
    }
}
