use autograd::graph::{no_gradients, Graph, Operator};
use autograd::ops::array_ops::{
    AddN, Clip, ClipGrad, Concat, ConcatGrad, ExpandDims, Gather, GatherGrad, IndexOp,
    IndexOpGrad, InferBinOpShape, Rank, Reshape, SetDiff1D, Shape, Size, Slice, SliceGrad, Split,
    SplitGrad, Squeeze, Tile,
};
use autograd::slicing::SliceOrIndex;

/// Two inputs, an output and an incoming gradient, as nodes 0 to 3.
fn two_input_graph() -> Graph {
    let mut g = Graph::new();
    let a = g.placeholder(Some(vec![2, 3]));
    let b = g.placeholder(None);
    let y = g.build(Operator::AddN(AddN), vec![a, b], None);
    let gy = g.placeholder(Some(vec![4]));
    assert_eq!((a, b, y, gy), (0, 1, 2, 3));
    g
}

fn acyclic(g: &Graph) -> bool {
    for (i, node) in g.nodes.iter().enumerate() {
        for &k in node.inputs.iter() {
            if k >= i {
                return false;
            }
        }
    }
    true
}

#[test]
fn graph_names_nodes_by_position() {
    let mut g = Graph::new();
    assert_eq!(g.len(), 0);
    let x = g.placeholder(Some(vec![3]));
    let one = g.scalar(1);
    let y = g.binary(Operator::Add, x, one);
    let z = g.unary(Operator::Exp, y);
    assert_eq!((x, one, y, z), (0, 1, 2, 3));
    assert_eq!(g.len(), 4);
    assert_eq!(g.nodes[2].inputs, vec![0, 1]);
    assert_eq!(g.nodes[3].inputs, vec![2]);
    assert_eq!(g.shape(0), Some(vec![3]));
    assert_eq!(g.shape(2), None);
    assert_eq!(g.nodes[0].op.name(), "Placeholder");
    assert_eq!(g.nodes[1].op.name(), "Scalar");
    assert_eq!(g.nodes[2].op.name(), "Add");
    assert_eq!(g.nodes[3].op.name(), "Exp");
    assert!(acyclic(&g));
}

#[test]
fn operator_name_is_that_of_the_wrapped_operator() {
    assert_eq!(Operator::Gather(Gather { axis: 0, should_normalize_negative_indices: true }).name(), "Gather");
    assert_eq!(Operator::Reshape(Reshape).name(), "Reshape");
    assert_eq!(Operator::ConcatGrad(ConcatGrad { axis: 0, index: 1 }).name(), "ConcatGrad");
}

#[test]
fn no_gradients_has_one_slot_per_input() {
    assert_eq!(no_gradients(0), Vec::<Option<usize>>::new());
    assert_eq!(no_gradients(3), vec![None, None, None]);
}

#[test]
fn metadata_operators_have_no_gradient() {
    let mut g = two_input_graph();
    assert_eq!(Shape.grad(&mut g, 3, &vec![0], 2), vec![None]);
    assert_eq!(Rank.grad(&mut g, 3, &vec![0], 2), vec![None]);
    assert_eq!(Size.grad(&mut g, 3, &vec![0], 2), vec![None]);
    assert_eq!(InferBinOpShape.grad(&mut g, 3, &vec![0, 1], 2), vec![None, None]);
    assert_eq!(SetDiff1D.grad(&mut g, 3, &vec![0, 1], 2), vec![None, None]);
    assert_eq!(g.len(), 4);
}

#[test]
fn gradient_operators_have_no_gradient() {
    let mut g = two_input_graph();
    assert_eq!(IndexOpGrad { index: 0 }.grad(&mut g, 3, &vec![0, 1], 2), vec![None, None]);
    assert_eq!(GatherGrad { axis: 0 }.grad(&mut g, 3, &vec![0, 1, 3], 2), vec![None, None, None]);
    assert_eq!(ClipGrad { min: 0, max: 1 }.grad(&mut g, 3, &vec![0, 1], 2), vec![None, None]);
    assert_eq!(ConcatGrad { axis: 0, index: 0 }.grad(&mut g, 3, &vec![3, 0, 1], 2), vec![None, None, None]);
    assert_eq!(
        SplitGrad { axis: 0, start_index: 0, end_index: 1 }.grad(&mut g, 3, &vec![0, 1], 2),
        vec![None, None]
    );
    assert_eq!(SliceGrad { indices: vec![] }.grad(&mut g, 3, &vec![0, 1], 2), vec![None, None]);
    assert_eq!(g.len(), 4);
}

#[test]
fn add_n_gradient_fans_the_incoming_gradient_out() {
    let mut g = two_input_graph();
    assert_eq!(AddN.grad(&mut g, 3, &vec![0, 1], 2), vec![Some(3), Some(3)]);
    assert_eq!(AddN.grad(&mut g, 3, &vec![0], 2), vec![Some(3)]);
    assert_eq!(g.len(), 4);
}

#[test]
fn reshape_gradient_reshapes_to_the_shape_of_the_input() {
    let mut g = two_input_graph();
    let r = Reshape.grad(&mut g, 3, &vec![0, 1], 2);
    assert_eq!(r, vec![Some(5), None]);
    assert!(matches!(g.nodes[4].op, Operator::Shape(_)));
    assert_eq!(g.nodes[4].inputs, vec![0]);
    assert!(matches!(g.nodes[5].op, Operator::Reshape(_)));
    assert_eq!(g.nodes[5].inputs, vec![3, 4]);
    assert!(acyclic(&g));
}

#[test]
fn index_op_gradient_declares_the_shape_of_the_input() {
    let mut g = two_input_graph();
    let r = IndexOp { index: -1 }.grad(&mut g, 3, &vec![0], 2);
    assert_eq!(r, vec![Some(4)]);
    match &g.nodes[4].op {
        Operator::IndexOpGrad(op) => assert_eq!(op.index, -1),
        _ => panic!("expected the gradient operator"),
    }
    assert_eq!(g.nodes[4].inputs, vec![0, 3]);
    assert_eq!(g.nodes[4].shape, Some(vec![2, 3]));
}

#[test]
fn gather_gradient_goes_to_the_gathered_array_only() {
    let mut g = two_input_graph();
    let op = Gather { axis: -1, should_normalize_negative_indices: true };
    // inputs: the indices (node 1), then the array (node 0)
    let r = op.grad(&mut g, 3, &vec![1, 0], 2);
    assert_eq!(r, vec![None, Some(4)]);
    match &g.nodes[4].op {
        Operator::GatherGrad(op) => assert_eq!(op.axis, -1),
        _ => panic!("expected the gradient operator"),
    }
    assert_eq!(g.nodes[4].inputs, vec![1, 0, 3]);
    assert_eq!(g.nodes[4].shape, Some(vec![2, 3]));
}

#[test]
fn clip_gradient_declares_the_shape_of_the_gradient() {
    let mut g = two_input_graph();
    let r = Clip { min: -2, max: 2 }.grad(&mut g, 3, &vec![0], 2);
    assert_eq!(r, vec![Some(4)]);
    match &g.nodes[4].op {
        Operator::ClipGrad(op) => assert_eq!((op.min, op.max), (-2, 2)),
        _ => panic!("expected the gradient operator"),
    }
    assert_eq!(g.nodes[4].inputs, vec![0, 3]);
    assert_eq!(g.nodes[4].shape, Some(vec![4]));
}

#[test]
fn concat_gradient_has_one_operator_per_input() {
    let mut g = two_input_graph();
    let r = Concat { axis: 1 }.grad(&mut g, 3, &vec![0, 1], 2);
    assert_eq!(r, vec![Some(4), Some(5)]);
    for slot in 0..2 {
        match &g.nodes[4 + slot].op {
            Operator::ConcatGrad(op) => {
                assert_eq!(op.axis, 1);
                assert_eq!(op.index, slot);
            }
            _ => panic!("expected the gradient operator"),
        }
        assert_eq!(g.nodes[4 + slot].inputs, vec![3, 0, 1]);
    }
    assert_eq!(g.nodes[4].shape, Some(vec![2, 3]));
    assert_eq!(g.nodes[5].shape, None);
    assert!(acyclic(&g));
}

#[test]
fn tile_gradient_sums_along_the_axis() {
    let mut g = two_input_graph();
    let r = Tile { axis: 1, num: 3 }.grad(&mut g, 3, &vec![0], 2);
    assert_eq!(r, vec![Some(4)]);
    match &g.nodes[4].op {
        Operator::ReduceSum(op) => {
            assert_eq!(op.axis, 1);
            assert!(op.keep_dims);
        }
        _ => panic!("expected a sum"),
    }
    assert_eq!(g.nodes[4].inputs, vec![3]);
}

#[test]
fn split_gradient_keeps_the_range() {
    let mut g = two_input_graph();
    let r = Split { axis: 0, start_index: 1, end_index: 2 }.grad(&mut g, 3, &vec![0], 2);
    assert_eq!(r, vec![Some(4)]);
    match &g.nodes[4].op {
        Operator::SplitGrad(op) => assert_eq!((op.axis, op.start_index, op.end_index), (0, 1, 2)),
        _ => panic!("expected the gradient operator"),
    }
    assert_eq!(g.nodes[4].inputs, vec![0, 3]);
    assert_eq!(g.nodes[4].shape, Some(vec![2, 3]));
}

#[test]
fn slice_gradient_keeps_the_specification() {
    let mut g = two_input_graph();
    let indices = vec![
        SliceOrIndex::Index(1),
        SliceOrIndex::Slice { start: 0, end: Some(2), step: 1 },
    ];
    let r = Slice { indices: indices.clone() }.grad(&mut g, 3, &vec![0], 2);
    assert_eq!(r, vec![Some(4)]);
    match &g.nodes[4].op {
        Operator::SliceGrad(op) => assert_eq!(op.indices, indices),
        _ => panic!("expected the gradient operator"),
    }
    assert_eq!(g.nodes[4].inputs, vec![0, 3]);
    assert_eq!(g.nodes[4].shape, Some(vec![2, 3]));
}

#[test]
fn squeeze_and_expand_dims_are_each_the_gradient_of_the_other() {
    let mut g = two_input_graph();
    let r = Squeeze.grad(&mut g, 3, &vec![0, 1], 2);
    assert_eq!(r, vec![Some(4), None]);
    assert!(matches!(g.nodes[4].op, Operator::ExpandDims(_)));
    assert_eq!(g.nodes[4].inputs, vec![3, 1]);
    let r = ExpandDims.grad(&mut g, 3, &vec![0, 1], 2);
    assert_eq!(r, vec![Some(5), None]);
    assert!(matches!(g.nodes[5].op, Operator::Squeeze(_)));
    assert_eq!(g.nodes[5].inputs, vec![3, 1]);
}

#[test]
fn contributions_to_one_node_are_summed() {
    let mut g = two_input_graph();
    assert_eq!(g.accumulate(vec![]), None);
    assert_eq!(g.accumulate(vec![1]), Some(1));
    assert_eq!(g.len(), 4);
    assert_eq!(g.accumulate(vec![1, 3, 0]), Some(4));
    assert!(matches!(g.nodes[4].op, Operator::AddN(_)));
    assert_eq!(g.nodes[4].inputs, vec![1, 3, 0]);
    assert!(acyclic(&g));
}
