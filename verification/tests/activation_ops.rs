use autograd::graph::{Graph, Operator};
use autograd::ndarray_ext::NdArray;
use autograd::op::ArrRepr;
use autograd::ops::activation_ops::{ELUGrad, Identity, ReLU, Sigmoid, Softmax, Softplus, ELU};

fn input(shape: Vec<usize>, data: Vec<i64>) -> NdArray {
    NdArray::from_shape_vec(shape, data).unwrap()
}

/// A graph with an input, an output computed from it and an incoming
/// gradient, as nodes 0, 1 and 2.
fn graph_with_gradient(op: Operator) -> Graph {
    let mut g = Graph::new();
    let x = g.placeholder(Some(vec![2, 2]));
    let y = g.build(op, vec![x], Some(vec![2, 2]));
    let gy = g.placeholder(Some(vec![2, 2]));
    assert_eq!((x, y, gy), (0, 1, 2));
    g
}

#[test]
fn relu_replaces_negative_elements_by_zero() {
    let x = input(vec![2, 3], vec![-3, 0, 4, 7, -1, 2]);
    let r = ReLU.compute(&vec![x.as_view()]);
    match &r[0] {
        Ok(ArrRepr::Owned(a)) => {
            assert_eq!(a.shape(), vec![2, 3]);
            assert_eq!(a.to_vec(), vec![0, 0, 4, 7, 0, 2]);
        }
        _ => panic!("expected an owned array"),
    }
}

#[test]
fn identity_is_a_view_of_its_input() {
    let x = input(vec![3], vec![1, 2, 3]);
    let xs = vec![x.as_view()];
    let r = Identity.compute(&xs);
    match &r[0] {
        Ok(ArrRepr::View(v)) => {
            assert_eq!(v.shape(), vec![3]);
            assert_eq!(v.to_vec(), vec![1, 2, 3]);
            assert!(v.shares_storage(&xs[0]));
        }
        _ => panic!("expected a view"),
    }
}

#[test]
fn activations_report_their_names() {
    assert_eq!(ELU { alpha: 1 }.name(), "ELU");
    assert_eq!(ELUGrad { alpha: 1 }.name(), "ELUGrad");
    assert_eq!(Identity.name(), "Identity");
    assert_eq!(ReLU.name(), "ReLU");
    assert_eq!(Sigmoid.name(), "Sigmoid");
    assert_eq!(Softplus.name(), "Softplus");
    assert_eq!(Softmax { axis: 1 }.name(), "Softmax");
}

#[test]
fn identity_gradient_passes_the_incoming_gradient_through() {
    let mut g = graph_with_gradient(Operator::Identity(Identity));
    let r = Identity.grad(&mut g, 2, &vec![0], 1);
    assert_eq!(r, vec![Some(2)]);
    assert_eq!(g.len(), 3);
}

#[test]
fn relu_gradient_gates_by_the_sign_of_the_input() {
    let mut g = graph_with_gradient(Operator::ReLU(ReLU));
    let r = ReLU.grad(&mut g, 2, &vec![0], 1);
    assert_eq!(r, vec![Some(5)]);
    assert_eq!(g.len(), 6);
    assert!(matches!(g.nodes[3].op, Operator::Scalar(0)));
    assert!(matches!(g.nodes[4].op, Operator::Greater));
    assert_eq!(g.nodes[4].inputs, vec![0, 3]);
    assert!(matches!(g.nodes[5].op, Operator::Mul));
    assert_eq!(g.nodes[5].inputs, vec![4, 2]);
}

#[test]
fn sigmoid_gradient_is_built_from_the_output() {
    let mut g = graph_with_gradient(Operator::Sigmoid(Sigmoid));
    let r = Sigmoid.grad(&mut g, 2, &vec![0], 1);
    assert_eq!(r, vec![Some(5)]);
    assert!(matches!(g.nodes[3].op, Operator::Square));
    assert_eq!(g.nodes[3].inputs, vec![1]);
    assert!(matches!(g.nodes[4].op, Operator::Sub));
    assert_eq!(g.nodes[4].inputs, vec![1, 3]);
    assert!(matches!(g.nodes[5].op, Operator::Mul));
    assert_eq!(g.nodes[5].inputs, vec![2, 4]);
}

#[test]
fn softplus_gradient_is_built_from_the_input() {
    let mut g = graph_with_gradient(Operator::Softplus(Softplus));
    let r = Softplus.grad(&mut g, 2, &vec![0], 1);
    assert_eq!(r, vec![Some(7)]);
    assert!(matches!(g.nodes[3].op, Operator::Exp));
    assert_eq!(g.nodes[3].inputs, vec![0]);
    assert!(matches!(g.nodes[4].op, Operator::Scalar(1)));
    assert!(matches!(g.nodes[5].op, Operator::Add));
    assert_eq!(g.nodes[5].inputs, vec![3, 4]);
    assert!(matches!(g.nodes[6].op, Operator::Div));
    assert_eq!(g.nodes[6].inputs, vec![3, 5]);
    assert!(matches!(g.nodes[7].op, Operator::Mul));
    assert_eq!(g.nodes[7].inputs, vec![2, 6]);
}

#[test]
fn softmax_gradient_subtracts_the_weighted_sum() {
    let mut g = graph_with_gradient(Operator::Softmax(Softmax { axis: 1 }));
    let r = Softmax { axis: 1 }.grad(&mut g, 2, &vec![0], 1);
    assert_eq!(r, vec![Some(6)]);
    assert!(matches!(g.nodes[3].op, Operator::Mul));
    assert_eq!(g.nodes[3].inputs, vec![1, 2]);
    match &g.nodes[4].op {
        Operator::ReduceSum(s) => {
            assert_eq!(s.axis, 1);
            assert!(s.keep_dims);
        }
        _ => panic!("expected a sum"),
    }
    assert_eq!(g.nodes[4].inputs, vec![3]);
    assert!(matches!(g.nodes[5].op, Operator::Sub));
    assert_eq!(g.nodes[5].inputs, vec![2, 4]);
    assert!(matches!(g.nodes[6].op, Operator::Mul));
    assert_eq!(g.nodes[6].inputs, vec![5, 1]);
}

#[test]
fn elu_gradient_is_a_dedicated_operator() {
    let mut g = graph_with_gradient(Operator::ELU(ELU { alpha: 3 }));
    let r = ELU { alpha: 3 }.grad(&mut g, 2, &vec![0], 1);
    assert_eq!(r, vec![Some(3)]);
    match &g.nodes[3].op {
        Operator::ELUGrad(op) => assert_eq!(op.alpha, 3),
        _ => panic!("expected the gradient operator"),
    }
    assert_eq!(g.nodes[3].inputs, vec![0, 2]);
    assert_eq!(g.nodes[3].shape, Some(vec![2, 2]));
    let none = ELUGrad { alpha: 3 }.grad(&mut g, 2, &vec![0, 2], 3);
    assert_eq!(none, vec![None, None]);
    assert_eq!(g.len(), 4);
}
