//! The computation graph: an arena of nodes, each an operator applied to
//! earlier nodes.
//!
//! Nodes describe a computation; they hold no values.  A node can only name
//! nodes that were added before it, so the graph is acyclic by construction.

use crate::ops::activation_ops::{ELUGrad, Identity, ReLU, Sigmoid, Softmax, Softplus, ELU};
use crate::ops::array_ops::{
    AddN, Clip, ClipGrad, Concat, ConcatGrad, ExpandDims, Gather, GatherGrad, IndexOp,
    IndexOpGrad, InferBinOpShape, Rank, Reshape, SetDiff1D, Shape, Size, Slice, SliceGrad, Split,
    SplitGrad, Squeeze, Tile,
};
use crate::ops::math_ops::ReduceSum;
use vstd::prelude::*;

verus! {

/// The closed catalogue of operators.
pub enum Operator {
    /// An input of the graph, which is fed a value from outside.
    Placeholder,
    /// An array without axes that holds the given value.
    Scalar(i64),
    /// Element by element: the sum of the two inputs.
    Add,
    /// Element by element: the first input minus the second.
    Sub,
    /// Element by element: the product of the two inputs.
    Mul,
    /// Element by element: the first input divided by the second.
    Div,
    /// Element by element: the exponential of the input.
    Exp,
    /// Element by element: the square of the input.
    Square,
    /// Element by element: one where the first input exceeds the second,
    /// zero elsewhere.
    Greater,
    ReduceSum(ReduceSum),
    ELU(ELU),
    ELUGrad(ELUGrad),
    Identity(Identity),
    ReLU(ReLU),
    Sigmoid(Sigmoid),
    Softplus(Softplus),
    Softmax(Softmax),
    ExpandDims(ExpandDims),
    Squeeze(Squeeze),
    Slice(Slice),
    SliceGrad(SliceGrad),
    Split(Split),
    SplitGrad(SplitGrad),
    Tile(Tile),
    Concat(Concat),
    ConcatGrad(ConcatGrad),
    Clip(Clip),
    ClipGrad(ClipGrad),
    AddN(AddN),
    Gather(Gather),
    GatherGrad(GatherGrad),
    IndexOp(IndexOp),
    IndexOpGrad(IndexOpGrad),
    SetDiff1D(SetDiff1D),
    Shape(Shape),
    Rank(Rank),
    Size(Size),
    Reshape(Reshape),
    InferBinOpShape(InferBinOpShape),
}

impl Operator {
    /// The two operators are the same operator with the same parameters.
    pub open spec fn same_as(self, other: Operator) -> bool {
        match (self, other) {
            (Operator::Slice(a), Operator::Slice(b)) => a.indices@ == b.indices@,
            (Operator::SliceGrad(a), Operator::SliceGrad(b)) => a.indices@ == b.indices@,
            _ => self == other,
        }
    }

    /// The name of the operator as contracts see it.
    pub open spec fn label(self) -> Seq<char> {
        match self {
            Operator::Placeholder => "Placeholder"@,
            Operator::Scalar(_) => "Scalar"@,
            Operator::Add => "Add"@,
            Operator::Sub => "Sub"@,
            Operator::Mul => "Mul"@,
            Operator::Div => "Div"@,
            Operator::Exp => "Exp"@,
            Operator::Square => "Square"@,
            Operator::Greater => "Greater"@,
            Operator::ReduceSum(_) => "ReduceSum"@,
            Operator::ELU(_) => "ELU"@,
            Operator::ELUGrad(_) => "ELUGrad"@,
            Operator::Identity(_) => "Identity"@,
            Operator::ReLU(_) => "ReLU"@,
            Operator::Sigmoid(_) => "Sigmoid"@,
            Operator::Softplus(_) => "Softplus"@,
            Operator::Softmax(_) => "Softmax"@,
            Operator::ExpandDims(_) => "ExpandDims"@,
            Operator::Squeeze(_) => "Squeeze"@,
            Operator::Slice(_) => "Slice"@,
            Operator::SliceGrad(_) => "SliceGrad"@,
            Operator::Split(_) => "Split"@,
            Operator::SplitGrad(_) => "SplitGrad"@,
            Operator::Tile(_) => "Tile"@,
            Operator::Concat(_) => "Concat"@,
            Operator::ConcatGrad(_) => "ConcatGrad"@,
            Operator::Clip(_) => "Clip"@,
            Operator::ClipGrad(_) => "ClipGrad"@,
            Operator::AddN(_) => "AddN"@,
            Operator::Gather(_) => "Gather"@,
            Operator::GatherGrad(_) => "GatherGrad"@,
            Operator::IndexOp(_) => "IndexOp"@,
            Operator::IndexOpGrad(_) => "IndexOpGrad"@,
            Operator::SetDiff1D(_) => "SetDiff1D"@,
            Operator::Shape(_) => "Shape"@,
            Operator::Rank(_) => "Rank"@,
            Operator::Size(_) => "Size"@,
            Operator::Reshape(_) => "Reshape"@,
            Operator::InferBinOpShape(_) => "InferBinOpShape"@,
        }
    }

    /// The stable name of the operator, for diagnostics.
    pub fn name(&self) -> (r: &'static str)
        ensures
            r@ == self.label(),
    {
        match self {
            Operator::Placeholder => "Placeholder",
            Operator::Scalar(_) => "Scalar",
            Operator::Add => "Add",
            Operator::Sub => "Sub",
            Operator::Mul => "Mul",
            Operator::Div => "Div",
            Operator::Exp => "Exp",
            Operator::Square => "Square",
            Operator::Greater => "Greater",
            Operator::ReduceSum(op) => op.name(),
            Operator::ELU(op) => op.name(),
            Operator::ELUGrad(op) => op.name(),
            Operator::Identity(op) => op.name(),
            Operator::ReLU(op) => op.name(),
            Operator::Sigmoid(op) => op.name(),
            Operator::Softplus(op) => op.name(),
            Operator::Softmax(op) => op.name(),
            Operator::ExpandDims(op) => op.name(),
            Operator::Squeeze(op) => op.name(),
            Operator::Slice(op) => op.name(),
            Operator::SliceGrad(op) => op.name(),
            Operator::Split(op) => op.name(),
            Operator::SplitGrad(op) => op.name(),
            Operator::Tile(op) => op.name(),
            Operator::Concat(op) => op.name(),
            Operator::ConcatGrad(op) => op.name(),
            Operator::Clip(op) => op.name(),
            Operator::ClipGrad(op) => op.name(),
            Operator::AddN(op) => op.name(),
            Operator::Gather(op) => op.name(),
            Operator::GatherGrad(op) => op.name(),
            Operator::IndexOp(op) => op.name(),
            Operator::IndexOpGrad(op) => op.name(),
            Operator::SetDiff1D(op) => op.name(),
            Operator::Shape(op) => op.name(),
            Operator::Rank(op) => op.name(),
            Operator::Size(op) => op.name(),
            Operator::Reshape(op) => op.name(),
            Operator::InferBinOpShape(op) => op.name(),
        }
    }
}

/// A vertex of the graph: an operator, the nodes it takes its inputs from,
/// and the shape of its output where that is known before evaluation.
pub struct Node {
    pub op: Operator,
    pub inputs: Vec<usize>,
    pub shape: Option<Vec<usize>>,
}

/// A shape as contracts see it.
pub open spec fn shape_model(shape: Option<Vec<usize>>) -> Option<Seq<usize>> {
    match shape {
        Some(s) => Some(s@),
        None => None,
    }
}

impl Node {
    /// The node applies `op` to `inputs` and declares `shape`.
    pub open spec fn is(self, op: Operator, inputs: Seq<usize>, shape: Option<Seq<usize>>) -> bool {
        &&& self.op.same_as(op)
        &&& self.inputs@ == inputs
        &&& shape_model(self.shape) == shape
    }
}

/// The arena of nodes.  A node is named by its position.
pub struct Graph {
    pub nodes: Vec<Node>,
}

impl Graph {
    /// Every node takes its inputs from nodes before it.
    pub open spec fn wf(self) -> bool {
        forall|i: int, k: int|
            0 <= i < self.nodes.len() && 0 <= k < self.nodes[i].inputs.len()
                ==> #[trigger] self.nodes[i].inputs[k] < i
    }

    /// Number of nodes.
    pub open spec fn size(self) -> int {
        self.nodes.len() as int
    }

    /// All of `ids` name nodes of the graph.
    pub open spec fn has(self, ids: Seq<usize>) -> bool {
        forall|k: int| 0 <= k < ids.len() ==> #[trigger] ids[k] < self.nodes.len()
    }

    /// What the construction of a gradient starts from: a well-formed graph
    /// in which the incoming gradient, the inputs and the output are nodes.
    pub open spec fn ready(self, gy: usize, inputs: Seq<usize>, output: usize) -> bool {
        &&& self.wf()
        &&& gy < self.nodes.len()
        &&& output < self.nodes.len()
        &&& self.has(inputs)
    }

    /// The declared shape of node `id`.
    pub open spec fn shape_of(self, id: int) -> Option<Seq<usize>> {
        shape_model(self.nodes[id].shape)
    }

    /// The graph is `old` with `k` nodes added at the end.
    pub open spec fn extends(self, old: Graph, k: int) -> bool {
        &&& self.wf()
        &&& self.nodes.len() == old.nodes.len() + k
        &&& forall|i: int| 0 <= i < old.nodes.len() ==> self.nodes[i] == old.nodes[i]
    }

    /// The graph without nodes.
    pub fn new() -> (g: Graph)
        ensures
            g.wf(),
            g.size() == 0,
    {
        Graph { nodes: Vec::new() }
    }

    pub fn len(&self) -> (n: usize)
        ensures
            n == self.size(),
    {
        self.nodes.len()
    }

    /// A copy of the declared shape of node `id`.
    pub fn shape(&self, id: usize) -> (s: Option<Vec<usize>>)
        requires
            id < self.size(),
        ensures
            shape_model(s) == self.shape_of(id as int),
    {
        match &self.nodes[id].shape {
            Some(known) => {
                let mut copy: Vec<usize> = Vec::with_capacity(known.len());
                let mut d: usize = 0;
                while d < known.len()
                    invariant
                        d <= known.len(),
                        copy@ == known@.subrange(0, d as int),
                    decreases known.len() - d,
                {
                    copy.push(known[d]);
                    d += 1;
                    assert(copy@ =~= known@.subrange(0, d as int));
                }
                assert(copy@ =~= known@);
                Some(copy)
            },
            None => None,
        }
    }

    /// Adds the node that applies `op` to `inputs`, and returns its name.
    pub fn build(&mut self, op: Operator, inputs: Vec<usize>, shape: Option<Vec<usize>>) -> (id: usize)
        requires
            old(self).wf(),
            old(self).has(inputs@),
        ensures
            final(self).extends(*old(self), 1),
            id == old(self).size(),
            final(self).nodes[id as int] == (Node { op, inputs, shape }),
    {
        let id: usize = self.nodes.len();
        self.nodes.push(Node { op, inputs, shape });
        id
    }

    /// Adds an input of the graph.
    pub fn placeholder(&mut self, shape: Option<Vec<usize>>) -> (id: usize)
        requires
            old(self).wf(),
        ensures
            final(self).extends(*old(self), 1),
            id == old(self).size(),
            final(self).nodes[id as int].is(Operator::Placeholder, Seq::empty(), shape_model(shape)),
    {
        self.build(Operator::Placeholder, Vec::new(), shape)
    }

    /// Adds the node that applies the operator `op` of one input to `a`.
    pub fn unary(&mut self, op: Operator, a: usize) -> (id: usize)
        requires
            old(self).wf(),
            a < old(self).size(),
        ensures
            final(self).extends(*old(self), 1),
            id == old(self).size(),
            final(self).nodes[id as int].is(op, seq![a], None),
    {
        let inputs: Vec<usize> = vec![a];
        assert(inputs@ =~= seq![a]);
        self.build(op, inputs, None)
    }

    /// Adds the node that applies the operator `op` of two inputs to `a`
    /// and `b`.
    pub fn binary(&mut self, op: Operator, a: usize, b: usize) -> (id: usize)
        requires
            old(self).wf(),
            a < old(self).size(),
            b < old(self).size(),
        ensures
            final(self).extends(*old(self), 1),
            id == old(self).size(),
            final(self).nodes[id as int].is(op, seq![a, b], None),
    {
        self.build(op, vec![a, b], None)
    }

    /// The gradient of a node to which several consumers contribute: none
    /// when nobody contributes, the contribution itself when there is one,
    /// and otherwise a new node that sums all of them.
    pub fn accumulate(&mut self, contributions: Vec<usize>) -> (r: Option<usize>)
        requires
            old(self).wf(),
            old(self).has(contributions@),
        ensures
            contributions.len() == 0 ==> r is None && *final(self) == *old(self),
            contributions.len() == 1 ==> r == Some(contributions[0]) && *final(self) == *old(self),
            contributions.len() >= 2 ==> r == Some(old(self).size() as usize) && final(self).extends(
                *old(self),
                1,
            ) && final(self).nodes[old(self).size()].is(
                Operator::AddN(AddN),
                contributions@,
                None,
            ),
    {
        if contributions.len() == 0 {
            None
        } else if contributions.len() == 1 {
            Some(contributions[0])
        } else {
            Some(self.build(Operator::AddN(AddN), contributions, None))
        }
    }

    /// Adds the constant `value`.
    pub fn scalar(&mut self, value: i64) -> (id: usize)
        requires
            old(self).wf(),
        ensures
            final(self).extends(*old(self), 1),
            id == old(self).size(),
            final(self).nodes[id as int].is(Operator::Scalar(value), Seq::empty(), None),
    {
        self.build(Operator::Scalar(value), Vec::new(), None)
    }
}

/// `n` inputs without a gradient.
pub fn no_gradients(n: usize) -> (r: Vec<Option<usize>>)
    ensures
        r@ == Seq::new(n as nat, |k: int| None::<usize>),
{
    let mut out: Vec<Option<usize>> = Vec::with_capacity(n);
    let mut k: usize = 0;
    while k < n
        invariant
            k <= n,
            out@ == Seq::new(k as nat, |j: int| None::<usize>),
        decreases n - k,
    {
        out.push(None);
        k += 1;
        assert(out@ =~= Seq::new(k as nat, |j: int| None::<usize>));
    }
    out
}

} // verus!
