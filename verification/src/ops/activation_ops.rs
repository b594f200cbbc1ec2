//! Activation operators.
//!
//! The rectifier and the identity are computed here.  The forward
//! computations of the other activations need exponentials and live with the
//! callers that have floating point; their gradients are built here like all
//! others.

use crate::backend;
use crate::graph::{no_gradients, Graph, Operator};
use crate::ndarray_ext::NdArrayView;
use crate::ops::math_ops::ReduceSum;
use crate::backend::view_is_standard;
use crate::op::{gives_owned, gives_standard, gives_view, ArrRepr, ComputeResults};
use crate::semantics::relu;
use vstd::pervasive::unreached;
use vstd::prelude::*;

verus! {

pub struct ELU {
    pub alpha: i64,
}

pub struct ELUGrad {
    pub alpha: i64,
}

pub struct Identity;

pub struct ReLU;

pub struct Sigmoid;

pub struct Softplus;

pub struct Softmax {
    pub axis: isize,
}

impl Softmax {
    /// The stable name of the operator, for diagnostics.
    pub fn name(&self) -> (r: &'static str)
        ensures
            r@ == "Softmax"@,
    {
        "Softmax"
    }

    /// Backward: `(gy - sum(output * gy)) * output`, where the sum runs
    /// along the axis and keeps it.
    pub fn grad(&self, g: &mut Graph, gy: usize, inputs: &Vec<usize>, output: usize) -> (r: Vec<Option<usize>>)
        requires
            old(g).ready(gy, inputs@, output),
            inputs.len() == 1,
        ensures
            final(g).extends(*old(g), 4),
            final(g).nodes[old(g).size()].is(Operator::Mul, seq![output, gy], None),
            final(g).nodes[old(g).size() + 1].is(
                Operator::ReduceSum(ReduceSum { axis: self.axis, keep_dims: true }),
                seq![old(g).size() as usize],
                None,
            ),
            final(g).nodes[old(g).size() + 2].is(
                Operator::Sub,
                seq![gy, (old(g).size() + 1) as usize],
                None,
            ),
            final(g).nodes[old(g).size() + 3].is(
                Operator::Mul,
                seq![(old(g).size() + 2) as usize, output],
                None,
            ),
            r@ == seq![Some((old(g).size() + 3) as usize)],
    {
        let weighted = g.binary(Operator::Mul, output, gy);
        let sum = g.unary(
            Operator::ReduceSum(ReduceSum { axis: self.axis, keep_dims: true }),
            weighted,
        );
        let centred = g.binary(Operator::Sub, gy, sum);
        let gx = g.binary(Operator::Mul, centred, output);
        vec![Some(gx)]
    }
}

impl Softplus {
    /// The stable name of the operator, for diagnostics.
    pub fn name(&self) -> (r: &'static str)
        ensures
            r@ == "Softplus"@,
    {
        "Softplus"
    }

    /// Backward: `gy * (exp(x) / (exp(x) + 1))`.
    pub fn grad(&self, g: &mut Graph, gy: usize, inputs: &Vec<usize>, output: usize) -> (r: Vec<Option<usize>>)
        requires
            old(g).ready(gy, inputs@, output),
            inputs.len() == 1,
        ensures
            final(g).extends(*old(g), 5),
            final(g).nodes[old(g).size()].is(Operator::Exp, seq![inputs[0]], None),
            final(g).nodes[old(g).size() + 1].is(Operator::Scalar(1), Seq::empty(), None),
            final(g).nodes[old(g).size() + 2].is(
                Operator::Add,
                seq![old(g).size() as usize, (old(g).size() + 1) as usize],
                None,
            ),
            final(g).nodes[old(g).size() + 3].is(
                Operator::Div,
                seq![old(g).size() as usize, (old(g).size() + 2) as usize],
                None,
            ),
            final(g).nodes[old(g).size() + 4].is(
                Operator::Mul,
                seq![gy, (old(g).size() + 3) as usize],
                None,
            ),
            r@ == seq![Some((old(g).size() + 4) as usize)],
    {
        let a = g.unary(Operator::Exp, inputs[0]);
        let one = g.scalar(1);
        let b = g.binary(Operator::Add, a, one);
        let ratio = g.binary(Operator::Div, a, b);
        let gx = g.binary(Operator::Mul, gy, ratio);
        vec![Some(gx)]
    }
}

impl Sigmoid {
    /// The stable name of the operator, for diagnostics.
    pub fn name(&self) -> (r: &'static str)
        ensures
            r@ == "Sigmoid"@,
    {
        "Sigmoid"
    }

    /// Backward: `gy * (y - y^2)`, where `y` is the output.
    pub fn grad(&self, g: &mut Graph, gy: usize, inputs: &Vec<usize>, output: usize) -> (r: Vec<Option<usize>>)
        requires
            old(g).ready(gy, inputs@, output),
            inputs.len() == 1,
        ensures
            final(g).extends(*old(g), 3),
            final(g).nodes[old(g).size()].is(Operator::Square, seq![output], None),
            final(g).nodes[old(g).size() + 1].is(
                Operator::Sub,
                seq![output, old(g).size() as usize],
                None,
            ),
            final(g).nodes[old(g).size() + 2].is(
                Operator::Mul,
                seq![gy, (old(g).size() + 1) as usize],
                None,
            ),
            r@ == seq![Some((old(g).size() + 2) as usize)],
    {
        let squared = g.unary(Operator::Square, output);
        let slope = g.binary(Operator::Sub, output, squared);
        let gx = g.binary(Operator::Mul, gy, slope);
        vec![Some(gx)]
    }
}

impl ReLU {
    /// The stable name of the operator, for diagnostics.
    pub fn name(&self) -> (r: &'static str)
        ensures
            r@ == "ReLU"@,
    {
        "ReLU"
    }

    /// Backward: the incoming gradient where the input exceeds zero, and
    /// zero elsewhere: `greater(x, 0) * gy`.
    pub fn grad(&self, g: &mut Graph, gy: usize, inputs: &Vec<usize>, output: usize) -> (r: Vec<Option<usize>>)
        requires
            old(g).ready(gy, inputs@, output),
            inputs.len() == 1,
        ensures
            final(g).extends(*old(g), 3),
            final(g).nodes[old(g).size()].is(Operator::Scalar(0), Seq::empty(), None),
            final(g).nodes[old(g).size() + 1].is(
                Operator::Greater,
                seq![inputs[0], old(g).size() as usize],
                None,
            ),
            final(g).nodes[old(g).size() + 2].is(
                Operator::Mul,
                seq![(old(g).size() + 1) as usize, gy],
                None,
            ),
            r@ == seq![Some((old(g).size() + 2) as usize)],
    {
        let zero = g.scalar(0);
        let bin = g.binary(Operator::Greater, inputs[0], zero);
        let gx = g.binary(Operator::Mul, bin, gy);
        vec![Some(gx)]
    }

    /// Forward: every negative element of the input replaced by zero.
    pub fn compute<'v>(&self, xs: &Vec<NdArrayView<'v>>) -> (r: ComputeResults<'v>)
        requires
            xs.len() >= 1,
        ensures
            gives_owned(r@, relu(xs[0]@)),
    {
        let values = xs[0].to_vec();
        let shape = xs[0].shape();
        let mut out: Vec<i64> = Vec::with_capacity(values.len());
        let mut p: usize = 0;
        while p < values.len()
            invariant
                p <= values.len(),
                out@ == relu(xs[0]@).data.subrange(0, p as int),
                values@ == xs[0]@.data,
            decreases values.len() - p,
        {
            let a: i64 = values[p];
            out.push(if a >= 0 { a } else { 0 });
            p += 1;
            assert(out@ =~= relu(xs[0]@).data.subrange(0, p as int));
        }
        assert(out@ =~= relu(xs[0]@).data);
        match backend::from_shape_vec(&shape, out) {
            Ok(ret) => vec![Ok(ArrRepr::Owned(ret))],
            Err(_) => unreached(),
        }
    }
}

impl Identity {
    /// The stable name of the operator, for diagnostics.
    pub fn name(&self) -> (r: &'static str)
        ensures
            r@ == "Identity"@,
    {
        "Identity"
    }

    /// Backward: the incoming gradient itself; no node is added.
    pub fn grad(&self, g: &mut Graph, gy: usize, inputs: &Vec<usize>, output: usize) -> (r: Vec<Option<usize>>)
        requires
            old(g).ready(gy, inputs@, output),
            inputs.len() == 1,
        ensures
            *final(g) == *old(g),
            r@ == seq![Some(gy)],
    {
        vec![Some(gy)]
    }

    /// Forward: a view of the input's own storage.
    pub fn compute<'v>(&self, xs: &Vec<NdArrayView<'v>>) -> (r: ComputeResults<'v>)
        requires
            xs.len() >= 1,
        ensures
            gives_view(r@, xs[0]@),
            gives_standard(r@) == view_is_standard(xs[0]),
    {
        // do nothing
        vec![Ok(ArrRepr::View(xs[0].clone()))]
    }
}

impl ELU {
    /// The stable name of the operator, for diagnostics.
    pub fn name(&self) -> (r: &'static str)
        ensures
            r@ == "ELU"@,
    {
        "ELU"
    }

    /// Backward: a dedicated operator applied to the input and the incoming
    /// gradient, with the declared shape of the gradient.
    pub fn grad(&self, g: &mut Graph, gy: usize, inputs: &Vec<usize>, output: usize) -> (r: Vec<Option<usize>>)
        requires
            old(g).ready(gy, inputs@, output),
            inputs.len() == 1,
        ensures
            final(g).extends(*old(g), 1),
            final(g).nodes[old(g).size()].is(
                Operator::ELUGrad(ELUGrad { alpha: self.alpha }),
                seq![inputs[0], gy],
                old(g).shape_of(gy as int),
            ),
            r@ == seq![Some(old(g).size() as usize)],
    {
        let shape = g.shape(gy);
        let gx = g.build(
            Operator::ELUGrad(ELUGrad { alpha: self.alpha }),
            vec![inputs[0], gy],
            shape,
        );
        vec![Some(gx)]
    }
}

impl ELUGrad {
    /// The stable name of the operator, for diagnostics.
    pub fn name(&self) -> (r: &'static str)
        ensures
            r@ == "ELUGrad"@,
    {
        "ELUGrad"
    }

    /// Backward: no input has a gradient.
    pub fn grad(&self, g: &mut Graph, gy: usize, inputs: &Vec<usize>, output: usize) -> (r: Vec<Option<usize>>)
        requires
            old(g).ready(gy, inputs@, output),
        ensures
            *final(g) == *old(g),
            r@ == Seq::new(inputs.len() as nat, |k: int| None::<usize>),
    {
        no_gradients(inputs.len())
    }
}

} // verus!
