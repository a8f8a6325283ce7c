use vstd::prelude::*;
use crate::autograd::Autograd;
use crate::autograd::Op;
use crate::autograd::Vertex;
use crate::kernel::Arithmetic;
use crate::kernel::Primitive;
use crate::loss::Loss;
use crate::matrix::Matrix;
use crate::ops::with_unary;

verus! {

/// The cross-entropy of predictions that are already probabilities: the
/// negated logarithm of the probability given to the target class.
pub struct SoftmaxCrossEntropyLoss {}

/// The graph with the negated logarithm of vertex `p` appended: the logarithm
/// first, then its negation.
pub open spec fn negative_log(ar: Arithmetic, nodes: Seq<Vertex>, p: usize) -> Seq<Vertex> {
    with_unary(ar, with_unary(ar, nodes, Op::Log, p), Op::Neg, nodes.len() as usize)
}

impl SoftmaxCrossEntropyLoss {
    /// The cross-entropy of probabilities.
    pub fn new() -> (r: Self)
        ensures
            r == (SoftmaxCrossEntropyLoss {  }),
    {
        Self {  }
    }
}

impl Loss for SoftmaxCrossEntropyLoss {
    /// The target is one of the predictions, and its prediction is a vertex of the graph.
    open spec fn accepts(&self, nodes: Seq<Vertex>, pred: Seq<usize>, target_index: usize) -> bool {
        target_index < pred.len() && pred[target_index as int] < nodes.len()
    }

    open spec fn graph_after(
        &self,
        ar: Arithmetic,
        nodes: Seq<Vertex>,
        pred: Seq<usize>,
        target_index: usize,
    ) -> Seq<Vertex> {
        negative_log(ar, nodes, pred[target_index as int])
    }

    fn forward<K: Fn(Primitive, &Matrix, &Matrix) -> Matrix>(
        &self,
        g: &mut Autograd<K>,
        pred: &Vec<usize>,
        target_index: usize,
    ) -> (id: usize)
        ensures
            final(g)@[id as int].value.same_shape(old(g)@[pred@[target_index as int] as int].value),
    {
        let log_prob = g.log(pred[target_index]);
        g.neg(log_prob)
    }
}

} // verus!
