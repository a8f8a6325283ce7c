use vstd::prelude::*;
use crate::autograd::grown_from;
use crate::autograd::Autograd;
use crate::autograd::Vertex;
use crate::kernel::Arithmetic;
use crate::kernel::Primitive;
use crate::matrix::Matrix;

pub mod mse;
pub mod softmax_cross_entropy;

pub use mse::MSE;
pub use softmax_cross_entropy::SoftmaxCrossEntropyLoss;

verus! {

/// How the losses of several samples are combined into one.
pub enum Reduction {
    /// Their mean.
    Mean,
    /// Their sum.
    Sum,
    /// Not at all: each loss is kept.
    Unreduced,
}

/// A loss: a rule that extends a graph by the vertices that compare the
/// predictions `pred` with the class `target_index`, the last of them the loss.
pub trait Loss {
    /// The predictions that the loss can be taken of.
    spec fn accepts(&self, nodes: Seq<Vertex>, pred: Seq<usize>, target_index: usize) -> bool;

    /// The graph once the loss has been added to it.
    spec fn graph_after(
        &self,
        ar: Arithmetic,
        nodes: Seq<Vertex>,
        pred: Seq<usize>,
        target_index: usize,
    ) -> Seq<Vertex>;

    /// Adds the loss to the graph and returns its vertex, the newest one.
    fn forward<K: Fn(Primitive, &Matrix, &Matrix) -> Matrix>(
        &self,
        g: &mut Autograd<K>,
        pred: &Vec<usize>,
        target_index: usize,
    ) -> (id: usize)
        requires
            old(g).wf(),
            self.accepts(old(g)@, pred@, target_index),
        ensures
            final(g).wf(),
            final(g).kernel() == old(g).kernel(),
            final(g)@ == self.graph_after(old(g).arithmetic(), old(g)@, pred@, target_index),
            grown_from(final(g)@, old(g)@),
            id + 1 == final(g)@.len(),
    ;
}

} // verus!
