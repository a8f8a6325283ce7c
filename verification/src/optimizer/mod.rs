use vstd::prelude::*;
use crate::autograd::listed;
use crate::autograd::with_grads_reset;
use crate::autograd::Autograd;
use crate::autograd::Vertex;
use crate::kernel::Primitive;
use crate::matrix::Matrix;

pub mod adamw;
pub mod sgd;

pub use adamw::AdamW;
pub use sgd::SGD;

verus! {

/// Every listed vertex exists.
pub open spec fn all_valid(nodes: Seq<Vertex>, ids: Seq<usize>) -> bool {
    forall|t: int| 0 <= t < ids.len() ==> (#[trigger] ids[t]) < nodes.len()
}

/// `after` is `before` but for the values of the vertices `parameters`, which
/// kept their shapes.
pub open spec fn only_values_differ(
    before: Seq<Vertex>,
    after: Seq<Vertex>,
    parameters: Seq<usize>,
) -> bool {
    &&& after.len() == before.len()
    &&& forall|i: int|
        0 <= i < before.len() ==> {
            &&& (#[trigger] after[i]).grad == before[i].grad
            &&& after[i].children == before[i].children
            &&& after[i].op == before[i].op
            &&& after[i].name == before[i].name
            &&& after[i].value.same_shape(before[i].value)
            &&& !listed(parameters, i) ==> after[i].value == before[i].value
        }
}

/// A rule that updates the values of parameters from their gradients.
pub trait Optimizer {
    /// What the optimizer's own state must satisfy for a step on these parameters.
    spec fn ready(&self, nodes: Seq<Vertex>, parameters: Seq<usize>) -> bool;

    /// Updates the value of each parameter, in the order given.
    fn step<K: Fn(Primitive, &Matrix, &Matrix) -> Matrix>(
        &mut self,
        g: &mut Autograd<K>,
        parameters: &Vec<usize>,
    )
        requires
            old(g).wf(),
            all_valid(old(g)@, parameters@),
            old(self).ready(old(g)@, parameters@),
        ensures
            final(g).wf(),
            final(g).kernel() == old(g).kernel(),
            only_values_differ(old(g)@, final(g)@, parameters@),
    ;

    /// Resets to zero the gradient of each parameter.
    fn zero_grad<K: Fn(Primitive, &Matrix, &Matrix) -> Matrix>(
        &self,
        g: &mut Autograd<K>,
        parameters: &Vec<usize>,
    )
        requires
            old(g).wf(),
            all_valid(old(g)@, parameters@),
        ensures
            final(g).wf(),
            final(g).kernel() == old(g).kernel(),
            final(g)@ == with_grads_reset(old(g)@, parameters@),
    {
        g.zero_grads(parameters);
    }
}

} // verus!
