use vstd::prelude::*;
use crate::autograd::grown_from;
use crate::autograd::Autograd;
use crate::kernel::Primitive;
use crate::loss::softmax_cross_entropy::negative_log;
use crate::matrix::Matrix;

verus! {

/// Adds to the graph the negated logarithm of the prediction for the target
/// class and returns its vertex, the newest one.
pub fn cross_entropy_loss<K: Fn(Primitive, &Matrix, &Matrix) -> Matrix>(
    g: &mut Autograd<K>,
    pred: &Vec<usize>,
    target_index: usize,
) -> (id: usize)
    requires
        old(g).wf(),
        target_index < pred@.len(),
        pred@[target_index as int] < old(g)@.len(),
    ensures
        final(g).wf(),
        final(g).kernel() == old(g).kernel(),
        final(g)@ == negative_log(old(g).arithmetic(), old(g)@, pred@[target_index as int]),
        grown_from(final(g)@, old(g)@),
        id + 1 == final(g)@.len(),
        final(g)@[id as int].value.same_shape(old(g)@[pred@[target_index as int] as int].value),
{
    let log_prob = g.log(pred[target_index]);
    g.neg(log_prob)
}

} // verus!
