use vstd::prelude::*;
use crate::autograd::listed;
use crate::autograd::vertex_ok;
use crate::autograd::Autograd;
use crate::autograd::Vertex;
use crate::kernel::Arithmetic;
use crate::kernel::Primitive;
use crate::matrix::Grid;
use crate::matrix::Matrix;
use crate::optimizer::all_valid;
use crate::optimizer::only_values_differ;
use crate::optimizer::Optimizer;

verus! {

/// Plain gradient descent: each step moves a parameter against its gradient,
/// by the learning rate times the gradient.
pub struct SGD {
    /// The word of the learning rate.
    pub learning_rate: u64,
}

/// The vertex after one descent step: its value less its gradient times the rate.
pub open spec fn descended(ar: Arithmetic, v: Vertex, rate: u64) -> Vertex {
    Vertex {
        value: ar(Primitive::Sub, v.value, ar(Primitive::Scale, v.grad, Grid::scalar(rate))),
        ..v
    }
}

/// The graph after the first `k` parameters have taken a descent step, one
/// after the other. A parameter listed twice steps twice.
pub open spec fn descent(
    ar: Arithmetic,
    nodes: Seq<Vertex>,
    parameters: Seq<usize>,
    rate: u64,
    k: nat,
) -> Seq<Vertex>
    decreases k,
{
    if k == 0 {
        nodes
    } else {
        let g = descent(ar, nodes, parameters, rate, (k - 1) as nat);
        let p = parameters[k - 1] as int;
        g.update(p, descended(ar, g[p], rate))
    }
}

impl SGD {
    /// Gradient descent at the learning rate whose word is given.
    pub fn new(learning_rate: u64) -> (r: Self)
        ensures
            r.learning_rate == learning_rate,
    {
        Self { learning_rate }
    }
}

impl Optimizer for SGD {
    /// Gradient descent keeps no state of its own, so it is always ready.
    open spec fn ready(&self, nodes: Seq<Vertex>, parameters: Seq<usize>) -> bool {
        true
    }

    fn step<K: Fn(Primitive, &Matrix, &Matrix) -> Matrix>(
        &mut self,
        g: &mut Autograd<K>,
        parameters: &Vec<usize>,
    )
        ensures
            final(self).learning_rate == old(self).learning_rate,
            final(g)@ == descent(
                old(g).arithmetic(),
                old(g)@,
                parameters@,
                old(self).learning_rate,
                parameters@.len(),
            ),
    {
        let ghost ar = g.arithmetic();
        let rate = Matrix::scalar(self.learning_rate);
        let mut t: usize = 0;
        while t < parameters.len()
            invariant
                g.wf(),
                g.kernel() == old(g).kernel(),
                ar == old(g).arithmetic(),
                rate.wf(),
                rate@ == Grid::scalar(self.learning_rate),
                t <= parameters@.len(),
                all_valid(old(g)@, parameters@),
                only_values_differ(old(g)@, g@, parameters@.take(t as int)),
                g@ == descent(ar, old(g)@, parameters@, self.learning_rate, t as nat),
            decreases parameters@.len() - t,
        {
            let p = parameters[t];
            let ghost before = g@;
            proof {
                assert(vertex_ok(g@, p as int));
            }
            let scaled = g.compute(Primitive::Scale, g.grad_ref(p), &rate);
            let value = g.compute(Primitive::Sub, g.value_ref(p), &scaled);
            g.set_value(p, value);
            proof {
                let done = parameters@.take(t as int);
                let next = parameters@.take(t + 1);
                assert(next[t as int] == p);
                assert forall|i: int| 0 <= i < g@.len() && !listed(next, i) implies (
                #[trigger] g@[i]).value == old(g)@[i].value by {
                    if listed(done, i) {
                        let u = choose|u: int| 0 <= u < done.len() && #[trigger] done[u] == i;
                        assert(next[u] == i);
                    }
                }
            }
            t += 1;
        }
        proof {
            assert(parameters@.take(parameters@.len() as int) =~= parameters@);
        }
    }
}

} // verus!
