use vstd::prelude::*;
use crate::autograd::lemma_well_formed_structured;
use crate::autograd::vertex_ok;
use crate::autograd::Autograd;
use crate::autograd::Op;
use crate::autograd::Vertex;
use crate::kernel::Arithmetic;
use crate::kernel::Primitive;
use crate::matrix::Grid;
use crate::matrix::Matrix;
use crate::laws::lemma_backward_confined;
use crate::laws::lemma_backward_keeps_seed;
use crate::topo::reaches;
use crate::topo::topo_order;

verus! {

/// The number of children to which a vertex of the given operation sends a
/// gradient. The exponent of a power is a child that receives none.
pub open spec fn fan_in(op: Op) -> nat {
    match op {
        Op::Leaf => 0,
        Op::Add | Op::Sub | Op::Mul | Op::Div => 2,
        Op::Neg | Op::Pow | Op::Log | Op::Exp | Op::Tanh | Op::ReLU => 1,
    }
}

/// What vertex `v` adds to the gradient of its child in operand position
/// `slot`: the local derivative rule of the operation, applied to the gradient
/// `dy` of `v`, the value `y` of `v` and the values `a` and `b` of its children.
pub open spec fn contribution(ar: Arithmetic, nodes: Seq<Vertex>, v: int, slot: int) -> Grid {
    let y = nodes[v].value;
    let dy = nodes[v].grad;
    let a = nodes[nodes[v].children[0] as int].value;
    let b = nodes[nodes[v].children[1] as int].value;
    match nodes[v].op {
        Op::Add => dy,
        Op::Sub => if slot == 0 {
            dy
        } else {
            ar(Primitive::Neg, dy, dy)
        },
        Op::Neg => ar(Primitive::Neg, dy, dy),
        Op::Mul => if slot == 0 {
            ar(Primitive::MatMul, dy, b.transpose())
        } else {
            ar(Primitive::MatMul, a.transpose(), dy)
        },
        Op::Div => if slot == 0 {
            ar(Primitive::Div, dy, b)
        } else {
            let squared = ar(Primitive::Square, b, b);
            let ratio = ar(Primitive::Div, a, squared);
            ar(Primitive::Hadamard, ar(Primitive::Neg, ratio, ratio), dy)
        },
        Op::Pow => ar(Primitive::Hadamard, dy, ar(Primitive::PowSlope, a, b)),
        Op::Log => ar(Primitive::Div, dy, a),
        Op::Exp => ar(Primitive::Hadamard, dy, y),
        Op::Tanh => {
            let slope = ar(Primitive::TanhSlope, y, y);
            ar(Primitive::Hadamard, slope, dy)
        },
        Op::ReLU => {
            let mask = ar(Primitive::ReluMask, y, y);
            ar(Primitive::Hadamard, dy, mask)
        },
        Op::Leaf => dy,
    }
}

/// The graph after `g` has been added to the gradient of vertex `c`.
pub open spec fn accumulate(ar: Arithmetic, nodes: Seq<Vertex>, c: int, g: Grid) -> Seq<Vertex> {
    nodes.update(c, Vertex { grad: ar(Primitive::Add, nodes[c].grad, g), ..nodes[c] })
}

/// The graph after vertex `v` has sent its contributions to its children, in
/// operand order. A leaf sends nothing.
pub open spec fn propagate(ar: Arithmetic, nodes: Seq<Vertex>, v: int) -> Seq<Vertex> {
    let c = nodes[v].children;
    if fan_in(nodes[v].op) == 0 {
        nodes
    } else if fan_in(nodes[v].op) == 1 {
        accumulate(ar, nodes, c[0] as int, contribution(ar, nodes, v, 0))
    } else {
        accumulate(
            ar,
            accumulate(ar, nodes, c[0] as int, contribution(ar, nodes, v, 0)),
            c[1] as int,
            contribution(ar, nodes, v, 1),
        )
    }
}

/// The graph after the vertices `order[from..]` have propagated, last one first.
pub open spec fn sweep(ar: Arithmetic, nodes: Seq<Vertex>, order: Seq<usize>, from: int) -> Seq<
    Vertex,
>
    decreases order.len() - from,
{
    if from < 0 || from >= order.len() {
        nodes
    } else {
        propagate(ar, sweep(ar, nodes, order, from + 1), order[from] as int)
    }
}

/// The graph after a backward pass from `root`: every vertex that `root`
/// reaches has propagated, the root first and each vertex before its children.
pub open spec fn backpropagated(ar: Arithmetic, nodes: Seq<Vertex>, root: usize) -> Seq<Vertex> {
    sweep(ar, nodes, topo_order(nodes, root), 0)
}

/// `after` is `before` but for the gradients, which kept their shapes.
pub open spec fn only_grads_differ(before: Seq<Vertex>, after: Seq<Vertex>) -> bool {
    &&& after.len() == before.len()
    &&& forall|i: int|
        0 <= i < before.len() ==> {
            &&& (#[trigger] after[i]).value == before[i].value
            &&& after[i].children == before[i].children
            &&& after[i].op == before[i].op
            &&& after[i].name == before[i].name
            &&& after[i].grad.same_shape(before[i].grad)
            &&& after[i].grad.storable()
        }
}

impl<K: Fn(Primitive, &Matrix, &Matrix) -> Matrix> Autograd<K> {
    /// Adds `g` to the gradient of vertex `c`.
    pub fn accumulate(&mut self, c: usize, g: &Matrix)
        requires
            old(self).wf(),
            c < old(self)@.len(),
            g.wf(),
            g@.same_shape(old(self)@[c as int].grad),
        ensures
            final(self).wf(),
            final(self).kernel() == old(self).kernel(),
            final(self)@ == accumulate(old(self).arithmetic(), old(self)@, c as int, g@),
            only_grads_differ(old(self)@, final(self)@),
    {
        proof {
            assert(vertex_ok(self@, c as int));
        }
        let sum = self.compute(Primitive::Add, self.grad_ref(c), g);
        self.set_grad(c, sum);
        proof {
            assert forall|i: int| 0 <= i < self@.len() implies (#[trigger] self@[i]).grad.storable() by {
                assert(vertex_ok(self@, i));
            }
        }
    }

    /// Sends the contributions of vertex `v` to its children.
    pub fn propagate(&mut self, v: usize)
        requires
            old(self).wf(),
            v < old(self)@.len(),
        ensures
            final(self).wf(),
            final(self).kernel() == old(self).kernel(),
            final(self)@ == propagate(old(self).arithmetic(), old(self)@, v as int),
            only_grads_differ(old(self)@, final(self)@),
    {
        proof {
            assert(vertex_ok(self@, v as int));
            assert forall|i: int| 0 <= i < self@.len() implies (#[trigger] self@[i]).grad.storable() by {
                assert(vertex_ok(self@, i));
            }
        }
        let op = self.kind(v);
        if op == Op::Leaf {
            return ;
        }
        let c0 = self.child(v, 0);
        proof {
            assert(self@[v as int].children[0] < v);
            assert(vertex_ok(self@, c0 as int));
        }
        let dy = self.grad(v);
        match op {
            Op::Add | Op::Sub | Op::Mul | Op::Div => {
                let c1 = self.child(v, 1);
                proof {
                    assert(self@[v as int].children[1] < v);
                    assert(vertex_ok(self@, c1 as int));
                }
                let (g0, g1) = match op {
                    Op::Add => (dy.clone(), dy),
                    Op::Sub => {
                        let minus = self.compute(Primitive::Neg, &dy, &dy);
                        (dy, minus)
                    },
                    Op::Mul => {
                        let bt = self.value_ref(c1).transpose();
                        let at = self.value_ref(c0).transpose();
                        let g0 = self.compute(Primitive::MatMul, &dy, &bt);
                        let g1 = self.compute(Primitive::MatMul, &at, &dy);
                        (g0, g1)
                    },
                    _ => {
                        let a = self.value_ref(c0);
                        let b = self.value_ref(c1);
                        let g0 = self.compute(Primitive::Div, &dy, b);
                        let squared = self.compute(Primitive::Square, b, b);
                        let ratio = self.compute(Primitive::Div, a, &squared);
                        let minus = self.compute(Primitive::Neg, &ratio, &ratio);
                        let g1 = self.compute(Primitive::Hadamard, &minus, &dy);
                        (g0, g1)
                    },
                };
                self.accumulate(c0, &g0);
                self.accumulate(c1, &g1);
            },
            _ => {
                let g0 = match op {
                    Op::Neg => self.compute(Primitive::Neg, &dy, &dy),
                    Op::Pow => {
                        let c1 = self.child(v, 1);
                        proof {
                            assert(self@[v as int].children[1] < v);
                            assert(vertex_ok(self@, c1 as int));
                        }
                        let slope = self.compute(
                            Primitive::PowSlope,
                            self.value_ref(c0),
                            self.value_ref(c1),
                        );
                        self.compute(Primitive::Hadamard, &dy, &slope)
                    },
                    Op::Log => self.compute(Primitive::Div, &dy, self.value_ref(c0)),
                    Op::Exp => self.compute(Primitive::Hadamard, &dy, self.value_ref(v)),
                    Op::Tanh => {
                        let y = self.value_ref(v);
                        let slope = self.compute(Primitive::TanhSlope, y, y);
                        self.compute(Primitive::Hadamard, &slope, &dy)
                    },
                    _ => {
                        let y = self.value_ref(v);
                        let mask = self.compute(Primitive::ReluMask, y, y);
                        self.compute(Primitive::Hadamard, &dy, &mask)
                    },
                };
                self.accumulate(c0, &g0);
            },
        }
    }

    /// Runs a backward pass from `root`: walks the linearization of what
    /// `root` reaches from its end to its start and lets each vertex send its
    /// contributions to its children. The gradient of `root` is taken as the
    /// caller left it; nothing is reset.
    pub fn backward(&mut self, root: usize)
        requires
            old(self).wf(),
            root < old(self)@.len(),
        ensures
            final(self).wf(),
            final(self).kernel() == old(self).kernel(),
            final(self)@ == backpropagated(old(self).arithmetic(), old(self)@, root),
            only_grads_differ(old(self)@, final(self)@),
            final(self)@[root as int].grad == old(self)@[root as int].grad,
            forall|w: usize|
                w < old(self)@.len() && !reaches(old(self)@, root, w) ==> #[trigger] final(self)@[w as int]
                    == old(self)@[w as int],
    {
        proof {
            let ar = self.arithmetic();
            lemma_well_formed_structured(self@);
            lemma_backward_keeps_seed(ar, self@, root);
            assert forall|w: usize| w < self@.len() && !reaches(self@, root, w) implies (
            #[trigger] backpropagated(ar, self@, root)[w as int]) == self@[w as int] by {
                lemma_backward_confined(ar, self@, root, w);
            }
        }
        let order = self.get_topo(root);
        let ghost ar = self.arithmetic();
        let mut i: usize = order.len();
        proof {
            assert forall|t: int| 0 <= t < self@.len() implies (#[trigger] self@[t]).grad.storable() by {
                assert(vertex_ok(self@, t));
            }
        }
        while i > 0
            invariant
                self.wf(),
                self.kernel() == old(self).kernel(),
                ar == old(self).arithmetic(),
                i <= order@.len(),
                forall|t: int| 0 <= t < order@.len() ==> (#[trigger] order@[t]) < old(self)@.len(),
                only_grads_differ(old(self)@, self@),
                self@ == sweep(ar, old(self)@, order@, i as int),
            decreases i,
        {
            i -= 1;
            let v = order[i];
            let ghost before = self@;
            self.propagate(v);
            proof {
                assert forall|t: int| 0 <= t < self@.len() implies {
                    &&& (#[trigger] self@[t]).value == old(self)@[t].value
                    &&& self@[t].children == old(self)@[t].children
                    &&& self@[t].op == old(self)@[t].op
                    &&& self@[t].name == old(self)@[t].name
                    &&& self@[t].grad.same_shape(old(self)@[t].grad)
                    &&& self@[t].grad.storable()
                } by {
                    assert(before[t].value == old(self)@[t].value);
                }
            }
        }
    }
}

} // verus!
