use vstd::prelude::*;
use crate::autograd::grown_from;
use crate::autograd::vertex_ok;
use crate::autograd::Autograd;
use crate::autograd::Op;
use crate::autograd::Vertex;
use crate::kernel::fits;
use crate::kernel::Arithmetic;
use crate::kernel::Primitive;
use crate::matrix::Grid;
use crate::matrix::Matrix;

verus! {

/// The request that computes the forward value of an operation.
pub open spec fn forward_request(op: Op) -> Primitive {
    match op {
        Op::Add => Primitive::Add,
        Op::Sub => Primitive::Sub,
        Op::Neg => Primitive::Neg,
        Op::Mul => Primitive::MatMul,
        Op::Div => Primitive::Div,
        Op::Pow => Primitive::Pow,
        Op::Log => Primitive::Log,
        Op::Exp => Primitive::Exp,
        Op::Tanh => Primitive::Tanh,
        Op::ReLU => Primitive::Relu,
        Op::Leaf => Primitive::Neg,
    }
}

/// The forward value of a unary operation on the value `x`.
pub open spec fn forward1(ar: Arithmetic, op: Op, x: Grid) -> Grid {
    ar(forward_request(op), x, x)
}

/// The forward value of a binary operation on the values `x` and `y`.
pub open spec fn forward2(ar: Arithmetic, op: Op, x: Grid, y: Grid) -> Grid {
    ar(forward_request(op), x, y)
}

/// The vertex that a unary operation on vertex `a` creates.
pub open spec fn unary_vertex(ar: Arithmetic, nodes: Seq<Vertex>, op: Op, a: usize) -> Vertex {
    Vertex::fresh(op, seq![a], forward1(ar, op, nodes[a as int].value))
}

/// The vertex that a binary operation on the vertices `a` and `b` creates.
pub open spec fn binary_vertex(
    ar: Arithmetic,
    nodes: Seq<Vertex>,
    op: Op,
    a: usize,
    b: usize,
) -> Vertex {
    Vertex::fresh(op, seq![a, b], forward2(ar, op, nodes[a as int].value, nodes[b as int].value))
}

/// The graph with one more input vertex, which holds `value`.
pub open spec fn with_leaf(nodes: Seq<Vertex>, value: Grid) -> Seq<Vertex> {
    nodes.push(Vertex::leaf(value))
}

/// The graph with one more vertex: the unary operation `op` on vertex `a`.
pub open spec fn with_unary(ar: Arithmetic, nodes: Seq<Vertex>, op: Op, a: usize) -> Seq<Vertex> {
    nodes.push(unary_vertex(ar, nodes, op, a))
}

/// The graph with one more vertex: the binary operation `op` on the vertices `a` and `b`.
pub open spec fn with_binary(
    ar: Arithmetic,
    nodes: Seq<Vertex>,
    op: Op,
    a: usize,
    b: usize,
) -> Seq<Vertex> {
    nodes.push(binary_vertex(ar, nodes, op, a, b))
}

/// The graph with two more vertices: an input vertex that holds the exponent
/// `power`, then vertex `a` raised to it.
pub open spec fn with_pow(ar: Arithmetic, nodes: Seq<Vertex>, a: usize, power: u64) -> Seq<Vertex> {
    with_binary(ar, with_leaf(nodes, Grid::scalar(power)), Op::Pow, a, nodes.len() as usize)
}

impl<K: Fn(Primitive, &Matrix, &Matrix) -> Matrix> Autograd<K> {
    /// Appends the unary operation `op` on vertex `a`.
    fn derive1(&mut self, op: Op, a: usize) -> (id: usize)
        requires
            old(self).wf(),
            a < old(self)@.len(),
            op == Op::Neg || op == Op::Log || op == Op::Exp || op == Op::Tanh || op == Op::ReLU,
        ensures
            final(self).wf(),
            final(self).kernel() == old(self).kernel(),
            grown_from(final(self)@, old(self)@),
            id == old(self)@.len(),
            final(self)@ == with_unary(old(self).arithmetic(), old(self)@, op, a),
            final(self)@[id as int].value.same_shape(old(self)@[a as int].value),
    {
        proof {
            assert(vertex_ok(self@, a as int));
        }
        let p = match op {
            Op::Neg => Primitive::Neg,
            Op::Log => Primitive::Log,
            Op::Exp => Primitive::Exp,
            Op::Tanh => Primitive::Tanh,
            _ => Primitive::Relu,
        };
        let value = self.compute(p, self.value_ref(a), self.value_ref(a));
        let mut children: Vec<usize> = Vec::new();
        children.push(a);
        assert(children@ =~= seq![a]);
        let id = self.attach(op, children, value);
        assert(vertex_ok(self@, id as int));
        id
    }

    /// Appends the binary operation `op` on the vertices `a` and `b`.
    fn derive2(&mut self, op: Op, a: usize, b: usize) -> (id: usize)
        requires
            old(self).wf(),
            a < old(self)@.len(),
            b < old(self)@.len(),
            op == Op::Add || op == Op::Sub || op == Op::Div || op == Op::Mul || op == Op::Pow,
            fits(forward_request(op), old(self)@[a as int].value, old(self)@[b as int].value),
        ensures
            final(self).wf(),
            final(self).kernel() == old(self).kernel(),
            grown_from(final(self)@, old(self)@),
            id == old(self)@.len(),
            final(self)@ == with_binary(old(self).arithmetic(), old(self)@, op, a, b),
            final(self)@[id as int].value.rows == old(self)@[a as int].value.rows,
            final(self)@[id as int].value.cols == (if op == Op::Mul {
                old(self)@[b as int].value.cols
            } else {
                old(self)@[a as int].value.cols
            }),
    {
        let p = match op {
            Op::Add => Primitive::Add,
            Op::Sub => Primitive::Sub,
            Op::Div => Primitive::Div,
            Op::Mul => Primitive::MatMul,
            _ => Primitive::Pow,
        };
        let value = self.compute(p, self.value_ref(a), self.value_ref(b));
        let mut children: Vec<usize> = Vec::new();
        children.push(a);
        children.push(b);
        assert(children@ =~= seq![a, b]);
        let id = self.attach(op, children, value);
        assert(vertex_ok(self@, id as int));
        id
    }

    /// The sum of two vertices of one shape, cell by cell.
    pub fn add(&mut self, a: usize, b: usize) -> (id: usize)
        requires
            old(self).wf(),
            a < old(self)@.len(),
            b < old(self)@.len(),
            old(self)@[a as int].value.same_shape(old(self)@[b as int].value),
        ensures
            final(self).wf(),
            final(self).kernel() == old(self).kernel(),
            grown_from(final(self)@, old(self)@),
            id == old(self)@.len(),
            final(self)@ == with_binary(old(self).arithmetic(), old(self)@, Op::Add, a, b),
            final(self)@[id as int].value.same_shape(old(self)@[a as int].value),
    {
        proof {
            assert(vertex_ok(self@, a as int));
            assert(vertex_ok(self@, b as int));
        }
        self.derive2(Op::Add, a, b)
    }

    /// The difference of two vertices of one shape, cell by cell.
    pub fn sub(&mut self, a: usize, b: usize) -> (id: usize)
        requires
            old(self).wf(),
            a < old(self)@.len(),
            b < old(self)@.len(),
            old(self)@[a as int].value.same_shape(old(self)@[b as int].value),
        ensures
            final(self).wf(),
            final(self).kernel() == old(self).kernel(),
            grown_from(final(self)@, old(self)@),
            id == old(self)@.len(),
            final(self)@ == with_binary(old(self).arithmetic(), old(self)@, Op::Sub, a, b),
            final(self)@[id as int].value.same_shape(old(self)@[a as int].value),
    {
        proof {
            assert(vertex_ok(self@, a as int));
            assert(vertex_ok(self@, b as int));
        }
        self.derive2(Op::Sub, a, b)
    }

    /// The matrix product of vertex `a`, of shape (m, k), and vertex `b`, of
    /// shape (k, n).
    pub fn mul(&mut self, a: usize, b: usize) -> (id: usize)
        requires
            old(self).wf(),
            a < old(self)@.len(),
            b < old(self)@.len(),
            old(self)@[a as int].value.cols == old(self)@[b as int].value.rows,
            old(self)@[a as int].value.rows * old(self)@[b as int].value.cols <= usize::MAX,
        ensures
            final(self).wf(),
            final(self).kernel() == old(self).kernel(),
            grown_from(final(self)@, old(self)@),
            id == old(self)@.len(),
            final(self)@ == with_binary(old(self).arithmetic(), old(self)@, Op::Mul, a, b),
            final(self)@[id as int].value.rows == old(self)@[a as int].value.rows,
            final(self)@[id as int].value.cols == old(self)@[b as int].value.cols,
    {
        proof {
            assert(vertex_ok(self@, a as int));
            assert(vertex_ok(self@, b as int));
        }
        self.derive2(Op::Mul, a, b)
    }

    /// The quotient of two vertices of one shape, cell by cell.
    pub fn div(&mut self, a: usize, b: usize) -> (id: usize)
        requires
            old(self).wf(),
            a < old(self)@.len(),
            b < old(self)@.len(),
            old(self)@[a as int].value.same_shape(old(self)@[b as int].value),
        ensures
            final(self).wf(),
            final(self).kernel() == old(self).kernel(),
            grown_from(final(self)@, old(self)@),
            id == old(self)@.len(),
            final(self)@ == with_binary(old(self).arithmetic(), old(self)@, Op::Div, a, b),
            final(self)@[id as int].value.same_shape(old(self)@[a as int].value),
    {
        proof {
            assert(vertex_ok(self@, a as int));
            assert(vertex_ok(self@, b as int));
        }
        self.derive2(Op::Div, a, b)
    }

    /// Vertex `a` raised, cell by cell, to the power whose word is `power`.
    ///
    /// The exponent becomes a constant input vertex of its own, created just
    /// before the result, and the result's second child.
    pub fn pow(&mut self, a: usize, power: u64) -> (id: usize)
        requires
            old(self).wf(),
            a < old(self)@.len(),
        ensures
            final(self).wf(),
            final(self).kernel() == old(self).kernel(),
            grown_from(final(self)@, old(self)@),
            id == old(self)@.len() + 1,
            final(self)@ == with_pow(old(self).arithmetic(), old(self)@, a, power),
            final(self)@[id as int].value.same_shape(old(self)@[a as int].value),
    {
        proof {
            assert(vertex_ok(self@, a as int));
        }
        let exponent = self.leaf(Matrix::scalar(power));
        self.derive2(Op::Pow, a, exponent)
    }

    /// The natural logarithm of vertex `a`, cell by cell, its argument first
    /// raised to a small positive floor.
    pub fn log(&mut self, a: usize) -> (id: usize)
        requires
            old(self).wf(),
            a < old(self)@.len(),
        ensures
            final(self).wf(),
            final(self).kernel() == old(self).kernel(),
            grown_from(final(self)@, old(self)@),
            id == old(self)@.len(),
            final(self)@ == with_unary(old(self).arithmetic(), old(self)@, Op::Log, a),
            final(self)@[id as int].value.same_shape(old(self)@[a as int].value),
    {
        self.derive1(Op::Log, a)
    }

    /// The negation of vertex `a`.
    pub fn neg(&mut self, a: usize) -> (id: usize)
        requires
            old(self).wf(),
            a < old(self)@.len(),
        ensures
            final(self).wf(),
            final(self).kernel() == old(self).kernel(),
            grown_from(final(self)@, old(self)@),
            id == old(self)@.len(),
            final(self)@ == with_unary(old(self).arithmetic(), old(self)@, Op::Neg, a),
            final(self)@[id as int].value.same_shape(old(self)@[a as int].value),
    {
        self.derive1(Op::Neg, a)
    }

    /// The exponential of vertex `a`, cell by cell.
    pub fn exp(&mut self, a: usize) -> (id: usize)
        requires
            old(self).wf(),
            a < old(self)@.len(),
        ensures
            final(self).wf(),
            final(self).kernel() == old(self).kernel(),
            grown_from(final(self)@, old(self)@),
            id == old(self)@.len(),
            final(self)@ == with_unary(old(self).arithmetic(), old(self)@, Op::Exp, a),
            final(self)@[id as int].value.same_shape(old(self)@[a as int].value),
    {
        self.derive1(Op::Exp, a)
    }

    /// The hyperbolic tangent of vertex `a`, cell by cell.
    pub fn tanh(&mut self, a: usize) -> (id: usize)
        requires
            old(self).wf(),
            a < old(self)@.len(),
        ensures
            final(self).wf(),
            final(self).kernel() == old(self).kernel(),
            grown_from(final(self)@, old(self)@),
            id == old(self)@.len(),
            final(self)@ == with_unary(old(self).arithmetic(), old(self)@, Op::Tanh, a),
            final(self)@[id as int].value.same_shape(old(self)@[a as int].value),
    {
        self.derive1(Op::Tanh, a)
    }

    /// The larger of vertex `a` and zero, cell by cell.
    pub fn relu(&mut self, a: usize) -> (id: usize)
        requires
            old(self).wf(),
            a < old(self)@.len(),
        ensures
            final(self).wf(),
            final(self).kernel() == old(self).kernel(),
            grown_from(final(self)@, old(self)@),
            id == old(self)@.len(),
            final(self)@ == with_unary(old(self).arithmetic(), old(self)@, Op::ReLU, a),
            final(self)@[id as int].value.same_shape(old(self)@[a as int].value),
    {
        self.derive1(Op::ReLU, a)
    }
}

} // verus!
