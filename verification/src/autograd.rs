use vstd::prelude::*;
use crate::kernel::apply;
use crate::kernel::arithmetic;
use crate::kernel::fits;
use crate::kernel::lawful;
use crate::kernel::result_cols;
use crate::kernel::result_rows;
use crate::kernel::Arithmetic;
use crate::kernel::Primitive;
use crate::matrix::Grid;
use crate::matrix::Matrix;

verus! {

/// The operation that produced a vertex.
#[derive(Clone, Copy, Debug, PartialEq, Eq, Structural)]
pub enum Op {
    /// The sum of two vertices of one shape.
    Add,
    /// The difference of two vertices of one shape.
    Sub,
    /// The negation of a vertex.
    Neg,
    /// The matrix product of two vertices.
    Mul,
    /// The quotient, cell by cell, of two vertices of one shape.
    Div,
    /// A vertex raised to a constant power, cell by cell.
    Pow,
    /// The natural logarithm of a vertex.
    Log,
    /// The exponential of a vertex.
    Exp,
    /// The hyperbolic tangent of a vertex.
    Tanh,
    /// The larger of a vertex and zero.
    ReLU,
    /// None: an input or a parameter.
    Leaf,
}

/// The mathematical content of one vertex of the graph.
pub struct Vertex {
    /// The forward value.
    pub value: Grid,
    /// The accumulated gradient, of the shape of `value`.
    pub grad: Grid,
    /// The vertices this one was derived from, in operand order.
    pub children: Seq<usize>,
    /// The operation that derived it.
    pub op: Op,
    /// The diagnostic label.
    pub name: Seq<char>,
}

impl Vertex {
    /// A fresh vertex: zero gradient and no label.
    pub open spec fn fresh(op: Op, children: Seq<usize>, value: Grid) -> Vertex {
        Vertex {
            value,
            grad: Grid::zeros(value.rows, value.cols),
            children,
            op,
            name: Seq::empty(),
        }
    }

    /// A fresh input vertex that holds `value`.
    pub open spec fn leaf(value: Grid) -> Vertex {
        Vertex::fresh(Op::Leaf, Seq::empty(), value)
    }
}

/// The text that names an operation.
pub open spec fn op_name(op: Op) -> Seq<char> {
    match op {
        Op::Add => "Add"@,
        Op::Sub => "Sub"@,
        Op::Neg => "Neg"@,
        Op::Mul => "Mul"@,
        Op::Div => "Div"@,
        Op::Pow => "Pow"@,
        Op::Log => "Log"@,
        Op::Exp => "Exp"@,
        Op::Tanh => "Tanh"@,
        Op::ReLU => "ReLU"@,
        Op::Leaf => "Leaf"@,
    }
}

/// Vertex `i` is sound within `nodes`: its matrices are well formed and of one
/// shape, its children were all created before it, and its value has the shape
/// that its operation gives to operands of its children's shapes.
pub open spec fn vertex_ok(nodes: Seq<Vertex>, i: int) -> bool {
    let v = nodes[i];
    let c = v.children;
    &&& v.value.storable()
    &&& v.grad.storable()
    &&& v.grad.same_shape(v.value)
    &&& forall|s: int| 0 <= s < c.len() ==> (#[trigger] c[s]) < i
    &&& match v.op {
        Op::Leaf => c.len() == 0,
        Op::Add | Op::Sub | Op::Div => {
            &&& c.len() == 2
            &&& v.value.same_shape(nodes[c[0] as int].value)
            &&& v.value.same_shape(nodes[c[1] as int].value)
        },
        Op::Mul => {
            &&& c.len() == 2
            &&& nodes[c[0] as int].value.cols == nodes[c[1] as int].value.rows
            &&& v.value.rows == nodes[c[0] as int].value.rows
            &&& v.value.cols == nodes[c[1] as int].value.cols
        },
        Op::Neg | Op::Log | Op::Exp | Op::Tanh | Op::ReLU => {
            &&& c.len() == 1
            &&& v.value.same_shape(nodes[c[0] as int].value)
        },
        Op::Pow => {
            &&& c.len() == 2
            &&& v.value.same_shape(nodes[c[0] as int].value)
            &&& nodes[c[1] as int].value.is_scalar()
        },
    }
}

/// Every vertex is sound. Since children always precede their parents, the
/// graph has no cycle.
pub open spec fn well_formed(nodes: Seq<Vertex>) -> bool {
    forall|i: int| 0 <= i < nodes.len() ==> #[trigger] vertex_ok(nodes, i)
}

/// Every child was created before its parent, so no vertex reaches itself
/// through a child.
pub open spec fn acyclic(nodes: Seq<Vertex>) -> bool {
    forall|i: int, s: int|
        0 <= i < nodes.len() && 0 <= s < nodes[i].children.len() ==> (
        #[trigger] nodes[i].children[s]) < i
}

/// A well-formed graph has no cycle.
pub proof fn lemma_well_formed_acyclic(nodes: Seq<Vertex>)
    requires
        well_formed(nodes),
    ensures
        acyclic(nodes),
{
    assert forall|i: int, s: int|
        0 <= i < nodes.len() && 0 <= s < nodes[i].children.len() implies (
    #[trigger] nodes[i].children[s]) < i by {
        assert(vertex_ok(nodes, i));
    }
}

/// The number of children of a vertex derived by the given operation. A power
/// has two: its operand and its exponent.
pub open spec fn arity(op: Op) -> nat {
    match op {
        Op::Leaf => 0,
        Op::Neg | Op::Log | Op::Exp | Op::Tanh | Op::ReLU => 1,
        Op::Add | Op::Sub | Op::Mul | Op::Div | Op::Pow => 2,
    }
}

/// The graph has no cycle and every vertex has as many children as its
/// operation takes. This is the part of well-formedness that does not speak of
/// matrices.
pub open spec fn structured(nodes: Seq<Vertex>) -> bool {
    &&& acyclic(nodes)
    &&& forall|i: int|
        0 <= i < nodes.len() ==> (#[trigger] nodes[i]).children.len() == arity(nodes[i].op)
}

/// A well-formed graph is structured.
pub proof fn lemma_well_formed_structured(nodes: Seq<Vertex>)
    requires
        well_formed(nodes),
    ensures
        structured(nodes),
{
    lemma_well_formed_acyclic(nodes);
    assert forall|i: int| 0 <= i < nodes.len() implies (#[trigger] nodes[i]).children.len()
        == arity(nodes[i].op) by {
        assert(vertex_ok(nodes, i));
    }
}

/// `after` differs from `before` at most in the value and the gradient of its
/// vertices, and those kept their shapes.
pub open spec fn same_structure(before: Seq<Vertex>, after: Seq<Vertex>) -> bool {
    &&& after.len() == before.len()
    &&& forall|i: int|
        0 <= i < before.len() ==> {
            &&& (#[trigger] after[i]).children == before[i].children
            &&& after[i].op == before[i].op
            &&& after[i].name == before[i].name
            &&& after[i].value.same_shape(before[i].value)
            &&& after[i].grad.same_shape(before[i].grad)
            &&& after[i].value.storable()
            &&& after[i].grad.storable()
        }
}

/// A graph stays well formed when only values and gradients change and keep their shapes.
pub proof fn lemma_same_structure_well_formed(before: Seq<Vertex>, after: Seq<Vertex>)
    requires
        well_formed(before),
        same_structure(before, after),
    ensures
        well_formed(after),
{
    assert forall|i: int| 0 <= i < after.len() implies #[trigger] vertex_ok(after, i) by {
        assert(vertex_ok(before, i));
        let c = before[i].children;
        assert(after[i].children == c);
        if c.len() >= 1 {
            assert(c[0] < i);
            assert(after[c[0] as int].value.same_shape(before[c[0] as int].value));
        }
        if c.len() >= 2 {
            assert(c[1] < i);
            assert(after[c[1] as int].value.same_shape(before[c[1] as int].value));
        }
    }
}

/// A well-formed graph stays so when a vertex that is sound in it is appended.
pub proof fn lemma_push_well_formed(nodes: Seq<Vertex>, v: Vertex)
    requires
        well_formed(nodes),
        vertex_ok(nodes.push(v), nodes.len() as int),
    ensures
        well_formed(nodes.push(v)),
{
    let grown = nodes.push(v);
    assert forall|i: int| 0 <= i < grown.len() implies #[trigger] vertex_ok(grown, i) by {
        if i < nodes.len() {
            assert(vertex_ok(nodes, i));
            let c = nodes[i].children;
            assert(grown[i] == nodes[i]);
            if c.len() >= 1 {
                assert(c[0] < i);
            }
            if c.len() >= 2 {
                assert(c[1] < i);
            }
        }
    }
}

/// `after` is `before` with vertices appended.
pub open spec fn grown_from(after: Seq<Vertex>, before: Seq<Vertex>) -> bool {
    &&& before.len() <= after.len()
    &&& forall|i: int| 0 <= i < before.len() ==> #[trigger] after[i] == before[i]
}

/// Vertex `i` is one of the vertices `ids`.
pub open spec fn listed(ids: Seq<usize>, i: int) -> bool {
    exists|t: int| 0 <= t < ids.len() && #[trigger] ids[t] == i
}

/// The vertex that vertex `i` becomes when the gradients of the vertices `ids` are reset.
pub open spec fn reset_vertex(nodes: Seq<Vertex>, ids: Seq<usize>, i: int) -> Vertex {
    if listed(ids, i) {
        Vertex { grad: Grid::zeros(nodes[i].value.rows, nodes[i].value.cols), ..nodes[i] }
    } else {
        nodes[i]
    }
}

/// The graph once the gradients of the vertices `ids` have been reset to zero.
pub open spec fn with_grads_reset(nodes: Seq<Vertex>, ids: Seq<usize>) -> Seq<Vertex> {
    Seq::new(nodes.len(), |i: int| reset_vertex(nodes, ids, i))
}

struct Node {
    value: Matrix,
    grad: Matrix,
    children: Vec<usize>,
    op: Op,
    name: String,
}

impl View for Node {
    type V = Vertex;

    closed spec fn view(&self) -> Vertex {
        Vertex {
            value: self.value@,
            grad: self.grad@,
            children: self.children@,
            op: self.op,
            name: self.name@,
        }
    }
}

/// A computation graph: an arena of vertices, each known by its index, and the
/// arithmetic kernel that computes on their matrices.
///
/// A vertex is created from vertices that already exist, so an index is always
/// larger than the indices of the vertex's children. Two vertices are the same
/// exactly when their indices are equal, whatever they hold.
pub struct Autograd<K: Fn(Primitive, &Matrix, &Matrix) -> Matrix> {
    kernel: K,
    nodes: Vec<Node>,
}

impl<K: Fn(Primitive, &Matrix, &Matrix) -> Matrix> Autograd<K> {
    /// The vertices of the graph, by index.
    pub closed spec fn view(&self) -> Seq<Vertex> {
        Seq::new(self.nodes@.len(), |i: int| self.nodes@[i]@)
    }

    /// The kernel the graph was built with.
    pub closed spec fn kernel(&self) -> K {
        self.kernel
    }

    /// The function that the graph's kernel computes.
    pub open spec fn arithmetic(&self) -> Arithmetic {
        arithmetic(self.kernel())
    }

    /// The graph is well formed and its kernel is lawful.
    pub open spec fn wf(&self) -> bool {
        lawful(self.kernel()) && well_formed(self@)
    }

    /// An empty graph over the given kernel.
    pub fn new(kernel: K) -> (r: Self)
        requires
            lawful(kernel),
        ensures
            r.wf(),
            r.kernel() == kernel,
            r@ == Seq::<Vertex>::empty(),
    {
        let r = Autograd { kernel, nodes: Vec::new() };
        assert(r@ =~= Seq::<Vertex>::empty());
        r
    }

    /// The number of vertices.
    pub fn len(&self) -> (r: usize)
        ensures
            r == self@.len(),
    {
        self.nodes.len()
    }

    /// Releases every vertex from index `len` on. The vertices before it are
    /// kept as they are; none of them can have a released vertex for a child.
    pub fn truncate(&mut self, len: usize)
        requires
            old(self).wf(),
            len <= old(self)@.len(),
        ensures
            final(self).wf(),
            final(self).kernel() == old(self).kernel(),
            final(self)@ == old(self)@.take(len as int),
    {
        self.nodes.truncate(len);
        proof {
            let kept = old(self)@.take(len as int);
            assert(self@ =~= kept);
            assert forall|i: int| 0 <= i < kept.len() implies #[trigger] vertex_ok(kept, i) by {
                assert(vertex_ok(old(self)@, i));
                let c = old(self)@[i].children;
                if c.len() >= 1 {
                    assert(c[0] < i);
                }
                if c.len() >= 2 {
                    assert(c[1] < i);
                }
            }
        }
    }

    /// Appends a fresh vertex and returns its index.
    pub(crate) fn attach(&mut self, op: Op, children: Vec<usize>, value: Matrix) -> (id: usize)
        requires
            old(self).wf(),
            vertex_ok(
                old(self)@.push(Vertex::fresh(op, children@, value@)),
                old(self)@.len() as int,
            ),
        ensures
            final(self).wf(),
            final(self).kernel() == old(self).kernel(),
            id == old(self)@.len(),
            final(self)@ == old(self)@.push(Vertex::fresh(op, children@, value@)),
    {
        let id = self.nodes.len();
        let grad = Matrix::zeros(value.rows(), value.cols());
        let node = Node { value, grad, children, op, name: String::new() };
        proof {
            lemma_push_well_formed(self@, node@);
        }
        self.nodes.push(node);
        assert(self@ =~= old(self)@.push(node@));
        id
    }

    /// Creates an input vertex that holds `value` and returns its index.
    pub fn leaf(&mut self, value: Matrix) -> (id: usize)
        requires
            old(self).wf(),
            value.wf(),
        ensures
            final(self).wf(),
            final(self).kernel() == old(self).kernel(),
            id == old(self)@.len(),
            final(self)@ == old(self)@.push(Vertex::leaf(value@)),
            grown_from(final(self)@, old(self)@),
    {
        self.attach(Op::Leaf, Vec::new(), value)
    }

    /// A copy of the value of vertex `id`.
    pub fn value(&self, id: usize) -> (r: Matrix)
        requires
            id < self@.len(),
        ensures
            r@ == self@[id as int].value,
    {
        self.nodes[id].value.clone()
    }

    /// A copy of the gradient of vertex `id`.
    pub fn grad(&self, id: usize) -> (r: Matrix)
        requires
            id < self@.len(),
        ensures
            r@ == self@[id as int].grad,
    {
        self.nodes[id].grad.clone()
    }

    /// The numbers of rows and of columns of vertex `id`.
    pub fn shape(&self, id: usize) -> (r: (usize, usize))
        requires
            id < self@.len(),
        ensures
            r.0 == self@[id as int].value.rows,
            r.1 == self@[id as int].value.cols,
    {
        (self.nodes[id].value.rows(), self.nodes[id].value.cols())
    }

    /// The value of vertex `id`, borrowed.
    pub(crate) fn value_ref(&self, id: usize) -> (r: &Matrix)
        requires
            id < self@.len(),
        ensures
            r@ == self@[id as int].value,
    {
        &self.nodes[id].value
    }

    /// The gradient of vertex `id`, borrowed.
    pub(crate) fn grad_ref(&self, id: usize) -> (r: &Matrix)
        requires
            id < self@.len(),
        ensures
            r@ == self@[id as int].grad,
    {
        &self.nodes[id].grad
    }

    /// Replaces the value of vertex `id` by a matrix of the same shape.
    pub fn set_value(&mut self, id: usize, value: Matrix)
        requires
            old(self).wf(),
            id < old(self)@.len(),
            value.wf(),
            value@.same_shape(old(self)@[id as int].value),
        ensures
            final(self).wf(),
            final(self).kernel() == old(self).kernel(),
            final(self)@ == old(self)@.update(
                id as int,
                (Vertex { value: value@, ..old(self)@[id as int] }),
            ),
    {
        proof {
            assert(vertex_ok(self@, id as int));
        }
        self.nodes[id].value = value;
        proof {
            let after = old(self)@.update(
                id as int,
                (Vertex { value: value@, ..old(self)@[id as int] }),
            );
            assert(self@ =~= after);
            assert forall|i: int| 0 <= i < after.len() implies (#[trigger] after[i]).value.storable()
                && after[i].grad.storable() by {
                assert(vertex_ok(old(self)@, i));
            }
            lemma_same_structure_well_formed(old(self)@, after);
        }
    }

    /// Replaces the gradient of vertex `id` by a matrix of the same shape.
    pub fn set_grad(&mut self, id: usize, grad: Matrix)
        requires
            old(self).wf(),
            id < old(self)@.len(),
            grad.wf(),
            grad@.same_shape(old(self)@[id as int].value),
        ensures
            final(self).wf(),
            final(self).kernel() == old(self).kernel(),
            final(self)@ == old(self)@.update(
                id as int,
                (Vertex { grad: grad@, ..old(self)@[id as int] }),
            ),
    {
        proof {
            assert(vertex_ok(self@, id as int));
        }
        self.nodes[id].grad = grad;
        proof {
            let after = old(self)@.update(
                id as int,
                (Vertex { grad: grad@, ..old(self)@[id as int] }),
            );
            assert(self@ =~= after);
            assert forall|i: int| 0 <= i < after.len() implies (#[trigger] after[i]).value.storable()
                && after[i].grad.storable() by {
                assert(vertex_ok(old(self)@, i));
            }
            lemma_same_structure_well_formed(old(self)@, after);
        }
    }

    /// Resets the gradient of vertex `id` to the zero matrix of its value's shape.
    pub fn zero_grad(&mut self, id: usize)
        requires
            old(self).wf(),
            id < old(self)@.len(),
        ensures
            final(self).wf(),
            final(self).kernel() == old(self).kernel(),
            final(self)@ == old(self)@.update(
                id as int,
                (Vertex {
                    grad: Grid::zeros(
                        old(self)@[id as int].value.rows,
                        old(self)@[id as int].value.cols,
                    ),
                    ..old(self)@[id as int]
                }),
            ),
    {
        proof {
            assert(vertex_ok(self@, id as int));
        }
        let rows = self.nodes[id].value.rows();
        let cols = self.nodes[id].value.cols();
        self.set_grad(id, Matrix::zeros(rows, cols));
    }

    /// Resets to zero the gradient of each of the vertices `ids`.
    pub fn zero_grads(&mut self, ids: &Vec<usize>)
        requires
            old(self).wf(),
            forall|t: int| 0 <= t < ids@.len() ==> (#[trigger] ids@[t]) < old(self)@.len(),
        ensures
            final(self).wf(),
            final(self).kernel() == old(self).kernel(),
            final(self)@ == with_grads_reset(old(self)@, ids@),
    {
        let mut t: usize = 0;
        while t < ids.len()
            invariant
                self.wf(),
                self.kernel() == old(self).kernel(),
                t <= ids@.len(),
                forall|t: int| 0 <= t < ids@.len() ==> (#[trigger] ids@[t]) < old(self)@.len(),
                self@ == with_grads_reset(old(self)@, ids@.take(t as int)),
            decreases ids@.len() - t,
        {
            let ghost before = self@;
            let ghost done = ids@.take(t as int);
            self.zero_grad(ids[t]);
            proof {
                let next = ids@.take(t + 1);
                assert forall|i: int| 0 <= i < self@.len() implies self@[i] == reset_vertex(
                    old(self)@,
                    next,
                    i,
                ) by {
                    assert(before[i] == reset_vertex(old(self)@, done, i));
                    if i == ids@[t as int] {
                        assert(next[t as int] == i);
                    } else {
                        if listed(done, i) {
                            let u = choose|u: int| 0 <= u < done.len() && #[trigger] done[u] == i;
                            assert(next[u] == i);
                        }
                        if listed(next, i) {
                            let u = choose|u: int| 0 <= u < next.len() && #[trigger] next[u] == i;
                            assert(u < t);
                            assert(done[u] == i);
                        }
                    }
                }
                assert(self@ =~= with_grads_reset(old(self)@, next));
            }
            t += 1;
        }
        proof {
            assert(ids@.take(ids@.len() as int) =~= ids@);
        }
    }

    /// Labels vertex `id`.
    pub fn set_name(&mut self, id: usize, name: &str)
        requires
            old(self).wf(),
            id < old(self)@.len(),
        ensures
            final(self).wf(),
            final(self).kernel() == old(self).kernel(),
            final(self)@ == old(self)@.update(
                id as int,
                (Vertex { name: name@, ..old(self)@[id as int] }),
            ),
    {
        proof {
            assert(vertex_ok(self@, id as int));
        }
        self.nodes[id].name = name.to_owned();
        proof {
            let after = old(self)@.update(
                id as int,
                (Vertex { name: name@, ..old(self)@[id as int] }),
            );
            assert(self@ =~= after);
            assert forall|i: int| 0 <= i < after.len() implies #[trigger] vertex_ok(after, i) by {
                assert(vertex_ok(old(self)@, i));
                let c = old(self)@[i].children;
                if c.len() >= 1 {
                    assert(c[0] < i);
                }
                if c.len() >= 2 {
                    assert(c[1] < i);
                }
            }
        }
    }

    /// The label of vertex `id`.
    pub fn name(&self, id: usize) -> (r: String)
        requires
            id < self@.len(),
        ensures
            r@ == self@[id as int].name,
    {
        self.nodes[id].name.clone()
    }

    /// The children of vertex `id`, in operand order.
    pub fn children(&self, id: usize) -> (r: Vec<usize>)
        requires
            id < self@.len(),
        ensures
            r@ == self@[id as int].children,
    {
        let r = self.nodes[id].children.clone();
        assert(r@ =~= self.nodes[id as int].children@);
        r
    }

    /// The number of children of vertex `id`.
    pub fn child_count(&self, id: usize) -> (r: usize)
        requires
            id < self@.len(),
        ensures
            r == self@[id as int].children.len(),
    {
        self.nodes[id].children.len()
    }

    /// The child of vertex `id` in operand position `slot`.
    pub fn child(&self, id: usize, slot: usize) -> (r: usize)
        requires
            id < self@.len(),
            slot < self@[id as int].children.len(),
        ensures
            r == self@[id as int].children[slot as int],
    {
        self.nodes[id].children[slot]
    }

    /// The operation that derived vertex `id`.
    pub fn kind(&self, id: usize) -> (r: Op)
        requires
            id < self@.len(),
        ensures
            r == self@[id as int].op,
    {
        self.nodes[id].op
    }

    /// The name of the operation that derived vertex `id`.
    pub fn op(&self, id: usize) -> (r: String)
        requires
            id < self@.len(),
        ensures
            r@ == op_name(self@[id as int].op),
    {
        match self.nodes[id].op {
            Op::Add => "Add".to_owned(),
            Op::Sub => "Sub".to_owned(),
            Op::Neg => "Neg".to_owned(),
            Op::Mul => "Mul".to_owned(),
            Op::Div => "Div".to_owned(),
            Op::Pow => "Pow".to_owned(),
            Op::Log => "Log".to_owned(),
            Op::Exp => "Exp".to_owned(),
            Op::Tanh => "Tanh".to_owned(),
            Op::ReLU => "ReLU".to_owned(),
            Op::Leaf => "Leaf".to_owned(),
        }
    }

    /// Asks the graph's kernel for one operation on matrices of the caller.
    pub fn compute(&self, p: Primitive, x: &Matrix, y: &Matrix) -> (r: Matrix)
        requires
            self.wf(),
            fits(p, x@, y@),
        ensures
            r.wf(),
            r@.rows == result_rows(p, x@, y@),
            r@.cols == result_cols(p, x@, y@),
            r@ == self.arithmetic()(p, x@, y@),
    {
        apply(&self.kernel, p, x, y)
    }
}

} // verus!
