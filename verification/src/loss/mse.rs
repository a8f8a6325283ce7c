use vstd::prelude::*;
use crate::autograd::vertex_ok;
use crate::autograd::Autograd;
use crate::autograd::Op;
use crate::autograd::Vertex;
use crate::kernel::Arithmetic;
use crate::kernel::Primitive;
use crate::loss::Loss;
use crate::matrix::Grid;
use crate::matrix::Matrix;
use crate::autograd::grown_from;
use crate::ops::with_binary;
use crate::ops::with_leaf;
use crate::ops::with_pow;
use crate::scalar::count_word;
use crate::scalar::word_of_count;
use crate::scalar::EXACT_COUNTS;
use crate::scalar::ONE;
use crate::scalar::TWO;
use crate::scalar::ZERO;

verus! {

/// The mean squared error against the one-hot encoding of the target class.
pub struct MSE {}

/// The word that the one-hot encoding of `target_index` has in position `i`.
pub open spec fn one_hot(i: int, target_index: usize) -> u64 {
    if i == target_index {
        ONE
    } else {
        ZERO
    }
}

/// The graph once the squared errors of the first `k` predictions have been
/// summed. The newest vertex is the running total: it starts as a zero input
/// vertex, and each prediction appends its target, the difference, the exponent
/// two, the square and the new total.
pub open spec fn squared_errors(
    ar: Arithmetic,
    nodes: Seq<Vertex>,
    pred: Seq<usize>,
    target_index: usize,
    k: nat,
) -> Seq<Vertex>
    decreases k,
{
    if k == 0 {
        with_leaf(nodes, Grid::zeros(1, 1))
    } else {
        let g = squared_errors(ar, nodes, pred, target_index, (k - 1) as nat);
        let n = g.len();
        let total = (n - 1) as usize;
        let with_target = with_leaf(g, Grid::scalar(one_hot(k - 1, target_index)));
        let with_diff = with_binary(ar, with_target, Op::Sub, pred[k - 1], n as usize);
        let with_square = with_pow(ar, with_diff, (n + 1) as usize, TWO);
        with_binary(ar, with_square, Op::Add, total, (n + 3) as usize)
    }
}

/// The graph once the mean squared error has been added: the sum of the
/// squared errors, the number of predictions as an input vertex, and their
/// quotient.
pub open spec fn mean_squared_error(
    ar: Arithmetic,
    nodes: Seq<Vertex>,
    pred: Seq<usize>,
    target_index: usize,
) -> Seq<Vertex> {
    let g = squared_errors(ar, nodes, pred, target_index, pred.len());
    let n = g.len();
    let with_count = with_leaf(g, Grid::scalar(count_word(pred.len()) as u64));
    with_binary(ar, with_count, Op::Div, (n - 1) as usize, n as usize)
}

impl MSE {
    /// The mean squared error.
    pub fn new() -> (r: Self)
        ensures
            r == (MSE {  }),
    {
        Self {  }
    }
}

impl Loss for MSE {
    /// Every prediction is a vertex that holds a single number, and there are few
    /// enough of them for their count to be held exactly.
    open spec fn accepts(&self, nodes: Seq<Vertex>, pred: Seq<usize>, target_index: usize) -> bool {
        &&& pred.len() < EXACT_COUNTS
        &&& forall|i: int|
            0 <= i < pred.len() ==> (#[trigger] pred[i]) < nodes.len() && nodes[pred[i] as int].value.is_scalar()
    }

    open spec fn graph_after(
        &self,
        ar: Arithmetic,
        nodes: Seq<Vertex>,
        pred: Seq<usize>,
        target_index: usize,
    ) -> Seq<Vertex> {
        mean_squared_error(ar, nodes, pred, target_index)
    }

    fn forward<K: Fn(Primitive, &Matrix, &Matrix) -> Matrix>(
        &self,
        g: &mut Autograd<K>,
        pred: &Vec<usize>,
        target_index: usize,
    ) -> (id: usize)
        ensures
            final(g)@[id as int].value.is_scalar(),
    {
        let ghost ar = g.arithmetic();
        let mut total = g.leaf(Matrix::zeros(1, 1));
        let mut i: usize = 0;
        while i < pred.len()
            invariant
                g.wf(),
                g.kernel() == old(g).kernel(),
                ar == old(g).arithmetic(),
                i <= pred@.len(),
                self.accepts(old(g)@, pred@, target_index),
                grown_from(g@, old(g)@),
                g@ == squared_errors(ar, old(g)@, pred@, target_index, i as nat),
                total + 1 == g@.len(),
                g@[total as int].value.is_scalar(),
            decreases pred@.len() - i,
        {
            let p = pred[i];
            let target_val = if i == target_index {
                ONE
            } else {
                ZERO
            };
            let target = g.leaf(Matrix::scalar(target_val));
            let diff = g.sub(p, target);
            assert(vertex_ok(g@, diff as int));
            let square = g.pow(diff, TWO);
            assert(vertex_ok(g@, square as int));
            total = g.add(total, square);
            assert(vertex_ok(g@, total as int));
            i += 1;
        }
        let count = g.leaf(Matrix::scalar(word_of_count(pred.len() as u64)));
        g.div(total, count)
    }
}

} // verus!
