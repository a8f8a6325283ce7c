use vstd::prelude::*;
use crate::autograd::arity;
use crate::autograd::structured;
use crate::autograd::Op;
use crate::autograd::Vertex;
use crate::backward::accumulate;
use crate::backward::backpropagated;
use crate::backward::contribution;
use crate::backward::fan_in;
use crate::backward::propagate;
use crate::backward::sweep;
use crate::kernel::Arithmetic;
use crate::kernel::Primitive;
use crate::matrix::Grid;
use crate::topo::children_first;
use crate::topo::lemma_topo_order;
use crate::topo::listed_before;
use crate::topo::reaches;
use crate::topo::topo_order;

verus! {

/// `after` is `before` but for the gradients.
pub open spec fn same_skeleton(before: Seq<Vertex>, after: Seq<Vertex>) -> bool {
    &&& after.len() == before.len()
    &&& forall|i: int|
        0 <= i < before.len() ==> {
            &&& (#[trigger] after[i]).value == before[i].value
            &&& after[i].children == before[i].children
            &&& after[i].op == before[i].op
            &&& after[i].name == before[i].name
        }
}

/// Vertex `w` is a child of vertex `v`.
pub open spec fn is_child(nodes: Seq<Vertex>, v: int, w: usize) -> bool {
    exists|s: int| 0 <= s < nodes[v].children.len() && #[trigger] nodes[v].children[s] == w
}

/// Being structured depends on child lists and operations only.
pub proof fn lemma_skeleton_structured(before: Seq<Vertex>, after: Seq<Vertex>)
    requires
        structured(before),
        same_skeleton(before, after),
    ensures
        structured(after),
{
    assert forall|i: int, s: int|
        0 <= i < after.len() && 0 <= s < after[i].children.len() implies (
    #[trigger] after[i].children[s]) < i by {
        assert(after[i].children == before[i].children);
        assert(before[i].children[s] < i);
    }
    assert forall|i: int| 0 <= i < after.len() implies (#[trigger] after[i]).children.len()
        == arity(after[i].op) by {
        assert(before[i].children.len() == arity(before[i].op));
    }
}

/// A vertex that propagates changes nothing but gradients.
pub proof fn lemma_propagate_skeleton(ar: Arithmetic, nodes: Seq<Vertex>, v: int)
    requires
        structured(nodes),
        0 <= v < nodes.len(),
    ensures
        same_skeleton(nodes, propagate(ar, nodes, v)),
{
    let c = nodes[v].children;
    assert(c.len() == arity(nodes[v].op));
    if fan_in(nodes[v].op) >= 1 {
        assert(c[0] < v);
        let first = accumulate(ar, nodes, c[0] as int, contribution(ar, nodes, v, 0));
        assert(same_skeleton(nodes, first));
        if fan_in(nodes[v].op) >= 2 {
            assert(c[1] < v);
            let second = accumulate(ar, first, c[1] as int, contribution(ar, nodes, v, 1));
            assert(same_skeleton(first, second));
        }
    }
}

/// A vertex that propagates changes the gradients of its children only.
pub proof fn lemma_propagate_elsewhere(ar: Arithmetic, nodes: Seq<Vertex>, v: int, w: usize)
    requires
        structured(nodes),
        0 <= v < nodes.len(),
        w < nodes.len(),
        !is_child(nodes, v, w),
    ensures
        propagate(ar, nodes, v)[w as int] == nodes[w as int],
{
    let c = nodes[v].children;
    assert(c.len() == arity(nodes[v].op));
    if fan_in(nodes[v].op) >= 1 {
        assert(c[0] < v && c[0] != w);
    }
    if fan_in(nodes[v].op) >= 2 {
        assert(c[1] < v && c[1] != w);
    }
}

/// A sweep changes nothing but gradients.
pub proof fn lemma_sweep_skeleton(ar: Arithmetic, nodes: Seq<Vertex>, order: Seq<usize>, from: int)
    requires
        structured(nodes),
        forall|t: int| 0 <= t < order.len() ==> (#[trigger] order[t]) < nodes.len(),
    ensures
        same_skeleton(nodes, sweep(ar, nodes, order, from)),
    decreases order.len() - from,
{
    if 0 <= from < order.len() {
        lemma_sweep_skeleton(ar, nodes, order, from + 1);
        let mid = sweep(ar, nodes, order, from + 1);
        lemma_skeleton_structured(nodes, mid);
        lemma_propagate_skeleton(ar, mid, order[from] as int);
    }
}

/// The vertices `order[from..to]` leave alone the gradient of a vertex that is
/// the child of none of them.
pub proof fn lemma_sweep_elsewhere(
    ar: Arithmetic,
    nodes: Seq<Vertex>,
    order: Seq<usize>,
    from: int,
    to: int,
    w: usize,
)
    requires
        structured(nodes),
        forall|t: int| 0 <= t < order.len() ==> (#[trigger] order[t]) < nodes.len(),
        0 <= from <= to <= order.len(),
        w < nodes.len(),
        forall|t: int| from <= t < to ==> !is_child(nodes, #[trigger] order[t] as int, w),
    ensures
        sweep(ar, nodes, order, from)[w as int] == sweep(ar, nodes, order, to)[w as int],
    decreases to - from,
{
    if from < to {
        lemma_sweep_elsewhere(ar, nodes, order, from + 1, to, w);
        let mid = sweep(ar, nodes, order, from + 1);
        lemma_sweep_skeleton(ar, nodes, order, from + 1);
        let v = order[from] as int;
        assert(!is_child(nodes, order[from] as int, w));
        assert(mid[v].children == nodes[v].children);
        assert(!is_child(mid, v, w)) by {
            if is_child(mid, v, w) {
                let s = choose|s: int|
                    0 <= s < mid[v].children.len() && #[trigger] mid[v].children[s] == w;
                assert(nodes[v].children[s] == w);
            }
        }
        lemma_skeleton_structured(nodes, mid);
        lemma_propagate_elsewhere(ar, mid, v, w);
    }
}

/// In a children-first order, a vertex is no child of itself nor of anything
/// listed before it.
pub proof fn lemma_no_child_later(nodes: Seq<Vertex>, order: Seq<usize>, i: int, t: int)
    requires
        children_first(nodes, order),
        0 <= t <= i < order.len(),
    ensures
        !is_child(nodes, order[t] as int, order[i]),
{
    if is_child(nodes, order[t] as int, order[i]) {
        let s = choose|s: int|
            0 <= s < nodes[order[t] as int].children.len() && #[trigger] nodes[order[t] as int].children[s]
                == order[i];
        assert(listed_before(order, t, nodes[order[t] as int].children[s]));
        let j = choose|j: int| 0 <= j < t && j < order.len() && order[j] == order[i];
        assert(j != i);
    }
}

/// The gradient that a vertex propagates is its final one. By the time the
/// backward pass reaches the vertex at position `i` of the linearization,
/// every vertex computed from it has contributed, and nothing adds to its
/// gradient afterwards.
pub proof fn lemma_gradient_settled(ar: Arithmetic, nodes: Seq<Vertex>, root: usize, i: int)
    requires
        structured(nodes),
        root < nodes.len(),
        0 <= i < topo_order(nodes, root).len(),
    ensures
        backpropagated(ar, nodes, root)[topo_order(nodes, root)[i] as int].grad == sweep(
            ar,
            nodes,
            topo_order(nodes, root),
            i + 1,
        )[topo_order(nodes, root)[i] as int].grad,
{
    let order = topo_order(nodes, root);
    lemma_topo_order(nodes, root);
    assert forall|t: int| 0 <= t < i + 1 implies !is_child(
        nodes,
        #[trigger] order[t] as int,
        order[i],
    ) by {
        lemma_no_child_later(nodes, order, i, t);
    }
    lemma_sweep_elsewhere(ar, nodes, order, 0, i + 1, order[i]);
}

/// A backward pass never writes the gradient of its root: the seed that the
/// caller put there is still there afterwards.
pub proof fn lemma_backward_keeps_seed(ar: Arithmetic, nodes: Seq<Vertex>, root: usize)
    requires
        structured(nodes),
        root < nodes.len(),
    ensures
        backpropagated(ar, nodes, root)[root as int].grad == nodes[root as int].grad,
{
    let order = topo_order(nodes, root);
    lemma_topo_order(nodes, root);
    lemma_gradient_settled(ar, nodes, root, order.len() - 1);
}

/// A backward pass changes only gradients, and only those of vertices that
/// the root reaches.
pub proof fn lemma_backward_confined(ar: Arithmetic, nodes: Seq<Vertex>, root: usize, w: usize)
    requires
        structured(nodes),
        root < nodes.len(),
        w < nodes.len(),
    ensures
        same_skeleton(nodes, backpropagated(ar, nodes, root)),
        !reaches(nodes, root, w) ==> backpropagated(ar, nodes, root)[w as int] == nodes[w as int],
{
    let order = topo_order(nodes, root);
    lemma_topo_order(nodes, root);
    lemma_sweep_skeleton(ar, nodes, order, 0);
    if !reaches(nodes, root, w) {
        assert forall|t: int| 0 <= t < order.len() implies !is_child(
            nodes,
            #[trigger] order[t] as int,
            w,
        ) by {
            if is_child(nodes, order[t] as int, w) {
                let s = choose|s: int|
                    0 <= s < nodes[order[t] as int].children.len()
                        && #[trigger] nodes[order[t] as int].children[s] == w;
                assert(listed_before(order, t, nodes[order[t] as int].children[s]));
                let j = choose|j: int| 0 <= j < t && j < order.len() && order[j] == w;
                assert(order.contains(w));
            }
        }
        lemma_sweep_elsewhere(ar, nodes, order, 0, order.len() as int, w);
    }
}

/// Every child of `root` is an input vertex.
pub open spec fn shallow(nodes: Seq<Vertex>, root: usize) -> bool {
    forall|s: int|
        0 <= s < nodes[root as int].children.len() ==> nodes[(
        #[trigger] nodes[root as int].children[s]) as int].op == Op::Leaf
}

/// In a graph whose root has only input vertices for children, a backward
/// pass is the root sending its contributions, and nothing else.
pub proof fn lemma_backward_shallow(ar: Arithmetic, nodes: Seq<Vertex>, root: usize)
    requires
        structured(nodes),
        root < nodes.len(),
        shallow(nodes, root),
    ensures
        backpropagated(ar, nodes, root) == propagate(ar, nodes, root as int),
{
    let order = topo_order(nodes, root);
    lemma_topo_order(nodes, root);
    let last = order.len() - 1;
    assert(sweep(ar, nodes, order, last + 1) == nodes);
    let after_root = sweep(ar, nodes, order, last);
    assert(after_root == propagate(ar, nodes, root as int));
    lemma_sweep_leaves(ar, nodes, order, root, 0);
}

/// Input vertices that propagate change nothing.
proof fn lemma_sweep_leaves(
    ar: Arithmetic,
    nodes: Seq<Vertex>,
    order: Seq<usize>,
    root: usize,
    from: int,
)
    requires
        structured(nodes),
        root < nodes.len(),
        shallow(nodes, root),
        order == topo_order(nodes, root),
        children_first(nodes, order),
        order.len() > 0,
        order.last() == root,
        forall|w: usize| order.contains(w) <==> reaches(nodes, root, w),
        0 <= from < order.len(),
    ensures
        sweep(ar, nodes, order, from) == sweep(ar, nodes, order, order.len() - 1),
    decreases order.len() - from,
{
    if from < order.len() - 1 {
        lemma_sweep_leaves(ar, nodes, order, root, from + 1);
        let mid = sweep(ar, nodes, order, from + 1);
        lemma_sweep_skeleton(ar, nodes, order, from + 1);
        let w = order[from];
        assert(order.contains(w));
        assert(w != root);
        assert(reaches(nodes, root, w));
        let s = choose|s: int|
            0 <= s < nodes[root as int].children.len() && (
            #[trigger] nodes[root as int].children[s]) < root && reaches(
                nodes,
                nodes[root as int].children[s],
                w,
            );
        let c = nodes[root as int].children[s];
        assert(nodes[c as int].op == Op::Leaf);
        // An input vertex has no children, so it reaches only itself.
        assert(nodes[w as int].op == Op::Leaf) by {
            assert(nodes[c as int].children.len() == arity(Op::Leaf));
            if c != w {
                let s2 = choose|s2: int|
                    0 <= s2 < nodes[c as int].children.len() && (
                    #[trigger] nodes[c as int].children[s2]) < c && reaches(
                        nodes,
                        nodes[c as int].children[s2],
                        w,
                    );
                assert(false);
            }
        }
        assert(mid[w as int].op == Op::Leaf);
        assert(mid[w as int].children.len() == arity(Op::Leaf));
    }
}

/// Backward twice doubles. Take a graph whose root has only input vertices for
/// children, and one of them, `c`, that is a child of the root in the single
/// position `slot` and whose gradient has been reset. If adding the root's
/// contribution to a zero gradient gives that contribution, then after two
/// backward passes with no reset in between the gradient of `c` is the sum of
/// its gradient after one pass with itself: contributions are added, never
/// written over.
pub proof fn lemma_backward_twice_doubles(
    ar: Arithmetic,
    nodes: Seq<Vertex>,
    root: usize,
    slot: int,
)
    requires
        structured(nodes),
        root < nodes.len(),
        shallow(nodes, root),
        0 <= slot < fan_in(nodes[root as int].op),
        fan_in(nodes[root as int].op) == 2 ==> nodes[root as int].children[0]
            != nodes[root as int].children[1],
        ({
            let c = nodes[root as int].children[slot] as int;
            let zero = Grid::zeros(nodes[c].value.rows, nodes[c].value.cols);
            let sent = contribution(ar, nodes, root as int, slot);
            nodes[c].grad == zero && ar(Primitive::Add, zero, sent) == sent
        }),
    ensures
        ({
            let c = nodes[root as int].children[slot] as int;
            let once = backpropagated(ar, nodes, root);
            let twice = backpropagated(ar, once, root);
            twice[c].grad == ar(Primitive::Add, once[c].grad, once[c].grad)
        }),
{
    let r = root as int;
    let c = nodes[r].children[slot] as int;
    let sent = contribution(ar, nodes, r, slot);
    let once = backpropagated(ar, nodes, root);
    lemma_backward_shallow(ar, nodes, root);
    lemma_propagate_skeleton(ar, nodes, r);
    assert(nodes[r].children.len() == arity(nodes[r].op));
    assert(nodes[r].children[0] < r);
    if fan_in(nodes[r].op) == 2 {
        assert(nodes[r].children[1] < r);
    }
    assert(once[c].grad == sent);
    assert(once[r] == nodes[r]);
    // The second pass walks the same vertices and sends the same contribution.
    lemma_skeleton_structured(nodes, once);
    assert(shallow(once, root)) by {
        assert forall|s: int| 0 <= s < once[r].children.len() implies once[(
        #[trigger] once[r].children[s]) as int].op == Op::Leaf by {
            assert(nodes[r].children[s] < r);
            assert(nodes[nodes[r].children[s] as int].op == Op::Leaf);
        }
    }
    lemma_backward_shallow(ar, once, root);
    assert(contribution(ar, once, r, slot) == sent);
}

/// What vertex `w` has received once vertex `v` has propagated, if it had
/// `acc` before: the contribution of `v` is added for each operand position in
/// which `w` is its child, in operand order. Contributions are those of `state`.
pub open spec fn received_from(
    ar: Arithmetic,
    state: Seq<Vertex>,
    v: int,
    w: usize,
    acc: Grid,
) -> Grid {
    let c = state[v].children;
    let n = fan_in(state[v].op);
    let first = if n >= 1 && c[0] == w {
        ar(Primitive::Add, acc, contribution(ar, state, v, 0))
    } else {
        acc
    };
    if n >= 2 && c[1] == w {
        ar(Primitive::Add, first, contribution(ar, state, v, 1))
    } else {
        first
    }
}

/// What vertex `w` has received once the vertices `order[from..]` have
/// propagated, last one first, if it had `start` before.
pub open spec fn received(
    ar: Arithmetic,
    state: Seq<Vertex>,
    order: Seq<usize>,
    w: usize,
    from: int,
    start: Grid,
) -> Grid
    decreases order.len() - from,
{
    if from < 0 || from >= order.len() {
        start
    } else {
        received_from(
            ar,
            state,
            order[from] as int,
            w,
            received(ar, state, order, w, from + 1, start),
        )
    }
}

/// The contribution of a vertex depends on its own gradient and on values only.
pub proof fn lemma_contribution_local(
    ar: Arithmetic,
    a: Seq<Vertex>,
    b: Seq<Vertex>,
    v: int,
    slot: int,
)
    requires
        structured(a),
        same_skeleton(a, b),
        0 <= v < a.len(),
        a[v].grad == b[v].grad,
    ensures
        contribution(ar, a, v, slot) == contribution(ar, b, v, slot),
{
    let c = a[v].children;
    assert(b[v].children == c);
    assert(c.len() == arity(a[v].op));
    if c.len() >= 1 {
        assert(c[0] < v);
        assert(b[c[0] as int].value == a[c[0] as int].value);
    }
    if c.len() >= 2 {
        assert(c[1] < v);
        assert(b[c[1] as int].value == a[c[1] as int].value);
    }
}

/// Two graphs that each differ from a third in gradients only differ from
/// each other in gradients only.
proof fn lemma_skeleton_between(a: Seq<Vertex>, b: Seq<Vertex>, c: Seq<Vertex>)
    requires
        same_skeleton(a, b),
        same_skeleton(a, c),
    ensures
        same_skeleton(b, c),
{
    assert forall|i: int| 0 <= i < b.len() implies {
        &&& (#[trigger] c[i]).value == b[i].value
        &&& c[i].children == b[i].children
        &&& c[i].op == b[i].op
        &&& c[i].name == b[i].name
    } by {
        assert(b[i].value == a[i].value);
        assert(c[i].value == a[i].value);
    }
}

/// The chain rule for the part of the pass from position `from` on.
proof fn lemma_chain_rule_from(
    ar: Arithmetic,
    nodes: Seq<Vertex>,
    root: usize,
    w: usize,
    from: int,
)
    requires
        structured(nodes),
        root < nodes.len(),
        w < nodes.len(),
        0 <= from <= topo_order(nodes, root).len(),
    ensures
        sweep(ar, nodes, topo_order(nodes, root), from)[w as int].grad == received(
            ar,
            backpropagated(ar, nodes, root),
            topo_order(nodes, root),
            w,
            from,
            nodes[w as int].grad,
        ),
    decreases topo_order(nodes, root).len() - from,
{
    let order = topo_order(nodes, root);
    let done = backpropagated(ar, nodes, root);
    lemma_topo_order(nodes, root);
    if from < order.len() {
        lemma_chain_rule_from(ar, nodes, root, w, from + 1);
        let mid = sweep(ar, nodes, order, from + 1);
        let v = order[from] as int;
        lemma_sweep_skeleton(ar, nodes, order, from + 1);
        lemma_sweep_skeleton(ar, nodes, order, 0);
        lemma_skeleton_structured(nodes, mid);
        lemma_skeleton_between(nodes, mid, done);
        lemma_gradient_settled(ar, nodes, root, from);
        lemma_contribution_local(ar, mid, done, v, 0);
        lemma_contribution_local(ar, mid, done, v, 1);
        let c = mid[v].children;
        assert(done[v].children == c);
        assert(done[v].op == mid[v].op);
        assert(c.len() == arity(mid[v].op));
        if fan_in(mid[v].op) >= 1 {
            assert(c[0] < v);
        }
        if fan_in(mid[v].op) >= 2 {
            assert(c[1] < v);
        }
        assert(sweep(ar, nodes, order, from) == propagate(ar, mid, v));
    }
}

/// The chain rule holds at every vertex after a backward pass. The gradient of
/// a vertex `w` is then what it was before, plus the contribution of each
/// vertex that the root reaches, for each operand position in which `w` is its
/// child; the vertices add in the order of the pass, and each contribution is
/// computed from the final gradient of the vertex that sends it. A vertex with
/// several parents thus holds the sum of what each of them sends.
pub proof fn lemma_chain_rule(ar: Arithmetic, nodes: Seq<Vertex>, root: usize, w: usize)
    requires
        structured(nodes),
        root < nodes.len(),
        w < nodes.len(),
    ensures
        backpropagated(ar, nodes, root)[w as int].grad == received(
            ar,
            backpropagated(ar, nodes, root),
            topo_order(nodes, root),
            w,
            0,
            nodes[w as int].grad,
        ),
{
    lemma_chain_rule_from(ar, nodes, root, w, 0);
}

} // verus!
