use vstd::prelude::*;
use crate::autograd::acyclic;
use crate::autograd::lemma_well_formed_acyclic;
use crate::autograd::well_formed;
use crate::autograd::Autograd;
use crate::autograd::Vertex;
use crate::kernel::Primitive;
use crate::matrix::Matrix;

verus! {

/// Vertex `w` can be reached from vertex `u` by following child links, none or
/// several: `w` is `u` itself or one of the vertices that `u` was computed from.
pub open spec fn reaches(nodes: Seq<Vertex>, u: usize, w: usize) -> bool
    decreases u,
{
    u == w || (u < nodes.len() && exists|s: int|
        0 <= s < nodes[u as int].children.len() && (#[trigger] nodes[u as int].children[s]) < u
            && reaches(nodes, nodes[u as int].children[s], w))
}

/// The depth-first walk from `v`, given the vertices `seen` so far: a vertex
/// already seen adds nothing; any other is appended once all its children have
/// been walked, in operand order.
pub open spec fn visit(nodes: Seq<Vertex>, v: usize, seen: Seq<usize>) -> Seq<usize>
    decreases v, 1nat, 0nat,
{
    if seen.contains(v) || v >= nodes.len() {
        seen
    } else {
        visit_children(nodes, v, nodes[v as int].children.len(), seen).push(v)
    }
}

/// The walk of the first `k` children of `v`, one after the other.
pub open spec fn visit_children(nodes: Seq<Vertex>, v: usize, k: nat, seen: Seq<usize>) -> Seq<
    usize,
>
    decreases v, 0nat, k,
{
    if k == 0 || v >= nodes.len() || k > nodes[v as int].children.len() {
        seen
    } else {
        let before = visit_children(nodes, v, (k - 1) as nat, seen);
        let c = nodes[v as int].children[k - 1];
        if c < v {
            visit(nodes, c, before)
        } else {
            before
        }
    }
}

/// The linearization of everything reachable from `root`: the depth-first
/// post-order, each vertex listed once.
pub open spec fn topo_order(nodes: Seq<Vertex>, root: usize) -> Seq<usize> {
    visit(nodes, root, Seq::empty())
}

/// Vertex `w` is listed in `order` at a position before `i`.
pub open spec fn listed_before(order: Seq<usize>, i: int, w: usize) -> bool {
    exists|j: int| 0 <= j < i && j < order.len() && order[j] == w
}

/// A sequence of vertices in which nothing occurs twice and every child of a
/// listed vertex is listed before it.
pub open spec fn children_first(nodes: Seq<Vertex>, order: Seq<usize>) -> bool {
    &&& order.no_duplicates()
    &&& forall|i: int| 0 <= i < order.len() ==> (#[trigger] order[i]) < nodes.len()
    &&& forall|i: int, s: int|
        0 <= i < order.len() && 0 <= s < nodes[order[i] as int].children.len() ==> listed_before(
            order,
            i,
            #[trigger] nodes[order[i] as int].children[s],
        )
}

/// `longer` starts with `shorter`.
pub open spec fn extends(longer: Seq<usize>, shorter: Seq<usize>) -> bool {
    shorter.len() <= longer.len() && longer.subrange(0, shorter.len() as int) == shorter
}

/// A vertex reaches only itself and vertices created before it.
pub proof fn lemma_reaches_below(nodes: Seq<Vertex>, u: usize, w: usize)
    requires
        reaches(nodes, u, w),
    ensures
        w <= u,
    decreases u,
{
    if u != w {
        let s = choose|s: int|
            0 <= s < nodes[u as int].children.len() && (#[trigger] nodes[u as int].children[s]) < u
                && reaches(nodes, nodes[u as int].children[s], w);
        lemma_reaches_below(nodes, nodes[u as int].children[s], w);
    }
}

/// Reaching a child is reaching whatever the child reaches.
pub proof fn lemma_reaches_through_child(nodes: Seq<Vertex>, u: usize, s: int, w: usize)
    requires
        acyclic(nodes),
        u < nodes.len(),
        0 <= s < nodes[u as int].children.len(),
        reaches(nodes, nodes[u as int].children[s], w),
    ensures
        reaches(nodes, u, w),
{
    assert(nodes[u as int].children[s] < u);
}

/// Reachability is transitive.
pub proof fn lemma_reaches_transitive(nodes: Seq<Vertex>, a: usize, b: usize, c: usize)
    requires
        reaches(nodes, a, b),
        reaches(nodes, b, c),
    ensures
        reaches(nodes, a, c),
    decreases a,
{
    if a != b {
        let s = choose|s: int|
            0 <= s < nodes[a as int].children.len() && (#[trigger] nodes[a as int].children[s]) < a
                && reaches(nodes, nodes[a as int].children[s], b);
        lemma_reaches_transitive(nodes, nodes[a as int].children[s], b, c);
    }
}

/// In a children-first sequence, whatever a listed vertex reaches is listed
/// too, and strictly earlier unless it is that vertex itself.
pub proof fn lemma_children_first_closed(nodes: Seq<Vertex>, order: Seq<usize>, i: int, w: usize)
    requires
        children_first(nodes, order),
        0 <= i < order.len(),
        reaches(nodes, order[i], w),
    ensures
        exists|j: int| 0 <= j <= i && order[j] == w && (w != order[i] ==> j < i),
    decreases order[i],
{
    let u = order[i];
    if u == w {
        assert(order[i] == w);
    } else {
        let s = choose|s: int|
            0 <= s < nodes[u as int].children.len() && (#[trigger] nodes[u as int].children[s]) < u
                && reaches(nodes, nodes[u as int].children[s], w);
        let c = nodes[u as int].children[s];
        assert(listed_before(order, i, nodes[order[i] as int].children[s]));
        let jc = choose|j: int| 0 <= j < i && j < order.len() && order[j] == c;
        lemma_children_first_closed(nodes, order, jc, w);
        let j = choose|j: int| 0 <= j <= jc && order[j] == w && (w != order[jc] ==> j < jc);
        assert(0 <= j <= i && order[j] == w && j < i);
    }
}

/// One of the first `k` children of `v` reaches `w`.
pub open spec fn reached_by_child(nodes: Seq<Vertex>, v: usize, k: nat, w: usize) -> bool {
    exists|s: int| 0 <= s < k && reaches(nodes, #[trigger] nodes[v as int].children[s], w)
}

/// What one walk adds to a children-first sequence.
pub open spec fn walk_result(
    nodes: Seq<Vertex>,
    v: usize,
    seen: Seq<usize>,
    out: Seq<usize>,
) -> bool {
    &&& children_first(nodes, out)
    &&& extends(out, seen)
    &&& forall|i: int| seen.len() <= i < out.len() ==> reaches(nodes, v, #[trigger] out[i])
}

/// The walk from `v` keeps a sequence children-first, only appends to it, and
/// appends only what `v` reaches; afterwards `v` is listed, and it is the last
/// entry if it was not listed before.
pub proof fn lemma_visit(nodes: Seq<Vertex>, v: usize, seen: Seq<usize>)
    requires
        acyclic(nodes),
        children_first(nodes, seen),
        v < nodes.len(),
    ensures
        walk_result(nodes, v, seen, visit(nodes, v, seen)),
        visit(nodes, v, seen).contains(v),
        !seen.contains(v) ==> visit(nodes, v, seen).last() == v && visit(nodes, v, seen).len()
            > seen.len(),
    decreases v, 1nat, 0nat,
{
    let out = visit(nodes, v, seen);
    if seen.contains(v) {
        assert(out.subrange(0, seen.len() as int) =~= seen);
    } else {
        let k = nodes[v as int].children.len();
        let mid = visit_children(nodes, v, k, seen);
        lemma_visit_children(nodes, v, k, seen);
        assert(out == mid.push(v));
        // `v` is new: everything appended so far lies strictly below it.
        assert(!mid.contains(v)) by {
            if mid.contains(v) {
                let i = choose|i: int| 0 <= i < mid.len() && mid[i] == v;
                if i < seen.len() {
                    assert(mid.subrange(0, seen.len() as int)[i] == mid[i]);
                    assert(seen[i] == v);
                    assert(false);
                } else {
                    assert(reached_by_child(nodes, v, k, mid[i]));
                    let s = choose|s: int|
                        0 <= s < k && reaches(nodes, #[trigger] nodes[v as int].children[s], mid[i]);
                    lemma_reaches_below(nodes, nodes[v as int].children[s], v);
                    assert(nodes[v as int].children[s] < v);
                    assert(false);
                }
            }
        }
        assert(out.no_duplicates()) by {
            assert forall|i: int, j: int|
                0 <= i < out.len() && 0 <= j < out.len() && i != j implies out[i] != out[j] by {
                if i < mid.len() && j < mid.len() {
                    assert(out[i] == mid[i] && out[j] == mid[j]);
                } else if i < mid.len() {
                    assert(mid.contains(mid[i]));
                } else {
                    assert(mid.contains(mid[j]));
                }
            }
        }
        assert forall|i: int| 0 <= i < out.len() implies (#[trigger] out[i]) < nodes.len() by {
            if i < mid.len() {
                assert(out[i] == mid[i]);
            }
        }
        assert forall|i: int, s: int|
            0 <= i < out.len() && 0 <= s < nodes[out[i] as int].children.len() implies listed_before(
            out,
            i,
            #[trigger] nodes[out[i] as int].children[s],
        ) by {
            let c = nodes[out[i] as int].children[s];
            if i < mid.len() {
                assert(out[i] == mid[i]);
                assert(listed_before(mid, i, nodes[mid[i] as int].children[s]));
                let j = choose|j: int| 0 <= j < i && j < mid.len() && mid[j] == c;
                assert(out[j] == mid[j]);
            } else {
                assert(out[i] == v);
                assert(mid.contains(nodes[v as int].children[s]));
                let j = choose|j: int| 0 <= j < mid.len() && mid[j] == c;
                assert(out[j] == mid[j]);
            }
        }
        assert(out.subrange(0, seen.len() as int) =~= seen) by {
            assert(mid.subrange(0, seen.len() as int) == seen);
            assert forall|i: int| 0 <= i < seen.len() implies out.subrange(
                0,
                seen.len() as int,
            )[i] == seen[i] by {
                assert(mid.subrange(0, seen.len() as int)[i] == mid[i]);
            }
        }
        assert forall|i: int| seen.len() <= i < out.len() implies reaches(
            nodes,
            v,
            #[trigger] out[i],
        ) by {
            if i < mid.len() {
                assert(out[i] == mid[i]);
                assert(reached_by_child(nodes, v, k, mid[i]));
                let s = choose|s: int|
                    0 <= s < k && reaches(nodes, #[trigger] nodes[v as int].children[s], mid[i]);
                lemma_reaches_through_child(nodes, v, s, mid[i]);
            }
        }
        assert(out[out.len() - 1] == v);
    }
}

/// The walk of the first `k` children of `v` keeps a sequence children-first,
/// only appends to it, lists each of those children, and appends only what one
/// of them reaches.
pub proof fn lemma_visit_children(nodes: Seq<Vertex>, v: usize, k: nat, seen: Seq<usize>)
    requires
        acyclic(nodes),
        children_first(nodes, seen),
        v < nodes.len(),
        k <= nodes[v as int].children.len(),
    ensures
        children_first(nodes, visit_children(nodes, v, k, seen)),
        extends(visit_children(nodes, v, k, seen), seen),
        forall|s: int|
            0 <= s < k ==> visit_children(nodes, v, k, seen).contains(
                #[trigger] nodes[v as int].children[s],
            ),
        forall|i: int|
            seen.len() <= i < visit_children(nodes, v, k, seen).len() ==> reached_by_child(
                nodes,
                v,
                k,
                #[trigger] visit_children(nodes, v, k, seen)[i],
            ),
    decreases v, 0nat, k,
{
    let out = visit_children(nodes, v, k, seen);
    if k == 0 {
        assert(out.subrange(0, seen.len() as int) =~= seen);
    } else {
        let before = visit_children(nodes, v, (k - 1) as nat, seen);
        let c = nodes[v as int].children[k - 1];
        lemma_visit_children(nodes, v, (k - 1) as nat, seen);
        assert(c < v);
        lemma_visit(nodes, c, before);
        assert(out == visit(nodes, c, before));
        assert(out.subrange(0, seen.len() as int) =~= seen) by {
            assert(out.subrange(0, before.len() as int) == before);
            assert(before.subrange(0, seen.len() as int) == seen);
            assert forall|i: int| 0 <= i < seen.len() implies out.subrange(
                0,
                seen.len() as int,
            )[i] == seen[i] by {
                assert(out.subrange(0, before.len() as int)[i] == out[i]);
                assert(before.subrange(0, seen.len() as int)[i] == before[i]);
            }
        }
        assert forall|s: int| 0 <= s < k implies out.contains(
            #[trigger] nodes[v as int].children[s],
        ) by {
            if s < k - 1 {
                let w = nodes[v as int].children[s];
                assert(before.contains(w));
                let i = choose|i: int| 0 <= i < before.len() && before[i] == w;
                assert(out.subrange(0, before.len() as int)[i] == out[i]);
                assert(out[i] == w);
            }
        }
        assert forall|i: int| seen.len() <= i < out.len() implies reached_by_child(
            nodes,
            v,
            k,
            #[trigger] out[i],
        ) by {
            if i < before.len() {
                assert(out.subrange(0, before.len() as int)[i] == out[i]);
                assert(reached_by_child(nodes, v, (k - 1) as nat, before[i]));
                let s = choose|s: int|
                    0 <= s < k - 1 && reaches(
                        nodes,
                        #[trigger] nodes[v as int].children[s],
                        before[i],
                    );
                assert(0 <= s < k && reaches(nodes, nodes[v as int].children[s], out[i]));
            } else {
                assert(reaches(nodes, c, out[i]));
                assert(0 <= k - 1 < k && reaches(nodes, nodes[v as int].children[k - 1], out[i]));
            }
        }
    }
}

/// The linearization lists exactly what the root reaches, each vertex once and
/// after all its children, with the root last.
pub proof fn lemma_topo_order(nodes: Seq<Vertex>, root: usize)
    requires
        acyclic(nodes),
        root < nodes.len(),
    ensures
        children_first(nodes, topo_order(nodes, root)),
        topo_order(nodes, root).len() > 0,
        topo_order(nodes, root).last() == root,
        forall|w: usize| topo_order(nodes, root).contains(w) <==> reaches(nodes, root, w),
{
    let empty = Seq::<usize>::empty();
    let order = topo_order(nodes, root);
    lemma_visit(nodes, root, empty);
    assert forall|w: usize| order.contains(w) <==> reaches(nodes, root, w) by {
        if order.contains(w) {
            let i = choose|i: int| 0 <= i < order.len() && order[i] == w;
            assert(reaches(nodes, root, order[i]));
        }
        if reaches(nodes, root, w) {
            let last = order.len() - 1;
            lemma_children_first_closed(nodes, order, last, w);
        }
    }
}

/// Whoever reaches a vertex comes after it: if `order[j]` reaches `order[i]`
/// and is another vertex, then `i < j`. Walking the order backwards therefore
/// meets a vertex only after every vertex that was computed from it.
pub proof fn lemma_ancestors_later(nodes: Seq<Vertex>, root: usize, i: int, j: int)
    requires
        acyclic(nodes),
        root < nodes.len(),
        0 <= i < topo_order(nodes, root).len(),
        0 <= j < topo_order(nodes, root).len(),
        i != j,
        reaches(nodes, topo_order(nodes, root)[j], topo_order(nodes, root)[i]),
    ensures
        i < j,
{
    let order = topo_order(nodes, root);
    lemma_topo_order(nodes, root);
    lemma_children_first_closed(nodes, order, j, order[i]);
}

/// `marks[v]` tells whether `v` is listed in `order`.
pub open spec fn marks_agree(marks: Seq<bool>, order: Seq<usize>) -> bool {
    forall|v: usize| v < marks.len() ==> #[trigger] marks[v as int] == order.contains(v)
}

impl<K: Fn(Primitive, &Matrix, &Matrix) -> Matrix> Autograd<K> {
    /// Walks from `v`: unless `v` has been visited, walks its children in
    /// operand order and then appends `v` to `order`.
    fn build_topo(&self, v: usize, order: &mut Vec<usize>, visited: &mut Vec<bool>)
        requires
            well_formed(self@),
            v < self@.len(),
            old(visited)@.len() == self@.len(),
            marks_agree(old(visited)@, old(order)@),
        ensures
            final(order)@ == visit(self@, v, old(order)@),
            final(visited)@.len() == self@.len(),
            marks_agree(final(visited)@, final(order)@),
        decreases v,
    {
        if !visited[v] {
            let ghost start = order@;
            let n = self.child_count(v);
            let mut k: usize = 0;
            while k < n
                invariant
                    well_formed(self@),
                    v < self@.len(),
                    n == self@[v as int].children.len(),
                    k <= n,
                    visited@.len() == self@.len(),
                    marks_agree(visited@, order@),
                    order@ == visit_children(self@, v, k as nat, start),
                decreases n - k,
            {
                let c = self.child(v, k);
                proof {
                    lemma_well_formed_acyclic(self@);
                    assert(self@[v as int].children[k as int] < v);
                }
                self.build_topo(c, order, visited);
                k += 1;
            }
            let ghost mid = order@;
            order.push(v);
            visited[v] = true;
            proof {
                assert forall|w: usize| w < visited@.len() implies #[trigger] visited@[w as int]
                    == order@.contains(w) by {
                    if w == v {
                        assert(order@[order@.len() - 1] == v);
                    } else {
                        if mid.contains(w) {
                            let i = choose|i: int| 0 <= i < mid.len() && mid[i] == w;
                            assert(order@[i] == w);
                        }
                        if order@.contains(w) {
                            let i = choose|i: int| 0 <= i < order@.len() && order@[i] == w;
                            assert(i < mid.len());
                            assert(mid[i] == w);
                        }
                    }
                }
            }
        }
    }

    /// The vertices that `root` reaches, each once, every vertex after all the
    /// vertices it was computed from, and `root` last.
    pub fn get_topo(&self, root: usize) -> (order: Vec<usize>)
        requires
            self.wf(),
            root < self@.len(),
        ensures
            order@ == topo_order(self@, root),
            order@.no_duplicates(),
            forall|i: int| 0 <= i < order@.len() ==> (#[trigger] order@[i]) < self@.len(),
            forall|w: usize| order@.contains(w) <==> reaches(self@, root, w),
            forall|i: int, j: int|
                0 <= i < order@.len() && 0 <= j < order@.len() && i != j && reaches(
                    self@,
                    #[trigger] order@[j],
                    #[trigger] order@[i],
                ) ==> i < j,
            order@.len() > 0 && order@.last() == root,
    {
        let n = self.len();
        let mut visited: Vec<bool> = Vec::new();
        let mut i: usize = 0;
        while i < n
            invariant
                i <= n,
                visited@.len() == i,
                forall|t: int| 0 <= t < i ==> !visited@[t],
            decreases n - i,
        {
            visited.push(false);
            i += 1;
        }
        let mut order: Vec<usize> = Vec::new();
        self.build_topo(root, &mut order, &mut visited);
        proof {
            lemma_well_formed_acyclic(self@);
            lemma_topo_order(self@, root);
            assert forall|i: int, j: int|
                0 <= i < order@.len() && 0 <= j < order@.len() && i != j && reaches(
                    self@,
                    #[trigger] order@[j],
                    #[trigger] order@[i],
                ) implies i < j by {
                lemma_ancestors_later(self@, root, i, j);
            }
        }
        order
    }
}

} // verus!
