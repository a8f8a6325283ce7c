use vstd::prelude::*;
use std::collections::HashMap;
use crate::autograd::listed;
use crate::autograd::vertex_ok;
use crate::autograd::Autograd;
use crate::autograd::Vertex;
use crate::kernel::Arithmetic;
use crate::kernel::Primitive;
use crate::matrix::Grid;
use crate::matrix::Matrix;
use crate::optimizer::all_valid;
use crate::optimizer::only_values_differ;
use crate::optimizer::Optimizer;
use crate::scalar::count_word;
use crate::scalar::word_of_count;
use crate::scalar::ONE;

verus! {

broadcast use vstd::std_specs::hash::group_hash_axioms;

/// The word of the default decay rate of the first moment, 0.9.
pub const DEFAULT_BETA1: u64 = 0x3FEC_CCCC_CCCC_CCCD;

/// The word of the default decay rate of the second moment, 0.999.
pub const DEFAULT_BETA2: u64 = 0x3FEF_F7CE_D916_872B;

/// The word of the default guard against division by zero, 1e-8.
pub const DEFAULT_EPSILON: u64 = 0x3E45_798E_E230_8C3A;

/// The word of the default weight decay, zero.
pub const DEFAULT_WEIGHT_DECAY: u64 = 0;

/// Adam with decoupled weight decay. For each parameter it keeps running
/// means of the gradient and of its square, the two moments.
pub struct AdamW {
    /// The word of the learning rate.
    pub learning_rate: u64,
    /// The word of the decay rate of the first moment.
    pub beta1: u64,
    /// The word of the decay rate of the second moment.
    pub beta2: u64,
    /// The word of the guard against division by zero.
    pub epsilon: u64,
    /// The word of the weight decay.
    pub weight_decay: u64,
    /// The number of steps taken.
    pub t: u32,
    m: HashMap<usize, Matrix>,
    v: HashMap<usize, Matrix>,
}

/// The moment held for parameter `p`, or the zero grid of the shape of `like`
/// where none is held yet.
pub open spec fn held(moments: Map<usize, Grid>, p: usize, like: Grid) -> Grid {
    if moments.contains_key(p) {
        moments[p]
    } else {
        Grid::zeros(like.rows, like.cols)
    }
}

/// Each moment held for a listed parameter is a matrix of the shape of that
/// parameter's value.
pub open spec fn moments_fit(
    moments: Map<usize, Grid>,
    nodes: Seq<Vertex>,
    parameters: Seq<usize>,
) -> bool {
    forall|t: int|
        0 <= t < parameters.len() && moments.contains_key(#[trigger] parameters[t]) ==> {
            &&& moments[parameters[t]].storable()
            &&& parameters[t] < nodes.len() ==> moments[parameters[t]].same_shape(
                nodes[parameters[t] as int].value,
            )
        }
}

/// The rates that govern a step, each by its word.
pub struct Rates {
    pub learning_rate: u64,
    pub beta1: u64,
    pub beta2: u64,
    pub epsilon: u64,
    pub weight_decay: u64,
}

/// What a step works on: the graph and the two moments of each parameter.
pub struct AdamState {
    pub nodes: Seq<Vertex>,
    pub first: Map<usize, Grid>,
    pub second: Map<usize, Grid>,
}

impl Rates {
    /// The new first moment: `beta1 * m + (1 - beta1) * grad`.
    pub open spec fn next_first(&self, ar: Arithmetic, m: Grid, grad: Grid) -> Grid {
        let beta = Grid::scalar(self.beta1);
        let rest = ar(Primitive::Sub, Grid::scalar(ONE), beta);
        ar(Primitive::Add, ar(Primitive::Scale, m, beta), ar(Primitive::Scale, grad, rest))
    }

    /// The new second moment: `beta2 * v + (1 - beta2) * grad * grad`.
    pub open spec fn next_second(&self, ar: Arithmetic, v: Grid, grad: Grid) -> Grid {
        let beta = Grid::scalar(self.beta2);
        let rest = ar(Primitive::Sub, Grid::scalar(ONE), beta);
        ar(
            Primitive::Add,
            ar(Primitive::Scale, v, beta),
            ar(Primitive::Hadamard, ar(Primitive::Scale, grad, rest), grad),
        )
    }

    /// The divisor that corrects the bias of a moment of decay rate `beta`
    /// after `steps` steps: `1 - beta^steps`.
    pub open spec fn correction(ar: Arithmetic, beta: u64, steps: u32) -> Grid {
        let count = Grid::scalar(count_word(steps as nat) as u64);
        ar(Primitive::Sub, Grid::scalar(ONE), ar(Primitive::Pow, Grid::scalar(beta), count))
    }

    /// The new value of a parameter after `steps` steps, from its new moments
    /// `m` and `v` and its value `w`: with `m_hat` and `v_hat` the moments
    /// divided by their corrections,
    /// `w - (m_hat / (sqrt(v_hat) + epsilon) + w * weight_decay) * learning_rate`.
    pub open spec fn next_value(&self, ar: Arithmetic, steps: u32, m: Grid, v: Grid, w: Grid) -> Grid {
        let m_hat = ar(Primitive::Shrink, m, Rates::correction(ar, self.beta1, steps));
        let v_hat = ar(Primitive::Shrink, v, Rates::correction(ar, self.beta2, steps));
        let root = ar(Primitive::Sqrt, v_hat, v_hat);
        let adaptive = ar(
            Primitive::Div,
            m_hat,
            ar(Primitive::Shift, root, Grid::scalar(self.epsilon)),
        );
        let decay = ar(Primitive::Scale, w, Grid::scalar(self.weight_decay));
        let update = ar(Primitive::Add, adaptive, decay);
        ar(Primitive::Sub, w, ar(Primitive::Scale, update, Grid::scalar(self.learning_rate)))
    }

    /// The state after parameter `p` has been updated in step number `steps`.
    pub open spec fn updated(&self, ar: Arithmetic, s: AdamState, p: usize, steps: u32) -> AdamState {
        let grad = s.nodes[p as int].grad;
        let w = s.nodes[p as int].value;
        let m = self.next_first(ar, held(s.first, p, grad), grad);
        let v = self.next_second(ar, held(s.second, p, grad), grad);
        AdamState {
            nodes: s.nodes.update(
                p as int,
                (Vertex { value: self.next_value(ar, steps, m, v, w), ..s.nodes[p as int] }),
            ),
            first: s.first.insert(p, m),
            second: s.second.insert(p, v),
        }
    }

    /// The state after the first `k` parameters have been updated in step
    /// number `steps`, one after the other.
    pub open spec fn stepped(
        &self,
        ar: Arithmetic,
        s: AdamState,
        parameters: Seq<usize>,
        steps: u32,
        k: nat,
    ) -> AdamState
        decreases k,
    {
        if k == 0 {
            s
        } else {
            self.updated(
                ar,
                self.stepped(ar, s, parameters, steps, (k - 1) as nat),
                parameters[k - 1],
                steps,
            )
        }
    }
}

impl AdamW {
    /// The optimizer's rates.
    pub closed spec fn rates(&self) -> Rates {
        Rates {
            learning_rate: self.learning_rate,
            beta1: self.beta1,
            beta2: self.beta2,
            epsilon: self.epsilon,
            weight_decay: self.weight_decay,
        }
    }

    /// The number of steps taken.
    pub closed spec fn steps(&self) -> u32 {
        self.t
    }

    /// The first moments held, by parameter.
    pub closed spec fn first(&self) -> Map<usize, Grid> {
        self.m@.map_values(|x: Matrix| x@)
    }

    /// The second moments held, by parameter.
    pub closed spec fn second(&self) -> Map<usize, Grid> {
        self.v@.map_values(|x: Matrix| x@)
    }

    /// An optimizer with the given learning rate and the default other rates,
    /// before its first step.
    pub fn new(learning_rate: u64) -> (r: Self)
        ensures
            r.rates() == (Rates {
                learning_rate,
                beta1: DEFAULT_BETA1,
                beta2: DEFAULT_BETA2,
                epsilon: DEFAULT_EPSILON,
                weight_decay: DEFAULT_WEIGHT_DECAY,
            }),
            r.steps() == 0,
            r.first() == Map::<usize, Grid>::empty(),
            r.second() == Map::<usize, Grid>::empty(),
    {
        let r = Self {
            learning_rate,
            beta1: DEFAULT_BETA1,
            beta2: DEFAULT_BETA2,
            epsilon: DEFAULT_EPSILON,
            weight_decay: DEFAULT_WEIGHT_DECAY,
            t: 0,
            m: HashMap::new(),
            v: HashMap::new(),
        };
        assert(r.first() =~= Map::<usize, Grid>::empty());
        assert(r.second() =~= Map::<usize, Grid>::empty());
        r
    }

    /// An optimizer with the given rates, before its first step.
    pub fn with_params(
        learning_rate: u64,
        beta1: u64,
        beta2: u64,
        epsilon: u64,
        weight_decay: u64,
    ) -> (r: Self)
        ensures
            r.rates() == (Rates { learning_rate, beta1, beta2, epsilon, weight_decay }),
            r.steps() == 0,
            r.first() == Map::<usize, Grid>::empty(),
            r.second() == Map::<usize, Grid>::empty(),
    {
        let r = Self {
            learning_rate,
            beta1,
            beta2,
            epsilon,
            weight_decay,
            t: 0,
            m: HashMap::new(),
            v: HashMap::new(),
        };
        assert(r.first() =~= Map::<usize, Grid>::empty());
        assert(r.second() =~= Map::<usize, Grid>::empty());
        r
    }

    /// The moment held for `p` in `moments`, or a zero matrix of the shape of `like`.
    fn moment(moments: &HashMap<usize, Matrix>, p: usize, like: &Matrix) -> (r: Matrix)
        requires
            like.wf(),
            moments@.contains_key(p) ==> moments@[p].wf() && moments@[p]@.same_shape(like@),
        ensures
            r.wf(),
            r@.same_shape(like@),
            r@ == held(moments@.map_values(|x: Matrix| x@), p, like@),
    {
        match moments.get(&p) {
            Some(held) => held.clone(),
            None => Matrix::zeros(like.rows(), like.cols()),
        }
    }
}

impl Optimizer for AdamW {
    /// The step counter can still grow, and the moments held for the
    /// parameters have the shapes of the parameters.
    open spec fn ready(&self, nodes: Seq<Vertex>, parameters: Seq<usize>) -> bool {
        &&& self.steps() < u32::MAX
        &&& moments_fit(self.first(), nodes, parameters)
        &&& moments_fit(self.second(), nodes, parameters)
    }

    fn step<K: Fn(Primitive, &Matrix, &Matrix) -> Matrix>(
        &mut self,
        g: &mut Autograd<K>,
        parameters: &Vec<usize>,
    )
        ensures
            final(self).rates() == old(self).rates(),
            final(self).steps() == old(self).steps() + 1,
            moments_fit(final(self).first(), final(g)@, parameters@),
            moments_fit(final(self).second(), final(g)@, parameters@),
            (AdamState {
                nodes: final(g)@,
                first: final(self).first(),
                second: final(self).second(),
            }) == old(self).rates().stepped(
                old(g).arithmetic(),
                (AdamState {
                    nodes: old(g)@,
                    first: old(self).first(),
                    second: old(self).second(),
                }),
                parameters@,
                (old(self).steps() + 1) as u32,
                parameters@.len(),
            ),
    {
        let ghost ar = g.arithmetic();
        let ghost start = AdamState { nodes: g@, first: self.first(), second: self.second() };
        self.t = self.t + 1;
        let steps = self.t;
        let one = Matrix::scalar(ONE);
        let count = Matrix::scalar(word_of_count(steps as u64));
        let beta1 = Matrix::scalar(self.beta1);
        let beta2 = Matrix::scalar(self.beta2);
        let epsilon = Matrix::scalar(self.epsilon);
        let decay_rate = Matrix::scalar(self.weight_decay);
        let rate = Matrix::scalar(self.learning_rate);
        let rest1 = g.compute(Primitive::Sub, &one, &beta1);
        let rest2 = g.compute(Primitive::Sub, &one, &beta2);
        let power1 = g.compute(Primitive::Pow, &beta1, &count);
        let power2 = g.compute(Primitive::Pow, &beta2, &count);
        let correction1 = g.compute(Primitive::Sub, &one, &power1);
        let correction2 = g.compute(Primitive::Sub, &one, &power2);
        let mut t: usize = 0;
        while t < parameters.len()
            invariant
                g.wf(),
                g.kernel() == old(g).kernel(),
                ar == old(g).arithmetic(),
                self.rates() == old(self).rates(),
                self.t == steps,
                steps == old(self).t + 1,
                t <= parameters@.len(),
                all_valid(old(g)@, parameters@),
                only_values_differ(old(g)@, g@, parameters@.take(t as int)),
                forall|q: usize| #[trigger]
                    self.m@.contains_key(q) && listed(parameters@, q as int)
                        ==> self.m@[q].wf() && self.m@[q]@.same_shape(g@[q as int].value),
                forall|q: usize| #[trigger]
                    self.v@.contains_key(q) && listed(parameters@, q as int)
                        ==> self.v@[q].wf() && self.v@[q]@.same_shape(g@[q as int].value),
                one.wf() && one@ == Grid::scalar(ONE),
                beta1.wf() && beta1@ == Grid::scalar(self.beta1),
                beta2.wf() && beta2@ == Grid::scalar(self.beta2),
                epsilon.wf() && epsilon@ == Grid::scalar(self.epsilon),
                decay_rate.wf() && decay_rate@ == Grid::scalar(self.weight_decay),
                rate.wf() && rate@ == Grid::scalar(self.learning_rate),
                rest1.wf() && rest1@ == ar(Primitive::Sub, Grid::scalar(ONE), beta1@),
                rest2.wf() && rest2@ == ar(Primitive::Sub, Grid::scalar(ONE), beta2@),
                rest1@.is_scalar() && rest2@.is_scalar(),
                correction1.wf() && correction1@ == Rates::correction(ar, self.beta1, steps),
                correction2.wf() && correction2@ == Rates::correction(ar, self.beta2, steps),
                correction1@.is_scalar() && correction2@.is_scalar(),
                (AdamState { nodes: g@, first: self.first(), second: self.second() })
                    == old(self).rates().stepped(ar, start, parameters@, steps, t as nat),
            decreases parameters@.len() - t,
        {
            let p = parameters[t];
            let ghost before = AdamState { nodes: g@, first: self.first(), second: self.second() };
            proof {
                assert(vertex_ok(g@, p as int));
                assert(listed(parameters@, p as int));
            }
            let grad = g.grad(p);
            let value = g.value(p);
            let m0 = AdamW::moment(&self.m, p, &grad);
            let v0 = AdamW::moment(&self.v, p, &grad);

            let kept1 = g.compute(Primitive::Scale, &m0, &beta1);
            let fresh1 = g.compute(Primitive::Scale, &grad, &rest1);
            let m1 = g.compute(Primitive::Add, &kept1, &fresh1);

            let kept2 = g.compute(Primitive::Scale, &v0, &beta2);
            let scaled = g.compute(Primitive::Scale, &grad, &rest2);
            let fresh2 = g.compute(Primitive::Hadamard, &scaled, &grad);
            let v1 = g.compute(Primitive::Add, &kept2, &fresh2);

            let m_hat = g.compute(Primitive::Shrink, &m1, &correction1);
            let v_hat = g.compute(Primitive::Shrink, &v1, &correction2);
            let root = g.compute(Primitive::Sqrt, &v_hat, &v_hat);
            let guarded = g.compute(Primitive::Shift, &root, &epsilon);
            let adaptive = g.compute(Primitive::Div, &m_hat, &guarded);
            let decay = g.compute(Primitive::Scale, &value, &decay_rate);
            let update = g.compute(Primitive::Add, &adaptive, &decay);
            let scaled_update = g.compute(Primitive::Scale, &update, &rate);
            let new_val = g.compute(Primitive::Sub, &value, &scaled_update);

            let ghost m1_view = m1@;
            let ghost v1_view = v1@;
            self.m.insert(p, m1);
            self.v.insert(p, v1);
            g.set_value(p, new_val);
            proof {
                assert(self.first() =~= before.first.insert(p, m1_view));
                assert(self.second() =~= before.second.insert(p, v1_view));
                assert(m1_view == old(self).rates().next_first(
                    ar,
                    held(before.first, p, grad@),
                    grad@,
                ));
                assert(v1_view == old(self).rates().next_second(
                    ar,
                    held(before.second, p, grad@),
                    grad@,
                ));
                let done = parameters@.take(t as int);
                let next = parameters@.take(t + 1);
                assert(next[t as int] == p);
                assert forall|i: int| 0 <= i < g@.len() && !listed(next, i) implies (
                #[trigger] g@[i]).value == old(g)@[i].value by {
                    if listed(done, i) {
                        let u = choose|u: int| 0 <= u < done.len() && #[trigger] done[u] == i;
                        assert(next[u] == i);
                    }
                }
            }
            t += 1;
        }
        proof {
            assert(parameters@.take(parameters@.len() as int) =~= parameters@);
            assert forall|t: int|
                0 <= t < parameters@.len() && self.first().contains_key(
                    #[trigger] parameters@[t],
                ) implies {
                &&& self.first()[parameters@[t]].storable()
                &&& parameters@[t] < g@.len() ==> self.first()[parameters@[t]].same_shape(
                    g@[parameters@[t] as int].value,
                )
            } by {
                assert(listed(parameters@, parameters@[t] as int));
                assert(self.m@.contains_key(parameters@[t]));
            }
            assert forall|t: int|
                0 <= t < parameters@.len() && self.second().contains_key(
                    #[trigger] parameters@[t],
                ) implies {
                &&& self.second()[parameters@[t]].storable()
                &&& parameters@[t] < g@.len() ==> self.second()[parameters@[t]].same_shape(
                    g@[parameters@[t] as int].value,
                )
            } by {
                assert(listed(parameters@, parameters@[t] as int));
                assert(self.v@.contains_key(parameters@[t]));
            }
        }
    }
}

} // verus!
