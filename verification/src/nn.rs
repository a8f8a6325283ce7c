use vstd::prelude::*;
use crate::autograd::vertex_ok;
use crate::autograd::with_grads_reset;
use crate::autograd::Autograd;
use crate::autograd::Op;
use crate::autograd::Vertex;
use crate::kernel::Arithmetic;
use crate::kernel::Primitive;
use crate::matrix::Grid;
use crate::matrix::Matrix;
use crate::autograd::grown_from;
use crate::ops::with_binary;
use crate::ops::with_leaf;
use crate::ops::with_unary;
use crate::scalar::ZERO;

verus! {

/// What a neuron applies to its weighted sum.
#[derive(Debug, Clone, Copy, PartialEq, Eq, Structural)]
pub enum Activation {
    ReLU,
    Tanh,
    /// Nothing at the neuron; the layer normalizes the outputs of all its neurons.
    Softmax,
    /// Nothing.
    Identity,
}

/// What is demanded of a source of initial weights: asked for `nin` weights
/// under a seed, it returns exactly `nin` words, and the same ones each time.
pub open spec fn lawful_source<D: Fn(usize, u64) -> Vec<u64>>(draw: D) -> bool {
    &&& forall|nin: usize, seed: u64| #[trigger] call_requires(draw, (nin, seed))
    &&& forall|nin: usize, seed: u64, w: Vec<u64>| #[trigger]
        call_ensures(draw, (nin, seed), w) ==> w@.len() == nin
    &&& forall|nin: usize, seed: u64, w1: Vec<u64>, w2: Vec<u64>|
        #[trigger] call_ensures(draw, (nin, seed), w1) && #[trigger] call_ensures(
            draw,
            (nin, seed),
            w2,
        ) ==> w1@ == w2@
}

/// Whether the source answers `words` when asked for `nin` weights under `seed`.
pub open spec fn draws<D: Fn(usize, u64) -> Vec<u64>>(
    draw: D,
    nin: usize,
    seed: u64,
    words: Seq<u64>,
) -> bool {
    exists|v: Vec<u64>| v@ == words && #[trigger] call_ensures(draw, (nin, seed), v)
}

/// The weights that the source gives for `nin` inputs under `seed`.
pub open spec fn drawn<D: Fn(usize, u64) -> Vec<u64>>(draw: D, nin: usize, seed: u64) -> Seq<u64> {
    choose|words: Seq<u64>| draws(draw, nin, seed, words)
}

/// Asks the source for the weights of one neuron.
pub fn draw_weights<D: Fn(usize, u64) -> Vec<u64>>(draw: &D, nin: usize, seed: u64) -> (r: Vec<u64>)
    requires
        lawful_source(*draw),
    ensures
        r@ == drawn(*draw, nin, seed),
        r@.len() == nin,
{
    let r = draw(nin, seed);
    proof {
        assert(call_ensures(*draw, (nin, seed), r));
        assert(draws(*draw, nin, seed, r@));
        let chosen = drawn(*draw, nin, seed);
        assert(draws(*draw, nin, seed, chosen));
    }
    r
}

/// Every listed vertex exists and holds a single number.
pub open spec fn scalars(nodes: Seq<Vertex>, ids: Seq<usize>) -> bool {
    forall|i: int|
        0 <= i < ids.len() ==> (#[trigger] ids[i]) < nodes.len() && nodes[ids[i] as int].value.is_scalar()
}

/// Vertices that hold a single number still do after the graph has grown.
pub proof fn lemma_scalars_grown(before: Seq<Vertex>, after: Seq<Vertex>, ids: Seq<usize>)
    requires
        scalars(before, ids),
        grown_from(after, before),
    ensures
        scalars(after, ids),
{
    assert forall|i: int| 0 <= i < ids.len() implies (#[trigger] ids[i]) < after.len()
        && after[ids[i] as int].value.is_scalar() by {
        assert(after[ids[i] as int] == before[ids[i] as int]);
    }
}

/// The graph with one input vertex appended for each of the first `k` words.
pub open spec fn with_scalars(nodes: Seq<Vertex>, words: Seq<u64>, k: nat) -> Seq<Vertex>
    decreases k,
{
    if k == 0 {
        nodes
    } else {
        with_leaf(with_scalars(nodes, words, (k - 1) as nat), Grid::scalar(words[k - 1]))
    }
}

/// The graph with a new neuron's parameters appended: one input vertex for each
/// weight, then one for the bias, which starts at zero.
pub open spec fn with_neuron(nodes: Seq<Vertex>, words: Seq<u64>) -> Seq<Vertex> {
    with_leaf(with_scalars(nodes, words, words.len()), Grid::scalar(ZERO))
}

/// The running sum of a neuron after its first `k` inputs: the graph, and the
/// vertex of the sum. The sum starts as the bias; each input appends its
/// product with its weight and then the new sum.
pub open spec fn weighted_sum(
    ar: Arithmetic,
    nodes: Seq<Vertex>,
    weights: Seq<usize>,
    bias: usize,
    x: Seq<usize>,
    k: nat,
) -> (Seq<Vertex>, usize)
    decreases k,
{
    if k == 0 {
        (nodes, bias)
    } else {
        let (g, sum) = weighted_sum(ar, nodes, weights, bias, x, (k - 1) as nat);
        let n = g.len();
        let with_product = with_binary(ar, g, Op::Mul, weights[k - 1], x[k - 1]);
        (with_binary(ar, with_product, Op::Add, sum, n as usize), (n + 1) as usize)
    }
}

/// The graph and the vertex that result when `activation` is applied to vertex `sum`.
pub open spec fn activated(
    ar: Arithmetic,
    nodes: Seq<Vertex>,
    sum: usize,
    activation: Activation,
) -> (Seq<Vertex>, usize) {
    match activation {
        Activation::ReLU => (with_unary(ar, nodes, Op::ReLU, sum), nodes.len() as usize),
        Activation::Tanh => (with_unary(ar, nodes, Op::Tanh, sum), nodes.len() as usize),
        Activation::Softmax => (nodes, sum),
        Activation::Identity => (nodes, sum),
    }
}

/// The smaller of two lengths.
pub open spec fn shorter(a: nat, b: nat) -> nat {
    if a <= b {
        a
    } else {
        b
    }
}

/// The graph and the output vertex of a neuron applied to the inputs `x`:
/// inputs and weights are paired until either runs out.
pub open spec fn neuron_output(
    ar: Arithmetic,
    nodes: Seq<Vertex>,
    weights: Seq<usize>,
    bias: usize,
    x: Seq<usize>,
    activation: Activation,
) -> (Seq<Vertex>, usize) {
    let (g, sum) = weighted_sum(ar, nodes, weights, bias, x, shorter(weights.len(), x.len()));
    activated(ar, g, sum, activation)
}

/// One unit of a layer: a weight for each input, and a bias.
#[derive(Debug)]
pub struct Neuron {
    weights: Vec<usize>,
    bias: usize,
}

impl Clone for Neuron {
    fn clone(&self) -> (r: Self)
        ensures
            r.weights() == self.weights(),
            r.bias() == self.bias(),
    {
        let weights = self.weights.clone();
        assert(weights@ =~= self.weights@);
        Neuron { weights, bias: self.bias }
    }
}

impl Neuron {
    /// The vertices of the weights, in input order.
    pub closed spec fn weights(&self) -> Seq<usize> {
        self.weights@
    }

    /// The vertex of the bias.
    pub closed spec fn bias(&self) -> usize {
        self.bias
    }

    /// The parameters, weights first.
    pub open spec fn params(&self) -> Seq<usize> {
        self.weights().push(self.bias())
    }

    /// The neuron's parameters are vertices of the graph that hold single numbers.
    pub open spec fn fits(&self, nodes: Seq<Vertex>) -> bool {
        scalars(nodes, self.params())
    }

    /// Creates a neuron of `nin` inputs: its weights, drawn from the source
    /// under `seed`, and its bias become new input vertices of the graph.
    pub fn new<K: Fn(Primitive, &Matrix, &Matrix) -> Matrix, D: Fn(usize, u64) -> Vec<u64>>(
        g: &mut Autograd<K>,
        nin: usize,
        seed: u64,
        draw: &D,
    ) -> (r: Neuron)
        requires
            old(g).wf(),
            lawful_source(*draw),
        ensures
            final(g).wf(),
            final(g).kernel() == old(g).kernel(),
            final(g)@ == with_neuron(old(g)@, drawn(*draw, nin, seed)),
            final(g)@.len() == old(g)@.len() + nin + 1,
            grown_from(final(g)@, old(g)@),
            r.weights().len() == nin,
            forall|i: int| 0 <= i < nin ==> r.weights()[i] == old(g)@.len() + i,
            r.bias() == old(g)@.len() + nin,
            r.fits(final(g)@),
    {
        let words = draw_weights(draw, nin, seed);
        let mut weights: Vec<usize> = Vec::new();
        let mut i: usize = 0;
        while i < words.len()
            invariant
                g.wf(),
                g.kernel() == old(g).kernel(),
                i <= words@.len(),
                g@ == with_scalars(old(g)@, words@, i as nat),
                g@.len() == old(g)@.len() + i,
                grown_from(g@, old(g)@),
                weights@.len() == i,
                forall|j: int| 0 <= j < i ==> weights@[j] == old(g)@.len() + j,
                scalars(g@, weights@),
            decreases words@.len() - i,
        {
            let ghost before = g@;
            let id = g.leaf(Matrix::scalar(words[i]));
            proof {
                lemma_scalars_grown(before, g@, weights@);
            }
            weights.push(id);
            i += 1;
        }
        let ghost before = g@;
        let bias = g.leaf(Matrix::scalar(ZERO));
        let r = Neuron { weights, bias };
        proof {
            lemma_scalars_grown(before, g@, r.weights());
            assert(words@.len() == nin);
        }
        r
    }

    /// Applies the neuron to the inputs `x`: the bias plus the sum of the
    /// products of weights and inputs, then the activation. Returns the
    /// output vertex.
    pub fn call<K: Fn(Primitive, &Matrix, &Matrix) -> Matrix>(
        &self,
        g: &mut Autograd<K>,
        x: &Vec<usize>,
        activation: Activation,
    ) -> (id: usize)
        requires
            old(g).wf(),
            self.fits(old(g)@),
            scalars(old(g)@, x@),
        ensures
            final(g).wf(),
            final(g).kernel() == old(g).kernel(),
            grown_from(final(g)@, old(g)@),
            (final(g)@, id) == neuron_output(
                old(g).arithmetic(),
                old(g)@,
                self.weights(),
                self.bias(),
                x@,
                activation,
            ),
            id < final(g)@.len(),
            final(g)@[id as int].value.is_scalar(),
    {
        let ghost ar = g.arithmetic();
        let n = if self.weights.len() <= x.len() {
            self.weights.len()
        } else {
            x.len()
        };
        let mut sum = self.bias;
        let mut i: usize = 0;
        proof {
            assert(self.params()[self.weights().len() as int] == self.bias());
        }
        while i < n
            invariant
                g.wf(),
                g.kernel() == old(g).kernel(),
                ar == old(g).arithmetic(),
                n == shorter(self.weights().len(), x@.len()),
                i <= n,
                self.fits(old(g)@),
                scalars(old(g)@, x@),
                grown_from(g@, old(g)@),
                (g@, sum) == weighted_sum(
                    ar,
                    old(g)@,
                    self.weights(),
                    self.bias(),
                    x@,
                    i as nat,
                ),
                sum < g@.len(),
                g@[sum as int].value.is_scalar(),
            decreases n - i,
        {
            let w = self.weights[i];
            let xi = x[i];
            proof {
                assert(self.params()[i as int] == w);
                assert(g@[w as int] == old(g)@[w as int]);
                assert(g@[xi as int] == old(g)@[xi as int]);
            }
            let product = g.mul(w, xi);
            assert(vertex_ok(g@, product as int));
            sum = g.add(sum, product);
            assert(vertex_ok(g@, sum as int));
            i += 1;
        }
        match activation {
            Activation::ReLU => {
                let id = g.relu(sum);
                assert(vertex_ok(g@, id as int));
                id
            },
            Activation::Tanh => {
                let id = g.tanh(sum);
                assert(vertex_ok(g@, id as int));
                id
            },
            Activation::Softmax => sum,
            Activation::Identity => sum,
        }
    }

    /// The neuron's parameters: its weights, then its bias.
    pub fn parameters(&self) -> (r: Vec<usize>)
        ensures
            r@ == self.params(),
    {
        let mut params = self.weights.clone();
        assert(params@ =~= self.weights@);
        params.push(self.bias);
        params
    }
}

/// The seeds `seed`, `seed + 1`, ... of `count` neurons or layers can all be formed.
pub open spec fn seeds_fit(seed: u64, count: usize) -> bool {
    count == 0 || seed + count - 1 <= u64::MAX
}

/// The graph with the parameters of `k` new neurons of `nin` inputs appended.
/// Neuron `j` draws its weights under the seed `seed + j`.
pub open spec fn with_neurons<D: Fn(usize, u64) -> Vec<u64>>(
    nodes: Seq<Vertex>,
    draw: D,
    nin: usize,
    seed: u64,
    k: nat,
) -> Seq<Vertex>
    decreases k,
{
    if k == 0 {
        nodes
    } else {
        with_neuron(
            with_neurons(nodes, draw, nin, seed, (k - 1) as nat),
            drawn(draw, nin, (seed + k - 1) as u64),
        )
    }
}

/// The parameters of the first `k` neurons, neuron by neuron.
pub open spec fn neuron_params(neurons: Seq<Neuron>, k: nat) -> Seq<usize>
    decreases k,
{
    if k == 0 {
        Seq::empty()
    } else {
        neuron_params(neurons, (k - 1) as nat) + neurons[k - 1].params()
    }
}

/// Every neuron's parameters are vertices of the graph that hold single numbers.
pub open spec fn neurons_fit(neurons: Seq<Neuron>, nodes: Seq<Vertex>) -> bool {
    forall|j: int| 0 <= j < neurons.len() ==> (#[trigger] neurons[j]).fits(nodes)
}

/// Neurons that fit a graph still fit it after it has grown.
pub proof fn lemma_neurons_fit_grown(neurons: Seq<Neuron>, before: Seq<Vertex>, after: Seq<Vertex>)
    requires
        neurons_fit(neurons, before),
        grown_from(after, before),
    ensures
        neurons_fit(neurons, after),
{
    assert forall|j: int| 0 <= j < neurons.len() implies (#[trigger] neurons[j]).fits(after) by {
        lemma_scalars_grown(before, after, neurons[j].params());
    }
}

/// The graph and the output vertices once the first `k` neurons have been
/// applied to the inputs `x`, one after the other.
pub open spec fn neuron_outputs(
    ar: Arithmetic,
    nodes: Seq<Vertex>,
    neurons: Seq<Neuron>,
    x: Seq<usize>,
    activation: Activation,
    k: nat,
) -> (Seq<Vertex>, Seq<usize>)
    decreases k,
{
    if k == 0 {
        (nodes, Seq::empty())
    } else {
        let (g, outputs) = neuron_outputs(ar, nodes, neurons, x, activation, (k - 1) as nat);
        let (grown, id) = neuron_output(
            ar,
            g,
            neurons[k - 1].weights(),
            neurons[k - 1].bias(),
            x,
            activation,
        );
        (grown, outputs.push(id))
    }
}

/// The graph with the exponentials of the first `k` logits appended.
pub open spec fn exponentials(ar: Arithmetic, nodes: Seq<Vertex>, logits: Seq<usize>, k: nat) -> Seq<
    Vertex,
>
    decreases k,
{
    if k == 0 {
        nodes
    } else {
        with_unary(ar, exponentials(ar, nodes, logits, (k - 1) as nat), Op::Exp, logits[k - 1])
    }
}

/// The graph and the vertex of the running total once the `k` vertices that
/// follow vertex `first` have been added to it, one sum after the other.
pub open spec fn running_total(ar: Arithmetic, nodes: Seq<Vertex>, first: usize, k: nat) -> (
    Seq<Vertex>,
    usize,
)
    decreases k,
{
    if k == 0 {
        (nodes, first)
    } else {
        let (g, total) = running_total(ar, nodes, first, (k - 1) as nat);
        (with_binary(ar, g, Op::Add, total, (first + k) as usize), g.len() as usize)
    }
}

/// The graph with the quotients by vertex `total` of the `k` vertices from
/// vertex `first` on appended.
pub open spec fn quotients(
    ar: Arithmetic,
    nodes: Seq<Vertex>,
    first: usize,
    total: usize,
    k: nat,
) -> Seq<Vertex>
    decreases k,
{
    if k == 0 {
        nodes
    } else {
        with_binary(
            ar,
            quotients(ar, nodes, first, total, (k - 1) as nat),
            Op::Div,
            (first + k - 1) as usize,
            total,
        )
    }
}

/// The graph once the logits have been normalized: their exponentials, the
/// running totals of these, and each exponential divided by the last total.
/// The quotients are the newest vertices, in the order of the logits.
pub open spec fn softmax(ar: Arithmetic, nodes: Seq<Vertex>, logits: Seq<usize>) -> Seq<Vertex> {
    let first = nodes.len() as usize;
    let with_exps = exponentials(ar, nodes, logits, logits.len());
    let (with_total, total) = running_total(ar, with_exps, first, (logits.len() - 1) as nat);
    quotients(ar, with_total, first, total, logits.len())
}

/// The graph and the output vertices of a layer applied to the inputs `x`.
pub open spec fn layer_output(
    ar: Arithmetic,
    nodes: Seq<Vertex>,
    neurons: Seq<Neuron>,
    activation: Activation,
    x: Seq<usize>,
) -> (Seq<Vertex>, Seq<usize>) {
    let (g, outputs) = neuron_outputs(ar, nodes, neurons, x, activation, neurons.len());
    if activation == Activation::Softmax {
        let grown = softmax(ar, g, outputs);
        (
            grown,
            Seq::new(outputs.len(), |i: int| (grown.len() - outputs.len() + i) as usize),
        )
    } else {
        (g, outputs)
    }
}

/// Neurons that share their inputs and their activation.
pub struct Layer {
    neurons: Vec<Neuron>,
    activation: Activation,
}

impl Layer {
    /// The neurons, in output order.
    pub closed spec fn neurons(&self) -> Seq<Neuron> {
        self.neurons@
    }

    /// The activation of the layer.
    pub closed spec fn activation(&self) -> Activation {
        self.activation
    }

    /// The parameters, neuron by neuron.
    pub open spec fn params(&self) -> Seq<usize> {
        neuron_params(self.neurons(), self.neurons().len())
    }

    /// The layer's neurons fit the graph, and a layer that normalizes its
    /// outputs has at least one.
    pub open spec fn fits(&self, nodes: Seq<Vertex>) -> bool {
        &&& neurons_fit(self.neurons(), nodes)
        &&& self.activation() == Activation::Softmax ==> self.neurons().len() > 0
    }

    /// Creates a layer of `nout` neurons of `nin` inputs each. Neuron `j`
    /// draws its weights under the seed `seed + j`.
    pub fn new<K: Fn(Primitive, &Matrix, &Matrix) -> Matrix, D: Fn(usize, u64) -> Vec<u64>>(
        g: &mut Autograd<K>,
        nin: usize,
        nout: usize,
        activation: Activation,
        seed: u64,
        draw: &D,
    ) -> (r: Layer)
        requires
            old(g).wf(),
            lawful_source(*draw),
            seeds_fit(seed, nout),
        ensures
            final(g).wf(),
            final(g).kernel() == old(g).kernel(),
            final(g)@ == with_neurons(old(g)@, *draw, nin, seed, nout as nat),
            grown_from(final(g)@, old(g)@),
            r.neurons().len() == nout,
            r.activation() == activation,
            neurons_fit(r.neurons(), final(g)@),
            r.params().len() == nout * (nin + 1),
            activation != Activation::Softmax || nout > 0 ==> r.fits(final(g)@),
    {
        let mut neurons: Vec<Neuron> = Vec::new();
        let mut j: usize = 0;
        while j < nout
            invariant
                g.wf(),
                g.kernel() == old(g).kernel(),
                lawful_source(*draw),
                seeds_fit(seed, nout),
                j <= nout,
                g@ == with_neurons(old(g)@, *draw, nin, seed, j as nat),
                grown_from(g@, old(g)@),
                neurons@.len() == j,
                neurons_fit(neurons@, g@),
                neuron_params(neurons@, j as nat).len() == j * (nin + 1),
            decreases nout - j,
        {
            let ghost before = g@;
            let ghost listed = neurons@;
            let neuron = Neuron::new(g, nin, seed + j as u64, draw);
            proof {
                lemma_neurons_fit_grown(listed, before, g@);
                assert(neuron.params().len() == nin + 1);
            }
            neurons.push(neuron);
            proof {
                lemma_neuron_params_prefix(neurons@, listed, j as nat);
                assert(neurons@[j as int] == neuron);
                assert((j + 1) * (nin + 1) == j * (nin + 1) + (nin + 1)) by (nonlinear_arith);
            }
            j += 1;
        }
        Layer { neurons, activation }
    }

    /// Applies the layer to the inputs `x`: each neuron in turn, then, for a
    /// layer that normalizes, the softmax of their outputs. Returns the output
    /// vertices, one for each neuron.
    pub fn call<K: Fn(Primitive, &Matrix, &Matrix) -> Matrix>(
        &self,
        g: &mut Autograd<K>,
        x: &Vec<usize>,
    ) -> (r: Vec<usize>)
        requires
            old(g).wf(),
            self.fits(old(g)@),
            scalars(old(g)@, x@),
        ensures
            final(g).wf(),
            final(g).kernel() == old(g).kernel(),
            grown_from(final(g)@, old(g)@),
            (final(g)@, r@) == layer_output(
                old(g).arithmetic(),
                old(g)@,
                self.neurons(),
                self.activation(),
                x@,
            ),
            r@.len() == self.neurons().len(),
            scalars(final(g)@, r@),
    {
        let ghost ar = g.arithmetic();
        let mut outputs: Vec<usize> = Vec::new();
        let mut j: usize = 0;
        while j < self.neurons.len()
            invariant
                g.wf(),
                g.kernel() == old(g).kernel(),
                ar == old(g).arithmetic(),
                j <= self.neurons@.len(),
                self.fits(old(g)@),
                scalars(old(g)@, x@),
                grown_from(g@, old(g)@),
                (g@, outputs@) == neuron_outputs(
                    ar,
                    old(g)@,
                    self.neurons(),
                    x@,
                    self.activation(),
                    j as nat,
                ),
                outputs@.len() == j,
                scalars(g@, outputs@),
            decreases self.neurons@.len() - j,
        {
            let ghost before = g@;
            let ghost listed = outputs@;
            proof {
                lemma_neurons_fit_grown(self.neurons(), old(g)@, g@);
                lemma_scalars_grown(old(g)@, g@, x@);
                assert(self.neurons()[j as int].fits(g@));
            }
            let id = self.neurons[j].call(g, x, self.activation);
            proof {
                lemma_scalars_grown(before, g@, listed);
            }
            outputs.push(id);
            j += 1;
        }
        if self.activation == Activation::Softmax {
            return self.softmax_layer(g, &outputs);
        }
        outputs
    }

    /// Normalizes the logits: appends their exponentials, the running sums of
    /// these, and the quotient of each exponential by the last sum.
    fn softmax_layer<K: Fn(Primitive, &Matrix, &Matrix) -> Matrix>(
        &self,
        g: &mut Autograd<K>,
        logits: &Vec<usize>,
    ) -> (r: Vec<usize>)
        requires
            old(g).wf(),
            logits@.len() > 0,
            scalars(old(g)@, logits@),
        ensures
            final(g).wf(),
            final(g).kernel() == old(g).kernel(),
            grown_from(final(g)@, old(g)@),
            final(g)@ == softmax(old(g).arithmetic(), old(g)@, logits@),
            r@ == Seq::new(
                logits@.len(),
                |i: int| (final(g)@.len() - logits@.len() + i) as usize,
            ),
            scalars(final(g)@, r@),
    {
        let ghost ar = g.arithmetic();
        let m = logits.len();
        let first = g.len();
        let mut exps: Vec<usize> = Vec::new();
        let mut i: usize = 0;
        while i < m
            invariant
                g.wf(),
                g.kernel() == old(g).kernel(),
                ar == old(g).arithmetic(),
                m == logits@.len(),
                first == old(g)@.len(),
                i <= m,
                scalars(old(g)@, logits@),
                grown_from(g@, old(g)@),
                g@ == exponentials(ar, old(g)@, logits@, i as nat),
                g@.len() == first + i,
                exps@.len() == i,
                forall|t: int| 0 <= t < i ==> exps@[t] == first + t,
                scalars(g@, exps@),
            decreases m - i,
        {
            let ghost before = g@;
            let ghost listed = exps@;
            proof {
                assert(g@[logits@[i as int] as int] == old(g)@[logits@[i as int] as int]);
            }
            let e = g.exp(logits[i]);
            proof {
                assert(vertex_ok(g@, e as int));
                lemma_scalars_grown(before, g@, listed);
            }
            exps.push(e);
            i += 1;
        }
        let ghost with_exps = g@;
        let mut sum_exps = exps[0];
        let mut i: usize = 1;
        while i < m
            invariant
                g.wf(),
                g.kernel() == old(g).kernel(),
                ar == old(g).arithmetic(),
                m == logits@.len(),
                first == old(g)@.len(),
                1 <= i <= m,
                exps@.len() == m,
                forall|t: int| 0 <= t < m ==> exps@[t] == first + t,
                scalars(with_exps, exps@),
                grown_from(g@, with_exps),
                grown_from(with_exps, old(g)@),
                (g@, sum_exps) == running_total(ar, with_exps, first, (i - 1) as nat),
                sum_exps < g@.len(),
                g@[sum_exps as int].value.is_scalar(),
            decreases m - i,
        {
            proof {
                assert(g@[exps@[i as int] as int] == with_exps[exps@[i as int] as int]);
            }
            sum_exps = g.add(sum_exps, exps[i]);
            assert(vertex_ok(g@, sum_exps as int));
            i += 1;
        }
        let ghost with_total = g@;
        let base = g.len();
        let mut outputs: Vec<usize> = Vec::new();
        let mut i: usize = 0;
        while i < m
            invariant
                g.wf(),
                g.kernel() == old(g).kernel(),
                ar == old(g).arithmetic(),
                m == logits@.len(),
                first == old(g)@.len(),
                i <= m,
                exps@.len() == m,
                forall|t: int| 0 <= t < m ==> exps@[t] == first + t,
                scalars(with_exps, exps@),
                grown_from(with_total, with_exps),
                grown_from(with_exps, old(g)@),
                grown_from(g@, with_total),
                sum_exps < with_total.len(),
                with_total[sum_exps as int].value.is_scalar(),
                base == with_total.len(),
                g@ == quotients(ar, with_total, first, sum_exps, i as nat),
                g@.len() == base + i,
                outputs@.len() == i,
                forall|t: int| 0 <= t < i ==> outputs@[t] == base + t,
                scalars(g@, outputs@),
            decreases m - i,
        {
            let ghost before = g@;
            let ghost listed = outputs@;
            proof {
                assert(with_total[exps@[i as int] as int] == with_exps[exps@[i as int] as int]);
                assert(g@[exps@[i as int] as int] == with_total[exps@[i as int] as int]);
                assert(g@[sum_exps as int] == with_total[sum_exps as int]);
            }
            let q = g.div(exps[i], sum_exps);
            proof {
                assert(vertex_ok(g@, q as int));
                lemma_scalars_grown(before, g@, listed);
            }
            outputs.push(q);
            i += 1;
        }
        proof {
            assert(outputs@ =~= Seq::new(
                logits@.len(),
                |i: int| (g@.len() - logits@.len() + i) as usize,
            ));
        }
        outputs
    }

    /// The layer's parameters, neuron by neuron.
    pub fn parameters(&self) -> (r: Vec<usize>)
        ensures
            r@ == self.params(),
    {
        let mut params: Vec<usize> = Vec::new();
        let mut j: usize = 0;
        while j < self.neurons.len()
            invariant
                j <= self.neurons@.len(),
                params@ == neuron_params(self.neurons@, j as nat),
            decreases self.neurons@.len() - j,
        {
            let mut more = self.neurons[j].parameters();
            params.append(&mut more);
            j += 1;
        }
        params
    }
}

/// The parameters of the first `k` neurons do not depend on the neurons that follow.
pub proof fn lemma_neuron_params_prefix(longer: Seq<Neuron>, shorter: Seq<Neuron>, k: nat)
    requires
        k <= shorter.len() <= longer.len(),
        forall|j: int| 0 <= j < shorter.len() ==> longer[j] == shorter[j],
    ensures
        neuron_params(longer, k) == neuron_params(shorter, k),
    decreases k,
{
    if k > 0 {
        lemma_neuron_params_prefix(longer, shorter, (k - 1) as nat);
    }
}

/// The number of inputs of layer `i` of a network of `nin` inputs whose layers
/// have the sizes `nouts`: each layer takes what the one before it gives.
pub open spec fn inputs_of(nin: usize, nouts: Seq<usize>, i: int) -> usize {
    if i == 0 {
        nin
    } else {
        nouts[i - 1]
    }
}

/// The activation of layer `i` of `count`: the last layer normalizes its
/// outputs, the others rectify theirs.
pub open spec fn activation_of(i: int, count: nat) -> Activation {
    if i < count - 1 {
        Activation::ReLU
    } else {
        Activation::Softmax
    }
}

/// The seeds of the network's layers and of their neurons can all be formed.
pub open spec fn network_seeds_fit(seed: u64, nouts: Seq<usize>) -> bool {
    forall|i: int|
        0 <= i < nouts.len() ==> seed + i <= u64::MAX && seeds_fit(
            (seed + i) as u64,
            #[trigger] nouts[i],
        )
}

/// The graph with the parameters of the first `k` layers appended. Layer `i`
/// starts its seeds at `seed + i`.
pub open spec fn with_layers<D: Fn(usize, u64) -> Vec<u64>>(
    nodes: Seq<Vertex>,
    draw: D,
    nin: usize,
    nouts: Seq<usize>,
    seed: u64,
    k: nat,
) -> Seq<Vertex>
    decreases k,
{
    if k == 0 {
        nodes
    } else {
        with_neurons(
            with_layers(nodes, draw, nin, nouts, seed, (k - 1) as nat),
            draw,
            inputs_of(nin, nouts, k - 1),
            (seed + k - 1) as u64,
            nouts[k - 1] as nat,
        )
    }
}

/// The parameters of the first `k` layers, layer by layer.
pub open spec fn layer_params(layers: Seq<Layer>, k: nat) -> Seq<usize>
    decreases k,
{
    if k == 0 {
        Seq::empty()
    } else {
        layer_params(layers, (k - 1) as nat) + layers[k - 1].params()
    }
}

/// Every layer fits the graph.
pub open spec fn layers_fit(layers: Seq<Layer>, nodes: Seq<Vertex>) -> bool {
    forall|i: int| 0 <= i < layers.len() ==> (#[trigger] layers[i]).fits(nodes)
}

/// Layers that fit a graph still fit it after it has grown.
pub proof fn lemma_layers_fit_grown(layers: Seq<Layer>, before: Seq<Vertex>, after: Seq<Vertex>)
    requires
        layers_fit(layers, before),
        grown_from(after, before),
    ensures
        layers_fit(layers, after),
{
    assert forall|i: int| 0 <= i < layers.len() implies (#[trigger] layers[i]).fits(after) by {
        lemma_neurons_fit_grown(layers[i].neurons(), before, after);
    }
}

/// The parameters of the first `k` layers do not depend on the layers that follow.
pub proof fn lemma_layer_params_prefix(longer: Seq<Layer>, shorter: Seq<Layer>, k: nat)
    requires
        k <= shorter.len() <= longer.len(),
        forall|j: int| 0 <= j < shorter.len() ==> longer[j] == shorter[j],
    ensures
        layer_params(longer, k) == layer_params(shorter, k),
    decreases k,
{
    if k > 0 {
        lemma_layer_params_prefix(longer, shorter, (k - 1) as nat);
    }
}

/// The graph and the output vertices once the first `k` layers have been
/// applied, each to the outputs of the one before it.
pub open spec fn network_output(
    ar: Arithmetic,
    nodes: Seq<Vertex>,
    layers: Seq<Layer>,
    x: Seq<usize>,
    k: nat,
) -> (Seq<Vertex>, Seq<usize>)
    decreases k,
{
    if k == 0 {
        (nodes, x)
    } else {
        let (g, current) = network_output(ar, nodes, layers, x, (k - 1) as nat);
        layer_output(ar, g, layers[k - 1].neurons(), layers[k - 1].activation(), current)
    }
}

/// A multilayer perceptron: layers applied one after the other.
pub struct MLP {
    layers: Vec<Layer>,
}

impl MLP {
    /// The layers, in the order in which they are applied.
    pub closed spec fn layers(&self) -> Seq<Layer> {
        self.layers@
    }

    /// The parameters, layer by layer.
    pub open spec fn params(&self) -> Seq<usize> {
        layer_params(self.layers(), self.layers().len())
    }

    /// Every layer fits the graph.
    pub open spec fn fits(&self, nodes: Seq<Vertex>) -> bool {
        layers_fit(self.layers(), nodes)
    }

    /// Creates a network of `nin` inputs with one layer for each entry of
    /// `nouts`, of that many neurons. The last layer normalizes its outputs,
    /// the others rectify theirs. Layer `i` starts its seeds at `seed + i`.
    pub fn new<K: Fn(Primitive, &Matrix, &Matrix) -> Matrix, D: Fn(usize, u64) -> Vec<u64>>(
        g: &mut Autograd<K>,
        nin: usize,
        nouts: &Vec<usize>,
        seed: u64,
        draw: &D,
    ) -> (r: MLP)
        requires
            old(g).wf(),
            lawful_source(*draw),
            network_seeds_fit(seed, nouts@),
        ensures
            final(g).wf(),
            final(g).kernel() == old(g).kernel(),
            final(g)@ == with_layers(old(g)@, *draw, nin, nouts@, seed, nouts@.len()),
            grown_from(final(g)@, old(g)@),
            r.layers().len() == nouts@.len(),
            forall|i: int|
                0 <= i < nouts@.len() ==> {
                    &&& (#[trigger] r.layers()[i]).neurons().len() == nouts@[i]
                    &&& r.layers()[i].activation() == activation_of(i, nouts@.len())
                    &&& neurons_fit(r.layers()[i].neurons(), final(g)@)
                },
            nouts@.len() == 0 || nouts@.last() > 0 ==> r.fits(final(g)@),
    {
        let mut layers: Vec<Layer> = Vec::new();
        let mut i: usize = 0;
        while i < nouts.len()
            invariant
                g.wf(),
                g.kernel() == old(g).kernel(),
                lawful_source(*draw),
                network_seeds_fit(seed, nouts@),
                i <= nouts@.len(),
                g@ == with_layers(old(g)@, *draw, nin, nouts@, seed, i as nat),
                grown_from(g@, old(g)@),
                layers@.len() == i,
                forall|t: int|
                    0 <= t < i ==> {
                        &&& (#[trigger] layers@[t]).neurons().len() == nouts@[t]
                        &&& layers@[t].activation() == activation_of(t, nouts@.len())
                        &&& neurons_fit(layers@[t].neurons(), g@)
                    },
            decreases nouts@.len() - i,
        {
            let activation = if i < nouts.len() - 1 {
                Activation::ReLU
            } else {
                Activation::Softmax
            };
            let inputs = if i == 0 {
                nin
            } else {
                nouts[i - 1]
            };
            let ghost before = g@;
            let ghost listed = layers@;
            proof {
                assert(seeds_fit((seed + i) as u64, nouts@[i as int]));
            }
            let layer = Layer::new(g, inputs, nouts[i], activation, seed + i as u64, draw);
            proof {
                assert forall|t: int| 0 <= t < i implies neurons_fit(
                    (#[trigger] listed[t]).neurons(),
                    g@,
                ) by {
                    lemma_neurons_fit_grown(listed[t].neurons(), before, g@);
                }
            }
            layers.push(layer);
            i += 1;
        }
        MLP { layers }
    }

    /// Applies the network to the inputs `x` and returns the output vertices
    /// of its last layer.
    pub fn call<K: Fn(Primitive, &Matrix, &Matrix) -> Matrix>(
        &self,
        g: &mut Autograd<K>,
        x: &Vec<usize>,
    ) -> (r: Vec<usize>)
        requires
            old(g).wf(),
            self.fits(old(g)@),
            scalars(old(g)@, x@),
        ensures
            final(g).wf(),
            final(g).kernel() == old(g).kernel(),
            grown_from(final(g)@, old(g)@),
            (final(g)@, r@) == network_output(
                old(g).arithmetic(),
                old(g)@,
                self.layers(),
                x@,
                self.layers().len(),
            ),
            scalars(final(g)@, r@),
            r@.len() == (if self.layers().len() == 0 {
                x@.len()
            } else {
                self.layers().last().neurons().len()
            }),
    {
        let ghost ar = g.arithmetic();
        let mut current: Vec<usize> = x.clone();
        assert(current@ =~= x@);
        let mut i: usize = 0;
        while i < self.layers.len()
            invariant
                g.wf(),
                g.kernel() == old(g).kernel(),
                ar == old(g).arithmetic(),
                i <= self.layers@.len(),
                self.fits(old(g)@),
                grown_from(g@, old(g)@),
                (g@, current@) == network_output(ar, old(g)@, self.layers(), x@, i as nat),
                scalars(g@, current@),
                current@.len() == (if i == 0 {
                    x@.len()
                } else {
                    self.layers()[i - 1].neurons().len()
                }),
            decreases self.layers@.len() - i,
        {
            proof {
                lemma_layers_fit_grown(self.layers(), old(g)@, g@);
                assert(self.layers()[i as int].fits(g@));
            }
            current = self.layers[i].call(g, &current);
            i += 1;
        }
        current
    }

    /// The network's parameters, layer by layer.
    pub fn parameters(&self) -> (r: Vec<usize>)
        ensures
            r@ == self.params(),
    {
        let mut params: Vec<usize> = Vec::new();
        let mut i: usize = 0;
        while i < self.layers.len()
            invariant
                i <= self.layers@.len(),
                params@ == layer_params(self.layers@, i as nat),
            decreases self.layers@.len() - i,
        {
            let mut more = self.layers[i].parameters();
            params.append(&mut more);
            i += 1;
        }
        params
    }

    /// Resets to zero the gradient of every parameter of the network.
    pub fn zero_grad<K: Fn(Primitive, &Matrix, &Matrix) -> Matrix>(&self, g: &mut Autograd<K>)
        requires
            old(g).wf(),
            self.fits(old(g)@),
        ensures
            final(g).wf(),
            final(g).kernel() == old(g).kernel(),
            final(g)@ == with_grads_reset(old(g)@, self.params()),
    {
        let params = self.parameters();
        proof {
            lemma_params_listed(self.layers(), g@, self.layers().len());
        }
        g.zero_grads(&params);
    }
}

/// The parameters of layers that fit a graph are vertices of that graph.
pub proof fn lemma_params_listed(layers: Seq<Layer>, nodes: Seq<Vertex>, k: nat)
    requires
        layers_fit(layers, nodes),
        k <= layers.len(),
    ensures
        scalars(nodes, layer_params(layers, k)),
    decreases k,
{
    if k > 0 {
        lemma_params_listed(layers, nodes, (k - 1) as nat);
        let layer = layers[k - 1];
        assert(layer.fits(nodes));
        lemma_neuron_params_listed(layer.neurons(), nodes, layer.neurons().len());
    }
}

/// The parameters of neurons that fit a graph are vertices of that graph.
pub proof fn lemma_neuron_params_listed(neurons: Seq<Neuron>, nodes: Seq<Vertex>, k: nat)
    requires
        neurons_fit(neurons, nodes),
        k <= neurons.len(),
    ensures
        scalars(nodes, neuron_params(neurons, k)),
    decreases k,
{
    if k > 0 {
        lemma_neuron_params_listed(neurons, nodes, (k - 1) as nat);
        assert(neurons[k - 1].fits(nodes));
    }
}

} // verus!
