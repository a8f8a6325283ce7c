#![allow(dead_code)]

use ndarray::Array2;
use rand::rngs::StdRng;
use rand::{Rng, SeedableRng};
use rust_autograd::autograd::Autograd;
use rust_autograd::kernel::Primitive;
use rust_autograd::matrix::Matrix;
use rust_autograd::nn::{Activation, Layer, Neuron, MLP};

fn to_array(m: &Matrix) -> Array2<f64> {
    let cells: Vec<f64> = m.words().iter().map(|w| f64::from_bits(*w)).collect();
    Array2::from_shape_vec((m.rows(), m.cols()), cells).unwrap()
}

fn to_matrix(a: &Array2<f64>) -> Matrix {
    let (rows, cols) = a.dim();
    Matrix::from_vec(rows, cols, a.iter().map(|x| x.to_bits()).collect()).unwrap()
}

fn kernel(p: Primitive, x: &Matrix, y: &Matrix) -> Matrix {
    let a = to_array(x);
    let b = to_array(y);
    let r = match p {
        Primitive::Add => &a + &b,
        Primitive::Sub => &a - &b,
        Primitive::Div => &a / &b,
        Primitive::Hadamard => &a * &b,
        Primitive::MatMul => a.dot(&b),
        Primitive::Neg => -a,
        Primitive::Log => a.mapv(|x| f64::max(x, f64::EPSILON).ln()),
        Primitive::Exp => a.mapv(|x| x.exp()),
        Primitive::Tanh => a.mapv(|x| x.tanh()),
        Primitive::Relu => a.mapv(|x| x.max(0.0)),
        Primitive::Square => a.mapv(|x| x * x),
        Primitive::TanhSlope => a.mapv(|x| 1.0 - x * x),
        Primitive::ReluMask => a.mapv(|x| if x > 0.0 { 1.0 } else { 0.0 }),
        Primitive::Sqrt => a.mapv(|x| x.sqrt()),
        Primitive::Pow => a.mapv(|x| x.powf(b[[0, 0]])),
        Primitive::PowSlope => a.mapv(|x| b[[0, 0]] * x.powf(b[[0, 0]] - 1.0)),
        Primitive::Scale => &a * b[[0, 0]],
        Primitive::Shift => &a + b[[0, 0]],
        Primitive::Shrink => &a / b[[0, 0]],
    };
    to_matrix(&r)
}

type Kernel = fn(Primitive, &Matrix, &Matrix) -> Matrix;
type Graph = Autograd<Kernel>;

fn graph() -> Graph {
    Autograd::new(kernel as Kernel)
}

fn arr(rows: &[&[f64]]) -> Array2<f64> {
    let cols = if rows.is_empty() { 0 } else { rows[0].len() };
    let cells: Vec<f64> = rows.iter().flat_map(|r| r.iter().copied()).collect();
    Array2::from_shape_vec((rows.len(), cols), cells).unwrap()
}

fn mat(rows: &[&[f64]]) -> Matrix {
    to_matrix(&arr(rows))
}

fn value(g: &Graph, id: usize) -> Array2<f64> {
    to_array(&g.value(id))
}

fn grad(g: &Graph, id: usize) -> Array2<f64> {
    to_array(&g.grad(id))
}

fn draw_weights(nin: usize, seed: u64) -> Vec<u64> {
    let mut rng = StdRng::seed_from_u64(seed);
    let scale = (2.0 / nin as f64).sqrt();
    (0..nin).map(|_| rng.gen_range(-scale..scale).to_bits()).collect()
}

#[test]
fn test_neuron() {
    let mut g = graph();
    let n = Neuron::new(&mut g, 2, 42, &draw_weights);
    let x = vec![g.leaf(mat(&[&[1.0]])), g.leaf(mat(&[&[-2.0]]))];
    let y = n.call(&mut g, &x, Activation::Identity);
    assert_eq!(value(&g, y).shape(), &[1, 1]);

    let params = n.parameters();
    assert_eq!(params.len(), 3); // 2 weights + 1 bias
}

#[test]
fn test_layer() {
    let mut g = graph();
    let l = Layer::new(&mut g, 2, 3, Activation::ReLU, 42, &draw_weights);
    let x = vec![g.leaf(mat(&[&[1.0]])), g.leaf(mat(&[&[-2.0]]))];
    let y = l.call(&mut g, &x);
    assert_eq!(y.len(), 3);
    assert_eq!(value(&g, y[0]).shape(), &[1, 1]);

    let params = l.parameters();
    assert_eq!(params.len(), 3 * (2 + 1)); // 3 neurons * (2 weights + 1 bias)
}

#[test]
fn test_layer_softmax_deterministic() {
    let mut g = graph();
    let l = Layer::new(&mut g, 2, 2, Activation::Softmax, 42, &draw_weights);

    for p in l.parameters() {
        g.set_value(p, mat(&[&[0.0]]));
    }

    let x = vec![g.leaf(mat(&[&[1.0]])), g.leaf(mat(&[&[-2.0]]))];
    let y = l.call(&mut g, &x);

    // If logits are [0.0, 0.0], then:
    // exp(0.0) = 1.0
    // sum(exps) = 2.0
    // softmax = [1/2, 1/2] = [0.5, 0.5]

    assert_eq!(y.len(), 2);
    assert!((value(&g, y[0])[[0, 0]] - 0.5).abs() < 1e-10);
    assert!((value(&g, y[1])[[0, 0]] - 0.5).abs() < 1e-10);

    // Also verify that they sum to exactly 1.0
    let sum = value(&g, y[0])[[0, 0]] + value(&g, y[1])[[0, 0]];
    assert!((sum - 1.0).abs() < 1e-10);
}

#[test]
fn test_mlp() {
    let mut g = graph();
    let mlp = MLP::new(&mut g, 2, &vec![4, 1], 42, &draw_weights);
    let x = vec![g.leaf(mat(&[&[1.0]])), g.leaf(mat(&[&[-2.0]]))];
    let y = mlp.call(&mut g, &x);
    assert_eq!(y.len(), 1);
    assert_eq!(value(&g, y[0]).shape(), &[1, 1]);

    let params = mlp.parameters();
    // Layer 1: 4 neurons * (2 + 1) = 12 params
    // Layer 2: 1 neuron * (4 + 1) = 5 params
    // Total: 17
    assert_eq!(params.len(), 17);
}

fn fixed_weights(nin: usize, seed: u64) -> Vec<u64> {
    (0..nin).map(|i| ((seed * 10 + i as u64) as f64).to_bits()).collect()
}

#[test]
fn neuron_parameters_are_new_leaves_weights_first() {
    let mut g = graph();
    let first = g.leaf(mat(&[&[9.0]]));
    let n = Neuron::new(&mut g, 3, 4, &fixed_weights);
    assert_eq!(g.len(), first + 1 + 3 + 1);
    assert_eq!(n.parameters(), vec![first + 1, first + 2, first + 3, first + 4]);
    assert_eq!(value(&g, first + 1)[[0, 0]], 40.0);
    assert_eq!(value(&g, first + 2)[[0, 0]], 41.0);
    assert_eq!(value(&g, first + 3)[[0, 0]], 42.0);
    // the bias starts at zero
    assert_eq!(value(&g, first + 4)[[0, 0]], 0.0);
    assert_eq!(g.op(first + 4), "Leaf");
}

#[test]
fn neuron_sums_bias_and_weighted_inputs_in_order() {
    let mut g = graph();
    let n = Neuron::new(&mut g, 2, 0, &fixed_weights); // weights 0 and 1
    let params = n.parameters();
    g.set_value(params[0], mat(&[&[2.0]]));
    g.set_value(params[1], mat(&[&[-3.0]]));
    g.set_value(params[2], mat(&[&[0.5]]));
    let x = vec![g.leaf(mat(&[&[4.0]])), g.leaf(mat(&[&[5.0]]))];
    let before = g.len();
    let y = n.call(&mut g, &x, Activation::Identity);
    // 0.5 + 2*4 + (-3)*5
    assert_eq!(value(&g, y)[[0, 0]], -6.5);
    // a product and a sum for each input, nothing for the activation
    assert_eq!(g.len(), before + 4);
    assert_eq!(y, before + 3);
    assert_eq!(g.children(before), vec![params[0], x[0]]);
    assert_eq!(g.children(before + 1), vec![params[2], before]);

    let rectified = n.call(&mut g, &x, Activation::ReLU);
    assert_eq!(value(&g, rectified)[[0, 0]], 0.0);
    assert_eq!(g.op(rectified), "ReLU");
    let squashed = n.call(&mut g, &x, Activation::Tanh);
    assert_eq!(value(&g, squashed)[[0, 0]], (-6.5f64).tanh());
}

#[test]
fn neuron_pairs_inputs_and_weights_until_either_runs_out() {
    let mut g = graph();
    let n = Neuron::new(&mut g, 3, 0, &fixed_weights); // weights 0, 1, 2
    let x = vec![g.leaf(mat(&[&[7.0]])), g.leaf(mat(&[&[8.0]]))];
    let y = n.call(&mut g, &x, Activation::Identity);
    assert_eq!(value(&g, y)[[0, 0]], 8.0);

    let none: Vec<usize> = Vec::new();
    let bias = n.parameters()[3];
    let size = g.len();
    let z = n.call(&mut g, &none, Activation::Softmax);
    // with nothing to sum, the output is the bias itself
    assert_eq!(z, bias);
    assert_eq!(g.len(), size);
}

#[test]
fn layer_seeds_its_neurons_one_after_the_other() {
    let mut g = graph();
    let l = Layer::new(&mut g, 1, 3, Activation::Identity, 5, &fixed_weights);
    let params = l.parameters();
    assert_eq!(params.len(), 6);
    assert_eq!(value(&g, params[0])[[0, 0]], 50.0);
    assert_eq!(value(&g, params[2])[[0, 0]], 60.0);
    assert_eq!(value(&g, params[4])[[0, 0]], 70.0);
}

#[test]
fn mlp_rectifies_all_layers_but_the_last_which_it_normalizes() {
    let mut g = graph();
    let mlp = MLP::new(&mut g, 1, &vec![2, 2], 0, &fixed_weights);
    let x = vec![g.leaf(mat(&[&[1.0]]))];
    let y = mlp.call(&mut g, &x);
    assert_eq!(y.len(), 2);
    // the outputs are quotients of exponentials by their sum
    assert_eq!(g.op(y[0]), "Div");
    assert_eq!(g.op(y[1]), "Div");
    let total = g.children(y[0])[1];
    assert_eq!(g.children(y[1])[1], total);
    assert_eq!(g.op(total), "Add");
    assert_eq!(g.op(g.children(y[0])[0]), "Exp");
    let s = value(&g, y[0])[[0, 0]] + value(&g, y[1])[[0, 0]];
    assert!((s - 1.0).abs() < 1e-12);
    // layer i starts its seeds at seed + i: first layer 0 and 1, second layer 1 and 2
    let params = mlp.parameters();
    assert_eq!(params.len(), 2 * 2 + 2 * 3);
    assert_eq!(value(&g, params[0])[[0, 0]], 0.0);
    assert_eq!(value(&g, params[2])[[0, 0]], 10.0);
    assert_eq!(value(&g, params[4])[[0, 0]], 10.0);
    assert_eq!(value(&g, params[5])[[0, 0]], 11.0);
    assert_eq!(value(&g, params[7])[[0, 0]], 20.0);
}

#[test]
fn mlp_without_layers_hands_its_inputs_back() {
    let mut g = graph();
    let mlp = MLP::new(&mut g, 3, &Vec::new(), 1, &fixed_weights);
    let x = vec![g.leaf(mat(&[&[1.0]])), g.leaf(mat(&[&[2.0]]))];
    let size = g.len();
    assert_eq!(mlp.call(&mut g, &x), x);
    assert_eq!(g.len(), size);
    assert!(mlp.parameters().is_empty());
}

#[test]
fn mlp_zero_grad_resets_parameters_and_nothing_else() {
    let mut g = graph();
    let mlp = MLP::new(&mut g, 1, &vec![1], 3, &fixed_weights);
    let x = vec![g.leaf(mat(&[&[2.0]]))];
    let y = mlp.call(&mut g, &x);
    g.set_grad(y[0], mat(&[&[1.0]]));
    for p in mlp.parameters() {
        g.set_grad(p, mat(&[&[5.0]]));
    }
    g.set_grad(x[0], mat(&[&[6.0]]));
    mlp.zero_grad(&mut g);
    for p in mlp.parameters() {
        assert_eq!(grad(&g, p), arr(&[&[0.0]]));
    }
    assert_eq!(grad(&g, x[0]), arr(&[&[6.0]]));
    assert_eq!(grad(&g, y[0]), arr(&[&[1.0]]));
}

#[test]
fn drawn_weights_stay_within_the_scale() {
    let mut g = graph();
    let n = Neuron::new(&mut g, 8, 42, &draw_weights);
    let params = n.parameters();
    let scale = (2.0f64 / 8.0).sqrt();
    for p in &params[..8] {
        let w = value(&g, *p)[[0, 0]];
        assert!(-scale <= w && w < scale);
    }
    // the same seed gives the same weights
    let again = Neuron::new(&mut g, 8, 42, &draw_weights);
    for (p, q) in params.iter().zip(again.parameters().iter()) {
        assert_eq!(g.value(*p).words(), g.value(*q).words());
    }
}
