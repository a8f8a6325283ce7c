#![allow(dead_code)]

use ndarray::Array2;
use rust_autograd::autograd::Autograd;
use rust_autograd::helpers::cross_entropy::cross_entropy_loss;
use rust_autograd::kernel::Primitive;
use rust_autograd::loss::{Loss, MSE, SoftmaxCrossEntropyLoss};
use rust_autograd::matrix::Matrix;

fn to_array(m: &Matrix) -> Array2<f64> {
    let cells: Vec<f64> = m.words().iter().map(|w| f64::from_bits(*w)).collect();
    Array2::from_shape_vec((m.rows(), m.cols()), cells).unwrap()
}

fn to_matrix(a: &Array2<f64>) -> Matrix {
    let (rows, cols) = a.dim();
    Matrix::from_vec(rows, cols, a.iter().map(|x| x.to_bits()).collect()).unwrap()
}

fn kernel(p: Primitive, x: &Matrix, y: &Matrix) -> Matrix {
    let a = to_array(x);
    let b = to_array(y);
    let r = match p {
        Primitive::Add => &a + &b,
        Primitive::Sub => &a - &b,
        Primitive::Div => &a / &b,
        Primitive::Hadamard => &a * &b,
        Primitive::MatMul => a.dot(&b),
        Primitive::Neg => -a,
        Primitive::Log => a.mapv(|x| f64::max(x, f64::EPSILON).ln()),
        Primitive::Exp => a.mapv(|x| x.exp()),
        Primitive::Tanh => a.mapv(|x| x.tanh()),
        Primitive::Relu => a.mapv(|x| x.max(0.0)),
        Primitive::Square => a.mapv(|x| x * x),
        Primitive::TanhSlope => a.mapv(|x| 1.0 - x * x),
        Primitive::ReluMask => a.mapv(|x| if x > 0.0 { 1.0 } else { 0.0 }),
        Primitive::Sqrt => a.mapv(|x| x.sqrt()),
        Primitive::Pow => a.mapv(|x| x.powf(b[[0, 0]])),
        Primitive::PowSlope => a.mapv(|x| b[[0, 0]] * x.powf(b[[0, 0]] - 1.0)),
        Primitive::Scale => &a * b[[0, 0]],
        Primitive::Shift => &a + b[[0, 0]],
        Primitive::Shrink => &a / b[[0, 0]],
    };
    to_matrix(&r)
}

type Kernel = fn(Primitive, &Matrix, &Matrix) -> Matrix;
type Graph = Autograd<Kernel>;

fn graph() -> Graph {
    Autograd::new(kernel as Kernel)
}

fn arr(rows: &[&[f64]]) -> Array2<f64> {
    let cols = if rows.is_empty() { 0 } else { rows[0].len() };
    let cells: Vec<f64> = rows.iter().flat_map(|r| r.iter().copied()).collect();
    Array2::from_shape_vec((rows.len(), cols), cells).unwrap()
}

fn mat(rows: &[&[f64]]) -> Matrix {
    to_matrix(&arr(rows))
}

fn value(g: &Graph, id: usize) -> Array2<f64> {
    to_array(&g.value(id))
}

fn grad(g: &Graph, id: usize) -> Array2<f64> {
    to_array(&g.grad(id))
}

#[test]
fn test_mse_loss() {
    let mut g = graph();
    let pred = vec![g.leaf(mat(&[&[0.1]])), g.leaf(mat(&[&[0.9]]))];
    let target_index = 1;
    let loss_fn = MSE::new();
    let loss = loss_fn.forward(&mut g, &pred, target_index);

    // target = [0.0, 1.0]
    // MSE = ((0.1-0.0)^2 + (0.9-1.0)^2) / 2
    //     = (0.01 + 0.01) / 2 = 0.01
    assert!((value(&g, loss)[[0, 0]] - 0.01).abs() < 1e-7);

    g.set_grad(loss, mat(&[&[1.0]]));
    g.backward(loss);

    // dL/dp0 = (2/N) * (p0 - t0) = (2/2) * (0.1 - 0.0) = 0.1
    // dL/dp1 = (2/N) * (p1 - t1) = (2/2) * (0.9 - 1.0) = -0.1
    assert!((grad(&g, pred[0])[[0, 0]] - 0.1).abs() < 1e-7);
    assert!((grad(&g, pred[1])[[0, 0]] - (-0.1)).abs() < 1e-7);
}

#[test]
fn test_softmax_cross_entropy_loss() {
    let mut g = graph();
    let pred = vec![g.leaf(mat(&[&[0.1]])), g.leaf(mat(&[&[0.9]]))];
    let target_index = 1;
    let loss_fn = SoftmaxCrossEntropyLoss::new();
    let loss = loss_fn.forward(&mut g, &pred, target_index);

    // loss = -ln(pred[target_index]) = -ln(0.9)
    assert!((value(&g, loss)[[0, 0]] - (-0.9f64.ln())).abs() < 1e-10);

    g.set_grad(loss, mat(&[&[1.0]]));
    g.backward(loss);

    // dL/dp[target] = -1/p[target] = -1/0.9
    assert!((grad(&g, pred[target_index])[[0, 0]] - (-1.0 / 0.9)).abs() < 1e-7);
}

#[test]
fn test_cross_entropy_loss() {
    let mut g = graph();
    let pred = vec![
        g.leaf(mat(&[&[0.1, 0.2, 0.3]])),
        g.leaf(mat(&[&[0.4, 0.5, 0.6]])),
        g.leaf(mat(&[&[0.7, 0.8, 0.9]])),
    ];
    let target = 1;
    let loss = cross_entropy_loss(&mut g, &pred, target);
    // The loss is a vertex: the negated logarithm of the target prediction, cell by cell.
    let expected = arr(&[&[-(0.4f64.ln()), -(0.5f64.ln()), -(0.6f64.ln())]]);
    assert_eq!(value(&g, loss), expected);
    assert_eq!(g.children(loss).len(), 1);
    assert_eq!(g.op(loss), "Neg");
}

#[test]
fn mse_builds_the_same_graph_for_any_target_outside_the_predictions() {
    // With a target index beyond the predictions every target is zero.
    let mut g = graph();
    let pred = vec![g.leaf(mat(&[&[3.0]])), g.leaf(mat(&[&[4.0]]))];
    let loss = MSE::new().forward(&mut g, &pred, 7);
    // (9 + 16) / 2
    assert_eq!(value(&g, loss)[[0, 0]], 12.5);
    assert_eq!(loss + 1, g.len());
}

#[test]
fn mse_of_no_prediction_divides_zero_by_zero() {
    let mut g = graph();
    let pred: Vec<usize> = Vec::new();
    let loss = MSE::new().forward(&mut g, &pred, 0);
    assert!(value(&g, loss)[[0, 0]].is_nan());
    // total, count, quotient
    assert_eq!(g.len(), 3);
}

#[test]
fn mse_lays_out_five_vertices_for_each_prediction() {
    let mut g = graph();
    let pred = vec![g.leaf(mat(&[&[0.5]]))];
    let before = g.len();
    let loss = MSE::new().forward(&mut g, &pred, 0);
    // total, then target, difference, exponent, square, sum, then count and quotient
    assert_eq!(g.len(), before + 1 + 5 + 2);
    assert_eq!(g.op(loss), "Div");
    assert_eq!(value(&g, before + 1)[[0, 0]], 1.0);
    assert_eq!(g.op(before + 2), "Sub");
    assert_eq!(value(&g, before + 3)[[0, 0]], 2.0);
    assert_eq!(g.op(before + 4), "Pow");
    assert_eq!(g.op(before + 5), "Add");
    assert_eq!(value(&g, before + 6)[[0, 0]], 1.0);
    assert_eq!(value(&g, loss)[[0, 0]], 0.25);
}
