#![allow(dead_code)]

use ndarray::Array2;
use rust_autograd::autograd::Autograd;
use rust_autograd::kernel::Primitive;
use rust_autograd::matrix::Matrix;

fn to_array(m: &Matrix) -> Array2<f64> {
    let cells: Vec<f64> = m.words().iter().map(|w| f64::from_bits(*w)).collect();
    Array2::from_shape_vec((m.rows(), m.cols()), cells).unwrap()
}

fn to_matrix(a: &Array2<f64>) -> Matrix {
    let (rows, cols) = a.dim();
    Matrix::from_vec(rows, cols, a.iter().map(|x| x.to_bits()).collect()).unwrap()
}

fn kernel(p: Primitive, x: &Matrix, y: &Matrix) -> Matrix {
    let a = to_array(x);
    let b = to_array(y);
    let r = match p {
        Primitive::Add => &a + &b,
        Primitive::Sub => &a - &b,
        Primitive::Div => &a / &b,
        Primitive::Hadamard => &a * &b,
        Primitive::MatMul => a.dot(&b),
        Primitive::Neg => -a,
        Primitive::Log => a.mapv(|x| f64::max(x, f64::EPSILON).ln()),
        Primitive::Exp => a.mapv(|x| x.exp()),
        Primitive::Tanh => a.mapv(|x| x.tanh()),
        Primitive::Relu => a.mapv(|x| x.max(0.0)),
        Primitive::Square => a.mapv(|x| x * x),
        Primitive::TanhSlope => a.mapv(|x| 1.0 - x * x),
        Primitive::ReluMask => a.mapv(|x| if x > 0.0 { 1.0 } else { 0.0 }),
        Primitive::Sqrt => a.mapv(|x| x.sqrt()),
        Primitive::Pow => a.mapv(|x| x.powf(b[[0, 0]])),
        Primitive::PowSlope => a.mapv(|x| b[[0, 0]] * x.powf(b[[0, 0]] - 1.0)),
        Primitive::Scale => &a * b[[0, 0]],
        Primitive::Shift => &a + b[[0, 0]],
        Primitive::Shrink => &a / b[[0, 0]],
    };
    to_matrix(&r)
}

type Kernel = fn(Primitive, &Matrix, &Matrix) -> Matrix;
type Graph = Autograd<Kernel>;

fn graph() -> Graph {
    Autograd::new(kernel as Kernel)
}

fn arr(rows: &[&[f64]]) -> Array2<f64> {
    let cols = if rows.is_empty() { 0 } else { rows[0].len() };
    let cells: Vec<f64> = rows.iter().flat_map(|r| r.iter().copied()).collect();
    Array2::from_shape_vec((rows.len(), cols), cells).unwrap()
}

fn mat(rows: &[&[f64]]) -> Matrix {
    to_matrix(&arr(rows))
}

fn value(g: &Graph, id: usize) -> Array2<f64> {
    to_array(&g.value(id))
}

fn grad(g: &Graph, id: usize) -> Array2<f64> {
    to_array(&g.grad(id))
}

#[test]
fn test_add() {
    let mut g = graph();
    let a = g.leaf(mat(&[&[1.0, 2.0], &[3.0, 4.0]]));
    let b = g.leaf(mat(&[&[5.0, 6.0], &[7.0, 8.0]]));
    let c = g.add(a, b);
    assert_eq!(value(&g, c), arr(&[&[6.0, 8.0], &[10.0, 12.0]]));

    g.set_grad(c, mat(&[&[1.0, 1.0], &[1.0, 1.0]]));
    g.backward(c);
    assert_eq!(grad(&g, a), arr(&[&[1.0, 1.0], &[1.0, 1.0]]));
    assert_eq!(grad(&g, b), arr(&[&[1.0, 1.0], &[1.0, 1.0]]));
}

#[test]
fn test_mul() {
    let mut g = graph();
    let a = g.leaf(mat(&[&[1.0, 2.0], &[3.0, 4.0]]));
    let b = g.leaf(mat(&[&[5.0, 6.0], &[7.0, 8.0]]));
    let c = g.mul(a, b);
    assert_eq!(value(&g, c), arr(&[&[19.0, 22.0], &[43.0, 50.0]]));

    g.set_grad(c, mat(&[&[1.0, 0.0], &[0.0, 1.0]]));
    g.backward(c);
    assert_eq!(grad(&g, a), arr(&[&[5.0, 7.0], &[6.0, 8.0]]));
    assert_eq!(grad(&g, b), arr(&[&[1.0, 3.0], &[2.0, 4.0]]));
}

#[test]
fn test_div() {
    let mut g = graph();
    let a = g.leaf(mat(&[&[10.0, 20.0]]));
    let b = g.leaf(mat(&[&[2.0, 4.0]]));
    let c = g.div(a, b);
    assert_eq!(value(&g, c), arr(&[&[5.0, 5.0]]));

    g.set_grad(c, mat(&[&[1.0, 1.0]]));
    g.backward(c);
    assert_eq!(grad(&g, a), arr(&[&[0.5, 0.25]]));
    assert_eq!(grad(&g, b), arr(&[&[-2.5, -1.25]]));
}

#[test]
fn test_sub() {
    let mut g = graph();
    let a = g.leaf(mat(&[&[10.0, 5.0]]));
    let b = g.leaf(mat(&[&[3.0, 2.0]]));
    let c = g.sub(a, b);
    assert_eq!(value(&g, c), arr(&[&[7.0, 3.0]]));

    g.set_grad(c, mat(&[&[1.0, 1.0]]));
    g.backward(c);
    assert_eq!(grad(&g, a), arr(&[&[1.0, 1.0]]));
    assert_eq!(grad(&g, b), arr(&[&[-1.0, -1.0]]));
}

#[test]
fn test_pow() {
    let mut g = graph();
    let a = g.leaf(mat(&[&[2.0, 3.0]]));
    let b = g.pow(a, 2.0f64.to_bits());
    assert_eq!(value(&g, b), arr(&[&[4.0, 9.0]]));

    g.set_grad(b, mat(&[&[1.0, 1.0]]));
    g.backward(b);
    // d(x^2)/dx = 2*x
    assert_eq!(grad(&g, a), arr(&[&[4.0, 6.0]]));
}

#[test]
fn test_log() {
    let mut g = graph();
    let a = g.leaf(mat(&[&[10.0, 20.0]]));
    let b = g.log(a);
    assert!((value(&g, b)[[0, 0]] - 2.302585092994046).abs() < 1e-10);
    assert!((value(&g, b)[[0, 1]] - 2.995732273553991).abs() < 1e-10);

    // dlog(x)/dx = 1/x
    g.set_grad(b, mat(&[&[1.0, 1.0]]));
    g.backward(b);
    assert!((grad(&g, a)[[0, 0]] - 0.1).abs() < 1e-7);
    assert!((grad(&g, a)[[0, 1]] - 0.05).abs() < 1e-7);
}

#[test]
fn test_neg() {
    let mut g = graph();
    let a = g.leaf(mat(&[&[1.0, -2.0]]));
    let b = g.neg(a);
    assert_eq!(value(&g, b), arr(&[&[-1.0, 2.0]]));

    g.set_grad(b, mat(&[&[1.0, 1.0]]));
    g.backward(b);
    assert_eq!(grad(&g, a), arr(&[&[-1.0, -1.0]]));
}

#[test]
fn test_exp() {
    let mut g = graph();
    let a = g.leaf(mat(&[&[0.0, 1.0]]));
    let b = g.exp(a);
    assert!((value(&g, b)[[0, 0]] - 1.0).abs() < 1e-10);
    assert!((value(&g, b)[[0, 1]] - std::f64::consts::E).abs() < 1e-10);

    g.set_grad(b, mat(&[&[1.0, 1.0]]));
    g.backward(b);
    assert!((grad(&g, a)[[0, 0]] - 1.0).abs() < 1e-10);
    assert!((grad(&g, a)[[0, 1]] - std::f64::consts::E).abs() < 1e-10);
}

#[test]
fn test_relu() {
    let mut g = graph();
    let a = g.leaf(mat(&[&[-1.0, 2.0]]));
    let b = g.relu(a);
    assert_eq!(value(&g, b), arr(&[&[0.0, 2.0]]));

    g.set_grad(b, mat(&[&[1.0, 1.0]]));
    g.backward(b);
    assert_eq!(grad(&g, a), arr(&[&[0.0, 1.0]]));
}

#[test]
fn test_tanh() {
    let mut g = graph();
    let a = g.leaf(mat(&[&[0.0]]));
    let b = g.tanh(a);
    assert_eq!(value(&g, b)[[0, 0]], 0.0);

    g.set_grad(b, mat(&[&[1.0]]));
    g.backward(b);
    assert_eq!(grad(&g, a)[[0, 0]], 1.0);
}
