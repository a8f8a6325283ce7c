#![allow(dead_code)]

use ndarray::Array2;
use rust_autograd::autograd::Autograd;
use rust_autograd::kernel::Primitive;
use rust_autograd::matrix::Matrix;
use rust_autograd::scalar::{word_of_count, ONE, TWO, ZERO};

fn to_array(m: &Matrix) -> Array2<f64> {
    let cells: Vec<f64> = m.words().iter().map(|w| f64::from_bits(*w)).collect();
    Array2::from_shape_vec((m.rows(), m.cols()), cells).unwrap()
}

fn to_matrix(a: &Array2<f64>) -> Matrix {
    let (rows, cols) = a.dim();
    Matrix::from_vec(rows, cols, a.iter().map(|x| x.to_bits()).collect()).unwrap()
}

fn kernel(p: Primitive, x: &Matrix, y: &Matrix) -> Matrix {
    let a = to_array(x);
    let b = to_array(y);
    let r = match p {
        Primitive::Add => &a + &b,
        Primitive::Sub => &a - &b,
        Primitive::Div => &a / &b,
        Primitive::Hadamard => &a * &b,
        Primitive::MatMul => a.dot(&b),
        Primitive::Neg => -a,
        Primitive::Log => a.mapv(|x| f64::max(x, f64::EPSILON).ln()),
        Primitive::Exp => a.mapv(|x| x.exp()),
        Primitive::Tanh => a.mapv(|x| x.tanh()),
        Primitive::Relu => a.mapv(|x| x.max(0.0)),
        Primitive::Square => a.mapv(|x| x * x),
        Primitive::TanhSlope => a.mapv(|x| 1.0 - x * x),
        Primitive::ReluMask => a.mapv(|x| if x > 0.0 { 1.0 } else { 0.0 }),
        Primitive::Sqrt => a.mapv(|x| x.sqrt()),
        Primitive::Pow => a.mapv(|x| x.powf(b[[0, 0]])),
        Primitive::PowSlope => a.mapv(|x| b[[0, 0]] * x.powf(b[[0, 0]] - 1.0)),
        Primitive::Scale => &a * b[[0, 0]],
        Primitive::Shift => &a + b[[0, 0]],
        Primitive::Shrink => &a / b[[0, 0]],
    };
    to_matrix(&r)
}

type Kernel = fn(Primitive, &Matrix, &Matrix) -> Matrix;
type Graph = Autograd<Kernel>;

fn graph() -> Graph {
    Autograd::new(kernel as Kernel)
}

fn arr(rows: &[&[f64]]) -> Array2<f64> {
    let cols = if rows.is_empty() { 0 } else { rows[0].len() };
    let cells: Vec<f64> = rows.iter().flat_map(|r| r.iter().copied()).collect();
    Array2::from_shape_vec((rows.len(), cols), cells).unwrap()
}

fn mat(rows: &[&[f64]]) -> Matrix {
    to_matrix(&arr(rows))
}

fn value(g: &Graph, id: usize) -> Array2<f64> {
    to_array(&g.value(id))
}

fn grad(g: &Graph, id: usize) -> Array2<f64> {
    to_array(&g.grad(id))
}

#[test]
fn zero_grad_gives_a_zero_matrix_of_the_shape_of_the_value() {
    let mut g = graph();
    let a = g.leaf(mat(&[&[1.0, 2.0, 3.0], &[4.0, 5.0, 6.0]]));
    let b = g.tanh(a);
    g.set_grad(a, mat(&[&[9.0, 9.0, 9.0], &[9.0, 9.0, 9.0]]));
    g.set_grad(b, mat(&[&[1.0, 1.0, 1.0], &[1.0, 1.0, 1.0]]));
    g.zero_grad(a);
    assert_eq!(g.grad(a).rows(), 2);
    assert_eq!(g.grad(a).cols(), 3);
    assert_eq!(g.grad(a).words(), vec![0u64; 6]);
    // nothing else changed
    assert_eq!(value(&g, a), arr(&[&[1.0, 2.0, 3.0], &[4.0, 5.0, 6.0]]));
    assert_eq!(grad(&g, b), arr(&[&[1.0, 1.0, 1.0], &[1.0, 1.0, 1.0]]));
    g.zero_grad(b);
    assert_eq!(g.grad(b).words(), vec![0u64; 6]);
}

#[test]
fn zero_grads_resets_each_listed_vertex() {
    let mut g = graph();
    let a = g.leaf(mat(&[&[1.0]]));
    let b = g.leaf(mat(&[&[2.0, 3.0]]));
    let c = g.leaf(mat(&[&[4.0]]));
    g.set_grad(a, mat(&[&[5.0]]));
    g.set_grad(b, mat(&[&[6.0, 7.0]]));
    g.set_grad(c, mat(&[&[8.0]]));
    g.zero_grads(&vec![b, a, b]);
    assert_eq!(grad(&g, a), arr(&[&[0.0]]));
    assert_eq!(grad(&g, b), arr(&[&[0.0, 0.0]]));
    assert_eq!(grad(&g, c), arr(&[&[8.0]]));
}

#[test]
fn a_new_vertex_has_a_zero_gradient_and_no_label() {
    let mut g = graph();
    let a = g.leaf(mat(&[&[1.5, -2.5]]));
    assert_eq!(a, 0);
    assert_eq!(g.len(), 1);
    assert_eq!(g.grad(a).words(), vec![0u64; 2]);
    assert_eq!(g.name(a), "");
    assert_eq!(g.op(a), "Leaf");
    assert!(g.children(a).is_empty());
    let b = g.exp(a);
    assert_eq!(b, 1);
    assert_eq!(g.grad(b).words(), vec![0u64; 2]);
    assert_eq!(g.children(b), vec![a]);
    assert_eq!(g.child_count(b), 1);
    assert_eq!(g.child(b, 0), a);
}

#[test]
fn diamond_sums_the_contributions_of_both_branches() {
    let mut g = graph();
    let a = g.leaf(mat(&[&[1.0]]));
    let b = g.leaf(mat(&[&[2.0]]));
    let c = g.mul(a, b);
    let d = g.add(c, a);
    assert_eq!(value(&g, d), arr(&[&[3.0]]));
    g.set_grad(d, mat(&[&[1.0]]));
    g.backward(d);
    assert_eq!(grad(&g, a), arr(&[&[3.0]]));
    assert_eq!(grad(&g, b), arr(&[&[1.0]]));
    assert_eq!(grad(&g, c), arr(&[&[1.0]]));
    // the seed is left as it was
    assert_eq!(grad(&g, d), arr(&[&[1.0]]));
}

#[test]
fn a_vertex_used_twice_by_one_parent_receives_twice() {
    let mut g = graph();
    let a = g.leaf(mat(&[&[3.0, 4.0]]));
    let s = g.add(a, a);
    assert_eq!(value(&g, s), arr(&[&[6.0, 8.0]]));
    g.set_grad(s, mat(&[&[1.0, 10.0]]));
    g.backward(s);
    assert_eq!(grad(&g, a), arr(&[&[2.0, 20.0]]));
    assert_eq!(g.get_topo(s), vec![a, s]);
}

#[test]
fn backward_twice_without_reset_doubles_the_gradients_of_the_children_of_the_root() {
    let mut g = graph();
    let a = g.leaf(mat(&[&[10.0, 20.0]]));
    let b = g.leaf(mat(&[&[2.0, 4.0]]));
    let c = g.div(a, b);
    g.set_grad(c, mat(&[&[1.0, 1.0]]));
    g.backward(c);
    let once_a = grad(&g, a);
    let once_b = grad(&g, b);
    g.backward(c);
    assert_eq!(grad(&g, a), &once_a + &once_a);
    assert_eq!(grad(&g, b), &once_b + &once_b);
    assert_eq!(grad(&g, a), arr(&[&[1.0, 0.5]]));
    assert_eq!(grad(&g, b), arr(&[&[-5.0, -2.5]]));
}

#[test]
fn backward_twice_without_reset_more_than_doubles_below_an_inner_vertex() {
    // c = -(-a): after one pass a has 1; the second pass sends the doubled
    // gradient of the inner vertex down, so a ends at 1 + 2.
    let mut g = graph();
    let a = g.leaf(mat(&[&[1.0]]));
    let b = g.neg(a);
    let c = g.neg(b);
    g.set_grad(c, mat(&[&[1.0]]));
    g.backward(c);
    assert_eq!(grad(&g, a), arr(&[&[1.0]]));
    assert_eq!(grad(&g, b), arr(&[&[-1.0]]));
    g.backward(c);
    assert_eq!(grad(&g, b), arr(&[&[-2.0]]));
    assert_eq!(grad(&g, a), arr(&[&[3.0]]));
}

#[test]
fn backward_leaves_alone_what_the_root_does_not_reach() {
    let mut g = graph();
    let a = g.leaf(mat(&[&[1.0]]));
    let b = g.leaf(mat(&[&[2.0]]));
    let c = g.neg(a);
    let d = g.exp(c);
    g.set_grad(b, mat(&[&[7.0]]));
    g.set_grad(d, mat(&[&[5.0]]));
    g.set_grad(c, mat(&[&[1.0]]));
    g.backward(c);
    assert_eq!(grad(&g, a), arr(&[&[-1.0]]));
    assert_eq!(grad(&g, b), arr(&[&[7.0]]));
    assert_eq!(grad(&g, d), arr(&[&[5.0]]));
    assert_eq!(grad(&g, c), arr(&[&[1.0]]));
    assert_eq!(value(&g, d), arr(&[&[(-1.0f64).exp()]]));
}

#[test]
fn backward_from_a_leaf_changes_nothing() {
    let mut g = graph();
    let a = g.leaf(mat(&[&[1.0]]));
    g.set_grad(a, mat(&[&[4.0]]));
    g.backward(a);
    assert_eq!(grad(&g, a), arr(&[&[4.0]]));
    assert_eq!(g.get_topo(a), vec![a]);
}

#[test]
fn topological_order_lists_children_first_each_vertex_once_and_the_root_last() {
    let mut g = graph();
    let a = g.leaf(mat(&[&[1.0]]));
    let b = g.leaf(mat(&[&[2.0]]));
    let c = g.mul(a, b);
    let d = g.add(c, a);
    assert_eq!(g.get_topo(d), vec![a, b, c, d]);
    assert_eq!(g.get_topo(c), vec![a, b, c]);

    // operands are walked in operand order
    let e = g.sub(b, a);
    assert_eq!(g.get_topo(e), vec![b, a, e]);

    // a larger graph with sharing: every vertex once, after all it depends on
    let f = g.mul(d, e);
    let h = g.add(f, c);
    let order = g.get_topo(h);
    assert_eq!(order, vec![a, b, c, d, e, f, h]);
    for (i, v) in order.iter().enumerate() {
        for child in g.children(*v) {
            let at = order.iter().position(|w| *w == child).unwrap();
            assert!(at < i);
        }
        assert_eq!(order.iter().filter(|w| *w == v).count(), 1);
    }
    assert_eq!(*order.last().unwrap(), h);
}

#[test]
fn topological_order_tells_vertices_apart_by_identity_not_by_value() {
    let mut g = graph();
    let a = g.leaf(mat(&[&[1.0]]));
    let twin = g.leaf(mat(&[&[1.0]]));
    let s = g.add(a, twin);
    assert_eq!(g.get_topo(s), vec![a, twin, s]);
    g.set_grad(s, mat(&[&[1.0]]));
    g.backward(s);
    assert_eq!(grad(&g, a), arr(&[&[1.0]]));
    assert_eq!(grad(&g, twin), arr(&[&[1.0]]));
}

#[test]
fn pow_keeps_its_exponent_as_a_constant_leaf() {
    let mut g = graph();
    let a = g.leaf(mat(&[&[2.0, 3.0]]));
    let b = g.pow(a, 3.0f64.to_bits());
    assert_eq!(b, a + 2);
    assert_eq!(g.children(b), vec![a, a + 1]);
    assert_eq!(g.op(a + 1), "Leaf");
    assert_eq!(value(&g, a + 1), arr(&[&[3.0]]));
    assert_eq!(value(&g, b), arr(&[&[8.0, 27.0]]));
    assert_eq!(g.get_topo(b), vec![a, a + 1, b]);
    g.set_grad(b, mat(&[&[1.0, 1.0]]));
    g.backward(b);
    assert_eq!(grad(&g, a), arr(&[&[12.0, 27.0]]));
    // the exponent receives no gradient
    assert_eq!(grad(&g, a + 1), arr(&[&[0.0]]));
}

#[test]
fn matrix_product_of_unequal_shapes() {
    let mut g = graph();
    let a = g.leaf(mat(&[&[1.0, 2.0, 3.0]]));
    let b = g.leaf(mat(&[&[1.0, 0.0], &[0.0, 1.0], &[2.0, 2.0]]));
    let c = g.mul(a, b);
    assert_eq!(value(&g, c), arr(&[&[7.0, 8.0]]));
    g.set_grad(c, mat(&[&[1.0, -1.0]]));
    g.backward(c);
    // da = dy . b^T, db = a^T . dy
    assert_eq!(grad(&g, a), arr(&[&[1.0, -1.0, 0.0]]));
    assert_eq!(grad(&g, b), arr(&[&[1.0, -1.0], &[2.0, -2.0], &[3.0, -3.0]]));
}

#[test]
fn log_floors_its_argument_but_its_slope_divides_by_the_argument_itself() {
    let mut g = graph();
    let a = g.leaf(mat(&[&[0.0, -1.0]]));
    let b = g.log(a);
    let floor = f64::EPSILON.ln();
    assert_eq!(value(&g, b), arr(&[&[floor, floor]]));
    g.set_grad(b, mat(&[&[1.0, 1.0]]));
    g.backward(b);
    assert_eq!(grad(&g, a)[[0, 0]], f64::INFINITY);
    assert_eq!(grad(&g, a)[[0, 1]], -1.0);
}

#[test]
fn division_by_zero_is_not_guarded() {
    let mut g = graph();
    let a = g.leaf(mat(&[&[1.0, 0.0]]));
    let b = g.leaf(mat(&[&[0.0, 0.0]]));
    let c = g.div(a, b);
    assert_eq!(value(&g, c)[[0, 0]], f64::INFINITY);
    assert!(value(&g, c)[[0, 1]].is_nan());
}

#[test]
fn relu_masks_by_the_sign_of_its_output_which_is_that_of_its_input() {
    let inputs = [-3.0, -0.0, 0.0, 1e-300, 2.5, f64::INFINITY];
    let mut g = graph();
    let a = g.leaf(mat(&[&inputs[..]]));
    let b = g.relu(a);
    g.set_grad(b, mat(&[&[1.0; 6][..]]));
    g.backward(b);
    for (i, x) in inputs.iter().enumerate() {
        let out = value(&g, b)[[0, i]];
        assert_eq!(out > 0.0, *x > 0.0);
        assert_eq!(grad(&g, a)[[0, i]], if *x > 0.0 { 1.0 } else { 0.0 });
    }
}

#[test]
fn accessors_hand_out_copies() {
    let mut g = graph();
    let a = g.leaf(mat(&[&[1.0, 2.0]]));
    let copy = g.value(a);
    g.set_value(a, mat(&[&[5.0, 6.0]]));
    assert_eq!(to_array(&copy), arr(&[&[1.0, 2.0]]));
    assert_eq!(value(&g, a), arr(&[&[5.0, 6.0]]));
    let seeded = g.grad(a);
    g.set_grad(a, mat(&[&[7.0, 8.0]]));
    assert_eq!(to_array(&seeded), arr(&[&[0.0, 0.0]]));
    assert_eq!(grad(&g, a), arr(&[&[7.0, 8.0]]));
    g.set_name(a, "weights");
    assert_eq!(g.name(a), "weights");
    assert_eq!(value(&g, a), arr(&[&[5.0, 6.0]]));
}

#[test]
fn a_changed_value_is_what_the_next_backward_pass_reads() {
    // y = a * b was computed with b = 2; the slope with respect to a follows b.
    let mut g = graph();
    let a = g.leaf(mat(&[&[3.0]]));
    let b = g.leaf(mat(&[&[2.0]]));
    let y = g.mul(a, b);
    g.set_value(b, mat(&[&[10.0]]));
    g.set_grad(y, mat(&[&[1.0]]));
    g.backward(y);
    assert_eq!(grad(&g, a), arr(&[&[10.0]]));
    assert_eq!(value(&g, y), arr(&[&[6.0]]));
}

#[test]
fn operation_names() {
    let mut g = graph();
    let a = g.leaf(mat(&[&[1.0]]));
    let b = g.leaf(mat(&[&[2.0]]));
    let ids = [
        g.add(a, b),
        g.sub(a, b),
        g.neg(a),
        g.mul(a, b),
        g.div(a, b),
        g.pow(a, TWO),
        g.log(a),
        g.exp(a),
        g.tanh(a),
        g.relu(a),
    ];
    let names = ["Add", "Sub", "Neg", "Mul", "Div", "Pow", "Log", "Exp", "Tanh", "ReLU"];
    for (id, name) in ids.iter().zip(names.iter()) {
        assert_eq!(g.op(*id), *name);
    }
    assert_eq!(g.kind(ids[0]), rust_autograd::autograd::Op::Add);
    assert_eq!(g.kind(a), rust_autograd::autograd::Op::Leaf);
}

#[test]
fn propagate_and_accumulate_are_the_steps_of_backward() {
    let mut g = graph();
    let a = g.leaf(mat(&[&[1.0, 2.0]]));
    let b = g.leaf(mat(&[&[3.0, 5.0]]));
    let c = g.sub(a, b);
    g.set_grad(c, mat(&[&[1.0, 2.0]]));
    g.propagate(c);
    assert_eq!(grad(&g, a), arr(&[&[1.0, 2.0]]));
    assert_eq!(grad(&g, b), arr(&[&[-1.0, -2.0]]));
    g.propagate(a);
    assert_eq!(grad(&g, a), arr(&[&[1.0, 2.0]]));
    g.accumulate(b, &mat(&[&[10.0, 10.0]]));
    assert_eq!(grad(&g, b), arr(&[&[9.0, 8.0]]));
    let sum = g.compute(Primitive::Add, &mat(&[&[1.0]]), &mat(&[&[2.0]]));
    assert_eq!(to_array(&sum), arr(&[&[3.0]]));
}

fn finite_difference(
    build: &dyn Fn(&mut Graph, usize, usize) -> usize,
    a: &[f64],
    b: &[f64],
    wrt_first: bool,
    cell: usize,
) -> f64 {
    let h = 1e-6;
    let mut sums = [0.0, 0.0];
    for (k, step) in [h, -h].iter().enumerate() {
        let mut av = a.to_vec();
        let mut bv = b.to_vec();
        if wrt_first {
            av[cell] += step;
        } else {
            bv[cell] += step;
        }
        let mut g = graph();
        let x = g.leaf(mat(&[&av[..]]));
        let y = g.leaf(mat(&[&bv[..]]));
        let out = build(&mut g, x, y);
        sums[k] = value(&g, out).sum();
    }
    (sums[0] - sums[1]) / (2.0 * h)
}

fn check_against_finite_differences(
    build: &dyn Fn(&mut Graph, usize, usize) -> usize,
    a: &[f64],
    b: &[f64],
    binary: bool,
) {
    let mut g = graph();
    let x = g.leaf(mat(&[a]));
    let y = g.leaf(mat(&[b]));
    let out = build(&mut g, x, y);
    let shape = value(&g, out).raw_dim();
    g.set_grad(out, to_matrix(&Array2::from_elem(shape, 1.0)));
    g.backward(out);
    for cell in 0..a.len() {
        let numeric = finite_difference(build, a, b, true, cell);
        assert!((grad(&g, x)[[0, cell]] - numeric).abs() < 1e-6);
    }
    if binary {
        for cell in 0..b.len() {
            let numeric = finite_difference(build, a, b, false, cell);
            assert!((grad(&g, y)[[0, cell]] - numeric).abs() < 1e-6);
        }
    }
}

#[test]
fn local_derivatives_match_finite_differences() {
    let a = [0.7, 1.3, 2.1];
    let b = [1.9, 0.6, 1.1];
    check_against_finite_differences(&|g, x, y| g.add(x, y), &a, &b, true);
    check_against_finite_differences(&|g, x, y| g.sub(x, y), &a, &b, true);
    check_against_finite_differences(&|g, x, y| g.div(x, y), &a, &b, true);
    check_against_finite_differences(&|g, x, _| g.neg(x), &a, &b, false);
    check_against_finite_differences(&|g, x, _| g.pow(x, 2.5f64.to_bits()), &a, &b, false);
    check_against_finite_differences(&|g, x, _| g.log(x), &a, &b, false);
    check_against_finite_differences(&|g, x, _| g.exp(x), &a, &b, false);
    check_against_finite_differences(&|g, x, _| g.tanh(x), &a, &b, false);
    check_against_finite_differences(&|g, x, _| g.relu(x), &a, &b, false);
    check_against_finite_differences(&|g, x, _| g.relu(x), &[-0.7, -1.3, 2.1], &b, false);
}

#[test]
fn matrix_product_derivative_matches_finite_differences() {
    // a is 1 x 3 and b is 3 x 1 here: y = a . b
    let a = [0.7, 1.3, 2.1];
    let b = [1.9, 0.6, 1.1];
    let build = |g: &mut Graph, x: usize, y: usize| {
        let column = to_matrix(&to_array(&g.value(y)).t().to_owned());
        let yt = g.leaf(column);
        g.mul(x, yt)
    };
    let mut g = graph();
    let x = g.leaf(mat(&[&a[..]]));
    let y = g.leaf(mat(&[&b[..]]));
    let out = build(&mut g, x, y);
    g.set_grad(out, mat(&[&[1.0]]));
    g.backward(out);
    for cell in 0..3 {
        let numeric = finite_difference(&build, &a, &b, true, cell);
        assert!((grad(&g, x)[[0, cell]] - numeric).abs() < 1e-6);
        let numeric = finite_difference(&build, &a, &b, false, cell);
        assert!((grad(&g, out - 1)[[cell, 0]] - numeric).abs() < 1e-6);
    }
}

#[test]
fn matrix_from_vec_checks_the_number_of_cells() {
    assert!(Matrix::from_vec(2, 3, vec![0; 6]).is_some());
    assert!(Matrix::from_vec(2, 3, vec![0; 5]).is_none());
    assert!(Matrix::from_vec(2, 3, vec![0; 7]).is_none());
    assert!(Matrix::from_vec(0, 3, vec![]).is_some());
    assert!(Matrix::from_vec(usize::MAX, 2, vec![]).is_none());
    assert!(Matrix::from_vec(usize::MAX, 0, vec![]).is_some());
    let m = Matrix::from_vec(2, 3, vec![1, 2, 3, 4, 5, 6]).unwrap();
    assert_eq!(m.rows(), 2);
    assert_eq!(m.cols(), 3);
    assert_eq!(m.get(0, 0), 1);
    assert_eq!(m.get(0, 2), 3);
    assert_eq!(m.get(1, 0), 4);
    assert_eq!(m.get(1, 2), 6);
    assert_eq!(m.words(), vec![1, 2, 3, 4, 5, 6]);
    assert_eq!(m.clone().words(), m.words());
}

#[test]
fn matrix_transpose_exchanges_rows_and_columns() {
    let m = Matrix::from_vec(2, 3, vec![1, 2, 3, 4, 5, 6]).unwrap();
    let t = m.transpose();
    assert_eq!(t.rows(), 3);
    assert_eq!(t.cols(), 2);
    assert_eq!(t.words(), vec![1, 4, 2, 5, 3, 6]);
    assert_eq!(t.transpose().words(), m.words());
    let empty = Matrix::from_vec(0, 4, vec![]).unwrap().transpose();
    assert_eq!((empty.rows(), empty.cols()), (4, 0));
    assert!(m.same_shape(&t.transpose()));
    assert!(!m.same_shape(&t));
}

#[test]
fn matrix_zeros_and_scalar() {
    let z = Matrix::zeros(3, 2);
    assert_eq!((z.rows(), z.cols()), (3, 2));
    assert_eq!(z.words(), vec![0u64; 6]);
    assert!(to_array(&z).iter().all(|x| *x == 0.0 && x.is_sign_positive()));
    let s = Matrix::scalar(ONE);
    assert!(s.is_scalar());
    assert!(!z.is_scalar());
    assert_eq!(to_array(&s), arr(&[&[1.0]]));
}

#[test]
fn words_of_counts_are_their_binary64_encodings() {
    assert_eq!(f64::from_bits(ZERO), 0.0);
    assert_eq!(f64::from_bits(ONE), 1.0);
    assert_eq!(f64::from_bits(TWO), 2.0);
    let counts = [
        0u64,
        1,
        2,
        3,
        4,
        7,
        10,
        255,
        256,
        1000,
        (1 << 32) + 1,
        (1 << 52) - 1,
        1 << 52,
        (1 << 52) + 1,
        (1 << 53) - 1,
    ];
    for n in counts {
        assert_eq!(word_of_count(n), (n as f64).to_bits());
    }
}
