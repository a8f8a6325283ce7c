use vstd::prelude::*;
use crate::matrix::Grid;
use crate::matrix::Matrix;

verus! {

/// The matrix operations that the engine asks of its arithmetic kernel.
///
/// The engine decides which operation is applied to which operands and what
/// becomes of the result; the kernel alone knows what the words in a matrix
/// mean. The comments give the arithmetic each request stands for, with `x`
/// the first operand and `y` the second.
#[derive(Clone, Copy, Debug, PartialEq, Eq, Structural)]
pub enum Primitive {
    /// `x + y`, cell by cell.
    Add,
    /// `x - y`, cell by cell.
    Sub,
    /// `x / y`, cell by cell.
    Div,
    /// `x * y`, cell by cell.
    Hadamard,
    /// The matrix product of `x` and `y`.
    MatMul,
    /// `-x`.
    Neg,
    /// The natural logarithm of `x`, with `x` first raised to a small positive floor.
    Log,
    /// `e` to the power `x`.
    Exp,
    /// The hyperbolic tangent of `x`.
    Tanh,
    /// The larger of `x` and zero.
    Relu,
    /// `x * x`, cell by cell.
    Square,
    /// `1 - x * x`: the slope of the hyperbolic tangent, given its value.
    TanhSlope,
    /// One where `x` is positive, zero elsewhere.
    ReluMask,
    /// The square root of `x`.
    Sqrt,
    /// `x` to the power `y`, with `y` a single number.
    Pow,
    /// `y * x^(y - 1)`: the slope of the power, with `y` a single number.
    PowSlope,
    /// `x` times the single number `y`.
    Scale,
    /// `x` plus the single number `y`.
    Shift,
    /// `x` divided by the single number `y`.
    Shrink,
}

/// What an arithmetic kernel computes, as a mathematical function.
pub type Arithmetic = spec_fn(Primitive, Grid, Grid) -> Grid;

impl Primitive {
    /// The request takes one operand; the engine then passes it in both places.
    pub open spec fn is_unary(self) -> bool {
        match self {
            Primitive::Neg
            | Primitive::Log
            | Primitive::Exp
            | Primitive::Tanh
            | Primitive::Relu
            | Primitive::Square
            | Primitive::TanhSlope
            | Primitive::ReluMask
            | Primitive::Sqrt => true,
            _ => false,
        }
    }

    /// The request combines two operands of one shape, cell by cell.
    pub open spec fn is_cellwise(self) -> bool {
        match self {
            Primitive::Add | Primitive::Sub | Primitive::Div | Primitive::Hadamard => true,
            _ => false,
        }
    }

    /// The request takes a matrix and a single number.
    pub open spec fn is_scalar_form(self) -> bool {
        match self {
            Primitive::Pow
            | Primitive::PowSlope
            | Primitive::Scale
            | Primitive::Shift
            | Primitive::Shrink => true,
            _ => false,
        }
    }
}

/// The operands that a request may be made with.
pub open spec fn fits(p: Primitive, x: Grid, y: Grid) -> bool {
    &&& x.storable()
    &&& y.storable()
    &&& if p.is_cellwise() {
        x.same_shape(y)
    } else if p.is_unary() {
        y == x
    } else if p.is_scalar_form() {
        y.is_scalar()
    } else {
        x.cols == y.rows && x.rows * y.cols <= usize::MAX
    }
}

/// The number of rows of a request's result.
pub open spec fn result_rows(p: Primitive, x: Grid, y: Grid) -> nat {
    x.rows
}

/// The number of columns of a request's result.
pub open spec fn result_cols(p: Primitive, x: Grid, y: Grid) -> nat {
    if p == Primitive::MatMul {
        y.cols
    } else {
        x.cols
    }
}

/// What the engine demands of its kernel: it accepts every request whose
/// operands fit, it answers with a matrix of the shape the request calls for,
/// and it is deterministic, so that equal operands give equal results.
pub open spec fn lawful<K: Fn(Primitive, &Matrix, &Matrix) -> Matrix>(k: K) -> bool {
    &&& forall|p: Primitive, x: Matrix, y: Matrix|
        fits(p, x@, y@) ==> #[trigger] call_requires(k, (p, &x, &y))
    &&& forall|p: Primitive, x: Matrix, y: Matrix, r: Matrix|
        fits(p, x@, y@) && #[trigger] call_ensures(k, (p, &x, &y), r) ==> {
            &&& r.wf()
            &&& r@.rows == result_rows(p, x@, y@)
            &&& r@.cols == result_cols(p, x@, y@)
        }
    &&& forall|p: Primitive, x1: Matrix, y1: Matrix, r1: Matrix, x2: Matrix, y2: Matrix, r2: Matrix|
        x1@ == x2@ && y1@ == y2@ && #[trigger] call_ensures(k, (p, &x1, &y1), r1)
            && #[trigger] call_ensures(k, (p, &x2, &y2), r2) ==> r1@ == r2@
}

/// Whether `r` is what the kernel `k` answers to the request `p` on `x` and `y`.
pub open spec fn answers<K: Fn(Primitive, &Matrix, &Matrix) -> Matrix>(
    k: K,
    p: Primitive,
    x: Grid,
    y: Grid,
    r: Grid,
) -> bool {
    exists|mx: Matrix, my: Matrix, mr: Matrix|
        mx@ == x && my@ == y && mr@ == r && #[trigger] call_ensures(k, (p, &mx, &my), mr)
}

/// The function that a kernel computes.
pub closed spec fn arithmetic<K: Fn(Primitive, &Matrix, &Matrix) -> Matrix>(k: K) -> Arithmetic {
    |p: Primitive, x: Grid, y: Grid| choose|r: Grid| answers(k, p, x, y, r)
}

/// Makes one request of the kernel.
pub fn apply<K: Fn(Primitive, &Matrix, &Matrix) -> Matrix>(
    k: &K,
    p: Primitive,
    x: &Matrix,
    y: &Matrix,
) -> (r: Matrix)
    requires
        lawful(*k),
        fits(p, x@, y@),
    ensures
        r.wf(),
        r@.rows == result_rows(p, x@, y@),
        r@.cols == result_cols(p, x@, y@),
        r@ == arithmetic(*k)(p, x@, y@),
{
    let r = k(p, x, y);
    proof {
        assert(call_ensures(*k, (p, x, y), r));
        assert(answers(*k, p, x@, y@, r@));
        let c = choose|c: Grid| answers(*k, p, x@, y@, c);
        assert(answers(*k, p, x@, y@, c));
    }
    r
}

} // verus!
