use vstd::prelude::*;

verus! {

/// The mathematical content of a matrix: its shape and its cells in row-major order.
///
/// A cell is a 64-bit word. The engine never interprets a word; it stores words,
/// moves them, and hands them to the arithmetic kernel it was built with. By
/// convention a word is the bit pattern of an IEEE-754 binary64 number, so the
/// all-zero word is the number zero.
pub struct Grid {
    pub rows: nat,
    pub cols: nat,
    pub cells: Seq<u64>,
}

impl Grid {
    /// The cells fill the shape exactly.
    pub open spec fn wf(self) -> bool {
        self.cells.len() == self.rows * self.cols
    }

    /// The grid is well formed and small enough to be held in memory.
    pub open spec fn storable(self) -> bool {
        self.wf() && self.rows * self.cols <= usize::MAX
    }

    /// Both grids have the same number of rows and of columns.
    pub open spec fn same_shape(self, other: Grid) -> bool {
        self.rows == other.rows && self.cols == other.cols
    }

    /// The cell in row `i` and column `j`.
    pub open spec fn at(self, i: int, j: int) -> u64 {
        self.cells[i * self.cols + j]
    }

    /// The grid of the given shape whose every cell is the zero word.
    pub open spec fn zeros(rows: nat, cols: nat) -> Grid {
        Grid { rows, cols, cells: Seq::new(rows * cols, |k: int| 0u64) }
    }

    /// The one-by-one grid that holds `word`.
    pub open spec fn scalar(word: u64) -> Grid {
        Grid { rows: 1, cols: 1, cells: seq![word] }
    }

    /// Whether this is a one-by-one grid.
    pub open spec fn is_scalar(self) -> bool {
        self.rows == 1 && self.cols == 1
    }

    /// Rows and columns exchanged: cell `(j, i)` of the result is cell `(i, j)` of `self`.
    pub open spec fn transpose(self) -> Grid {
        Grid {
            rows: self.cols,
            cols: self.rows,
            cells: Seq::new(
                self.rows * self.cols,
                |k: int|
                    if self.rows > 0 {
                        self.at(k % (self.rows as int), k / (self.rows as int))
                    } else {
                        0u64
                    },
            ),
        }
    }
}

/// `i * cols + j` is a valid row-major offset whenever `(i, j)` lies inside the shape.
pub proof fn lemma_offset_in_bounds(rows: int, cols: int, i: int, j: int)
    requires
        0 <= i < rows,
        0 <= j < cols,
    ensures
        0 <= i * cols + j < rows * cols,
        (i * cols + j) / cols == i,
        (i * cols + j) % cols == j,
{
    assert(0 <= i * cols && i * cols + cols <= rows * cols) by (nonlinear_arith)
        requires
            0 <= i < rows,
            0 <= cols,
    ;
    vstd::arithmetic::div_mod::lemma_fundamental_div_mod_converse(i * cols + j, cols, i, j);
}

/// Transposing twice gives the grid back.
pub proof fn lemma_transpose_involutive(g: Grid)
    requires
        g.wf(),
    ensures
        g.transpose().transpose() == g,
{
    let t = g.transpose();
    let tt = t.transpose();
    assert(g.rows * g.cols == g.cols * g.rows) by (nonlinear_arith);
    assert(tt.cells.len() == g.cells.len());
    assert forall|k: int| 0 <= k < g.cells.len() implies tt.cells[k] == g.cells[k] by {
        let r = g.rows as int;
        let c = g.cols as int;
        assert(r > 0 && c > 0) by (nonlinear_arith)
            requires
                0 <= k < r * c,
                r >= 0,
                c >= 0,
        ;
        // In `t` (shape c x r) the cell k of `tt` is t.at(k % c, k / c).
        let i = k / c;
        let j = k % c;
        vstd::arithmetic::div_mod::lemma_fundamental_div_mod(k, c);
        assert(0 <= j < c);
        assert(0 <= i < r) by (nonlinear_arith)
            requires
                0 <= k < r * c,
                k == c * i + j,
                0 <= j < c,
                c > 0,
        ;
        assert(c * i == i * c) by (nonlinear_arith);
        // t.at(j, i) = t.cells[j * r + i]
        lemma_offset_in_bounds(c, r, j, i);
        let m = j * r + i;
        assert(t.cells[m] == g.at(m % r, m / r));
        assert(m % r == i && m / r == j);
    }
    assert(tt.cells =~= g.cells);
}

/// A rectangular matrix of 64-bit words, stored row by row.
#[derive(Debug)]
pub struct Matrix {
    rows: usize,
    cols: usize,
    data: Vec<u64>,
}

impl View for Matrix {
    type V = Grid;

    closed spec fn view(&self) -> Grid {
        Grid { rows: self.rows as nat, cols: self.cols as nat, cells: self.data@ }
    }
}

impl Clone for Matrix {
    fn clone(&self) -> (r: Self)
        ensures
            r@ == self@,
    {
        let data = self.data.clone();
        assert(data@ =~= self.data@);
        Matrix { rows: self.rows, cols: self.cols, data }
    }
}

impl Matrix {
    /// The stored words fill the shape exactly.
    pub open spec fn wf(&self) -> bool {
        self@.storable()
    }

    /// Builds a matrix from its shape and its cells in row-major order.
    /// Fails exactly when the number of cells is not `rows * cols`.
    pub fn from_vec(rows: usize, cols: usize, data: Vec<u64>) -> (r: Option<Matrix>)
        ensures
            r.is_some() <==> data@.len() == rows * cols,
            r.is_some() ==> r.unwrap()@ == (Grid {
                rows: rows as nat,
                cols: cols as nat,
                cells: data@,
            }),
            r.is_some() ==> r.unwrap().wf(),
    {
        let len: usize = data.len();
        match rows.checked_mul(cols) {
            Some(n) => {
                if n == len {
                    Some(Matrix { rows, cols, data })
                } else {
                    None
                }
            },
            None => None,
        }
    }

    /// The matrix of the given shape whose every cell is the zero word.
    pub fn zeros(rows: usize, cols: usize) -> (r: Matrix)
        requires
            rows * cols <= usize::MAX,
        ensures
            r@ == Grid::zeros(rows as nat, cols as nat),
            r.wf(),
    {
        let n: usize = rows * cols;
        let mut data: Vec<u64> = Vec::new();
        let mut k: usize = 0;
        while k < n
            invariant
                k <= n,
                data@.len() == k,
                forall|t: int| 0 <= t < k ==> data@[t] == 0u64,
            decreases n - k,
        {
            data.push(0u64);
            k += 1;
        }
        assert(data@ =~= Grid::zeros(rows as nat, cols as nat).cells);
        Matrix { rows, cols, data }
    }

    /// The one-by-one matrix that holds `word`.
    pub fn scalar(word: u64) -> (r: Matrix)
        ensures
            r@ == Grid::scalar(word),
            r.wf(),
    {
        let mut data: Vec<u64> = Vec::new();
        data.push(word);
        assert(data@ =~= seq![word]);
        Matrix { rows: 1, cols: 1, data }
    }

    /// The number of rows.
    pub fn rows(&self) -> (r: usize)
        ensures
            r == self@.rows,
    {
        self.rows
    }

    /// The number of columns.
    pub fn cols(&self) -> (r: usize)
        ensures
            r == self@.cols,
    {
        self.cols
    }

    /// Whether both matrices have the same shape.
    pub fn same_shape(&self, other: &Matrix) -> (r: bool)
        ensures
            r == self@.same_shape(other@),
    {
        self.rows == other.rows && self.cols == other.cols
    }

    /// Whether this is a one-by-one matrix.
    pub fn is_scalar(&self) -> (r: bool)
        ensures
            r == self@.is_scalar(),
    {
        self.rows == 1 && self.cols == 1
    }

    /// The word in row `i` and column `j`.
    pub fn get(&self, i: usize, j: usize) -> (r: u64)
        requires
            self.wf(),
            i < self@.rows,
            j < self@.cols,
        ensures
            r == self@.at(i as int, j as int),
    {
        let len: usize = self.data.len();
        proof {
            lemma_offset_in_bounds(self.rows as int, self.cols as int, i as int, j as int);
            assert(i * self.cols + j < len);
        }
        self.data[i * self.cols + j]
    }

    /// A copy of the cells in row-major order.
    pub fn words(&self) -> (r: Vec<u64>)
        ensures
            r@ == self@.cells,
    {
        let r = self.data.clone();
        assert(r@ =~= self.data@);
        r
    }

    /// The transposed matrix.
    pub fn transpose(&self) -> (r: Matrix)
        requires
            self.wf(),
        ensures
            r@ == self@.transpose(),
            r.wf(),
    {
        let n: usize = self.data.len();
        let mut data: Vec<u64> = Vec::new();
        let mut j: usize = 0;
        proof {
            assert(self.rows * self.cols == self.cols * self.rows) by (nonlinear_arith);
        }
        while j < self.cols
            invariant
                self.wf(),
                n == self.rows * self.cols,
                n == self.cols * self.rows,
                n == self.data@.len(),
                j <= self.cols,
                data@.len() == j * self.rows,
                forall|k: int|
                    0 <= k < data@.len() ==> data@[k] == self@.at(
                        k % (self.rows as int),
                        k / (self.rows as int),
                    ),
            decreases self.cols - j,
        {
            let mut i: usize = 0;
            while i < self.rows
                invariant
                    self.wf(),
                    n == self.rows * self.cols,
                    n == self.cols * self.rows,
                    n == self.data@.len(),
                    j < self.cols,
                    i <= self.rows,
                    data@.len() == j * self.rows + i,
                    forall|k: int|
                        0 <= k < data@.len() ==> data@[k] == self@.at(
                            k % (self.rows as int),
                            k / (self.rows as int),
                        ),
                decreases self.rows - i,
            {
                proof {
                    lemma_offset_in_bounds(
                        self.rows as int,
                        self.cols as int,
                        i as int,
                        j as int,
                    );
                    lemma_offset_in_bounds(
                        self.cols as int,
                        self.rows as int,
                        j as int,
                        i as int,
                    );
                }
                data.push(self.data[i * self.cols + j]);
                i += 1;
            }
            proof {
                assert(j * self.rows + self.rows == (j + 1) * self.rows) by (nonlinear_arith);
            }
            j += 1;
        }
        proof {
            assert(j == self.cols);
            assert(data@.len() == self.cols * self.rows);
            assert(data@ =~= self@.transpose().cells);
        }
        Matrix { rows: self.cols, cols: self.rows, data }
    }
}

} // verus!
