//! Matrices of numbers, as the built-in functions take and return them.
use vstd::prelude::*;

use crate::error::{Error, ErrorView};
use crate::host::{binary, numerics, well_behaved, Arith, Numerics, Reply, Request};

verus! {

/// A matrix of binary64 numbers, each held as its bit pattern, row by row.
#[derive(Debug)]
pub struct Matrix {
    rows: usize,
    cols: usize,
    vals: Vec<u64>,
}

/// A matrix as a plain value.
pub struct MatrixView {
    pub rows: usize,
    pub cols: usize,
    pub vals: Seq<u64>,
}

impl MatrixView {
    /// The matrix holds one value for each of its cells.
    pub open spec fn shaped(self) -> bool {
        self.vals.len() == self.rows * self.cols
    }

    /// The value in row `i` and column `j`.
    pub open spec fn cell(self, i: int, j: int) -> u64 {
        self.vals[i * self.cols + j]
    }
}

/// The matrix without cells.
pub open spec fn empty_matrix() -> MatrixView {
    MatrixView { rows: 0, cols: 0, vals: Seq::empty() }
}

/// The cell in row `i` and column `j` lies among the `rows * cols` values.
pub proof fn lemma_cell_index(rows: int, cols: int, i: int, j: int)
    requires
        0 <= i < rows,
        0 <= j < cols,
    ensures
        0 <= i * cols + j < rows * cols,
{
    assert(i * cols + j < rows * cols) by (nonlinear_arith)
        requires
            0 <= i < rows,
            0 <= j < cols,
    ;
    assert(0 <= i * cols) by (nonlinear_arith)
        requires
            0 <= i,
            0 <= cols,
    ;
}

/// Each cell of a matrix has a position of its own among the values.
pub proof fn lemma_cell_of_index(cols: int, k: int)
    requires
        0 < cols,
        0 <= k,
    ensures
        k == (k / cols) * cols + (k % cols),
        0 <= k % cols < cols,
        0 <= k / cols,
{
    vstd::arithmetic::div_mod::lemma_fundamental_div_mod(k, cols);
    assert((k / cols) * cols == cols * (k / cols)) by (nonlinear_arith);
    vstd::arithmetic::div_mod::lemma_div_pos_is_pos(k, cols);
}

impl View for Matrix {
    type V = MatrixView;

    closed spec fn view(&self) -> MatrixView {
        MatrixView { rows: self.rows, cols: self.cols, vals: self.vals@ }
    }
}

impl Clone for Matrix {
    fn clone(&self) -> (copy: Self)
        ensures
            copy@ == self@,
    {
        Matrix { rows: self.rows, cols: self.cols, vals: self.copy_vals() }
    }
}

impl Matrix {
    /// A matrix holds no more values than a vector can.
    pub proof fn lemma_len_fits(&self)
        ensures
            self@.vals.len() <= usize::MAX,
    {
        assert(self.vals@.len() == self.vals.len());
    }

    /// Constructs a new matrix.
    pub fn new(rows: usize, cols: usize, vals: Vec<u64>) -> (matrix: Self)
        ensures
            matrix@ == (MatrixView { rows, cols, vals: vals@ }),
    {
        Self { rows, cols, vals }
    }

    /// The matrix without cells.
    pub fn empty() -> (matrix: Self)
        ensures
            matrix@ == empty_matrix(),
    {
        Self { rows: 0, cols: 0, vals: Vec::new() }
    }

    /// Multiplies the given matrix by the given scalar, returning a new matrix.
    pub fn scalar_multiply<H: Fn(Request) -> Reply>(&self, scalar: u64, host: &H) -> (product: Self)
        requires
            well_behaved(host),
        ensures
            product@.rows == self@.rows,
            product@.cols == self@.cols,
            product@.vals == self@.vals.map_values(
                |x: u64| (numerics(host).binary)(Arith::Mul, scalar, x),
            ),
    {
        let mut vals: Vec<u64> = Vec::new();
        let mut i: usize = 0;
        while i < self.vals.len()
            invariant
                well_behaved(host),
                i <= self.vals.len(),
                vals.len() == i,
                forall|k: int|
                    0 <= k < i ==> vals[k] == (numerics(host).binary)(
                        Arith::Mul,
                        scalar,
                        self.vals[k],
                    ),
            decreases self.vals.len() - i,
        {
            vals.push(binary(host, Arith::Mul, scalar, self.vals[i]));
            i += 1;
        }
        assert(vals@ =~= self@.vals.map_values(
            |x: u64| (numerics(host).binary)(Arith::Mul, scalar, x),
        ));
        Self { rows: self.rows, cols: self.cols, vals }
    }

    /// Gets the number of rows of the matrix.
    pub fn rows(&self) -> (rows: usize)
        ensures
            rows == self@.rows,
    {
        self.rows
    }

    /// Gets the number of columns of the matrix.
    pub fn cols(&self) -> (cols: usize)
        ensures
            cols == self@.cols,
    {
        self.cols
    }

    /// Copies the values of the matrix.
    pub fn copy_vals(&self) -> (vals: Vec<u64>)
        ensures
            vals@ == self@.vals,
    {
        let mut vals: Vec<u64> = Vec::new();
        let mut i: usize = 0;
        while i < self.vals.len()
            invariant
                i <= self.vals.len(),
                vals@ == self.vals@.subrange(0, i as int),
            decreases self.vals.len() - i,
        {
            vals.push(self.vals[i]);
            i += 1;
            assert(self.vals@.subrange(0, i as int) == self.vals@.subrange(0, i - 1).push(
                self.vals@[i - 1],
            ));
        }
        assert(self.vals@.subrange(0, self.vals.len() as int) == self.vals@);
        vals
    }

    /// Gets the values of the matrix.
    pub fn vals(&self) -> (vals: &Vec<u64>)
        ensures
            vals@ == self@.vals,
    {
        &self.vals
    }

    /// Gets the values of the matrix, with mutable permission.
    pub fn vals_mut(&mut self) -> (vals: &mut Vec<u64>)
        ensures
            vals@ == old(self)@.vals,
            final(self)@ == (MatrixView { vals: final(vals)@, ..old(self)@ }),
    {
        &mut self.vals
    }

    /// The value in row `i` and column `j`.
    pub fn at(&self, i: usize, j: usize) -> (value: u64)
        requires
            self@.shaped(),
            i < self@.rows,
            j < self@.cols,
        ensures
            value == self@.cell(i as int, j as int),
    {
        proof {
            lemma_cell_index(self.rows as int, self.cols as int, i as int, j as int);
            assert(self.vals.len() == self.rows * self.cols);
            assert(i * self.cols + j < self.vals.len());
        }
        self.vals[i * self.cols + j]
    }

    /// Puts `value` in row `i` and column `j`.
    pub fn set(&mut self, i: usize, j: usize, value: u64)
        requires
            old(self)@.shaped(),
            i < old(self)@.rows,
            j < old(self)@.cols,
        ensures
            final(self)@ == (MatrixView {
                vals: old(self)@.vals.update(i * old(self)@.cols + j, value),
                ..old(self)@
            }),
    {
        proof {
            lemma_cell_index(self.rows as int, self.cols as int, i as int, j as int);
            assert(self.vals.len() == self.rows * self.cols);
            assert(i * self.cols + j < self.vals.len());
        }
        let cols = self.cols;
        self.vals.set(i * cols + j, value);
    }

    /// Applies `op` to the cells of two matrices of one shape, pair by pair.
    fn pairwise<H: Fn(Request) -> Reply>(&self, other: &Self, op: Arith, host: &H) -> (outcome:
        Result<Self, Error>)
        requires
            well_behaved(host),
        ensures
            outcome matches Ok(m) ==> m@ == pairwise_of(self@, other@, op, numerics(host)),
            outcome is Ok <==> same_shape(self@, other@),
            outcome matches Err(e) ==> e == Error::ImproperDimensions,
    {
        if self.rows != other.rows || self.cols != other.cols || self.vals.len()
            != other.vals.len() {
            return Err(Error::ImproperDimensions);
        }
        let mut vals: Vec<u64> = Vec::new();
        let mut i: usize = 0;
        while i < self.vals.len()
            invariant
                well_behaved(host),
                self.vals.len() == other.vals.len(),
                i <= self.vals.len(),
                vals.len() == i,
                forall|k: int|
                    0 <= k < i ==> vals[k] == (numerics(host).binary)(
                        op,
                        self.vals[k],
                        other.vals[k],
                    ),
            decreases self.vals.len() - i,
        {
            vals.push(binary(host, op, self.vals[i], other.vals[i]));
            i += 1;
        }
        let m = Self { rows: self.rows, cols: self.cols, vals };
        assert(m@.vals =~= pairwise_of(self@, other@, op, numerics(host)).vals);
        Ok(m)
    }

    /// Adds two matrices of one shape, cell by cell.
    ///
    /// Fails with `ImproperDimensions` where the shapes differ.
    pub fn add<H: Fn(Request) -> Reply>(&self, other: &Self, host: &H) -> (outcome: Result<
        Self,
        Error,
    >)
        requires
            well_behaved(host),
        ensures
            outcome matches Ok(m) ==> m@ == pairwise_of(self@, other@, Arith::Add, numerics(host)),
            outcome is Ok <==> same_shape(self@, other@),
            outcome matches Err(e) ==> e == Error::ImproperDimensions,
    {
        self.pairwise(other, Arith::Add, host)
    }

    /// Subtracts a matrix from another of the same shape, cell by cell.
    ///
    /// Fails with `ImproperDimensions` where the shapes differ.
    pub fn sub<H: Fn(Request) -> Reply>(&self, other: &Self, host: &H) -> (outcome: Result<
        Self,
        Error,
    >)
        requires
            well_behaved(host),
        ensures
            outcome matches Ok(m) ==> m@ == pairwise_of(self@, other@, Arith::Sub, numerics(host)),
            outcome is Ok <==> same_shape(self@, other@),
            outcome matches Err(e) ==> e == Error::ImproperDimensions,
    {
        self.pairwise(other, Arith::Sub, host)
    }
}

/// Two matrices have the same numbers of rows, columns and values.
pub open spec fn same_shape(a: MatrixView, b: MatrixView) -> bool {
    a.rows == b.rows && a.cols == b.cols && a.vals.len() == b.vals.len()
}

/// The matrix of the results of `op` on the cells of `a` and `b`, pair by pair.
pub open spec fn pairwise_of(a: MatrixView, b: MatrixView, op: Arith, n: Numerics) -> MatrixView {
    MatrixView {
        rows: a.rows,
        cols: a.cols,
        vals: Seq::new(a.vals.len(), |k: int| (n.binary)(op, a.vals[k], b.vals[k])),
    }
}

/// The matrices of a vector, as plain values.
pub open spec fn views(args: Seq<Matrix>) -> Seq<MatrixView> {
    Seq::new(args.len(), |i: int| args[i]@)
}

/// The result of a function is what its specification gives: the same
/// matrix, or the same error.
pub open spec fn agrees(outcome: Result<Matrix, Error>, wanted: Result<MatrixView, ErrorView>) -> bool {
    match outcome {
        Ok(m) => wanted == Ok::<MatrixView, ErrorView>(m@),
        Err(e) => wanted == Err::<MatrixView, ErrorView>(e@),
    }
}

} // verus!
