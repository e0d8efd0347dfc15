//! Inverts matrices.
use vstd::prelude::*;

use crate::error::{Error, ErrorView};
use crate::host::{
    binary, float_is_zero, is_zero, numerics, well_behaved, Arith, Numerics, Reply, Request,
    MINUS_ONE,
};
use crate::matrix::{lemma_cell_index, Matrix, MatrixView};
use crate::standard::determinant::{determinant, Determinant};
use crate::standard::get_minors::{minor, GetMinors};
use crate::standard::transpose::{lemma_split_index, transposed, Transpose};

verus! {

/// Inverts a square matrix.
#[derive(Clone, Copy)]
pub struct Invert;

/// The cell in row `i` and column `j` of the matrix of cofactors of `m`,
/// divided by `d`: the determinant of `m` without that row and column, with
/// its sign changed where `i + j` is odd.
pub open spec fn cofactor(m: MatrixView, n: Numerics, i: int, j: int, d: u64) -> u64 {
    let below = determinant(minor(m, i, j), n);
    let signed = if (i + j) % 2 != 0 {
        (n.binary)(Arith::Mul, below, MINUS_ONE)
    } else {
        below
    };
    (n.binary)(Arith::Div, signed, d)
}

/// The matrix of the cofactors of `m`, each divided by the determinant of `m`.
pub open spec fn cofactors(m: MatrixView, n: Numerics) -> MatrixView {
    MatrixView {
        rows: m.rows,
        cols: m.cols,
        vals: Seq::new(
            m.vals.len(),
            |k: int|
                cofactor(m, n, k / (m.cols as int), k % (m.cols as int), determinant(m, n)),
        ),
    }
}

/// The inverse of a square matrix by the adjugate: the transpose of its
/// cofactors over its determinant.
pub open spec fn inverse(m: MatrixView, n: Numerics) -> MatrixView {
    transposed(cofactors(m, n))
}

/// The inverse of `m`, where `m` is square and its determinant is not zero.
pub open spec fn inverted(m: MatrixView, n: Numerics) -> Result<MatrixView, ErrorView> {
    if m.rows != m.cols {
        Err(ErrorView::SquareMatrixRequired)
    } else if is_zero(determinant(m, n)) {
        Err(ErrorView::DividedByZero)
    } else {
        Ok(inverse(m, n))
    }
}

impl Invert {
    /// The inverse of a square matrix.
    ///
    /// Fails with `SquareMatrixRequired` where the matrix is not square, and
    /// with `DividedByZero` where its determinant is zero.
    pub fn evalpure<H: Fn(Request) -> Reply>(matrix: &Matrix, host: &H) -> (outcome: Result<
        Matrix,
        Error,
    >)
        requires
            matrix@.shaped(),
            well_behaved(host),
        ensures
            crate::matrix::agrees(outcome, inverted(matrix@, numerics(host))),
            outcome matches Ok(r) ==> r@.shaped(),
    {
        let rows = matrix.rows();
        let cols = matrix.cols();
        let ghost m = matrix@;
        let ghost n = numerics(host);
        // Compute the determinant of the input matrix
        let whole_det = match Determinant::evalpure(matrix, host) {
            Ok(d) => d,
            Err(e) => {
                return Err(e);
            },
        };
        if float_is_zero(whole_det) {
            return Err(Error::DividedByZero);
        }
        let mut output: Vec<u64> = Vec::new();
        let mut i: usize = 0;
        while i < rows
            invariant
                m == matrix@,
                n == numerics(host),
                well_behaved(host),
                m.shaped(),
                rows == m.rows,
                cols == m.cols,
                rows == cols,
                whole_det == determinant(m, n),
                i <= rows,
                output.len() == i * cols,
                forall|k: int| 0 <= k < output.len() ==> output[k] == cofactors(m, n).vals[k],
            decreases rows - i,
        {
            let mut j: usize = 0;
            while j < cols
                invariant
                    m == matrix@,
                    n == numerics(host),
                    well_behaved(host),
                    m.shaped(),
                    rows == m.rows,
                    cols == m.cols,
                    rows == cols,
                    whole_det == determinant(m, n),
                    i < rows,
                    j <= cols,
                    output.len() == i * cols + j,
                    forall|k: int| 0 <= k < output.len() ==> output[k] == cofactors(m, n).vals[k],
                decreases cols - j,
            {
                proof {
                    lemma_split_index(cols as int, i as int, j as int);
                    lemma_cell_index(rows as int, cols as int, i as int, j as int);
                    assert(i + j < rows * cols) by (nonlinear_arith)
                        requires
                            0 <= i < rows,
                            0 <= j < cols,
                    ;
                    matrix.lemma_len_fits();
                }
                // The determinant of the matrix of minors of this cell
                let matrix_of_minors = GetMinors::evalpure(matrix, i, j);
                let det = match Determinant::evalpure(&matrix_of_minors, host) {
                    Ok(d) => d,
                    Err(e) => {
                        return Err(e);
                    },
                };
                // If `i + j` is odd, multiply the value by -1
                let signed = if (i + j) % 2 != 0 {
                    binary(host, Arith::Mul, det, MINUS_ONE)
                } else {
                    det
                };
                // Divide by the determinant of the whole matrix
                output.push(binary(host, Arith::Div, signed, whole_det));
                j += 1;
            }
            assert((i + 1) * cols == i * cols + cols) by (nonlinear_arith);
            i += 1;
        }
        assert(output@ =~= cofactors(m, n).vals);
        // Transpose the matrix
        Ok(Transpose::evalpure(&Matrix::new(rows, cols, output)))
    }
}

} // verus!
