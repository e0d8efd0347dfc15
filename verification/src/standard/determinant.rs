//! Computes matrix determinants.
use vstd::prelude::*;

use crate::error::{Error, ErrorView};
use crate::host::{
    binary, numerics, well_behaved, Arith, Numerics, Reply, Request, MINUS_ONE, ONE, ZERO,
};
use crate::matrix::{Matrix, MatrixView};
use crate::standard::get_minors::{minor, GetMinors};

verus! {

/// Computes the determinant of a square matrix.
#[derive(Clone, Copy)]
pub struct Determinant;

/// The sign of the term of row `i` in an expansion down the first column.
pub open spec fn sign_of(i: int) -> u64 {
    if i % 2 == 0 {
        ONE
    } else {
        MINUS_ONE
    }
}

/// The determinant of a square matrix.
///
/// One for the matrix without cells, the cell of a matrix of one cell,
/// `ad - bc` for two rows, and for more the expansion down the first column.
pub open spec fn determinant(m: MatrixView, n: Numerics) -> u64
    decreases m.rows, m.rows + 1,
{
    if m.rows == 0 {
        ONE
    } else if m.rows == 1 {
        m.vals[0]
    } else if m.rows == 2 {
        (n.binary)(
            Arith::Sub,
            (n.binary)(Arith::Mul, m.cell(0, 0), m.cell(1, 1)),
            (n.binary)(Arith::Mul, m.cell(1, 0), m.cell(0, 1)),
        )
    } else {
        expansion(m, n, m.rows as int)
    }
}

/// The sum of the first `count` terms of the expansion of `m` down its first
/// column: each the cell of a row, times the determinant of the matrix without
/// that row and the first column, times the sign of the row.
pub open spec fn expansion(m: MatrixView, n: Numerics, count: int) -> u64
    decreases m.rows, count,
{
    if 0 < count <= m.rows {
        let i = count - 1;
        let term = (n.binary)(
            Arith::Mul,
            (n.binary)(Arith::Mul, m.cell(i, 0), determinant(minor(m, i, 0), n)),
            sign_of(i),
        );
        (n.binary)(Arith::Add, expansion(m, n, i), term)
    } else {
        ZERO
    }
}

/// The determinant of the one argument, as a matrix of one cell.
pub open spec fn determinant_of(args: Seq<MatrixView>, n: Numerics) -> Result<
    MatrixView,
    ErrorView,
> {
    if args.len() != 1 {
        Err(ErrorView::WrongNumberOfArgs)
    } else if args[0].rows != args[0].cols {
        Err(ErrorView::SquareMatrixRequired)
    } else {
        Ok(MatrixView { rows: 1, cols: 1, vals: seq![determinant(args[0], n)] })
    }
}

impl Determinant {
    /// The determinant of a square matrix.
    ///
    /// Fails with `SquareMatrixRequired` where the matrix is not square.
    pub fn evalpure<H: Fn(Request) -> Reply>(matrix: &Matrix, host: &H) -> (outcome: Result<
        u64,
        Error,
    >)
        requires
            matrix@.shaped(),
            well_behaved(host),
        ensures
            outcome == if matrix@.rows == matrix@.cols {
                Ok::<u64, Error>(determinant(matrix@, numerics(host)))
            } else {
                Err::<u64, Error>(Error::SquareMatrixRequired)
            },
        decreases matrix@.rows,
    {
        if matrix.rows() != matrix.cols() {
            return Err(Error::SquareMatrixRequired);
        }
        let dim = matrix.rows();
        let ghost m = matrix@;
        let ghost n = numerics(host);
        if dim == 0 {
            Ok(ONE)
        } else if dim == 1 {
            Ok(matrix.at(0, 0))
        } else if dim == 2 {
            let ad = binary(host, Arith::Mul, matrix.at(0, 0), matrix.at(1, 1));
            let cb = binary(host, Arith::Mul, matrix.at(1, 0), matrix.at(0, 1));
            Ok(binary(host, Arith::Sub, ad, cb))
        } else {
            let mut d: u64 = ZERO;
            let mut sign: u64 = ONE;
            let mut i: usize = 0;
            // Laplace-expand the matrix down the first column
            while i < dim
                invariant
                    m == matrix@,
                    n == numerics(host),
                    well_behaved(host),
                    m.shaped(),
                    dim == m.rows,
                    dim == m.cols,
                    dim >= 3,
                    i <= dim,
                    sign == sign_of(i as int),
                    d == expansion(m, n, i as int),
                decreases dim - i,
            {
                let minors = GetMinors::evalpure(matrix, i, 0);
                let sub = match Determinant::evalpure(&minors, host) {
                    Ok(sub) => sub,
                    Err(e) => {
                        return Err(e);
                    },
                };
                let term = binary(
                    host,
                    Arith::Mul,
                    binary(host, Arith::Mul, matrix.at(i, 0), sub),
                    sign,
                );
                d = binary(host, Arith::Add, d, term);
                if sign == ONE {
                    sign = MINUS_ONE;
                } else {
                    sign = ONE;
                }
                i += 1;
            }
            Ok(d)
        }
    }
}

} // verus!
