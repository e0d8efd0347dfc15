//! Routh arrays for characteristic polynomials.
use vstd::prelude::*;

use crate::error::{Error, ErrorView};
use crate::matrix::{agrees, empty_matrix, Matrix, MatrixView};

verus! {

/// The Routh array of a polynomial, given as the row of its coefficients:
/// the matrix without cells, whatever the polynomial.
#[derive(Clone, Copy)]
pub struct Routh;

/// The Routh array of the polynomial whose coefficients are the one row of
/// `m`.
pub open spec fn routh_for(m: MatrixView) -> Result<MatrixView, ErrorView> {
    if m.rows != 1 {
        Err(ErrorView::RequiresUnitMatrix)
    } else {
        Ok(empty_matrix())
    }
}

impl Routh {
    /// The Routh array of a polynomial.
    ///
    /// Fails with `RequiresUnitMatrix` where the matrix has not one row.
    pub fn evalpure(matrix: &Matrix) -> (outcome: Result<Matrix, Error>)
        ensures
            agrees(outcome, routh_for(matrix@)),
    {
        if matrix.rows() != 1 {
            return Err(Error::RequiresUnitMatrix);
        }
        Ok(Matrix::empty())
    }
}

} // verus!
