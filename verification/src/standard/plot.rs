//! Plots two lists of data (two vectors).
use vstd::prelude::*;

use crate::error::{Error, ErrorView};
use crate::host::{plot, well_behaved, Reply, Request};
use crate::matrix::{agrees, empty_matrix, Matrix, MatrixView};

verus! {

/// Hands two vectors to the host for drawing.
#[derive(Clone, Copy)]
pub struct Plt;

/// The result of a plot: the matrix without cells, where both vectors have
/// the same numbers of rows and columns.
pub open spec fn plot_of(a: MatrixView, b: MatrixView) -> Result<MatrixView, ErrorView> {
    if a.rows != b.rows || a.cols != b.cols {
        Err(ErrorView::ImproperDimensions)
    } else {
        Ok(empty_matrix())
    }
}

impl Plt {
    /// Asks the host to draw the values of two vectors of one shape against
    /// each other, and returns the matrix without cells.
    ///
    /// Fails with `ImproperDimensions`, and asks the host nothing, where the
    /// shapes differ.
    pub fn evalpure<H: Fn(Request) -> Reply>(vec1: &Matrix, vec2: &Matrix, host: &H) -> (outcome:
        Result<Matrix, Error>)
        requires
            well_behaved(host),
        ensures
            agrees(outcome, plot_of(vec1@, vec2@)),
            outcome matches Ok(r) ==> r@.shaped(),
    {
        if vec1.rows() != vec2.rows() || vec1.cols() != vec2.cols() {
            return Err(Error::ImproperDimensions);
        }
        plot(host, vec1.copy_vals(), vec2.copy_vals());
        Ok(Matrix::empty())
    }
}

} // verus!
