//! Defines dot products on vectors.
use vstd::prelude::*;

use crate::error::{Error, ErrorView};
use crate::host::{binary, numerics, well_behaved, Arith, Numerics, Reply, Request};
use crate::matrix::{agrees, Matrix, MatrixView};

verus! {

/// The dot product of two vectors of three numbers.
#[derive(Clone, Copy)]
pub struct Dot;

/// Both matrices hold three values and have the same shape.
pub open spec fn are_vectors(a: MatrixView, b: MatrixView) -> bool {
    a.vals.len() == 3 && b.vals.len() == 3 && a.rows == b.rows && a.cols == b.cols
}

/// The sum of the products of the values of two vectors, pair by pair, added
/// from left to right.
pub open spec fn dot_product(a: Seq<u64>, b: Seq<u64>, n: Numerics) -> u64 {
    (n.binary)(
        Arith::Add,
        (n.binary)(
            Arith::Add,
            (n.binary)(Arith::Mul, a[0], b[0]),
            (n.binary)(Arith::Mul, a[1], b[1]),
        ),
        (n.binary)(Arith::Mul, a[2], b[2]),
    )
}

/// The dot product of two vectors of three numbers, as a matrix of one cell.
pub open spec fn dot_of(a: MatrixView, b: MatrixView, n: Numerics) -> Result<MatrixView, ErrorView> {
    if are_vectors(a, b) {
        Ok(MatrixView { rows: 1, cols: 1, vals: seq![dot_product(a.vals, b.vals, n)] })
    } else {
        Err(ErrorView::ImproperDimensions)
    }
}

impl Dot {
    /// The dot product of two vectors of three numbers.
    ///
    /// Fails with `ImproperDimensions` where one of them does not hold three
    /// values or their shapes differ.
    pub fn evalpure<H: Fn(Request) -> Reply>(vec1: &Matrix, vec2: &Matrix, host: &H) -> (outcome:
        Result<Matrix, Error>)
        requires
            well_behaved(host),
        ensures
            agrees(outcome, dot_of(vec1@, vec2@, numerics(host))),
            outcome matches Ok(r) ==> r@.shaped(),
    {
        let a = vec1.vals();
        let b = vec2.vals();
        if a.len() != 3 || b.len() != 3 || vec1.rows() != vec2.rows() || vec1.cols()
            != vec2.cols() {
            return Err(Error::ImproperDimensions);
        }
        let first = binary(host, Arith::Mul, a[0], b[0]);
        let second = binary(host, Arith::Mul, a[1], b[1]);
        let third = binary(host, Arith::Mul, a[2], b[2]);
        let sum = binary(host, Arith::Add, binary(host, Arith::Add, first, second), third);
        let mut output: Vec<u64> = Vec::new();
        output.push(sum);
        assert(output@ == seq![sum]);
        Ok(Matrix::new(1, 1, output))
    }
}

} // verus!
