//! Defines cross products on vectors.
use vstd::prelude::*;

use crate::error::{Error, ErrorView};
use crate::host::{binary, numerics, well_behaved, Arith, Numerics, Reply, Request};
use crate::matrix::{agrees, Matrix, MatrixView};
use crate::standard::dot::are_vectors;

verus! {

/// The cross product of two vectors of three numbers.
#[derive(Clone, Copy)]
pub struct Cross;

/// The difference of two products: `a * b - c * d`.
pub open spec fn difference(a: u64, b: u64, c: u64, d: u64, n: Numerics) -> u64 {
    (n.binary)(Arith::Sub, (n.binary)(Arith::Mul, a, b), (n.binary)(Arith::Mul, c, d))
}

/// The three values of the cross product of `a` and `b`.
pub open spec fn cross_product(a: Seq<u64>, b: Seq<u64>, n: Numerics) -> Seq<u64> {
    seq![
        difference(a[1], b[2], a[2], b[1], n),
        difference(a[2], b[0], a[0], b[2], n),
        difference(a[0], b[1], a[1], b[0], n),
    ]
}

/// The cross product of two vectors of three numbers, in their shape.
pub open spec fn cross_of(a: MatrixView, b: MatrixView, n: Numerics) -> Result<
    MatrixView,
    ErrorView,
> {
    if are_vectors(a, b) {
        Ok(MatrixView { rows: a.rows, cols: a.cols, vals: cross_product(a.vals, b.vals, n) })
    } else {
        Err(ErrorView::ImproperDimensions)
    }
}

impl Cross {
    /// The cross product of two vectors of three numbers.
    ///
    /// Fails with `ImproperDimensions` where one of them does not hold three
    /// values or their shapes differ.
    pub fn evalpure<H: Fn(Request) -> Reply>(vec1: &Matrix, vec2: &Matrix, host: &H) -> (outcome:
        Result<Matrix, Error>)
        requires
            well_behaved(host),
        ensures
            agrees(outcome, cross_of(vec1@, vec2@, numerics(host))),
            outcome matches Ok(r) ==> (r@.shaped() <==> vec1@.shaped()),
    {
        let a = vec1.vals();
        let b = vec2.vals();
        if a.len() != 3 || b.len() != 3 || vec1.rows() != vec2.rows() || vec1.cols()
            != vec2.cols() {
            return Err(Error::ImproperDimensions);
        }
        let x = binary(
            host,
            Arith::Sub,
            binary(host, Arith::Mul, a[1], b[2]),
            binary(host, Arith::Mul, a[2], b[1]),
        );
        let y = binary(
            host,
            Arith::Sub,
            binary(host, Arith::Mul, a[2], b[0]),
            binary(host, Arith::Mul, a[0], b[2]),
        );
        let z = binary(
            host,
            Arith::Sub,
            binary(host, Arith::Mul, a[0], b[1]),
            binary(host, Arith::Mul, a[1], b[0]),
        );
        let mut output: Vec<u64> = Vec::new();
        output.push(x);
        output.push(y);
        output.push(z);
        assert(output@ == seq![x, y, z]);
        Ok(Matrix::new(vec1.rows(), vec1.cols(), output))
    }
}

} // verus!
