//! Generates rotation matrices.
use vstd::prelude::*;

use crate::error::{Error, ErrorView};
use crate::host::{numerics, unary, well_behaved, Func, Numerics, Reply, Request};
use crate::matrix::{agrees, Matrix, MatrixView};

verus! {

/// Generates the matrix of a rotation of the plane.
#[derive(Clone, Copy)]
pub struct Rotation2d;

/// The matrix of the rotation by `angle`: cosine and minus sine in the first
/// row, sine and cosine in the second.
pub open spec fn rotation(angle: u64, n: Numerics) -> MatrixView {
    MatrixView {
        rows: 2,
        cols: 2,
        vals: seq![
            (n.unary)(Func::Cos, angle),
            (n.unary)(Func::Neg, (n.unary)(Func::Sin, angle)),
            (n.unary)(Func::Sin, angle),
            (n.unary)(Func::Cos, angle),
        ],
    }
}

/// The rotation by the angle that is the one cell of `m`.
pub open spec fn rotation_for(m: MatrixView, n: Numerics) -> Result<MatrixView, ErrorView> {
    if m.rows != 1 || m.cols != 1 {
        Err(ErrorView::RequiresUnitMatrix)
    } else {
        Ok(rotation(m.vals[0], n))
    }
}

impl Rotation2d {
    /// The matrix of the rotation by the angle that a matrix of one cell holds.
    ///
    /// Fails with `RequiresUnitMatrix` where the matrix has another shape.
    pub fn evalpure<H: Fn(Request) -> Reply>(matrix: &Matrix, host: &H) -> (outcome: Result<
        Matrix,
        Error,
    >)
        requires
            matrix@.shaped(),
            well_behaved(host),
        ensures
            agrees(outcome, rotation_for(matrix@, numerics(host))),
            outcome matches Ok(r) ==> r@.shaped(),
    {
        if matrix.rows() != 1 || matrix.cols() != 1 {
            return Err(Error::RequiresUnitMatrix);
        }
        let angle = matrix.at(0, 0);
        let cos = unary(host, Func::Cos, angle);
        let sin = unary(host, Func::Sin, angle);
        let minus_sin = unary(host, Func::Neg, sin);
        let mut output: Vec<u64> = Vec::new();
        output.push(cos);
        output.push(minus_sin);
        output.push(sin);
        output.push(cos);
        assert(output@ == seq![cos, minus_sin, sin, cos]);
        assert(output.len() == 2 * 2);
        Ok(Matrix::new(2, 2, output))
    }
}

} // verus!
