//! Generates identity matrices.
use vstd::prelude::*;

use crate::error::{Error, ErrorView};
use crate::host::{numerics, to_int, well_behaved, Numerics, Reply, Request, ONE, ZERO};
use crate::matrix::{Matrix, MatrixView};
use crate::standard::transpose::lemma_split_index;

verus! {

/// Generates the identity matrix of a given dimension.
#[derive(Clone, Copy)]
pub struct Identity;

/// The identity matrix with `dim` rows: one on the diagonal, zero elsewhere.
pub open spec fn identity(dim: int) -> MatrixView {
    MatrixView {
        rows: dim as usize,
        cols: dim as usize,
        vals: Seq::new(
            (dim * dim) as nat,
            |k: int|
                if k / dim == k % dim {
                    ONE
                } else {
                    ZERO
                },
        ),
    }
}

/// The identity matrix whose dimension is the one cell of `m`, cut off to an
/// integer, and zero where that is negative.
pub open spec fn identity_for(m: MatrixView, n: Numerics) -> Result<MatrixView, ErrorView> {
    if m.rows != 1 || m.cols != 1 {
        Err(ErrorView::RequiresUnitMatrix)
    } else {
        let count = (n.to_int)(m.vals[0]);
        let dim: int = if count < 0 {
            0
        } else {
            count as int
        };
        if dim * dim > usize::MAX {
            Err(ErrorView::ImproperDimensions)
        } else {
            Ok(identity(dim))
        }
    }
}

impl Identity {
    /// The identity matrix of the dimension that a matrix of one cell holds.
    ///
    /// Fails with `RequiresUnitMatrix` where the matrix has another shape, and
    /// with `ImproperDimensions` where the result would have more cells than
    /// a vector can hold.
    pub fn evalpure<H: Fn(Request) -> Reply>(matrix: &Matrix, host: &H) -> (outcome: Result<
        Matrix,
        Error,
    >)
        requires
            matrix@.shaped(),
            well_behaved(host),
        ensures
            crate::matrix::agrees(outcome, identity_for(matrix@, numerics(host))),
            outcome matches Ok(r) ==> r@.shaped(),
    {
        if matrix.rows() != 1 || matrix.cols() != 1 {
            return Err(Error::RequiresUnitMatrix);
        }
        let count = to_int(host, matrix.at(0, 0));
        let wide: u64 = if count < 0 {
            0
        } else {
            count as u64
        };
        if wide > usize::MAX as u64 {
            proof {
                assert(wide * wide > usize::MAX) by (nonlinear_arith)
                    requires
                        wide > usize::MAX,
                ;
            }
            return Err(Error::ImproperDimensions);
        }
        let dim = wide as usize;
        let cells = match dim.checked_mul(dim) {
            Some(cells) => cells,
            None => {
                return Err(Error::ImproperDimensions);
            },
        };
        let mut output: Vec<u64> = Vec::new();
        let mut i: usize = 0;
        while i < dim
            invariant
                i <= dim,
                cells == dim * dim,
                output.len() == i * dim,
                forall|k: int| 0 <= k < output.len() ==> output[k] == identity(dim as int).vals[k],
            decreases dim - i,
        {
            let mut j: usize = 0;
            while j < dim
                invariant
                    i < dim,
                    j <= dim,
                    cells == dim * dim,
                    output.len() == i * dim + j,
                    forall|k: int|
                        0 <= k < output.len() ==> output[k] == identity(dim as int).vals[k],
                decreases dim - j,
            {
                proof {
                    lemma_split_index(dim as int, i as int, j as int);
                    crate::matrix::lemma_cell_index(dim as int, dim as int, i as int, j as int);
                }
                if i == j {
                    output.push(ONE);
                } else {
                    output.push(ZERO);
                }
                j += 1;
            }
            assert((i + 1) * dim == i * dim + dim) by (nonlinear_arith);
            i += 1;
        }
        assert(output@ =~= identity(dim as int).vals);
        Ok(Matrix::new(dim, dim, output))
    }
}

} // verus!
