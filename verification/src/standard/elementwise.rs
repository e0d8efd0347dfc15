//! Functions that work on each cell of a matrix by itself.
use vstd::prelude::*;

use crate::host::{numerics, unary, well_behaved, Func, Numerics, Reply, Request};
use crate::matrix::{Matrix, MatrixView};

verus! {

/// The matrix of the results of `f` on the cells of `m`.
pub open spec fn mapped(m: MatrixView, f: Func, n: Numerics) -> MatrixView {
    MatrixView {
        rows: m.rows,
        cols: m.cols,
        vals: Seq::new(m.vals.len(), |k: int| (n.unary)(f, m.vals[k])),
    }
}

/// Applies `f` to each cell of a matrix.
pub fn map_cells<H: Fn(Request) -> Reply>(matrix: &Matrix, f: Func, host: &H) -> (result: Matrix)
    requires
        well_behaved(host),
    ensures
        result@ == mapped(matrix@, f, numerics(host)),
{
    let mut output: Vec<u64> = Vec::new();
    let rows = matrix.rows();
    let cols = matrix.cols();
    let vals = matrix.vals();
    let mut i: usize = 0;
    while i < vals.len()
        invariant
            well_behaved(host),
            vals@ == matrix@.vals,
            i <= vals.len(),
            output.len() == i,
            forall|k: int| 0 <= k < i ==> output[k] == (numerics(host).unary)(f, vals[k]),
        decreases vals.len() - i,
    {
        output.push(unary(host, f, vals[i]));
        i += 1;
    }
    assert(output@ =~= mapped(matrix@, f, numerics(host)).vals);
    Matrix::new(rows, cols, output)
}

/// Computes sines.
#[derive(Clone, Copy)]
pub struct Sin;

impl Sin {
    /// The sine of each cell.
    pub fn evalpure<H: Fn(Request) -> Reply>(matrix: &Matrix, host: &H) -> (result: Matrix)
        requires
            well_behaved(host),
        ensures
            result@ == mapped(matrix@, Func::Sin, numerics(host)),
    {
        map_cells(matrix, Func::Sin, host)
    }
}

/// Computes cosines.
#[derive(Clone, Copy)]
pub struct Cos;

impl Cos {
    /// The cosine of each cell.
    pub fn evalpure<H: Fn(Request) -> Reply>(matrix: &Matrix, host: &H) -> (result: Matrix)
        requires
            well_behaved(host),
        ensures
            result@ == mapped(matrix@, Func::Cos, numerics(host)),
    {
        map_cells(matrix, Func::Cos, host)
    }
}

/// Computes square roots.
#[derive(Clone, Copy)]
pub struct Sqrt;

impl Sqrt {
    /// The square root of each cell.
    pub fn evalpure<H: Fn(Request) -> Reply>(matrix: &Matrix, host: &H) -> (result: Matrix)
        requires
            well_behaved(host),
        ensures
            result@ == mapped(matrix@, Func::Sqrt, numerics(host)),
    {
        map_cells(matrix, Func::Sqrt, host)
    }
}

} // verus!
