//! Computes matrices of minors.
use vstd::prelude::*;

use crate::matrix::{lemma_cell_index, Matrix, MatrixView};
use crate::standard::transpose::lemma_split_index;

verus! {

/// Removes one row and one column of a matrix.
#[derive(Clone, Copy)]
pub struct GetMinors;

/// The position in the whole that position `i` of the rest comes from, once
/// position `gone` is left out.
pub open spec fn skip(i: int, gone: int) -> int {
    if i < gone {
        i
    } else {
        i + 1
    }
}

/// The matrix `m` without row `row` and column `col`.
pub open spec fn minor(m: MatrixView, row: int, col: int) -> MatrixView {
    MatrixView {
        rows: (m.rows - 1) as usize,
        cols: (m.cols - 1) as usize,
        vals: Seq::new(
            ((m.rows - 1) * (m.cols - 1)) as nat,
            |k: int| m.cell(skip(k / (m.cols - 1), row), skip(k % (m.cols - 1), col)),
        ),
    }
}

impl GetMinors {
    /// The matrix without the given row and column.
    pub fn evalpure(matrix: &Matrix, row: usize, col: usize) -> (result: Matrix)
        requires
            matrix@.shaped(),
            row < matrix@.rows,
            col < matrix@.cols,
        ensures
            result@ == minor(matrix@, row as int, col as int),
            result@.shaped(),
    {
        let mut values: Vec<u64> = Vec::new();
        let rows = matrix.rows();
        let cols = matrix.cols();
        let ghost m = matrix@;
        let ghost goal = minor(m, row as int, col as int);
        assert(0 <= (rows - 1) * (cols - 1) <= rows * cols) by (nonlinear_arith)
            requires
                rows >= 1,
                cols >= 1,
        ;
        let mut i: usize = 0;
        while i < rows - 1
            invariant
                m == matrix@,
                m.shaped(),
                rows == m.rows,
                cols == m.cols,
                row < rows,
                col < cols,
                goal == minor(m, row as int, col as int),
                i <= rows - 1,
                values.len() == i * (cols - 1),
                forall|k: int| 0 <= k < values.len() ==> values[k] == goal.vals[k],
            decreases rows - 1 - i,
        {
            let mut j: usize = 0;
            while j < cols - 1
                invariant
                    m == matrix@,
                    m.shaped(),
                    rows == m.rows,
                    cols == m.cols,
                    row < rows,
                    col < cols,
                    goal == minor(m, row as int, col as int),
                    i < rows - 1,
                    j <= cols - 1,
                    values.len() == i * (cols - 1) + j,
                    forall|k: int| 0 <= k < values.len() ==> values[k] == goal.vals[k],
                decreases cols - 1 - j,
            {
                proof {
                    lemma_split_index(cols - 1, i as int, j as int);
                    lemma_cell_index(rows - 1, cols - 1, i as int, j as int);
                }
                let from_row = if i < row {
                    i
                } else {
                    i + 1
                };
                let from_col = if j < col {
                    j
                } else {
                    j + 1
                };
                values.push(matrix.at(from_row, from_col));
                j += 1;
            }
            assert((i + 1) * (cols - 1) == i * (cols - 1) + (cols - 1)) by (nonlinear_arith);
            i += 1;
        }
        assert(values@ =~= goal.vals);
        Matrix::new(rows - 1, cols - 1, values)
    }
}

} // verus!
