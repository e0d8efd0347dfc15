//! Transposes matrices.
use vstd::prelude::*;
use vstd::arithmetic::div_mod::lemma_fundamental_div_mod_converse;

use crate::matrix::{lemma_cell_index, lemma_cell_of_index, Matrix, MatrixView};

verus! {

/// Transposes a matrix.
#[derive(Clone, Copy)]
pub struct Transpose;

/// The transpose of `m`: the value in row `j` and column `i` is the value
/// that `m` holds in row `i` and column `j`.
pub open spec fn transposed(m: MatrixView) -> MatrixView {
    MatrixView {
        rows: m.cols,
        cols: m.rows,
        vals: Seq::new(m.vals.len(), |k: int| m.cell(k % (m.rows as int), k / (m.rows as int))),
    }
}

/// The values of a row-major matrix with `cols` columns, position `i * cols + j`
/// splits back into row `i` and column `j`.
pub proof fn lemma_split_index(cols: int, i: int, j: int)
    requires
        0 <= i,
        0 <= j < cols,
    ensures
        (i * cols + j) / cols == i,
        (i * cols + j) % cols == j,
{
    assert(i * cols + j == cols * i + j) by (nonlinear_arith);
    lemma_fundamental_div_mod_converse(i * cols + j, cols, i, j);
}

impl Transpose {
    /// Evaluates `Transpose` while minimizing heap allocation.
    pub fn evalpure(matrix: &Matrix) -> (result: Matrix)
        requires
            matrix@.shaped(),
        ensures
            result@ == transposed(matrix@),
            result@.shaped(),
    {
        let rows = matrix.rows();
        let cols = matrix.cols();
        let mut result: Vec<u64> = Vec::new();
        let ghost m = matrix@;
        assert(m.cols * m.rows == m.rows * m.cols) by (nonlinear_arith);
        let mut j: usize = 0;
        while j < cols
            invariant
                m == matrix@,
                m.shaped(),
                rows == m.rows,
                cols == m.cols,
                j <= cols,
                result.len() == j * rows,
                forall|k: int| 0 <= k < result.len() ==> result[k] == transposed(m).vals[k],
            decreases cols - j,
        {
            let mut i: usize = 0;
            while i < rows
                invariant
                    m == matrix@,
                    m.shaped(),
                    rows == m.rows,
                    cols == m.cols,
                    j < cols,
                    i <= rows,
                    result.len() == j * rows + i,
                    forall|k: int| 0 <= k < result.len() ==> result[k] == transposed(m).vals[k],
                decreases rows - i,
            {
                proof {
                    lemma_split_index(rows as int, j as int, i as int);
                    lemma_cell_index(cols as int, rows as int, j as int, i as int);
                    assert(cols * rows == rows * cols) by (nonlinear_arith);
                }
                result.push(matrix.at(i, j));
                i += 1;
            }
            assert((j + 1) * rows == j * rows + rows) by (nonlinear_arith);
            j += 1;
        }
        assert(cols * rows == rows * cols) by (nonlinear_arith);
        assert(result@ =~= transposed(m).vals);
        Matrix::new(cols, rows, result)
    }
}

/// Transposing twice gives the matrix back.
pub proof fn lemma_transpose_involution(m: MatrixView)
    requires
        m.shaped(),
    ensures
        transposed(transposed(m)) == m,
{
    let t = transposed(m);
    let tt = transposed(t);
    assert(tt.vals.len() == m.vals.len());
    assert forall|k: int| 0 <= k < m.vals.len() implies tt.vals[k] == m.vals[k] by {
        let rows = m.rows as int;
        let cols = m.cols as int;
        assert(cols > 0 && rows > 0) by (nonlinear_arith)
            requires
                0 <= k < rows * cols,
                0 <= rows,
                0 <= cols,
        ;
        lemma_cell_of_index(cols, k);
        let i = k / cols;
        let j = k % cols;
        assert(i < rows) by (nonlinear_arith)
            requires
                k == i * cols + j,
                0 <= j,
                k < rows * cols,
                0 < cols,
        ;
        // tt.vals[k] == t.cell(j, i) == t.vals[j * rows + i]
        lemma_split_index(rows, j, i);
        lemma_cell_index(cols, rows, j, i);
        assert(cols * rows == rows * cols) by (nonlinear_arith);
        assert(tt.vals[k] == t.cell(k % (t.rows as int), k / (t.rows as int)));
        assert(t.cell(j, i) == t.vals[j * rows + i]);
        assert(t.vals[j * rows + i] == m.cell(i, j));
    }
    assert(tt.vals =~= m.vals);
}

} // verus!
