//! A parselet for matrix (and vector) input.
use vstd::prelude::*;

use crate::error::Error;
use crate::expression::{lemma_view_of_items, terms, Expression, Term};
use crate::host::{numerics, well_behaved, Reply, Request};
use crate::parser::{parses, rows_parsed, Parser};
use crate::tokenizer::{TokenClass, Tokenizer};

verus! {

/// The rule for `[` at the start of an expression: a matrix literal.
pub struct MatrixParselet;

impl MatrixParselet {
    /// The matrix whose literal was just opened.
    ///
    /// Fails with `UnexpectedEof` where the tokens end before `]`, and with
    /// `ImproperDimensions` where a row has not as many cells as the first.
    /// A `;` right before `]` ends the last row and adds none.
    pub fn parse<H: Fn(Request) -> Reply>(
        &self,
        parser: &Parser,
        tokenizer: &mut Tokenizer,
        host: &H,
    ) -> (outcome: Result<Expression, Error>)
        requires
            old(tokenizer).wf(),
            well_behaved(host),
        ensures
            final(tokenizer).wf(),
            final(tokenizer)@ == old(tokenizer)@,
            parses(
                outcome,
                final(tokenizer).position(),
                rows_parsed(
                    old(tokenizer)@,
                    old(tokenizer).position(),
                    0,
                    0,
                    0,
                    Seq::empty(),
                    parser@,
                    numerics(host),
                ),
            ),
            outcome is Ok ==> old(tokenizer).position() < final(tokenizer).position(),
        decreases old(tokenizer)@.len() - old(tokenizer).position(), 2int,
    {
        let ghost ts = tokenizer@;
        let ghost start = tokenizer.position();
        let ghost n = numerics(host);
        // Create a new vector to hold matrix/vector values
        let mut values: Vec<Expression> = Vec::new();
        // The number of columns in the matrix, of rows so far, and of values in the row at hand
        let mut cols: usize = 0;
        let mut rows: usize = 0;
        let mut in_row: usize = 0;
        assert(terms(values@) == Seq::<Term>::empty());
        loop
            invariant
                tokenizer.wf(),
                well_behaved(host),
                n == numerics(host),
                ts == tokenizer@,
                ts == old(tokenizer)@,
                start == old(tokenizer).position(),
                start <= tokenizer.position(),
                start < tokenizer.position() || (rows == 0 && in_row == 0),
                values.len() == rows * cols + in_row,
                rows > 0 ==> cols > 0,
                rows_parsed(
                    ts,
                    tokenizer.position(),
                    cols as int,
                    rows as int,
                    in_row as int,
                    terms(values@),
                    parser@,
                    n,
                ) == rows_parsed(ts, start, 0, 0, 0, Seq::empty(), parser@, n),
            decreases ts.len() - tokenizer.position(),
        {
            let current = match tokenizer.peek() {
                Some(t) => t,
                None => {
                    return Err(Error::UnexpectedEof);
                },
            };
            let class = current.get_class();
            // A closing bracket right behind the semicolon of a row
            if in_row == 0 && rows > 0 && class == TokenClass::CloseBracket {
                let _ = tokenizer.next();
                let matrix = Expression::Matrix { rows, cols, values };
                proof {
                    lemma_view_of_items(matrix);
                }
                return Ok(matrix);
            }
            // Rows end on a semicolon, the last one on the closing bracket
            if in_row > 0 && (class == TokenClass::Semicolon || class == TokenClass::CloseBracket) {
                if rows > 0 && in_row != cols {
                    return Err(Error::ImproperDimensions);
                }
                let _ = tokenizer.next();
                proof {
                    assert(rows <= rows * cols) by (nonlinear_arith)
                        requires
                            rows > 0 ==> cols > 0,
                            rows >= 0,
                    ;
                    assert((rows + 1) * in_row == rows * in_row + in_row) by (nonlinear_arith);
                }
                if class == TokenClass::CloseBracket {
                    let matrix = Expression::Matrix { rows: rows + 1, cols: in_row, values };
                    proof {
                        lemma_view_of_items(matrix);
                    }
                    return Ok(matrix);
                }
                cols = in_row;
                rows = rows + 1;
                in_row = 0;
            } else {
                let expr = match parser.parse(tokenizer, 0, host) {
                    Ok(expr) => expr,
                    Err(e) => {
                        return Err(e);
                    },
                };
                assert(terms(values@.push(expr)) == terms(values@).push(expr@));
                values.push(expr);
                assert(0 <= rows * cols) by (nonlinear_arith)
                    requires
                        0 <= rows,
                        0 <= cols,
                ;
                assert(values@.len() == values.len());
                in_row = in_row + 1;
            }
        }
    }
}

} // verus!
