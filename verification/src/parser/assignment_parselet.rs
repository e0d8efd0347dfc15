//! A parselet for assignments.
use vstd::prelude::*;

use crate::error::Error;
use crate::expression::Expression;
use crate::host::{numerics, well_behaved, Reply, Request};
use crate::parser::{infixed, parses, InfixRule, Parser};
use crate::tokenizer::Tokenizer;

verus! {

/// The rule for `=` behind a left operand: an assignment.
pub struct AssignmentParselet;

impl AssignmentParselet {
    /// The assignment of what follows to the identifier `left`.
    ///
    /// Fails with `ExpectedIdentifier` where `left` is no identifier.
    pub fn parse<H: Fn(Request) -> Reply>(
        &self,
        parser: &Parser,
        tokenizer: &mut Tokenizer,
        left: Expression,
        host: &H,
    ) -> (outcome: Result<Expression, Error>)
        requires
            old(tokenizer).wf(),
            0 < old(tokenizer).position() <= old(tokenizer)@.len(),
            parser@.infix_of(old(tokenizer)@[old(tokenizer).position() - 1].class) == Some(
                InfixRule::Assignment,
            ),
            well_behaved(host),
        ensures
            final(tokenizer).wf(),
            final(tokenizer)@ == old(tokenizer)@,
            parses(
                outcome,
                final(tokenizer).position(),
                infixed(old(tokenizer)@, old(tokenizer).position() - 1, left@, parser@, numerics(host)),
            ),
            outcome is Ok ==> old(tokenizer).position() <= final(tokenizer).position(),
        decreases old(tokenizer)@.len() - (old(tokenizer).position() - 1), 0int,
    {
        let right = match parser.parse(tokenizer, 0, host) {
            Ok(right) => right,
            Err(e) => {
                return Err(e);
            },
        };
        let identifier = match left {
            Expression::Identifier(s) => s,
            _ => {
                return Err(Error::ExpectedIdentifier);
            },
        };
        Ok(Expression::Assignment { identifier, value: Box::new(right) })
    }
}

} // verus!
