//! A parselet for binary operations.
use vstd::prelude::*;

use crate::error::Error;
use crate::expression::Expression;
use crate::host::{numerics, well_behaved, Reply, Request};
use crate::parser::{infixed, parses, InfixRule, Parser};
use crate::tokenizer::{Token, Tokenizer};

verus! {

/// The rule for `+`, `-`, `*` and `/` behind a left operand: an operation.
pub struct BinOpParselet;

impl BinOpParselet {
    /// The operation of the operator `token` on `left` and what follows.
    ///
    /// Fails with `UnexpectedEof` where nothing follows.
    pub fn parse<H: Fn(Request) -> Reply>(
        &self,
        parser: &Parser,
        tokenizer: &mut Tokenizer,
        token: Token,
        left: Expression,
        host: &H,
    ) -> (outcome: Result<Expression, Error>)
        requires
            old(tokenizer).wf(),
            0 < old(tokenizer).position() <= old(tokenizer)@.len(),
            token@ == old(tokenizer)@[old(tokenizer).position() - 1],
            parser@.infix_of(token@.class) == Some(InfixRule::BinOp),
            well_behaved(host),
        ensures
            final(tokenizer).wf(),
            final(tokenizer)@ == old(tokenizer)@,
            parses(
                outcome,
                final(tokenizer).position(),
                infixed(old(tokenizer)@, old(tokenizer).position() - 1, left@, parser@, numerics(host)),
            ),
            outcome is Ok ==> old(tokenizer).position() <= final(tokenizer).position(),
        decreases old(tokenizer)@.len() - (old(tokenizer).position() - 1), 0int,
    {
        if tokenizer.peek().is_none() {
            return Err(Error::UnexpectedEof);
        }
        let right = match parser.parse(tokenizer, token.get_class().precedence(), host) {
            Ok(right) => right,
            Err(e) => {
                return Err(e);
            },
        };
        Ok(Expression::BinOp { left: Box::new(left), op: token.get_value(), right: Box::new(right) })
    }
}

} // verus!
