//! A parselet for parentheticals.
use vstd::prelude::*;

use crate::error::Error;
use crate::expression::Expression;
use crate::host::{numerics, well_behaved, Reply, Request};
use crate::parser::{grouped, parses, Parser};
use crate::tokenizer::{TokenClass, Tokenizer};

verus! {

/// The rule for `(` at the start of an expression: a group.
pub struct ParenParselet;

impl ParenParselet {
    /// The expression inside the parentheses that were just opened.
    ///
    /// Fails with `UnexpectedEof` where the tokens end before `)`, and with
    /// `ExpectedCloseParen` where another token stands in its place.
    pub fn parse<H: Fn(Request) -> Reply>(
        &self,
        parser: &Parser,
        tokenizer: &mut Tokenizer,
        host: &H,
    ) -> (outcome: Result<Expression, Error>)
        requires
            old(tokenizer).wf(),
            well_behaved(host),
        ensures
            final(tokenizer).wf(),
            final(tokenizer)@ == old(tokenizer)@,
            parses(
                outcome,
                final(tokenizer).position(),
                grouped(old(tokenizer)@, old(tokenizer).position(), parser@, numerics(host)),
            ),
            outcome is Ok ==> old(tokenizer).position() < final(tokenizer).position(),
        decreases old(tokenizer)@.len() - old(tokenizer).position(), 2int,
    {
        // Get the expression inside the parenthetical
        let next = match tokenizer.peek() {
            Some(t) => t,
            None => {
                return Err(Error::UnexpectedEof);
            },
        };
        let expr = match parser.parse(tokenizer, next.get_class().precedence(), host) {
            Ok(expr) => expr,
            Err(e) => {
                return Err(e);
            },
        };
        let next = match tokenizer.peek() {
            Some(t) => t,
            None => {
                return Err(Error::UnexpectedEof);
            },
        };
        if next.check(TokenClass::CloseParen) {
            // Consume the parenthesis
            let _ = tokenizer.next();
            Ok(expr)
        } else {
            Err(Error::ExpectedCloseParen)
        }
    }
}

} // verus!
