//! A parselet for function calls.
use vstd::prelude::*;

use crate::error::Error;
use crate::expression::{lemma_view_of_items, terms, Expression, Term};
use crate::host::{numerics, well_behaved, Reply, Request};
use crate::parser::{args_parsed, infixed, parses, InfixRule, Parser};
use crate::tokenizer::{TokenClass, Tokenizer};

verus! {

/// The rule for `(` behind a left operand: a call.
pub struct FuncParselet;

impl FuncParselet {
    /// The call of the function that `left` names on the arguments that
    /// follow, up to `)`.
    ///
    /// Fails with `ExpectedIdentifier` where `left` is no identifier, and
    /// with `UnexpectedEof` where the tokens end before `)`.
    pub fn parse<H: Fn(Request) -> Reply>(
        &self,
        parser: &Parser,
        tokenizer: &mut Tokenizer,
        left: Expression,
        host: &H,
    ) -> (outcome: Result<Expression, Error>)
        requires
            old(tokenizer).wf(),
            0 < old(tokenizer).position() <= old(tokenizer)@.len(),
            parser@.infix_of(old(tokenizer)@[old(tokenizer).position() - 1].class) == Some(
                InfixRule::Func,
            ),
            well_behaved(host),
        ensures
            final(tokenizer).wf(),
            final(tokenizer)@ == old(tokenizer)@,
            parses(
                outcome,
                final(tokenizer).position(),
                infixed(old(tokenizer)@, old(tokenizer).position() - 1, left@, parser@, numerics(host)),
            ),
            outcome is Ok ==> old(tokenizer).position() <= final(tokenizer).position(),
        decreases old(tokenizer)@.len() - (old(tokenizer).position() - 1), 0int,
    {
        let ghost ts = tokenizer@;
        let ghost start = tokenizer.position();
        let ghost n = numerics(host);
        let name = match left {
            Expression::Identifier(s) => s,
            _ => {
                return Err(Error::ExpectedIdentifier);
            },
        };
        // Construct a list of function arguments
        let mut args: Vec<Expression> = Vec::new();
        let mut after_comma = false;
        assert(terms(args@) == Seq::<Term>::empty());
        loop
            invariant
                tokenizer.wf(),
                well_behaved(host),
                n == numerics(host),
                ts == tokenizer@,
                ts == old(tokenizer)@,
                start == old(tokenizer).position(),
                0 < start <= tokenizer.position(),
                left@ == Term::Identifier(name@),
                parser@.infix_of(ts[start - 1].class) == Some(InfixRule::Func),
                args_parsed(ts, tokenizer.position(), after_comma, terms(args@), parser@, n) == args_parsed(
                    ts,
                    start,
                    false,
                    Seq::empty(),
                    parser@,
                    n,
                ),
            decreases ts.len() - tokenizer.position(),
        {
            let current = match tokenizer.peek() {
                Some(t) => t,
                None => {
                    return Err(Error::UnexpectedEof);
                },
            };
            if !after_comma && current.check(TokenClass::CloseParen) {
                // Consume the closing parenthesis
                let _ = tokenizer.next();
                let call = Expression::Call { name, args };
                proof {
                    lemma_view_of_items(call);
                }
                return Ok(call);
            }
            let precedence = if after_comma {
                0
            } else {
                current.get_class().precedence()
            };
            let arg = match parser.parse(tokenizer, precedence, host) {
                Ok(arg) => arg,
                Err(e) => {
                    return Err(e);
                },
            };
            assert(terms(args@.push(arg)) == terms(args@).push(arg@));
            args.push(arg);
            after_comma = match tokenizer.peek() {
                Some(t) => if t.check(TokenClass::Comma) {
                    let _ = tokenizer.next();
                    true
                } else {
                    false
                },
                None => false,
            };
        }
    }
}

} // verus!
