//! A parselet for numeric literals.
use vstd::prelude::*;

use crate::error::{Error, ErrorView};
use crate::expression::{Expression, Term};
use crate::host::{numerics, well_behaved, Reply, Request};
use crate::parser::literal_of;
use crate::tokenizer::{Token, TokenClass};
use crate::host::literal;
use crate::text::{check_decimal, chars_of, parse_int};

verus! {

/// The rule for a numeric literal: it stands for its value.
pub struct LiteralParselet;

impl LiteralParselet {
    /// The number that the token spells.
    ///
    /// Fails with `CouldNotParseNumeric` where the token is no `Int` that
    /// spells an integer literal and no `Float` that spells a decimal
    /// literal.
    pub fn parse<H: Fn(Request) -> Reply>(&self, token: Token, host: &H) -> (outcome: Result<
        Expression,
        Error,
    >)
        requires
            well_behaved(host),
        ensures
            match outcome {
                Ok(e) => literal_of(token@, numerics(host)) == Ok::<Term, ErrorView>(e@),
                Err(err) => literal_of(token@, numerics(host)) == Err::<Term, ErrorView>(err@),
            },
    {
        let text = token.get_value();
        let chars = chars_of(text.as_str());
        match token.get_class() {
            TokenClass::Int => match parse_int(&chars) {
                Some(i) => Ok(Expression::Int(i)),
                None => Err(Error::CouldNotParseNumeric),
            },
            TokenClass::Float => if check_decimal(&chars) {
                Ok(Expression::Float(literal(host, text)))
            } else {
                Err(Error::CouldNotParseNumeric)
            },
            _ => Err(Error::CouldNotParseNumeric),
        }
    }
}

} // verus!
