//! A parselet for identifiers.
use vstd::prelude::*;

use crate::expression::{Expression, Term};
use crate::tokenizer::Token;

verus! {

/// The rule for an identifier: it stands for itself.
pub struct IdentifierParselet;

impl IdentifierParselet {
    /// The identifier that the token names.
    pub fn parse(&self, token: Token) -> (expression: Expression)
        ensures
            expression@ == Term::Identifier(token@.text),
    {
        Expression::Identifier(token.get_value())
    }
}

} // verus!
