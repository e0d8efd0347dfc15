//! A parselet for transpose symbols (`'`).
use vstd::prelude::*;

use crate::expression::{lemma_view_of_items, terms, Expression, Term};

use vstd::string::StringExecFns;

verus! {

/// The rule for `'` behind a left operand: its transpose.
pub struct PrimeParselet;

impl PrimeParselet {
    /// The call of the transpose function on `left`.
    pub fn parse(&self, left: Expression) -> (call: Expression)
        ensures
            call@ == (Term::Call { name: "t"@, args: seq![left@] }),
    {
        let mut args: Vec<Expression> = Vec::new();
        args.push(left);
        // Call the transpose function
        let call = Expression::Call { name: String::from_str("t"), args };
        proof {
            lemma_view_of_items(call);
            assert(terms(args@) == seq![left@]);
        }
        call
    }
}

} // verus!
