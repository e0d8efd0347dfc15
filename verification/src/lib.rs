//! An interpreter for a small language of scalar and matrix arithmetic.
//!
//! Source text is split into tokens, parsed into an [`Expression`] by an
//! operator-precedence parser and reduced to a value by
//! [`Expression::simplify`]. Binary64 arithmetic, plotting and process exit are
//! services of the surrounding program: they reach the interpreter through a
//! [`host`] callback, and every contract is stated for whatever that host
//! answers.
use vstd::prelude::*;

pub mod display;
pub mod environment;
pub mod error;
pub mod evaluator;
pub mod expression;
pub mod host;
pub mod laws;
pub mod matrix;
pub mod parser;
pub mod settled;
pub mod standard;
pub mod text;
pub mod tokenizer;

pub use environment::Environment;
pub use error::Error;
pub use evaluator::{binop, matrix_dot, Evaluation};
pub use expression::Expression;
pub use matrix::Matrix;
pub use parser::Parser;
pub use tokenizer::{CharStream, Token, TokenClass, Tokenizer};

use error::ErrorView;
use evaluator::{reported_by, simplified, Bindings};
use expression::Term;
use host::{numerics, well_behaved, Numerics, Reply, Request};
use parser::{language, parsed};
use tokenizer::{lex, TokenView};

verus! {

/// A statement is silent where its last token is a semicolon.
pub open spec fn is_silent(tokens: Seq<TokenView>) -> bool {
    tokens.len() > 0 && tokens.last().class == TokenClass::Semicolon
}

/// What a statement gives, where the variables are `env`: the value of its
/// first expression and the variables afterwards, or the first error of the
/// lexer, the parser or the evaluator; and whether the statement is silent.
/// A statement that does not lex is not silent.
pub open spec fn interpreted(code: Seq<char>, env: Bindings, n: Numerics) -> (
    Result<(Term, Bindings), ErrorView>,
    bool,
) {
    match lex(code, 0) {
        Err(e) => (Err(e), false),
        Ok(tokens) => (
            match parsed(tokens, 0, 0, language(), n) {
                Err(e) => Err(e),
                Ok((expression, _)) => simplified(expression, env, n),
            },
            is_silent(tokens),
        ),
    }
}

/// What the evaluation of a statement reports beside its value:
/// `CouldNotFindFunction` where its first expression calls a name that no
/// function has.
pub open spec fn reported_in(code: Seq<char>, n: Numerics) -> Option<Error> {
    match lex(code, 0) {
        Err(_) => None,
        Ok(tokens) => match parsed(tokens, 0, 0, language(), n) {
            Err(_) => None,
            Ok((expression, _)) => reported_by(expression),
        },
    }
}

/// Interprets a `String` of code into an `Expression`.
///
/// Also returns a boolean value indicating whether or not the output should
/// be held back. A call of a name that no function has is reported beside
/// the value and does not end the evaluation. After any other error the
/// variables are as they were before.
pub fn interpret<H: Fn(Request) -> Reply>(variables: &mut Environment, code: String, host: &H) -> (outcome:
    (Result<Evaluation, Error>, bool))
    requires
        old(variables).wf(),
        well_behaved(host),
    ensures
        final(variables).wf(),
        outcome.1 == interpreted(code@, old(variables)@, numerics(host)).1,
        match outcome.0 {
            Ok(evaluation) => interpreted(code@, old(variables)@, numerics(host)).0 == Ok::<
                (Term, Bindings),
                ErrorView,
            >((evaluation.value@, final(variables)@)) && evaluation.reported == reported_in(
                code@,
                numerics(host),
            ),
            Err(e) => interpreted(code@, old(variables)@, numerics(host)).0 == Err::<
                (Term, Bindings),
                ErrorView,
            >(e@) && final(variables)@ == old(variables)@,
        },
{
    // Create a token stream from the code input.
    let mut tokenizer = match Tokenizer::from(code) {
        Ok(tokenizer) => tokenizer,
        Err(e) => {
            return (Err(e), false);
        },
    };
    let is_silent = tokenizer.chk_silent();
    // Create a parser and parse from the tokenizer.
    let parser = Parser::new();
    let expression = match parser.parse(&mut tokenizer, 0, host) {
        Ok(expression) => expression,
        Err(e) => {
            return (Err(e), is_silent);
        },
    };
    (expression.simplify(variables, host), is_silent)
}

} // verus!
