//! What holds of the interpreter as a whole: facts that relate the lexer,
//! the parser, the evaluator and the display to each other.
use vstd::prelude::*;

use crate::display::{decimal_of, digit_char, digits_of, shown};
use crate::error::{Error, ErrorView};
use crate::evaluator::{
    arguments, combined, demoted, from_matrix, is_whole, reported_by, simplified, Bindings,
};
use crate::expression::Term;
use crate::host::Numerics;
use crate::interpreted;
use crate::matrix::{empty_matrix, MatrixView};
use crate::parser::{continued, language, lemma_language_rules, literal_of, parsed};
use crate::standard::{applied, found, function_named, StdFunction};
use crate::text::{
    all_digits, digit_chars, digit_value, digits_value, int_value, is_decimal_literal, is_digit,
    is_int_literal, is_negative, lemma_digits_value_push, lemma_run_end_bounds,
    lemma_run_end_from_inside, magnitude, run_end,
};
use crate::tokenizer::{
    comment_at, lex, numeral_chars, numeral_class, scan, Scan, TokenClass, TokenView,
};

verus! {

/// A float without a fractional part simplifies to the integer that it is
/// cut off to, whatever the variables.
pub proof fn lemma_whole_float_becomes_int(f: u64, env: Bindings, n: Numerics)
    requires
        is_whole(f, n),
    ensures
        simplified(Term::Float(f), env, n) == Ok::<(Term, Bindings), ErrorView>(
            (Term::Int((n.to_int)(f)), env),
        ),
{
}

/// The product of two matrices fails with `ImproperDimensions` where the
/// left one has not as many columns as the right one has rows.
pub proof fn lemma_product_guards_dimensions(l: Term, r: Term, n: Numerics)
    requires
        l is Matrix,
        r is Matrix,
        l->Matrix_cols != r->Matrix_rows,
    ensures
        combined(l, "*"@, r, n) == Err::<Term, ErrorView>(ErrorView::ImproperDimensions),
{
}

/// An operation `*` whose sides evaluate to matrices fails with
/// `ImproperDimensions` where the left matrix has not as many columns as the
/// right one has rows.
pub proof fn lemma_multiplication_guards_dimensions(
    left: Term,
    right: Term,
    env: Bindings,
    n: Numerics,
)
    requires
        simplified(left, env, n) is Ok,
        simplified(left, env, n)->Ok_0.0 is Matrix,
        simplified(right, simplified(left, env, n)->Ok_0.1, n) is Ok,
        simplified(right, simplified(left, env, n)->Ok_0.1, n)->Ok_0.0 is Matrix,
        simplified(left, env, n)->Ok_0.0->Matrix_cols != simplified(
            right,
            simplified(left, env, n)->Ok_0.1,
            n,
        )->Ok_0.0->Matrix_rows,
    ensures
        simplified(
            Term::BinOp { left: Box::new(left), op: "*"@, right: Box::new(right) },
            env,
            n,
        ) == Err::<(Term, Bindings), ErrorView>(ErrorView::ImproperDimensions),
{
}

/// The digits of a number are digits, at least one, and denote the number.
pub proof fn lemma_digits_of(n: nat)
    ensures
        digits_of(n).len() >= 1,
        all_digits(digits_of(n)),
        digits_value(digits_of(n)) == n,
    decreases n,
{
    if n < 10 {
        lemma_digits_value_push(Seq::empty(), digit_char(n as int));
        assert(Seq::<char>::empty().push(digit_char(n as int)) == digits_of(n));
        assert(digit_value(digit_char(n as int)) == n);
    } else {
        lemma_digits_of(n / 10);
        lemma_digits_value_push(digits_of(n / 10), digit_char((n % 10) as int));
        assert(digit_value(digit_char((n % 10) as int)) == n % 10);
        assert(is_digit(digit_char((n % 10) as int)));
    }
}

/// The decimal numeral of a 64-bit integer is an integer literal that
/// denotes it.
pub proof fn lemma_decimal_of(i: i64)
    ensures
        is_int_literal(decimal_of(i as int)),
        int_value(decimal_of(i as int)) == i,
        decimal_of(i as int).len() >= 1,
        is_digit(decimal_of(i as int)[0]) || (decimal_of(i as int)[0] == '-' && decimal_of(
            i as int,
        ).len() >= 2 && is_digit(decimal_of(i as int)[1])),
        forall|k: int| 1 <= k < decimal_of(i as int).len() ==> is_digit(decimal_of(i as int)[k]),
{
    let s = decimal_of(i as int);
    if i < 0 {
        let d = digits_of((-i) as nat);
        lemma_digits_of((-i) as nat);
        assert(s[0] == '-');
        assert(s.subrange(1, s.len() as int) == d);
        assert(is_negative(s));
        assert(magnitude(s) == d);
        assert forall|k: int| 1 <= k < s.len() implies is_digit(s[k]) by {
            assert(s[k] == d[k - 1]);
        }
    } else {
        let d = digits_of(i as nat);
        lemma_digits_of(i as nat);
        assert(is_digit(d[0]));
        assert(!is_negative(s));
        assert(magnitude(s) == d);
    }
}

/// The lexer reads the decimal numeral of an integer as one `Int` token.
pub proof fn lemma_lex_decimal(i: i64)
    ensures
        lex(decimal_of(i as int), 0) == Ok::<Seq<TokenView>, ErrorView>(
            seq![TokenView { class: TokenClass::Int, text: decimal_of(i as int) }],
        ),
{
    let s = decimal_of(i as int);
    lemma_decimal_of(i);
    assert(!comment_at(s, 0));
    assert forall|k: int| 1 <= k < s.len() implies numeral_chars().contains(#[trigger] s[k]) by {}
    lemma_run_end_from_inside(s, 1, s.len() as int, numeral_chars());
    assert(run_end(s, s.len() as int, numeral_chars()) == s.len());
    assert(s.subrange(0, s.len() as int) == s);
    assert(numeral_class(s) == Some(TokenClass::Int));
    let token = TokenView { class: TokenClass::Int, text: s };
    assert(scan(s, 0) == Ok::<Scan, ErrorView>(Scan { token: Some(token), end: s.len() as int }));
    assert(lex(s, s.len() as int) == Ok::<Seq<TokenView>, ErrorView>(Seq::empty()));
    assert(seq![token] + Seq::<TokenView>::empty() == seq![token]);
}

/// Showing an integer and interpreting what is shown gives the integer
/// back: the statement is not silent, and the variables stay as they are.
pub proof fn lemma_int_round_trip(i: i64, env: Bindings, n: Numerics)
    ensures
        interpreted(shown(Term::Int(i), n), env, n) == (
            Ok::<(Term, Bindings), ErrorView>((Term::Int(i), env)),
            false,
        ),
{
    let s = decimal_of(i as int);
    lemma_decimal_of(i);
    lemma_lex_decimal(i);
    let token = TokenView { class: TokenClass::Int, text: s };
    let tokens = seq![token];
    lemma_language_rules(TokenClass::Int);
    assert(literal_of(token, n) == Ok::<Term, ErrorView>(Term::Int(i)));
    assert(continued(tokens, 1, 0, Term::Int(i), language(), n) == Ok::<(Term, int), ErrorView>(
        (Term::Int(i), 1),
    ));
    assert(parsed(tokens, 0, 0, language(), n) == Ok::<(Term, int), ErrorView>((Term::Int(i), 1)));
    assert(tokens.last() == token);
}

/// Every character of a decimal literal behind its sign is a digit or the
/// decimal point.
pub proof fn lemma_decimal_chars(s: Seq<char>)
    requires
        is_decimal_literal(s),
    ensures
        forall|k: int|
            0 <= k < magnitude(s).len() ==> numeral_chars().contains(#[trigger] magnitude(s)[k]),
{
    let m = magnitude(s);
    let p = run_end(m, 0, digit_chars());
    lemma_run_end_bounds(m, 0, digit_chars());
    if p < m.len() {
        lemma_run_end_bounds(m, p + 1, digit_chars());
    }
    assert forall|k: int| 0 <= k < m.len() implies numeral_chars().contains(#[trigger] m[k]) by {
        if k < p {
            assert(digit_chars().contains(m[k]));
        } else if k > p {
            assert(digit_chars().contains(m[k]));
        }
    }
}

/// Showing a float and interpreting what is shown gives the float back,
/// where the host writes it as a decimal literal that is no integer literal
/// and starts with a digit, or with a minus sign and a digit, and reads that
/// literal as the same float.
pub proof fn lemma_float_round_trip(f: u64, env: Bindings, n: Numerics)
    requires
        !is_whole(f, n),
        is_decimal_literal((n.show)(f)),
        !is_int_literal((n.show)(f)),
        is_digit((n.show)(f)[0]) || ((n.show)(f)[0] == '-' && (n.show)(f).len() >= 2 && is_digit(
            (n.show)(f)[1],
        )),
        (n.literal)((n.show)(f)) == f,
    ensures
        interpreted(shown(Term::Float(f), n), env, n) == (
            Ok::<(Term, Bindings), ErrorView>((Term::Float(f), env)),
            false,
        ),
{
    let s = (n.show)(f);
    let m = magnitude(s);
    lemma_decimal_chars(s);
    lemma_run_end_bounds(m, 0, digit_chars());
    assert(m.len() >= 1);
    assert(s.len() >= 1);
    assert(!comment_at(s, 0));
    assert forall|k: int| 1 <= k < s.len() implies numeral_chars().contains(#[trigger] s[k]) by {
        if is_negative(s) {
            assert(s[k] == m[k - 1]);
        } else {
            assert(s[k] == m[k]);
        }
    }
    lemma_run_end_from_inside(s, 1, s.len() as int, numeral_chars());
    assert(run_end(s, s.len() as int, numeral_chars()) == s.len());
    assert(s.subrange(0, s.len() as int) == s);
    assert(numeral_class(s) == Some(TokenClass::Float));
    let token = TokenView { class: TokenClass::Float, text: s };
    assert(scan(s, 0) == Ok::<Scan, ErrorView>(Scan { token: Some(token), end: s.len() as int }));
    assert(lex(s, s.len() as int) == Ok::<Seq<TokenView>, ErrorView>(Seq::empty()));
    assert(seq![token] + Seq::<TokenView>::empty() == seq![token]);
    let tokens = seq![token];
    assert(lex(s, 0) == Ok::<Seq<TokenView>, ErrorView>(tokens));
    lemma_language_rules(TokenClass::Float);
    assert(literal_of(token, n) == Ok::<Term, ErrorView>(Term::Float(f)));
    assert(continued(tokens, 1, 0, Term::Float(f), language(), n) == Ok::<(Term, int), ErrorView>(
        (Term::Float(f), 1),
    ));
    assert(parsed(tokens, 0, 0, language(), n) == Ok::<(Term, int), ErrorView>((Term::Float(f), 1)));
    assert(tokens.last() == token);
}

/// A call of a name that no function has does not end the evaluation: where
/// its arguments evaluate to matrices, its value is the matrix without
/// cells, the variables are as the arguments left them, and
/// `CouldNotFindFunction` is reported.
pub proof fn lemma_unknown_function_goes_on(
    name: Seq<char>,
    args: Seq<Term>,
    env: Bindings,
    n: Numerics,
)
    requires
        function_named(name) is None,
        arguments(args, args.len() as int, env, n) is Ok,
    ensures
        simplified(Term::Call { name, args }, env, n) == Ok::<(Term, Bindings), ErrorView>(
            (
                Term::Matrix { rows: 0, cols: 0, values: Seq::empty() },
                arguments(args, args.len() as int, env, n)->Ok_0.1,
            ),
        ),
        reported_by(Term::Call { name, args }) == Some(Error::CouldNotFindFunction),
        found(name) == StdFunction::Missing,
        forall|matrices: Seq<MatrixView>|
            applied(found(name), matrices, n) == Ok::<MatrixView, ErrorView>(empty_matrix()),
{
    let cells = Seq::new(empty_matrix().vals.len(), |i: int| demoted(empty_matrix().vals[i], n));
    assert(cells == Seq::<Term>::empty());
    assert(from_matrix(empty_matrix(), n) == Term::Matrix {
        rows: 0,
        cols: 0,
        values: Seq::empty(),
    });
}

/// Each of the thirteen names of the language stands for its function.
pub proof fn lemma_names_found()
    ensures
        function_named("t"@) == Some(StdFunction::Transpose),
        function_named("det"@) == Some(StdFunction::Determinant),
        function_named("I"@) == Some(StdFunction::Identity),
        function_named("inv"@) == Some(StdFunction::Invert),
        function_named("sqrt"@) == Some(StdFunction::Sqrt),
        function_named("sin"@) == Some(StdFunction::Sin),
        function_named("cos"@) == Some(StdFunction::Cos),
        function_named("exit"@) == Some(StdFunction::Exit),
        function_named("cross"@) == Some(StdFunction::Cross),
        function_named("dot"@) == Some(StdFunction::Dot),
        function_named("linspace"@) == Some(StdFunction::Linspace),
        function_named("plot"@) == Some(StdFunction::Plot),
        function_named("rotation2d"@) == Some(StdFunction::Rotation2d),
{
    reveal_strlit("t");
    reveal_strlit("det");
    reveal_strlit("I");
    reveal_strlit("inv");
    reveal_strlit("sqrt");
    reveal_strlit("sin");
    reveal_strlit("cos");
    reveal_strlit("exit");
    reveal_strlit("cross");
    reveal_strlit("dot");
    reveal_strlit("linspace");
    reveal_strlit("plot");
    reveal_strlit("rotation2d");
    assert("t"@.len() == 1 && "t"@[0] == 't');
    assert("I"@.len() == 1 && "I"@[0] == 'I');
    assert("det"@.len() == 3 && "det"@[0] == 'd' && "det"@[1] == 'e');
    assert("dot"@.len() == 3 && "dot"@[0] == 'd' && "dot"@[1] == 'o');
    assert("inv"@.len() == 3 && "inv"@[0] == 'i');
    assert("sin"@.len() == 3 && "sin"@[0] == 's');
    assert("cos"@.len() == 3 && "cos"@[0] == 'c');
    assert("sqrt"@.len() == 4 && "sqrt"@[0] == 's');
    assert("exit"@.len() == 4 && "exit"@[0] == 'e');
    assert("plot"@.len() == 4 && "plot"@[0] == 'p');
    assert("cross"@.len() == 5);
    assert("linspace"@.len() == 8);
    assert("rotation2d"@.len() == 10);
}

/// An assignment gives the value of its right-hand side and binds the
/// variable to it: from then on the variable evaluates to that value, and
/// the variables stay as they are. Where the right-hand side fails, so does
/// the assignment, with the same error.
pub proof fn lemma_assignment_binds(
    identifier: Seq<char>,
    value: Term,
    env: Bindings,
    n: Numerics,
)
    ensures
        match simplified(value, env, n) {
            Ok((v, after)) => {
                &&& simplified(
                    Term::Assignment { identifier, value: Box::new(value) },
                    env,
                    n,
                ) == Ok::<(Term, Bindings), ErrorView>((v, after.insert(identifier, v)))
                &&& simplified(Term::Identifier(identifier), after.insert(identifier, v), n)
                    == Ok::<(Term, Bindings), ErrorView>((v, after.insert(identifier, v)))
            },
            Err(e) => simplified(
                Term::Assignment { identifier, value: Box::new(value) },
                env,
                n,
            ) == Err::<(Term, Bindings), ErrorView>(e),
        },
{
}

} // verus!
