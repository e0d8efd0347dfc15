//! The parser: from tokens to an expression.
//!
//! An operator-precedence parser. Each class of token that can start an
//! expression has a prefix rule, each class that can go on from a left
//! operand an infix rule and a precedence. A parser holds its rules in two
//! lookup tables, its [`Grammar`]; a new parser holds the grammar of the
//! language.
use vstd::prelude::*;

pub mod assignment_parselet;
pub mod binop_parselet;
pub mod func_parselet;
pub mod identifier_parselet;
pub mod literal_parselet;
pub mod matrix_parselet;
pub mod paren_parselet;
pub mod prime_parselet;

use crate::error::{Error, ErrorView};
use crate::expression::{Expression, Term};
use crate::host::{numerics, well_behaved, Numerics, Reply, Request};
use crate::text::{int_value, is_decimal_literal, is_int_literal};
use crate::tokenizer::{precedence_of, Token, TokenClass, TokenView, Tokenizer};

pub use assignment_parselet::AssignmentParselet;
pub use binop_parselet::BinOpParselet;
pub use func_parselet::FuncParselet;
pub use identifier_parselet::IdentifierParselet;
pub use literal_parselet::LiteralParselet;
pub use matrix_parselet::MatrixParselet;
pub use paren_parselet::ParenParselet;
pub use prime_parselet::PrimeParselet;

verus! {

/// The rules that start an expression.
#[derive(Clone, Copy, Debug, PartialEq, Eq, Structural)]
pub enum PrefixRule {
    Identifier,
    Literal,
    Paren,
    Matrix,
}

/// The rules that go on from a left operand.
#[derive(Clone, Copy, Debug, PartialEq, Eq, Structural)]
pub enum InfixRule {
    Assignment,
    BinOp,
    Func,
    Prime,
}

/// The prefix rule that the language gives a class of token, if it gives
/// one.
pub open spec fn prefix_rule_of(class: TokenClass) -> Option<PrefixRule> {
    match class {
        TokenClass::Identifier => Some(PrefixRule::Identifier),
        TokenClass::Int => Some(PrefixRule::Literal),
        TokenClass::Float => Some(PrefixRule::Literal),
        TokenClass::OpenParen => Some(PrefixRule::Paren),
        TokenClass::OpenBracket => Some(PrefixRule::Matrix),
        _ => None,
    }
}

/// The infix rule that the language gives a class of token, if it gives
/// one.
pub open spec fn infix_rule_of(class: TokenClass) -> Option<InfixRule> {
    match class {
        TokenClass::Assignment => Some(InfixRule::Assignment),
        TokenClass::Plus => Some(InfixRule::BinOp),
        TokenClass::Minus => Some(InfixRule::BinOp),
        TokenClass::Multiply => Some(InfixRule::BinOp),
        TokenClass::Divide => Some(InfixRule::BinOp),
        TokenClass::OpenParen => Some(InfixRule::Func),
        TokenClass::Prime => Some(InfixRule::Prime),
        _ => None,
    }
}

/// The rules of a parser: two tables that pair classes of token with rules.
/// The rule of a class is that of the first entry that names the class.
pub struct Grammar {
    pub prefix: Seq<(TokenClass, PrefixRule)>,
    pub infix: Seq<(TokenClass, InfixRule)>,
}

/// The rule that the first entry of `table` for `class` holds, if there is
/// such an entry.
pub open spec fn looked_up<R>(table: Seq<(TokenClass, R)>, class: TokenClass) -> Option<R>
    decreases table.len(),
{
    if table.len() == 0 {
        None
    } else if table[0].0 == class {
        Some(table[0].1)
    } else {
        looked_up(table.drop_first(), class)
    }
}

impl Grammar {
    /// The prefix rule of a class of token, if the grammar has one.
    pub open spec fn prefix_of(self, class: TokenClass) -> Option<PrefixRule> {
        looked_up(self.prefix, class)
    }

    /// The infix rule of a class of token, if the grammar has one.
    pub open spec fn infix_of(self, class: TokenClass) -> Option<InfixRule> {
        looked_up(self.infix, class)
    }
}

/// The grammar of the language: an identifier and a literal start an
/// expression, as `(` and `[` do; `=`, the four operators, `(` and `'` go on
/// from a left operand.
pub open spec fn language() -> Grammar {
    Grammar {
        prefix: seq![
            (TokenClass::Identifier, PrefixRule::Identifier),
            (TokenClass::Int, PrefixRule::Literal),
            (TokenClass::Float, PrefixRule::Literal),
            (TokenClass::OpenParen, PrefixRule::Paren),
            (TokenClass::OpenBracket, PrefixRule::Matrix),
        ],
        infix: seq![
            (TokenClass::Assignment, InfixRule::Assignment),
            (TokenClass::Plus, InfixRule::BinOp),
            (TokenClass::Minus, InfixRule::BinOp),
            (TokenClass::Multiply, InfixRule::BinOp),
            (TokenClass::Divide, InfixRule::BinOp),
            (TokenClass::OpenParen, InfixRule::Func),
            (TokenClass::Prime, InfixRule::Prime),
        ],
    }
}

/// The grammar of the language gives each class of token the rules that
/// `prefix_rule_of` and `infix_rule_of` name.
pub proof fn lemma_language_rules(class: TokenClass)
    ensures
        language().prefix_of(class) == prefix_rule_of(class),
        language().infix_of(class) == infix_rule_of(class),
{
    reveal_with_fuel(looked_up, 8);
    let prefix = language().prefix;
    let infix = language().infix;
    assert(prefix.drop_first().len() == 4);
    assert(prefix.drop_first().drop_first().len() == 3);
    assert(prefix.drop_first().drop_first().drop_first().len() == 2);
    assert(prefix.drop_first().drop_first().drop_first().drop_first().len() == 1);
    assert(infix.drop_first().len() == 6);
}

/// What a parse gives: an expression and the position behind its last token.
pub type Parse = Result<(Term, int), ErrorView>;

/// The value of a numeric literal: the integer that an `Int` token spells,
/// the number that the host reads in a `Float` token.
pub open spec fn literal_of(token: TokenView, n: Numerics) -> Result<Term, ErrorView> {
    if token.class == TokenClass::Int && is_int_literal(token.text) {
        Ok(Term::Int(int_value(token.text) as i64))
    } else if token.class == TokenClass::Float && is_decimal_literal(token.text) {
        Ok(Term::Float((n.literal)(token.text)))
    } else {
        Err(ErrorView::CouldNotParseNumeric)
    }
}

/// What the prefix rule that the grammar `g` gives the token at position `p`
/// makes of it and of what follows: the rules `Identifier` and `Literal`
/// let the token stand for itself, `Paren` opens a group, `Matrix` a matrix
/// literal. A token without a prefix rule gives `UnexpectedEof`.
pub open spec fn prefixed(ts: Seq<TokenView>, p: int, g: Grammar, n: Numerics) -> Parse
    decreases ts.len() - p, 0int,
{
    if 0 <= p < ts.len() {
        match g.prefix_of(ts[p].class) {
            Some(PrefixRule::Identifier) => Ok((Term::Identifier(ts[p].text), p + 1)),
            Some(PrefixRule::Literal) => match literal_of(ts[p], n) {
                Ok(t) => Ok((t, p + 1)),
                Err(e) => Err(e),
            },
            Some(PrefixRule::Paren) => grouped(ts, p + 1, g, n),
            Some(PrefixRule::Matrix) => rows_parsed(ts, p + 1, 0, 0, 0, Seq::empty(), g, n),
            None => Err(ErrorView::UnexpectedEof),
        }
    } else {
        Err(ErrorView::UnexpectedEof)
    }
}

/// The expression that starts at position `p` of the tokens `ts` and goes on
/// as long as the operators bind more tightly than `precedence`.
///
/// Behind the last token it is `Nil`. Otherwise the prefix rule of the token
/// at `p` gives its start, and `continued` takes up what follows.
///
/// Here and in the functions below, a test that a position lies behind
/// another lets the recursion end. It is always met: see
/// `lemma_parsed_advances`.
pub open spec fn parsed(ts: Seq<TokenView>, p: int, precedence: u8, g: Grammar, n: Numerics) -> Parse
    decreases ts.len() - p, 1int,
{
    if 0 <= p < ts.len() {
        match prefixed(ts, p, g, n) {
            Err(e) => Err(e),
            Ok((left, q)) => if p < q <= ts.len() {
                continued(ts, q, precedence, left, g, n)
            } else {
                Ok((left, q))
            },
        }
    } else {
        Ok((Term::Nil, p))
    }
}

/// The expression that `left` grows into from position `q` on: as long as
/// the token at hand has an infix rule and binds more tightly than
/// `precedence`, its rule makes a new left operand of the old one.
pub open spec fn continued(
    ts: Seq<TokenView>,
    q: int,
    precedence: u8,
    left: Term,
    g: Grammar,
    n: Numerics,
) -> Parse
    decreases ts.len() - q, 1int,
{
    if 0 <= q < ts.len() && precedence < precedence_of(ts[q].class) && g.infix_of(
        ts[q].class,
    ) is Some {
        match infixed(ts, q, left, g, n) {
            Err(e) => Err(e),
            Ok((grown, r)) => if q < r <= ts.len() {
                continued(ts, r, precedence, grown, g, n)
            } else {
                Ok((grown, r))
            },
        }
    } else {
        Ok((left, q))
    }
}

/// What the infix rule that the grammar `g` gives the token at position `q`
/// makes of the operand `left`. In the grammar of the language:
///
/// - `=` takes the expression behind it, whatever binds it, and needs an
///   identifier on its left, or fails with `ExpectedIdentifier`.
/// - `+`, `-`, `*` and `/` take the expression behind them that binds more
///   tightly than they do; without a token behind them they fail with
///   `UnexpectedEof`.
/// - `(` needs an identifier on its left, or fails with `ExpectedIdentifier`,
///   and takes the arguments up to `)`.
/// - `'` makes the call of `t` on its left operand.
pub open spec fn infixed(ts: Seq<TokenView>, q: int, left: Term, g: Grammar, n: Numerics) -> Parse
    decreases ts.len() - q, 0int,
{
    if 0 <= q < ts.len() {
        match g.infix_of(ts[q].class) {
            Some(InfixRule::Assignment) => match parsed(ts, q + 1, 0, g, n) {
                Err(e) => Err(e),
                Ok((right, r)) => match left {
                    Term::Identifier(s) => Ok(
                        (Term::Assignment { identifier: s, value: Box::new(right) }, r),
                    ),
                    _ => Err(ErrorView::ExpectedIdentifier),
                },
            },
            Some(InfixRule::BinOp) => if q + 1 >= ts.len() {
                Err(ErrorView::UnexpectedEof)
            } else {
                match parsed(ts, q + 1, precedence_of(ts[q].class), g, n) {
                    Err(e) => Err(e),
                    Ok((right, r)) => Ok(
                        (
                            Term::BinOp {
                                left: Box::new(left),
                                op: ts[q].text,
                                right: Box::new(right),
                            },
                            r,
                        ),
                    ),
                }
            },
            Some(InfixRule::Func) => match left {
                Term::Identifier(s) => match args_parsed(ts, q + 1, false, Seq::empty(), g, n) {
                    Err(e) => Err(e),
                    Ok((args, r)) => Ok((Term::Call { name: s, args }, r)),
                },
                _ => Err(ErrorView::ExpectedIdentifier),
            },
            Some(InfixRule::Prime) => Ok((Term::Call { name: "t"@, args: seq![left] }, q + 1)),
            None => Err(ErrorView::UnexpectedEof),
        }
    } else {
        Err(ErrorView::UnexpectedEof)
    }
}

/// The expression in parentheses whose first token stands at position `p`,
/// behind `(`. It goes on as long as the operators bind more tightly than its
/// first token does, and `)` must follow it: the parse fails with
/// `ExpectedCloseParen` where another token follows, and with `UnexpectedEof`
/// where the tokens end.
pub open spec fn grouped(ts: Seq<TokenView>, p: int, g: Grammar, n: Numerics) -> Parse
    decreases ts.len() - p, 2int,
{
    if 0 <= p < ts.len() {
        match parsed(ts, p, precedence_of(ts[p].class), g, n) {
            Err(e) => Err(e),
            Ok((inner, q)) => if !(0 <= q < ts.len()) {
                Err(ErrorView::UnexpectedEof)
            } else if ts[q].class == TokenClass::CloseParen {
                Ok((inner, q + 1))
            } else {
                Err(ErrorView::ExpectedCloseParen)
            },
        }
    } else {
        Err(ErrorView::UnexpectedEof)
    }
}

/// The arguments of a call from position `p` on, behind those in `done`, and
/// the position behind the `)` that ends them.
///
/// An argument that follows a comma goes on whatever binds it; another goes
/// on as long as the operators bind more tightly than its first token does.
/// A comma behind an argument is passed over. The parse fails with
/// `UnexpectedEof` where the tokens end before `)`.
pub open spec fn args_parsed(
    ts: Seq<TokenView>,
    p: int,
    after_comma: bool,
    done: Seq<Term>,
    g: Grammar,
    n: Numerics,
) -> Result<(Seq<Term>, int), ErrorView>
    decreases ts.len() - p, 2int,
{
    if !(0 <= p < ts.len()) {
        Err(ErrorView::UnexpectedEof)
    } else if !after_comma && ts[p].class == TokenClass::CloseParen {
        Ok((done, p + 1))
    } else {
        let precedence = if after_comma {
            0
        } else {
            precedence_of(ts[p].class)
        };
        match parsed(ts, p, precedence, g, n) {
            Err(e) => Err(e),
            Ok((arg, q)) => if !(p < q <= ts.len()) {
                Err(ErrorView::UnexpectedEof)
            } else if q < ts.len() && ts[q].class == TokenClass::Comma {
                args_parsed(ts, q + 1, true, done.push(arg), g, n)
            } else {
                args_parsed(ts, q, false, done.push(arg), g, n)
            },
        }
    }
}

/// The matrix whose literal goes on at position `p`, behind `[`, with `rows`
/// rows of `cols` cells and `in_row` cells of one more row in `done`.
///
/// A row is one or more expressions, each taken whatever binds it. `;` ends
/// a row, `]` ends the last one, and the literal as well where it stands
/// right behind the `;` of a row. The first row gives the number of columns;
/// the parse fails with `ImproperDimensions` at the end of a row that has
/// another number of cells, and with `UnexpectedEof` where the tokens end
/// before `]`.
pub open spec fn rows_parsed(
    ts: Seq<TokenView>,
    p: int,
    cols: int,
    rows: int,
    in_row: int,
    done: Seq<Term>,
    g: Grammar,
    n: Numerics,
) -> Parse
    decreases ts.len() - p, 2int,
{
    if !(0 <= p < ts.len()) {
        Err(ErrorView::UnexpectedEof)
    } else if in_row > 0 && (ts[p].class == TokenClass::Semicolon || ts[p].class
        == TokenClass::CloseBracket) {
        if rows > 0 && in_row != cols {
            Err(ErrorView::ImproperDimensions)
        } else if ts[p].class == TokenClass::CloseBracket {
            Ok(
                (
                    Term::Matrix { rows: (rows + 1) as usize, cols: in_row as usize, values: done },
                    p + 1,
                ),
            )
        } else {
            rows_parsed(ts, p + 1, in_row, rows + 1, 0, done, g, n)
        }
    } else if in_row == 0 && rows > 0 && ts[p].class == TokenClass::CloseBracket {
        Ok((Term::Matrix { rows: rows as usize, cols: cols as usize, values: done }, p + 1))
    } else {
        match parsed(ts, p, 0, g, n) {
            Err(e) => Err(e),
            Ok((cell, q)) => if p < q <= ts.len() {
                rows_parsed(ts, q, cols, rows, in_row + 1, done.push(cell), g, n)
            } else {
                Err(ErrorView::UnexpectedEof)
            },
        }
    }
}

/// A parse that starts at a token ends behind it, and no parse ends behind
/// the last token: the tests on positions in `parsed` and the functions
/// around it are always met.
pub proof fn lemma_parsed_advances(ts: Seq<TokenView>, p: int, precedence: u8, g: Grammar, n: Numerics)
    requires
        0 <= p <= ts.len(),
    ensures
        parsed(ts, p, precedence, g, n) matches Ok((_, q)) ==> p <= q <= ts.len() && (p < ts.len()
            ==> p < q),
    decreases ts.len() - p, 1int,
{
    if p < ts.len() {
        lemma_prefixed_advances(ts, p, g, n);
        if let Ok((left, q)) = prefixed(ts, p, g, n) {
            lemma_continued_advances(ts, q, precedence, left, g, n);
        }
    }
}

/// What a prefix rule reads ends behind its first token.
pub proof fn lemma_prefixed_advances(ts: Seq<TokenView>, p: int, g: Grammar, n: Numerics)
    requires
        0 <= p < ts.len(),
    ensures
        prefixed(ts, p, g, n) matches Ok((_, q)) ==> p < q <= ts.len(),
    decreases ts.len() - p, 0int,
{
    match g.prefix_of(ts[p].class) {
        Some(PrefixRule::Paren) => {
            lemma_grouped_advances(ts, p + 1, g, n);
        },
        Some(PrefixRule::Matrix) => {
            lemma_rows_advance(ts, p + 1, 0, 0, 0, Seq::empty(), g, n);
        },
        _ => {},
    }
}

/// What grows out of a left operand ends at or behind where it started.
pub proof fn lemma_continued_advances(
    ts: Seq<TokenView>,
    q: int,
    precedence: u8,
    left: Term,
    g: Grammar,
    n: Numerics,
)
    requires
        0 <= q <= ts.len(),
    ensures
        continued(ts, q, precedence, left, g, n) matches Ok((_, r)) ==> q <= r <= ts.len(),
    decreases ts.len() - q, 1int,
{
    if q < ts.len() && precedence < precedence_of(ts[q].class) && g.infix_of(ts[q].class)
        is Some {
        lemma_infixed_advances(ts, q, left, g, n);
        if let Ok((grown, r)) = infixed(ts, q, left, g, n) {
            lemma_continued_advances(ts, r, precedence, grown, g, n);
        }
    }
}

/// What an infix rule reads ends behind its operator.
pub proof fn lemma_infixed_advances(ts: Seq<TokenView>, q: int, left: Term, g: Grammar, n: Numerics)
    requires
        0 <= q < ts.len(),
    ensures
        infixed(ts, q, left, g, n) matches Ok((_, r)) ==> q < r <= ts.len(),
    decreases ts.len() - q, 0int,
{
    match g.infix_of(ts[q].class) {
        Some(InfixRule::Assignment) => {
            lemma_parsed_advances(ts, q + 1, 0, g, n);
        },
        Some(InfixRule::BinOp) => {
            if q + 1 < ts.len() {
                lemma_parsed_advances(ts, q + 1, precedence_of(ts[q].class), g, n);
            }
        },
        Some(InfixRule::Func) => {
            lemma_args_advance(ts, q + 1, false, Seq::empty(), g, n);
        },
        _ => {},
    }
}

/// A group ends behind its first token.
pub proof fn lemma_grouped_advances(ts: Seq<TokenView>, p: int, g: Grammar, n: Numerics)
    requires
        0 <= p <= ts.len(),
    ensures
        grouped(ts, p, g, n) matches Ok((_, r)) ==> p < r <= ts.len(),
    decreases ts.len() - p, 2int,
{
    if p < ts.len() {
        lemma_parsed_advances(ts, p, precedence_of(ts[p].class), g, n);
    }
}

/// The arguments of a call end behind where they start.
pub proof fn lemma_args_advance(
    ts: Seq<TokenView>,
    p: int,
    after_comma: bool,
    done: Seq<Term>,
    g: Grammar,
    n: Numerics,
)
    requires
        0 <= p <= ts.len(),
    ensures
        args_parsed(ts, p, after_comma, done, g, n) matches Ok((_, r)) ==> p < r <= ts.len(),
    decreases ts.len() - p, 2int,
{
    if p < ts.len() && !(!after_comma && ts[p].class == TokenClass::CloseParen) {
        let precedence = if after_comma {
            0
        } else {
            precedence_of(ts[p].class)
        };
        lemma_parsed_advances(ts, p, precedence, g, n);
        if let Ok((arg, q)) = parsed(ts, p, precedence, g, n) {
            if q < ts.len() && ts[q].class == TokenClass::Comma {
                lemma_args_advance(ts, q + 1, true, done.push(arg), g, n);
            } else {
                lemma_args_advance(ts, q, false, done.push(arg), g, n);
            }
        }
    }
}

/// A matrix literal ends behind where it goes on.
pub proof fn lemma_rows_advance(
    ts: Seq<TokenView>,
    p: int,
    cols: int,
    rows: int,
    in_row: int,
    done: Seq<Term>,
    g: Grammar,
    n: Numerics,
)
    requires
        0 <= p <= ts.len(),
    ensures
        rows_parsed(ts, p, cols, rows, in_row, done, g, n) matches Ok((_, r)) ==> p < r <= ts.len(),
    decreases ts.len() - p, 2int,
{
    if p < ts.len() {
        if in_row > 0 && (ts[p].class == TokenClass::Semicolon || ts[p].class
            == TokenClass::CloseBracket) {
            if !(rows > 0 && in_row != cols) && ts[p].class != TokenClass::CloseBracket {
                lemma_rows_advance(ts, p + 1, in_row, rows + 1, 0, done, g, n);
            }
        } else if in_row == 0 && rows > 0 && ts[p].class == TokenClass::CloseBracket {
        } else {
            lemma_parsed_advances(ts, p, 0, g, n);
            if let Ok((cell, q)) = parsed(ts, p, 0, g, n) {
                lemma_rows_advance(ts, q, cols, rows, in_row + 1, done.push(cell), g, n);
            }
        }
    }
}

/// The term is a matrix that holds as many cells as its rows and columns
/// say.
pub open spec fn is_shaped_matrix(t: Term) -> bool {
    t matches Term::Matrix { rows, cols, values } && values.len() == rows * cols
}

/// The matrix that a literal gives is well shaped, where the cells read so
/// far fill `rows` rows of `cols` cells and `in_row` cells of one more.
pub proof fn lemma_rows_shaped(
    ts: Seq<TokenView>,
    p: int,
    cols: int,
    rows: int,
    in_row: int,
    done: Seq<Term>,
    g: Grammar,
    n: Numerics,
)
    requires
        0 <= p <= ts.len(),
        0 <= rows,
        0 <= cols,
        0 <= in_row,
        rows > 0 ==> cols > 0,
        done.len() == rows * cols + in_row,
        done.len() + (ts.len() - p) <= usize::MAX,
    ensures
        rows_parsed(ts, p, cols, rows, in_row, done, g, n) matches Ok((t, _)) ==> is_shaped_matrix(t),
    decreases ts.len() - p, 2int,
{
    if p < ts.len() {
        if in_row > 0 && (ts[p].class == TokenClass::Semicolon || ts[p].class
            == TokenClass::CloseBracket) {
            if !(rows > 0 && in_row != cols) {
                assert(done.len() == (rows + 1) * in_row) by (nonlinear_arith)
                    requires
                        done.len() == rows * cols + in_row,
                        rows > 0 ==> in_row == cols,
                        rows >= 0,
                ;
                assert(rows + 1 <= (rows + 1) * in_row) by (nonlinear_arith)
                    requires
                        in_row >= 1,
                        rows >= 0,
                ;
                assert(in_row <= (rows + 1) * in_row) by (nonlinear_arith)
                    requires
                        in_row >= 1,
                        rows >= 0,
                ;
                if ts[p].class != TokenClass::CloseBracket {
                    lemma_rows_shaped(ts, p + 1, in_row, rows + 1, 0, done, g, n);
                }
            }
        } else if in_row == 0 && rows > 0 && ts[p].class == TokenClass::CloseBracket {
            assert(rows <= rows * cols && cols <= rows * cols) by (nonlinear_arith)
                requires
                    rows >= 1,
                    cols >= 1,
            ;
        } else {
            lemma_parsed_advances(ts, p, 0, g, n);
            if let Ok((cell, q)) = parsed(ts, p, 0, g, n) {
                lemma_rows_shaped(ts, q, cols, rows, in_row + 1, done.push(cell), g, n);
            }
        }
    }
}

/// A matrix literal gives a well-shaped matrix: each of its rows has as
/// many cells as the first.
pub proof fn lemma_matrix_literal_shaped(ts: Seq<TokenView>, p: int, g: Grammar, n: Numerics)
    requires
        0 <= p < ts.len() <= usize::MAX,
        g.prefix_of(ts[p].class) == Some(PrefixRule::Matrix),
    ensures
        prefixed(ts, p, g, n) matches Ok((t, _)) ==> is_shaped_matrix(t),
{
    lemma_rows_shaped(ts, p + 1, 0, 0, 0, Seq::empty(), g, n);
}

/// Cell `k` of a matrix literal of `rows` rows of `cols` cells is spelled
/// where the tokens say so: the cell starts at `starts[k]`, where no `;`
/// and no `]` stands; from there the expression `cells[k]` is read, up to
/// `ends[k]`; and there the next cell of the row starts, or `;` stands and
/// the next row starts behind it, or, behind the last cell, `]` stands.
pub open spec fn spells_cell(
    ts: Seq<TokenView>,
    k: int,
    rows: int,
    cols: int,
    cells: Seq<Term>,
    starts: Seq<int>,
    ends: Seq<int>,
    g: Grammar,
    n: Numerics,
) -> bool {
    &&& 0 <= starts[k] < ts.len()
    &&& 0 <= ends[k] < ts.len()
    &&& ts[starts[k]].class != TokenClass::CloseBracket
    &&& k % cols != 0 ==> ts[starts[k]].class != TokenClass::Semicolon
    &&& parsed(ts, starts[k], 0, g, n) == Ok::<(Term, int), ErrorView>((cells[k], ends[k]))
    &&& if (k + 1) % cols != 0 {
        starts[k + 1] == ends[k]
    } else if k + 1 < rows * cols {
        ts[ends[k]].class == TokenClass::Semicolon && starts[k + 1] == ends[k] + 1
    } else {
        ts[ends[k]].class == TokenClass::CloseBracket
    }
}

/// The tokens from position `p` on, behind `[`, spell a matrix literal of
/// `rows` rows of `cols` cells each, the rows set apart by `;` and the last
/// one closed by `]`: each cell is spelled as `spells_cell` says.
pub open spec fn spells_matrix(
    ts: Seq<TokenView>,
    p: int,
    rows: int,
    cols: int,
    cells: Seq<Term>,
    starts: Seq<int>,
    ends: Seq<int>,
    g: Grammar,
    n: Numerics,
) -> bool {
    &&& 1 <= rows <= usize::MAX
    &&& 1 <= cols <= usize::MAX
    &&& cells.len() == rows * cols
    &&& starts.len() == rows * cols
    &&& ends.len() == rows * cols
    &&& starts[0] == p
    &&& forall|k: int|
        0 <= k < rows * cols ==> #[trigger] spells_cell(ts, k, rows, cols, cells, starts, ends, g, n)
}

/// A literal that spells rows of cells gives, from the cell in row `i` and
/// column `j` on, the matrix of all its cells.
pub proof fn lemma_matrix_literal_from(
    ts: Seq<TokenView>,
    p: int,
    rows: int,
    cols: int,
    cells: Seq<Term>,
    starts: Seq<int>,
    ends: Seq<int>,
    i: int,
    j: int,
    g: Grammar,
    n: Numerics,
)
    requires
        spells_matrix(ts, p, rows, cols, cells, starts, ends, g, n),
        0 <= i < rows,
        0 <= j < cols,
    ensures
        rows_parsed(
            ts,
            starts[i * cols + j],
            if i == 0 {
                0
            } else {
                cols
            },
            i,
            j,
            cells.subrange(0, i * cols + j),
            g,
            n,
        ) == Ok::<(Term, int), ErrorView>(
            (
                Term::Matrix { rows: rows as usize, cols: cols as usize, values: cells },
                ends[rows * cols - 1] + 1,
            ),
        ),
    decreases rows - i, cols - j,
{
    let k = i * cols + j;
    let width = if i == 0 {
        0
    } else {
        cols
    };
    let done = cells.subrange(0, k);
    crate::matrix::lemma_cell_index(rows, cols, i, j);
    crate::standard::transpose::lemma_split_index(cols, i, j);
    assert(spells_cell(ts, k, rows, cols, cells, starts, ends, g, n));
    lemma_parsed_advances(ts, starts[k], 0, g, n);
    assert(done.push(cells[k]) == cells.subrange(0, k + 1));
    let behind = rows_parsed(ts, ends[k], width, i, j + 1, cells.subrange(0, k + 1), g, n);
    assert(rows_parsed(ts, starts[k], width, i, j, done, g, n) == behind);
    if j + 1 < cols {
        crate::standard::transpose::lemma_split_index(cols, i, j + 1);
        lemma_matrix_literal_from(ts, p, rows, cols, cells, starts, ends, i, j + 1, g, n);
    } else {
        assert(k + 1 == (i + 1) * cols) by (nonlinear_arith)
            requires
                k == i * cols + j,
                j + 1 == cols,
        ;
        crate::standard::transpose::lemma_split_index(cols, i + 1, 0);
        if i + 1 < rows {
            assert((i + 1) * cols < rows * cols) by (nonlinear_arith)
                requires
                    i + 1 < rows,
                    cols >= 1,
            ;
            assert(behind == rows_parsed(
                ts,
                ends[k] + 1,
                cols,
                i + 1,
                0,
                cells.subrange(0, k + 1),
                g,
                n,
            ));
            lemma_matrix_literal_from(ts, p, rows, cols, cells, starts, ends, i + 1, 0, g, n);
        } else {
            assert((i + 1) * cols == rows * cols);
            assert(cells.subrange(0, k + 1) == cells);
        }
    }
}

/// A matrix literal of `rows` rows of `cols` cells each gives the matrix of
/// that shape whose cells are the expressions of the literal, row by row,
/// and ends behind its `]`.
pub proof fn lemma_matrix_literal(
    ts: Seq<TokenView>,
    p: int,
    rows: int,
    cols: int,
    cells: Seq<Term>,
    starts: Seq<int>,
    ends: Seq<int>,
    g: Grammar,
    n: Numerics,
)
    requires
        spells_matrix(ts, p, rows, cols, cells, starts, ends, g, n),
    ensures
        rows_parsed(ts, p, 0, 0, 0, Seq::empty(), g, n) == Ok::<(Term, int), ErrorView>(
            (
                Term::Matrix { rows: rows as usize, cols: cols as usize, values: cells },
                ends[rows * cols - 1] + 1,
            ),
        ),
        cells.len() == (rows as usize) * (cols as usize),
{
    lemma_matrix_literal_from(ts, p, rows, cols, cells, starts, ends, 0, 0, g, n);
    assert(0 * cols + 0 == 0);
    assert(cells.subrange(0, 0) == Seq::<Term>::empty());
}

/// The outcome of a parse is what its specification gives: the same
/// expression, read up to the same position, or the same error.
pub open spec fn parses(outcome: Result<Expression, Error>, end: int, wanted: Parse) -> bool {
    match outcome {
        Ok(e) => wanted == Ok::<(Term, int), ErrorView>((e@, end)),
        Err(err) => wanted == Err::<(Term, int), ErrorView>(err@),
    }
}

/// Abstracts over "prefix parselets": the rules that start an expression.
pub trait PrefixParselet {
    /// The rule that the parselet carries out.
    spec fn rule(&self) -> PrefixRule;

    /// Carries out the rule on `token`, which was just read, and on the
    /// tokens that follow.
    fn parse<H: Fn(Request) -> Reply>(
        &self,
        parser: &Parser,
        tokenizer: &mut Tokenizer,
        token: Token,
        host: &H,
    ) -> (outcome: Result<Expression, Error>)
        requires
            old(tokenizer).wf(),
            0 < old(tokenizer).position(),
            token@ == old(tokenizer)@[old(tokenizer).position() - 1],
            parser@.prefix_of(token@.class) == Some(self.rule()),
            well_behaved(host),
        ensures
            final(tokenizer).wf(),
            final(tokenizer)@ == old(tokenizer)@,
            parses(
                outcome,
                final(tokenizer).position(),
                prefixed(
                    old(tokenizer)@,
                    old(tokenizer).position() - 1,
                    parser@,
                    numerics(host),
                ),
            ),
            outcome is Ok ==> old(tokenizer).position() <= final(tokenizer).position(),
    ;
}

/// Abstracts over "infix parselets": the rules that go on from a left
/// operand.
pub trait InfixParselet {
    /// The rule that the parselet carries out.
    spec fn rule(&self) -> InfixRule;

    /// Carries out the rule on the operand `left`, on `token`, which was
    /// just read, and on the tokens that follow.
    fn parse<H: Fn(Request) -> Reply>(
        &self,
        parser: &Parser,
        tokenizer: &mut Tokenizer,
        token: Token,
        left: Expression,
        host: &H,
    ) -> (outcome: Result<Expression, Error>)
        requires
            old(tokenizer).wf(),
            0 < old(tokenizer).position(),
            token@ == old(tokenizer)@[old(tokenizer).position() - 1],
            parser@.infix_of(token@.class) == Some(self.rule()),
            well_behaved(host),
        ensures
            final(tokenizer).wf(),
            final(tokenizer)@ == old(tokenizer)@,
            parses(
                outcome,
                final(tokenizer).position(),
                infixed(
                    old(tokenizer)@,
                    old(tokenizer).position() - 1,
                    left@,
                    parser@,
                    numerics(host),
                ),
            ),
            outcome is Ok ==> old(tokenizer).position() <= final(tokenizer).position(),
    ;
}

impl PrefixParselet for IdentifierParselet {
    open spec fn rule(&self) -> PrefixRule {
        PrefixRule::Identifier
    }

    fn parse<H: Fn(Request) -> Reply>(
        &self,
        parser: &Parser,
        tokenizer: &mut Tokenizer,
        token: Token,
        host: &H,
    ) -> (outcome: Result<Expression, Error>) {
        Ok(IdentifierParselet::parse(self, token))
    }
}

impl PrefixParselet for LiteralParselet {
    open spec fn rule(&self) -> PrefixRule {
        PrefixRule::Literal
    }

    fn parse<H: Fn(Request) -> Reply>(
        &self,
        parser: &Parser,
        tokenizer: &mut Tokenizer,
        token: Token,
        host: &H,
    ) -> (outcome: Result<Expression, Error>) {
        LiteralParselet::parse(self, token, host)
    }
}

impl PrefixParselet for ParenParselet {
    open spec fn rule(&self) -> PrefixRule {
        PrefixRule::Paren
    }

    fn parse<H: Fn(Request) -> Reply>(
        &self,
        parser: &Parser,
        tokenizer: &mut Tokenizer,
        token: Token,
        host: &H,
    ) -> (outcome: Result<Expression, Error>) {
        ParenParselet::parse(self, parser, tokenizer, host)
    }
}

impl PrefixParselet for MatrixParselet {
    open spec fn rule(&self) -> PrefixRule {
        PrefixRule::Matrix
    }

    fn parse<H: Fn(Request) -> Reply>(
        &self,
        parser: &Parser,
        tokenizer: &mut Tokenizer,
        token: Token,
        host: &H,
    ) -> (outcome: Result<Expression, Error>) {
        MatrixParselet::parse(self, parser, tokenizer, host)
    }
}

impl InfixParselet for AssignmentParselet {
    open spec fn rule(&self) -> InfixRule {
        InfixRule::Assignment
    }

    fn parse<H: Fn(Request) -> Reply>(
        &self,
        parser: &Parser,
        tokenizer: &mut Tokenizer,
        token: Token,
        left: Expression,
        host: &H,
    ) -> (outcome: Result<Expression, Error>) {
        AssignmentParselet::parse(self, parser, tokenizer, left, host)
    }
}

impl InfixParselet for BinOpParselet {
    open spec fn rule(&self) -> InfixRule {
        InfixRule::BinOp
    }

    fn parse<H: Fn(Request) -> Reply>(
        &self,
        parser: &Parser,
        tokenizer: &mut Tokenizer,
        token: Token,
        left: Expression,
        host: &H,
    ) -> (outcome: Result<Expression, Error>) {
        BinOpParselet::parse(self, parser, tokenizer, token, left, host)
    }
}

impl InfixParselet for FuncParselet {
    open spec fn rule(&self) -> InfixRule {
        InfixRule::Func
    }

    fn parse<H: Fn(Request) -> Reply>(
        &self,
        parser: &Parser,
        tokenizer: &mut Tokenizer,
        token: Token,
        left: Expression,
        host: &H,
    ) -> (outcome: Result<Expression, Error>) {
        FuncParselet::parse(self, parser, tokenizer, left, host)
    }
}

impl InfixParselet for PrimeParselet {
    open spec fn rule(&self) -> InfixRule {
        InfixRule::Prime
    }

    fn parse<H: Fn(Request) -> Reply>(
        &self,
        parser: &Parser,
        tokenizer: &mut Tokenizer,
        token: Token,
        left: Expression,
        host: &H,
    ) -> (outcome: Result<Expression, Error>) {
        Ok(PrimeParselet::parse(self, left))
    }
}

/// Abstracts over parser behavior.
///
/// A parser holds its rules in two tables, one for the rules that start an
/// expression and one for those that go on from a left operand.
pub struct Parser {
    prefix_parselets: Vec<(TokenClass, PrefixRule)>,
    infix_parselets: Vec<(TokenClass, InfixRule)>,
}

impl View for Parser {
    type V = Grammar;

    /// The rules that the parser holds.
    closed spec fn view(&self) -> Grammar {
        Grammar { prefix: self.prefix_parselets@, infix: self.infix_parselets@ }
    }
}

/// The rule that the first entry of a table for a class of token holds.
fn look_up<R: Copy>(table: &Vec<(TokenClass, R)>, class: TokenClass) -> (rule: Option<R>)
    ensures
        rule == looked_up(table@, class),
{
    let mut i: usize = 0;
    assert(table@.subrange(0, table.len() as int) == table@);
    while i < table.len()
        invariant
            i <= table.len(),
            looked_up(table@, class) == looked_up(
                table@.subrange(i as int, table.len() as int),
                class,
            ),
        decreases table.len() - i,
    {
        let ghost rest = table@.subrange(i as int, table.len() as int);
        assert(rest[0] == table@[i as int]);
        assert(rest.drop_first() == table@.subrange(i + 1, table.len() as int));
        if table[i].0 == class {
            return Some(table[i].1);
        }
        i += 1;
    }
    None
}

impl Parser {
    /// Constructs a new parser: one that holds the grammar of the language.
    pub fn new() -> (parser: Self)
        ensures
            parser@ == language(),
    {
        let mut prefix_parselets: Vec<(TokenClass, PrefixRule)> = Vec::new();
        let mut infix_parselets: Vec<(TokenClass, InfixRule)> = Vec::new();
        // Declarative grammar begins here.
        prefix_parselets.push((TokenClass::Identifier, PrefixRule::Identifier));
        prefix_parselets.push((TokenClass::Int, PrefixRule::Literal));
        prefix_parselets.push((TokenClass::Float, PrefixRule::Literal));
        prefix_parselets.push((TokenClass::OpenParen, PrefixRule::Paren));
        prefix_parselets.push((TokenClass::OpenBracket, PrefixRule::Matrix));
        infix_parselets.push((TokenClass::Assignment, InfixRule::Assignment));
        infix_parselets.push((TokenClass::Plus, InfixRule::BinOp));
        infix_parselets.push((TokenClass::Minus, InfixRule::BinOp));
        infix_parselets.push((TokenClass::Multiply, InfixRule::BinOp));
        infix_parselets.push((TokenClass::Divide, InfixRule::BinOp));
        infix_parselets.push((TokenClass::OpenParen, InfixRule::Func));
        infix_parselets.push((TokenClass::Prime, InfixRule::Prime));
        assert(prefix_parselets@ == language().prefix);
        assert(infix_parselets@ == language().infix);
        Parser { prefix_parselets, infix_parselets }
    }

    /// The rule that starts an expression at a token of the given class.
    pub fn prefix_rule(&self, class: TokenClass) -> (rule: Option<PrefixRule>)
        ensures
            rule == self@.prefix_of(class),
    {
        look_up(&self.prefix_parselets, class)
    }

    /// The rule that goes on from a left operand at a token of the given
    /// class.
    pub fn infix_rule(&self, class: TokenClass) -> (rule: Option<InfixRule>)
        ensures
            rule == self@.infix_of(class),
    {
        look_up(&self.infix_parselets, class)
    }

    /// Parse code into an expression.
    ///
    /// Reads the expression that starts at the token at hand and goes on as
    /// long as the operators bind more tightly than `precedence`. Behind the
    /// last token the expression is `Nil`.
    pub fn parse<H: Fn(Request) -> Reply>(
        &self,
        tokenizer: &mut Tokenizer,
        precedence: u8,
        host: &H,
    ) -> (outcome: Result<Expression, Error>)
        requires
            old(tokenizer).wf(),
            well_behaved(host),
        ensures
            final(tokenizer).wf(),
            final(tokenizer)@ == old(tokenizer)@,
            parses(
                outcome,
                final(tokenizer).position(),
                parsed(
                    old(tokenizer)@,
                    old(tokenizer).position(),
                    precedence,
                    self@,
                    numerics(host),
                ),
            ),
            outcome is Ok ==> old(tokenizer).position() <= final(tokenizer).position(),
            outcome is Ok && old(tokenizer).position() < old(tokenizer)@.len() ==> old(
                tokenizer,
            ).position() < final(tokenizer).position(),
        decreases old(tokenizer)@.len() - old(tokenizer).position(), 1int,
    {
        let ghost ts = tokenizer@;
        let ghost start = tokenizer.position();
        let ghost n = numerics(host);
        let ghost g = self@;
        let token = match tokenizer.next() {
            Some(t) => t,
            None => {
                return Ok(Expression::Nil);
            },
        };
        let first = match self.prefix_rule(token.get_class()) {
            Some(PrefixRule::Identifier) => Ok(IdentifierParselet.parse(token)),
            Some(PrefixRule::Literal) => LiteralParselet.parse(token, host),
            Some(PrefixRule::Paren) => ParenParselet.parse(self, tokenizer, host),
            Some(PrefixRule::Matrix) => MatrixParselet.parse(self, tokenizer, host),
            None => Err(Error::UnexpectedEof),
        };
        let mut left = match first {
            Ok(left) => left,
            Err(e) => {
                return Err(e);
            },
        };
        while precedence < tokenizer.get_next_precedence()
            invariant
                tokenizer.wf(),
                well_behaved(host),
                n == numerics(host),
                g == self@,
                ts == tokenizer@,
                ts == old(tokenizer)@,
                start == old(tokenizer).position(),
                start < tokenizer.position(),
                continued(ts, tokenizer.position(), precedence, left@, g, n) == parsed(
                    ts,
                    start,
                    precedence,
                    g,
                    n,
                ),
            ensures
                tokenizer.wf(),
                ts == tokenizer@,
                start < tokenizer.position(),
                parsed(ts, start, precedence, g, n) == Ok::<(Term, int), ErrorView>(
                    (left@, tokenizer.position()),
                ),
            decreases ts.len() - tokenizer.position(),
        {
            let next = match tokenizer.peek() {
                Some(t) => t,
                None => {
                    break ;
                },
            };
            let rule = match self.infix_rule(next.get_class()) {
                Some(rule) => rule,
                None => {
                    break ;
                },
            };
            let _ = tokenizer.next();
            let grown = match rule {
                InfixRule::Assignment => AssignmentParselet.parse(self, tokenizer, left, host),
                InfixRule::BinOp => BinOpParselet.parse(self, tokenizer, next, left, host),
                InfixRule::Func => FuncParselet.parse(self, tokenizer, left, host),
                InfixRule::Prime => Ok(PrimeParselet.parse(left)),
            };
            left = match grown {
                Ok(grown) => grown,
                Err(e) => {
                    return Err(e);
                },
            };
        }
        Ok(left)
    }
}

} // verus!
