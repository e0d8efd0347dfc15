//! The evaluator: from an expression to its value.
use vstd::prelude::*;
use vstd::string::StringExecFns;

use crate::environment::Environment;
use crate::error::{Error, ErrorView};
use crate::expression::{lemma_view_of_items, terms, Expression, Term};
use crate::host::{
    binary, float_is_zero, from_int, is_zero, numerics, to_int, unary, well_behaved, Arith, Func,
    Numerics, Reply, Request,
};
use crate::matrix::{Matrix, MatrixView};
use crate::standard::{applied, found, function_named, get_std_function, StdFunc};
use crate::text::same_text;

verus! {

/// The variables of a session, as a map from names to values.
pub type Bindings = Map<Seq<char>, Term>;

/// The number has no part behind the decimal point.
pub open spec fn is_whole(f: u64, n: Numerics) -> bool {
    is_zero((n.unary)(Func::Fract, f))
}

/// A number as a value of the language: an `Int` where it is whole, a
/// `Float` where it is not.
pub open spec fn demoted(f: u64, n: Numerics) -> Term {
    if is_whole(f, n) {
        Term::Int((n.to_int)(f))
    } else {
        Term::Float(f)
    }
}

/// The term is a number.
pub open spec fn is_scalar(t: Term) -> bool {
    t is Int || t is Float
}

/// The binary64 number that a scalar stands for.
pub open spec fn as_float(t: Term, n: Numerics) -> u64 {
    match t {
        Term::Int(i) => (n.from_int)(i),
        Term::Float(f) => f,
        _ => 0,
    }
}

/// The result of the operator `op` on two numbers.
///
/// `+`, `-` and `*` are what the host computes; `/` is too, but for a divisor
/// that is zero, which gives `DividedByZero`. Any other operator gives
/// `InvalidOperator`.
pub open spec fn binop_of(x: u64, y: u64, op: Seq<char>, n: Numerics) -> Result<u64, ErrorView> {
    if op == "+"@ {
        Ok((n.binary)(Arith::Add, x, y))
    } else if op == "-"@ {
        Ok((n.binary)(Arith::Sub, x, y))
    } else if op == "*"@ {
        Ok((n.binary)(Arith::Mul, x, y))
    } else if op == "/"@ {
        if is_zero(y) {
            Err(ErrorView::DividedByZero)
        } else {
            Ok((n.binary)(Arith::Div, x, y))
        }
    } else {
        Err(ErrorView::InvalidOperator)
    }
}

/// The terms of a sequence of results, or the first error among them.
pub open spec fn collected(results: Seq<Result<Term, ErrorView>>) -> Result<Seq<Term>, ErrorView>
    decreases results.len(),
{
    if results.len() == 0 {
        Ok(Seq::empty())
    } else {
        match collected(results.drop_last()) {
            Err(e) => Err(e),
            Ok(init) => match results.last() {
                Err(e) => Err(e),
                Ok(t) => Ok(init.push(t)),
            },
        }
    }
}

/// The value that cells in a given shape make: a matrix, or the cell itself
/// where there is one row of one column.
pub open spec fn matrix_value(rows: usize, cols: usize, cells: Seq<Term>) -> Term {
    if rows == 1 && cols == 1 && cells.len() == 1 {
        cells[0]
    } else {
        Term::Matrix { rows, cols, values: cells }
    }
}

/// The result of an operator on two values, one of which at least is no
/// matrix.
///
/// Two numbers give a number, by `binop_of` and `demoted`. A number and a
/// matrix give the matrix of the results for the number and each cell. Two
/// matrices give `InvalidOperands`. Where one side is neither a number nor a
/// matrix, the result is the operation itself, left standing.
pub open spec fn elementwise(l: Term, op: Seq<char>, r: Term, n: Numerics) -> Result<
    Term,
    ErrorView,
>
    decreases l, r,
{
    if is_scalar(l) && is_scalar(r) {
        match binop_of(as_float(l, n), as_float(r, n), op, n) {
            Ok(f) => Ok(demoted(f, n)),
            Err(e) => Err(e),
        }
    } else if is_scalar(l) && r is Matrix {
        match collected(over_right(l, op, r->Matrix_values, n)) {
            Ok(results) => Ok(matrix_value(r->Matrix_rows, r->Matrix_cols, results)),
            Err(e) => Err(e),
        }
    } else if l is Matrix && is_scalar(r) {
        match collected(over_left(l->Matrix_values, op, r, n)) {
            Ok(results) => Ok(matrix_value(l->Matrix_rows, l->Matrix_cols, results)),
            Err(e) => Err(e),
        }
    } else if l is Matrix && r is Matrix {
        Err(ErrorView::InvalidOperands)
    } else {
        Ok(Term::BinOp { left: Box::new(l), op, right: Box::new(r) })
    }
}

/// The results of an operator on `l` and each of `cells`.
pub open spec fn over_right(l: Term, op: Seq<char>, cells: Seq<Term>, n: Numerics) -> Seq<
    Result<Term, ErrorView>,
>
    decreases l, cells,
{
    Seq::new(
        cells.len(),
        |i: int|
            if 0 <= i < cells.len() {
                elementwise(l, op, cells[i], n)
            } else {
                Ok(Term::Nil)
            },
    )
}

/// The results of an operator on each of `cells` and `r`.
pub open spec fn over_left(cells: Seq<Term>, op: Seq<char>, r: Term, n: Numerics) -> Seq<
    Result<Term, ErrorView>,
>
    decreases cells, r,
{
    Seq::new(
        cells.len(),
        |i: int|
            if 0 <= i < cells.len() {
                elementwise(cells[i], op, r, n)
            } else {
                Ok(Term::Nil)
            },
    )
}

/// The sum of the first `upto` products of the cells of row `i` of the left
/// matrix and the cells of column `j` of the right one, added up from the
/// integer zero, one product after the other.
pub open spec fn product_cell(
    left: Seq<Term>,
    right: Seq<Term>,
    i: int,
    j: int,
    cols: int,
    count: int,
    upto: int,
    n: Numerics,
) -> Result<Term, ErrorView>
    decreases left, upto,
{
    if upto <= 0 {
        Ok(Term::Int(0))
    } else {
        match product_cell(left, right, i, j, cols, count, upto - 1, n) {
            Err(e) => Err(e),
            Ok(sum) => {
                let at = i * count + (upto - 1);
                let factor = right[(upto - 1) * cols + j];
                let product = if 0 <= at < left.len() {
                    combined(left[at], "*"@, factor, n)
                } else {
                    Err(ErrorView::ImproperDimensions)
                };
                match product {
                    Err(e) => Err(e),
                    Ok(p) => elementwise(sum, "+"@, p, n),
                }
            },
        }
    }
}

/// The cells of the product of two matrices, row by row, each as
/// `product_cell` gives it.
pub open spec fn product_cells(
    left: Seq<Term>,
    right: Seq<Term>,
    rows: usize,
    cols: usize,
    count: usize,
    n: Numerics,
) -> Seq<Result<Term, ErrorView>>
    decreases left, count + 1,
{
    Seq::new(
        (rows * cols) as nat,
        |k: int|
            product_cell(
                left,
                right,
                k / (cols as int),
                k % (cols as int),
                cols as int,
                count as int,
                count as int,
                n,
            ),
    )
}

/// The product of a matrix of `rows` rows and `count` columns and one of
/// `count` rows and `cols` columns: `ImproperDimensions` where either does
/// not hold that many cells.
pub open spec fn product(
    left: Seq<Term>,
    right: Seq<Term>,
    rows: usize,
    cols: usize,
    count: usize,
    n: Numerics,
) -> Result<Term, ErrorView>
    decreases left, count + 2,
{
    if left.len() != rows * count || right.len() != count * cols || rows * cols > usize::MAX {
        Err(ErrorView::ImproperDimensions)
    } else {
        match collected(product_cells(left, right, rows, cols, count, n)) {
            Ok(cells) => Ok(Term::Matrix { rows, cols, values: cells }),
            Err(e) => Err(e),
        }
    }
}

/// The result of an operator on two values.
///
/// Two matrices under `*` give their product, `ImproperDimensions` where the
/// left one has not as many columns as the right one has rows; under another
/// operator they give `InvalidOperands`. Everything else is elementwise.
pub open spec fn combined(l: Term, op: Seq<char>, r: Term, n: Numerics) -> Result<Term, ErrorView>
    decreases l,
{
    if l is Matrix && r is Matrix && op == "*"@ {
        if l->Matrix_cols != r->Matrix_rows {
            Err(ErrorView::ImproperDimensions)
        } else {
            match product(
                l->Matrix_values,
                r->Matrix_values,
                l->Matrix_rows,
                r->Matrix_cols,
                l->Matrix_cols,
                n,
            ) {
                Ok(Term::Matrix { rows, cols, values }) => Ok(matrix_value(rows, cols, values)),
                Ok(other) => Ok(other),
                Err(e) => Err(e),
            }
        }
    } else {
        elementwise(l, op, r, n)
    }
}

/// The matrix of numbers that a value stands for, as a built-in function
/// takes it.
///
/// A matrix of numbers stands for itself, a number for the matrix of that
/// one cell. A matrix that holds anything else gives `InvalidValue`, one
/// that is not well shaped `ImproperDimensions`, and what is neither a
/// number nor a matrix `InvalidOperands`.
pub open spec fn to_matrix(t: Term, n: Numerics) -> Result<MatrixView, ErrorView> {
    match t {
        Term::Matrix { rows, cols, values } => if values.len() != rows * cols {
            Err(ErrorView::ImproperDimensions)
        } else if exists|i: int| 0 <= i < values.len() && !is_scalar(#[trigger] values[i]) {
            Err(ErrorView::InvalidValue)
        } else {
            Ok(
                MatrixView {
                    rows,
                    cols,
                    vals: Seq::new(values.len(), |i: int| as_float(values[i], n)),
                },
            )
        },
        Term::Int(i) => Ok(MatrixView { rows: 1, cols: 1, vals: seq![(n.from_int)(i)] }),
        Term::Float(f) => Ok(MatrixView { rows: 1, cols: 1, vals: seq![f] }),
        _ => Err(ErrorView::InvalidOperands),
    }
}

/// The value that a matrix of numbers stands for, as a built-in function
/// returns it: each cell as `demoted` gives it.
pub open spec fn from_matrix(m: MatrixView, n: Numerics) -> Term {
    matrix_value(m.rows, m.cols, Seq::new(m.vals.len(), |i: int| demoted(m.vals[i], n)))
}

/// The term can stand on either side of an operator that is carried out.
pub open spec fn is_operand(t: Term) -> bool {
    is_scalar(t) || t is Matrix
}

/// The value of expression `e` where the variables are `env`, together with
/// the variables afterwards; or the error that ends the evaluation.
///
/// - A bound identifier gives what it is bound to, an unbound one itself.
/// - An assignment gives the value of its right-hand side, and binds it.
/// - An integer and `Nil` are values. A float is `demoted`.
/// - A matrix gives the matrix of the values of its cells, taken from left to
///   right; the one cell itself where it has one row of one column; and
///   `ImproperDimensions` where it is not well shaped.
/// - An operation gives what `combined` gives for the values of its sides,
///   left side first; where a side is neither a number nor a matrix, it
///   gives the operation as it stands.
/// - A call gives what the function of that name returns for the values of
///   the arguments, each taken by `to_matrix` right after it was evaluated.
///   Where no function has that name, the evaluation goes on with what the
///   stand-in returns, the matrix without cells; `names_unknown` tells that
///   this is reported.
pub open spec fn simplified(e: Term, env: Bindings, n: Numerics) -> Result<
    (Term, Bindings),
    ErrorView,
>
    decreases e, 0int,
{
    match e {
        Term::Identifier(s) => Ok(
            (
                if env.dom().contains(s) {
                    env[s]
                } else {
                    e
                },
                env,
            ),
        ),
        Term::Assignment { identifier, value } => match simplified(*value, env, n) {
            Err(err) => Err(err),
            Ok((v, after)) => Ok((v, after.insert(identifier, v))),
        },
        Term::Int(_) => Ok((e, env)),
        Term::Nil => Ok((e, env)),
        Term::Float(f) => Ok((demoted(f, n), env)),
        Term::Matrix { rows, cols, values } => if values.len() != rows * cols {
            Err(ErrorView::ImproperDimensions)
        } else {
            match simplified_all(values, values.len() as int, env, n) {
                Err(err) => Err(err),
                Ok((cells, after)) => Ok((matrix_value(rows, cols, cells), after)),
            }
        },
        Term::BinOp { left, op, right } => match simplified(*left, env, n) {
            Err(err) => Err(err),
            Ok((l, between)) => match simplified(*right, between, n) {
                Err(err) => Err(err),
                Ok((r, after)) => if is_operand(l) && is_operand(r) {
                    match combined(l, op, r, n) {
                        Err(err) => Err(err),
                        Ok(t) => Ok((t, after)),
                    }
                } else {
                    Ok((e, after))
                },
            },
        },
        Term::Call { name, args } => match arguments(args, args.len() as int, env, n) {
            Err(err) => Err(err),
            Ok((matrices, after)) => match applied(found(name), matrices, n) {
                Err(err) => Err(err),
                Ok(m) => Ok((from_matrix(m, n), after)),
            },
        },
    }
}

/// The term holds a call of a name that no function has. An evaluation of
/// the term that comes to its end has evaluated every call in it, and so has
/// reported such a name if and only if the term holds one.
pub open spec fn names_unknown(t: Term) -> bool
    decreases t,
{
    match t {
        Term::Assignment { value, .. } => names_unknown(*value),
        Term::Matrix { values, .. } => any_unknown(values),
        Term::BinOp { left, right, .. } => names_unknown(*left) || names_unknown(*right),
        Term::Call { name, args } => function_named(name) is None || any_unknown(args),
        _ => false,
    }
}

/// One of the terms holds a call of a name that no function has.
pub open spec fn any_unknown(items: Seq<Term>) -> bool
    decreases items,
{
    exists|i: int| 0 <= i < items.len() && names_unknown(#[trigger] items[i])
}

/// What the evaluation of a term reports beside its value:
/// `CouldNotFindFunction` where the term calls a name that no function has.
pub open spec fn reported_by(t: Term) -> Option<Error> {
    if names_unknown(t) {
        Some(Error::CouldNotFindFunction)
    } else {
        None
    }
}

/// What an evaluation gives where it comes to its end: a value, and the
/// error that was reported on the way, if one was.
#[derive(Debug, PartialEq)]
pub struct Evaluation {
    pub value: Expression,
    pub reported: Option<Error>,
}

/// The values of the first `count` of `items`, each evaluated with the
/// variables that the one before it left.
pub open spec fn simplified_all(items: Seq<Term>, count: int, env: Bindings, n: Numerics) -> Result<
    (Seq<Term>, Bindings),
    ErrorView,
>
    decreases items, count,
{
    if count <= 0 || count > items.len() {
        Ok((Seq::empty(), env))
    } else {
        match simplified_all(items, count - 1, env, n) {
            Err(err) => Err(err),
            Ok((done, between)) => match simplified(items[count - 1], between, n) {
                Err(err) => Err(err),
                Ok((t, after)) => Ok((done.push(t), after)),
            },
        }
    }
}

/// The matrices that the first `count` of the arguments `items` stand for,
/// each evaluated with the variables that the one before it left.
pub open spec fn arguments(items: Seq<Term>, count: int, env: Bindings, n: Numerics) -> Result<
    (Seq<MatrixView>, Bindings),
    ErrorView,
>
    decreases items, count,
{
    if count <= 0 || count > items.len() {
        Ok((Seq::empty(), env))
    } else {
        match arguments(items, count - 1, env, n) {
            Err(err) => Err(err),
            Ok((done, between)) => match simplified(items[count - 1], between, n) {
                Err(err) => Err(err),
                Ok((t, after)) => match to_matrix(t, n) {
                    Err(err) => Err(err),
                    Ok(m) => Ok((done.push(m), after)),
                },
            },
        }
    }
}

/// One result more at the end of a sequence of results is collected after
/// the others.
pub proof fn lemma_collected_step(results: Seq<Result<Term, ErrorView>>, k: int)
    requires
        0 <= k < results.len(),
    ensures
        collected(results.subrange(0, k + 1)) == match collected(results.subrange(0, k)) {
            Err(e) => Err::<Seq<Term>, ErrorView>(e),
            Ok(init) => match results[k] {
                Err(e) => Err(e),
                Ok(t) => Ok(init.push(t)),
            },
        },
{
    assert(results.subrange(0, k + 1).drop_last() == results.subrange(0, k));
}

/// An error among the first results is the error of them all.
pub proof fn lemma_collected_error(results: Seq<Result<Term, ErrorView>>, k: int)
    requires
        0 <= k <= results.len(),
        collected(results.subrange(0, k)) is Err,
    ensures
        collected(results) == collected(results.subrange(0, k)),
    decreases results.len() - k,
{
    if k == results.len() {
        assert(results.subrange(0, k) == results);
    } else {
        lemma_collected_step(results, k);
        lemma_collected_error(results, k + 1);
    }
}

/// A number as a value of the language: an `Int` where it is whole, a
/// `Float` where it is not.
pub fn demote<H: Fn(Request) -> Reply>(f: u64, host: &H) -> (value: Expression)
    requires
        well_behaved(host),
    ensures
        value@ == demoted(f, numerics(host)),
{
    if float_is_zero(unary(host, Func::Fract, f)) {
        Expression::Int(to_int(host, f))
    } else {
        Expression::Float(f)
    }
}

/// Executes the given binary operation on two floats.
///
/// Fails with `DividedByZero` on a division by zero, and with
/// `InvalidOperator` on an operator that is none of `+`, `-`, `*`, `/`.
pub fn binop<H: Fn(Request) -> Reply>(x: u64, y: u64, operator: &str, host: &H) -> (outcome: Result<
    u64,
    Error,
>)
    requires
        well_behaved(host),
    ensures
        match outcome {
            Ok(f) => binop_of(x, y, operator@, numerics(host)) == Ok::<u64, ErrorView>(f),
            Err(e) => binop_of(x, y, operator@, numerics(host)) == Err::<u64, ErrorView>(e@),
        },
{
    if same_text(operator, "+") {
        Ok(binary(host, Arith::Add, x, y))
    } else if same_text(operator, "-") {
        Ok(binary(host, Arith::Sub, x, y))
    } else if same_text(operator, "*") {
        Ok(binary(host, Arith::Mul, x, y))
    } else if same_text(operator, "/") {
        if float_is_zero(y) {
            Err(Error::DividedByZero)
        } else {
            Ok(binary(host, Arith::Div, x, y))
        }
    } else {
        Err(Error::InvalidOperator)
    }
}

/// The value of an evaluation is what its specification gives: the same
/// term, or the same error.
pub open spec fn yields(outcome: Result<Expression, Error>, wanted: Result<Term, ErrorView>) -> bool {
    match outcome {
        Ok(v) => wanted == Ok::<Term, ErrorView>(v@),
        Err(e) => wanted == Err::<Term, ErrorView>(e@),
    }
}

/// The binary64 number that a scalar stands for.
fn scalar_of<H: Fn(Request) -> Reply>(e: &Expression, host: &H) -> (f: u64)
    requires
        well_behaved(host),
        is_scalar(e@),
    ensures
        f == as_float(e@, numerics(host)),
{
    match e {
        Expression::Int(i) => from_int(host, *i),
        Expression::Float(f) => *f,
        _ => 0,
    }
}

/// Tells whether an expression is a number.
fn check_scalar(e: &Expression) -> (scalar: bool)
    ensures
        scalar == is_scalar(e@),
{
    match e {
        Expression::Int(_) => true,
        Expression::Float(_) => true,
        _ => false,
    }
}

/// Tells whether an expression is a matrix.
fn check_matrix(e: &Expression) -> (matrix: bool)
    ensures
        matrix == (e@ is Matrix),
{
    match e {
        Expression::Matrix { .. } => true,
        _ => false,
    }
}

/// The value that cells in a given shape make: a matrix, or the cell itself
/// where there is one row of one column.
fn make_matrix(rows: usize, cols: usize, cells: Vec<Expression>) -> (value: Expression)
    ensures
        value@ == matrix_value(rows, cols, terms(cells@)),
{
    let mut cells = cells;
    if rows == 1 && cols == 1 && cells.len() == 1 {
        let ghost before = cells@;
        match cells.pop() {
            Some(cell) => {
                assert(cell == before[0]);
                cell
            },
            None => Expression::Nil,
        }
    } else {
        let value = Expression::Matrix { rows, cols, values: cells };
        proof {
            lemma_view_of_items(value);
        }
        value
    }
}

/// Carries out an operator on a number and each cell of a matrix.
fn apply_over_right<H: Fn(Request) -> Reply>(
    l: &Expression,
    op: &String,
    cells: &Vec<Expression>,
    host: &H,
) -> (outcome: Result<Vec<Expression>, Error>)
    requires
        well_behaved(host),
    ensures
        match outcome {
            Ok(values) => collected(over_right(l@, op@, terms(cells@), numerics(host))) == Ok::<
                Seq<Term>,
                ErrorView,
            >(terms(values@)),
            Err(e) => collected(over_right(l@, op@, terms(cells@), numerics(host))) == Err::<
                Seq<Term>,
                ErrorView,
            >(e@),
        },
    decreases l, cells,
{
    let ghost results = over_right(l@, op@, terms(cells@), numerics(host));
    let mut out: Vec<Expression> = Vec::new();
    let mut i: usize = 0;
    assert(results.subrange(0, 0) == Seq::<Result<Term, ErrorView>>::empty());
    assert(terms(out@) == Seq::<Term>::empty());
    while i < cells.len()
        invariant
            well_behaved(host),
            results == over_right(l@, op@, terms(cells@), numerics(host)),
            i <= cells.len(),
            collected(results.subrange(0, i as int)) == Ok::<Seq<Term>, ErrorView>(terms(out@)),
        decreases cells.len() - i,
    {
        proof {
            lemma_collected_step(results, i as int);
            assert(terms(cells@)[i as int] == cells[i as int]@);
        }
        match apply_elementwise(l, op, &cells[i], host) {
            Ok(cell) => {
                assert(terms(out@.push(cell)) == terms(out@).push(cell@));
                out.push(cell);
            },
            Err(e) => {
                proof {
                    lemma_collected_error(results, i + 1);
                }
                return Err(e);
            },
        }
        i += 1;
    }
    assert(results.subrange(0, i as int) == results);
    Ok(out)
}

/// Carries out an operator on each cell of a matrix and a number.
fn apply_over_left<H: Fn(Request) -> Reply>(
    cells: &Vec<Expression>,
    op: &String,
    r: &Expression,
    host: &H,
) -> (outcome: Result<Vec<Expression>, Error>)
    requires
        well_behaved(host),
    ensures
        match outcome {
            Ok(values) => collected(over_left(terms(cells@), op@, r@, numerics(host))) == Ok::<
                Seq<Term>,
                ErrorView,
            >(terms(values@)),
            Err(e) => collected(over_left(terms(cells@), op@, r@, numerics(host))) == Err::<
                Seq<Term>,
                ErrorView,
            >(e@),
        },
    decreases cells, r,
{
    let ghost results = over_left(terms(cells@), op@, r@, numerics(host));
    let mut out: Vec<Expression> = Vec::new();
    let mut i: usize = 0;
    assert(results.subrange(0, 0) == Seq::<Result<Term, ErrorView>>::empty());
    assert(terms(out@) == Seq::<Term>::empty());
    while i < cells.len()
        invariant
            well_behaved(host),
            results == over_left(terms(cells@), op@, r@, numerics(host)),
            i <= cells.len(),
            collected(results.subrange(0, i as int)) == Ok::<Seq<Term>, ErrorView>(terms(out@)),
        decreases cells.len() - i,
    {
        proof {
            lemma_collected_step(results, i as int);
            assert(terms(cells@)[i as int] == cells[i as int]@);
        }
        match apply_elementwise(&cells[i], op, r, host) {
            Ok(cell) => {
                assert(terms(out@.push(cell)) == terms(out@).push(cell@));
                out.push(cell);
            },
            Err(e) => {
                proof {
                    lemma_collected_error(results, i + 1);
                }
                return Err(e);
            },
        }
        i += 1;
    }
    assert(results.subrange(0, i as int) == results);
    Ok(out)
}

/// Carries out an operator on two values, one of which at least is no matrix.
pub fn apply_elementwise<H: Fn(Request) -> Reply>(
    l: &Expression,
    op: &String,
    r: &Expression,
    host: &H,
) -> (outcome: Result<Expression, Error>)
    requires
        well_behaved(host),
    ensures
        yields(outcome, elementwise(l@, op@, r@, numerics(host))),
    decreases l, r,
{
    if check_scalar(l) && check_scalar(r) {
        match binop(scalar_of(l, host), scalar_of(r, host), op.as_str(), host) {
            Ok(f) => Ok(demote(f, host)),
            Err(e) => Err(e),
        }
    } else if check_scalar(l) && check_matrix(r) {
        match r {
            Expression::Matrix { rows, cols, values } => {
                proof {
                    lemma_view_of_items(*r);
                }
                match apply_over_right(l, op, values, host) {
                    Ok(out) => Ok(make_matrix(*rows, *cols, out)),
                    Err(e) => Err(e),
                }
            },
            _ => Err(Error::InvalidOperands),
        }
    } else if check_matrix(l) && check_scalar(r) {
        match l {
            Expression::Matrix { rows, cols, values } => {
                proof {
                    lemma_view_of_items(*l);
                }
                match apply_over_left(values, op, r, host) {
                    Ok(out) => Ok(make_matrix(*rows, *cols, out)),
                    Err(e) => Err(e),
                }
            },
            _ => Err(Error::InvalidOperands),
        }
    } else if check_matrix(l) && check_matrix(r) {
        Err(Error::InvalidOperands)
    } else {
        Ok(Expression::BinOp { left: Box::new(l.clone()), op: op.clone(), right: Box::new(r.clone()) })
    }
}

/// One cell of the product of two matrices: the sum of the products of
/// the cells of row `i` of the left one and column `j` of the right one.
fn dot_cell<H: Fn(Request) -> Reply>(
    left: &Vec<Expression>,
    right: &Vec<Expression>,
    i: usize,
    j: usize,
    cols: usize,
    count: usize,
    host: &H,
) -> (outcome: Result<Expression, Error>)
    requires
        well_behaved(host),
        j < cols,
        (i + 1) * count <= left.len(),
        right.len() == count * cols,
    ensures
        yields(
            outcome,
            product_cell(
                terms(left@),
                terms(right@),
                i as int,
                j as int,
                cols as int,
                count as int,
                count as int,
                numerics(host),
            ),
        ),
    decreases left, 0int,
{
    let ghost n = numerics(host);
    let times = String::from_str("*");
    let plus = String::from_str("+");
    let mut cell = Expression::Int(0);
    let mut k: usize = 0;
    while k < count
        invariant
            well_behaved(host),
            n == numerics(host),
            times@ == "*"@,
            plus@ == "+"@,
            j < cols,
            (i + 1) * count <= left.len(),
            right.len() == count * cols,
            k <= count,
            product_cell(
                terms(left@),
                terms(right@),
                i as int,
                j as int,
                cols as int,
                count as int,
                k as int,
                n,
            ) == Ok::<Term, ErrorView>(cell@),
        decreases count - k,
    {
        proof {
            assert(i * count + k < (i + 1) * count) by (nonlinear_arith)
                requires
                    k < count,
            ;
            assert(0 <= i * count) by (nonlinear_arith)
                requires
                    0 <= i,
                    0 <= count,
            ;
            crate::matrix::lemma_cell_index(count as int, cols as int, k as int, j as int);
            assert(terms(left@)[i * count + k] == left[i * count + k]@);
            assert(terms(right@)[k * cols + j] == right[k * cols + j]@);
        }
        // Add the addend to the cell
        let addend = match combine(&left[i * count + k], &times, &right[k * cols + j], host) {
            Ok(addend) => addend,
            Err(e) => {
                proof {
                    lemma_product_cell_error(
                        terms(left@),
                        terms(right@),
                        i as int,
                        j as int,
                        cols as int,
                        count as int,
                        k + 1,
                        n,
                    );
                }
                return Err(e);
            },
        };
        cell = match apply_elementwise(&cell, &plus, &addend, host) {
            Ok(sum) => sum,
            Err(e) => {
                proof {
                    lemma_product_cell_error(
                        terms(left@),
                        terms(right@),
                        i as int,
                        j as int,
                        cols as int,
                        count as int,
                        k + 1,
                        n,
                    );
                }
                return Err(e);
            },
        };
        k += 1;
    }
    Ok(cell)
}

/// An error in the sum of the first products of a cell is the error of the
/// cell.
pub proof fn lemma_product_cell_error(
    left: Seq<Term>,
    right: Seq<Term>,
    i: int,
    j: int,
    cols: int,
    count: int,
    upto: int,
    n: Numerics,
)
    requires
        0 <= upto <= count,
        product_cell(left, right, i, j, cols, count, upto, n) is Err,
    ensures
        product_cell(left, right, i, j, cols, count, count, n) == product_cell(
            left,
            right,
            i,
            j,
            cols,
            count,
            upto,
            n,
        ),
    decreases count - upto,
{
    if upto < count {
        lemma_product_cell_error(left, right, i, j, cols, count, upto + 1, n);
    }
}

/// Computes the dot product of two matrices.
///
/// `left` holds `rows` rows of `count` cells, `right` holds `count` rows of
/// `cols` cells. Fails with `ImproperDimensions` where they hold another
/// number of cells, and with the first error that a cell gives.
pub fn matrix_dot<H: Fn(Request) -> Reply>(
    left: &Vec<Expression>,
    right: &Vec<Expression>,
    rows: usize,
    cols: usize,
    count: usize,
    host: &H,
) -> (outcome: Result<Expression, Error>)
    requires
        well_behaved(host),
    ensures
        yields(
            outcome,
            product(terms(left@), terms(right@), rows, cols, count, numerics(host)),
        ),
    decreases left, 1int,
{
    let ghost n = numerics(host);
    let left_cells = rows.checked_mul(count);
    let right_cells = count.checked_mul(cols);
    let cells = rows.checked_mul(cols);
    let fits = match (left_cells, right_cells, cells) {
        (Some(l), Some(r), Some(_)) => l == left.len() && r == right.len(),
        _ => false,
    };
    if !fits {
        assert(left.len() != rows * count || right.len() != count * cols || rows * cols
            > usize::MAX);
        return Err(Error::ImproperDimensions);
    }
    let ghost results = product_cells(terms(left@), terms(right@), rows, cols, count, n);
    let mut values: Vec<Expression> = Vec::new();
    assert(results.subrange(0, 0) == Seq::<Result<Term, ErrorView>>::empty());
    assert(terms(values@) == Seq::<Term>::empty());
    let mut i: usize = 0;
    while i < rows
        invariant
            well_behaved(host),
            n == numerics(host),
            results == product_cells(terms(left@), terms(right@), rows, cols, count, n),
            left.len() == rows * count,
            right.len() == count * cols,
            rows * cols <= usize::MAX,
            i <= rows,
            values.len() == i * cols,
            collected(results.subrange(0, i * cols)) == Ok::<Seq<Term>, ErrorView>(terms(values@)),
        decreases rows - i,
    {
        let mut j: usize = 0;
        while j < cols
            invariant
                well_behaved(host),
                n == numerics(host),
                results == product_cells(terms(left@), terms(right@), rows, cols, count, n),
                left.len() == rows * count,
                right.len() == count * cols,
                rows * cols <= usize::MAX,
                i < rows,
                j <= cols,
                values.len() == i * cols + j,
                collected(results.subrange(0, i * cols + j)) == Ok::<Seq<Term>, ErrorView>(
                    terms(values@),
                ),
            decreases cols - j,
        {
            proof {
                crate::matrix::lemma_cell_index(rows as int, cols as int, i as int, j as int);
                crate::standard::transpose::lemma_split_index(cols as int, i as int, j as int);
                lemma_collected_step(results, i * cols + j);
                assert((i + 1) * count <= rows * count) by (nonlinear_arith)
                    requires
                        i < rows,
                        0 <= count,
                ;
            }
            match dot_cell(left, right, i, j, cols, count, host) {
                Ok(cell) => {
                    assert(terms(values@.push(cell)) == terms(values@).push(cell@));
                    // Push the cell to the list of values
                    values.push(cell);
                },
                Err(e) => {
                    proof {
                        lemma_collected_error(results, i * cols + j + 1);
                    }
                    return Err(e);
                },
            }
            j += 1;
        }
        assert((i + 1) * cols == i * cols + cols) by (nonlinear_arith);
        i += 1;
    }
    assert(results.subrange(0, rows * cols) == results);
    let value = Expression::Matrix { rows, cols, values };
    proof {
        lemma_view_of_items(value);
    }
    Ok(value)
}

/// Carries out an operator on two values.
pub fn combine<H: Fn(Request) -> Reply>(
    l: &Expression,
    op: &String,
    r: &Expression,
    host: &H,
) -> (outcome: Result<Expression, Error>)
    requires
        well_behaved(host),
    ensures
        yields(outcome, combined(l@, op@, r@, numerics(host))),
    decreases l,
{
    match (l, r) {
        (
            Expression::Matrix { rows, cols: inner, values: left },
            Expression::Matrix { rows: inner_right, cols, values: right },
        ) => {
            proof {
                lemma_view_of_items(*l);
                lemma_view_of_items(*r);
            }
            if same_text(op.as_str(), "*") {
                if *inner != *inner_right {
                    return Err(Error::ImproperDimensions);
                }
                match matrix_dot(left, right, *rows, *cols, *inner, host) {
                    Ok(Expression::Matrix { rows, cols, values }) => {
                        proof {
                            lemma_view_of_items(Expression::Matrix { rows, cols, values });
                        }
                        Ok(make_matrix(rows, cols, values))
                    },
                    Ok(other) => Ok(other),
                    Err(e) => Err(e),
                }
            } else {
                apply_elementwise(l, op, r, host)
            }
        },
        _ => apply_elementwise(l, op, r, host),
    }
}

/// The matrix of numbers that a value stands for, as a built-in function
/// takes it.
///
/// Fails with `InvalidValue` for a matrix that holds anything but numbers,
/// with `ImproperDimensions` for one that is not well shaped, and with
/// `InvalidOperands` for what is neither a number nor a matrix.
pub fn to_runtime<H: Fn(Request) -> Reply>(e: &Expression, host: &H) -> (outcome: Result<
    Matrix,
    Error,
>)
    requires
        well_behaved(host),
    ensures
        crate::matrix::agrees(outcome, to_matrix(e@, numerics(host))),
        outcome matches Ok(m) ==> m@.shaped(),
{
    let ghost n = numerics(host);
    match e {
        Expression::Matrix { rows, cols, values } => {
            proof {
                lemma_view_of_items(*e);
            }
            let ghost cells = terms(values@);
            if rows.checked_mul(*cols) != Some(values.len()) {
                return Err(Error::ImproperDimensions);
            }
            // Convert each value in the matrix from `Expression` to a number.
            let mut vals: Vec<u64> = Vec::new();
            let mut i: usize = 0;
            while i < values.len()
                invariant
                    well_behaved(host),
                    n == numerics(host),
                    cells == terms(values@),
                    e@ == (Term::Matrix { rows: *rows, cols: *cols, values: cells }),
                    cells.len() == *rows * *cols,
                    i <= values.len(),
                    vals.len() == i,
                    forall|k: int| 0 <= k < i ==> is_scalar(#[trigger] cells[k]),
                    forall|k: int| 0 <= k < i ==> vals[k] == as_float(cells[k], n),
                decreases values.len() - i,
            {
                assert(cells[i as int] == values[i as int]@);
                if !check_scalar(&values[i]) {
                    // A value in the matrix is not a numeric literal
                    return Err(Error::InvalidValue);
                }
                vals.push(scalar_of(&values[i], host));
                i += 1;
            }
            assert(vals@ =~= Seq::new(cells.len(), |i: int| as_float(cells[i], n)));
            Ok(Matrix::new(*rows, *cols, vals))
        },
        Expression::Int(i) => {
            // If the value is a number, convert it into a 1x1 matrix
            let mut vals: Vec<u64> = Vec::new();
            let f = from_int(host, *i);
            vals.push(f);
            assert(vals@ == seq![f]);
            assert(vals.len() == 1 * 1);
            Ok(Matrix::new(1, 1, vals))
        },
        Expression::Float(f) => {
            let mut vals: Vec<u64> = Vec::new();
            vals.push(*f);
            assert(vals@ == seq![*f]);
            assert(vals.len() == 1 * 1);
            Ok(Matrix::new(1, 1, vals))
        },
        _ => Err(Error::InvalidOperands),
    }
}

/// The value that a matrix of numbers stands for, as a built-in function
/// returns it.
pub fn from_runtime<H: Fn(Request) -> Reply>(m: &Matrix, host: &H) -> (value: Expression)
    requires
        well_behaved(host),
    ensures
        value@ == from_matrix(m@, numerics(host)),
{
    let ghost n = numerics(host);
    let vals = m.vals();
    let mut cells: Vec<Expression> = Vec::new();
    let mut i: usize = 0;
    while i < vals.len()
        invariant
            well_behaved(host),
            n == numerics(host),
            vals@ == m@.vals,
            i <= vals.len(),
            cells.len() == i,
            forall|k: int| 0 <= k < i ==> (#[trigger] cells[k])@ == demoted(vals[k], n),
        decreases vals.len() - i,
    {
        cells.push(demote(vals[i], host));
        i += 1;
    }
    assert(terms(cells@) =~= Seq::new(m@.vals.len(), |i: int| demoted(m@.vals[i], n)));
    make_matrix(m.rows(), m.cols(), cells)
}

/// Tells whether a value can stand on either side of an operator that is
/// carried out.
fn check_operand(e: &Expression) -> (operand: bool)
    ensures
        operand == is_operand(e@),
{
    check_scalar(e) || check_matrix(e)
}

/// An error among the first items is the error of them all.
pub proof fn lemma_simplified_all_error(
    items: Seq<Term>,
    count: int,
    env: Bindings,
    n: Numerics,
)
    requires
        0 <= count <= items.len(),
        simplified_all(items, count, env, n) is Err,
    ensures
        simplified_all(items, items.len() as int, env, n) is Err,
        simplified_all(items, items.len() as int, env, n)->Err_0 == simplified_all(
            items,
            count,
            env,
            n,
        )->Err_0,
    decreases items.len() - count,
{
    if count < items.len() {
        lemma_simplified_all_error(items, count + 1, env, n);
    }
}

/// An error among the first arguments is the error of them all.
pub proof fn lemma_arguments_error(items: Seq<Term>, count: int, env: Bindings, n: Numerics)
    requires
        0 <= count <= items.len(),
        arguments(items, count, env, n) is Err,
    ensures
        arguments(items, items.len() as int, env, n) is Err,
        arguments(items, items.len() as int, env, n)->Err_0 == arguments(
            items,
            count,
            env,
            n,
        )->Err_0,
    decreases items.len() - count,
{
    if count < items.len() {
        lemma_arguments_error(items, count + 1, env, n);
    }
}

/// Evaluates the expressions of a vector from left to right.
fn reduce_all<H: Fn(Request) -> Reply>(
    items: &Vec<Expression>,
    env: &mut Environment,
    host: &H,
) -> (outcome: Result<(Vec<Expression>, bool), Error>)
    requires
        old(env).wf(),
        well_behaved(host),
    ensures
        final(env).wf(),
        match outcome {
            Ok((values, missing)) => simplified_all(
                terms(items@),
                items.len() as int,
                old(env)@,
                numerics(host),
            ) == Ok::<(Seq<Term>, Bindings), ErrorView>((terms(values@), final(env)@)) && missing
                == any_unknown(terms(items@)),
            Err(e) => simplified_all(terms(items@), items.len() as int, old(env)@, numerics(host))
                == Err::<(Seq<Term>, Bindings), ErrorView>(e@),
        },
    decreases items,
{
    let ghost n = numerics(host);
    let ghost start = env@;
    let mut out: Vec<Expression> = Vec::new();
    let mut missing = false;
    let mut i: usize = 0;
    assert(terms(out@) == Seq::<Term>::empty());
    while i < items.len()
        invariant
            env.wf(),
            well_behaved(host),
            n == numerics(host),
            start == old(env)@,
            i <= items.len(),
            simplified_all(terms(items@), i as int, start, n) == Ok::<
                (Seq<Term>, Bindings),
                ErrorView,
            >((terms(out@), env@)),
            missing == exists|k: int| 0 <= k < i && names_unknown(#[trigger] terms(items@)[k]),
        decreases items.len() - i,
    {
        assert(terms(items@)[i as int] == items[i as int]@);
        match items[i].reduce(env, host) {
            Ok((value, unknown)) => {
                assert(terms(out@.push(value)) == terms(out@).push(value@));
                out.push(value);
                missing = missing || unknown;
            },
            Err(e) => {
                proof {
                    lemma_simplified_all_error(terms(items@), i + 1, start, n);
                }
                return Err(e);
            },
        }
        i += 1;
    }
    Ok((out, missing))
}

/// Evaluates the arguments of a call from left to right, and takes each as
/// a matrix of numbers.
fn reduce_arguments<H: Fn(Request) -> Reply>(
    items: &Vec<Expression>,
    env: &mut Environment,
    host: &H,
) -> (outcome: Result<(Vec<Matrix>, bool), Error>)
    requires
        old(env).wf(),
        well_behaved(host),
    ensures
        final(env).wf(),
        match outcome {
            Ok((matrices, missing)) => arguments(
                terms(items@),
                items.len() as int,
                old(env)@,
                numerics(host),
            ) == Ok::<(Seq<MatrixView>, Bindings), ErrorView>(
                (crate::matrix::views(matrices@), final(env)@),
            ) && crate::standard::all_shaped(crate::matrix::views(matrices@)) && missing
                == any_unknown(terms(items@)),
            Err(e) => arguments(terms(items@), items.len() as int, old(env)@, numerics(host))
                == Err::<(Seq<MatrixView>, Bindings), ErrorView>(e@),
        },
    decreases items,
{
    let ghost n = numerics(host);
    let ghost start = env@;
    let mut out: Vec<Matrix> = Vec::new();
    let mut missing = false;
    let mut i: usize = 0;
    assert(crate::matrix::views(out@) == Seq::<MatrixView>::empty());
    while i < items.len()
        invariant
            env.wf(),
            well_behaved(host),
            n == numerics(host),
            start == old(env)@,
            i <= items.len(),
            arguments(terms(items@), i as int, start, n) == Ok::<
                (Seq<MatrixView>, Bindings),
                ErrorView,
            >((crate::matrix::views(out@), env@)),
            crate::standard::all_shaped(crate::matrix::views(out@)),
            missing == exists|k: int| 0 <= k < i && names_unknown(#[trigger] terms(items@)[k]),
        decreases items.len() - i,
    {
        assert(terms(items@)[i as int] == items[i as int]@);
        let value = match items[i].reduce(env, host) {
            Ok((value, unknown)) => {
                missing = missing || unknown;
                value
            },
            Err(e) => {
                proof {
                    lemma_arguments_error(terms(items@), i + 1, start, n);
                }
                return Err(e);
            },
        };
        match to_runtime(&value, host) {
            Ok(m) => {
                assert(crate::matrix::views(out@.push(m)) == crate::matrix::views(out@).push(m@));
                out.push(m);
            },
            Err(e) => {
                proof {
                    lemma_arguments_error(terms(items@), i + 1, start, n);
                }
                return Err(e);
            },
        }
        i += 1;
    }
    Ok((out, missing))
}

impl Expression {
    /// Evaluates this expression, binding variables as it goes; after an
    /// error the variables bound so far stay bound. Tells beside the value
    /// whether a call of a name that no function has was met.
    fn reduce<H: Fn(Request) -> Reply>(&self, env: &mut Environment, host: &H) -> (outcome: Result<
        (Expression, bool),
        Error,
    >)
        requires
            old(env).wf(),
            well_behaved(host),
        ensures
            final(env).wf(),
            match outcome {
                Ok((value, missing)) => simplified(self@, old(env)@, numerics(host)) == Ok::<
                    (Term, Bindings),
                    ErrorView,
                >((value@, final(env)@)) && missing == names_unknown(self@),
                Err(e) => simplified(self@, old(env)@, numerics(host)) == Err::<
                    (Term, Bindings),
                    ErrorView,
                >(e@),
            },
        decreases self,
    {
        match self {
            // Look up the variable and plug in
            Expression::Identifier(s) => match env.get(s) {
                Some(value) => Ok((value, false)),
                None => Ok((self.clone(), false)),
            },
            // Insert the assigned variable into the list of variables
            Expression::Assignment { identifier, value } => {
                // Simplify the value of assignment
                let (simplified, missing) = match value.reduce(env, host) {
                    Ok(v) => v,
                    Err(e) => {
                        return Err(e);
                    },
                };
                // Register the variable
                env.insert(identifier.clone(), simplified.clone());
                // Return the simplified value
                Ok((simplified, missing))
            },
            // Simplify the left and right and return
            Expression::BinOp { left, op, right } => {
                // Simplify the left-hand and right-hand sides
                let (l, missing_left) = match left.reduce(env, host) {
                    Ok(v) => v,
                    Err(e) => {
                        return Err(e);
                    },
                };
                let (r, missing_right) = match right.reduce(env, host) {
                    Ok(v) => v,
                    Err(e) => {
                        return Err(e);
                    },
                };
                let missing = missing_left || missing_right;
                if check_operand(&l) && check_operand(&r) {
                    match combine(&l, op, &r, host) {
                        Ok(value) => Ok((value, missing)),
                        Err(e) => Err(e),
                    }
                } else {
                    Ok((self.clone(), missing))
                }
            },
            // `Int` is already in simplest form
            Expression::Int(_) => Ok((self.clone(), false)),
            // `Float` can be reduced to `Int` if it has no fractional part
            Expression::Float(f) => Ok((demote(*f, host), false)),
            // To simplify a `Matrix`, simplify each value
            Expression::Matrix { rows, cols, values } => {
                proof {
                    lemma_view_of_items(*self);
                }
                if rows.checked_mul(*cols) != Some(values.len()) {
                    return Err(Error::ImproperDimensions);
                }
                match reduce_all(values, env, host) {
                    Ok((cells, missing)) => Ok((make_matrix(*rows, *cols, cells), missing)),
                    Err(e) => Err(e),
                }
            },
            // To simplify a call, look up the function in the standard library
            // and pass the arguments necessary
            //
            // All functions act on matrices.
            Expression::Call { name, args } => {
                proof {
                    lemma_view_of_items(*self);
                }
                // Simplify each argument and convert it to a matrix of numbers.
                let (matrices, missing) = match reduce_arguments(args, env, host) {
                    Ok(matrices) => matrices,
                    Err(e) => {
                        return Err(e);
                    },
                };
                // Where the function is not found, its stand-in is called
                let lookup = get_std_function(name);
                let unknown = lookup.reported.is_some();
                match lookup.function.eval(&matrices, host) {
                    Ok(output_matrix) => Ok(
                        (from_runtime(&output_matrix, host), missing || unknown),
                    ),
                    Err(e) => Err(e),
                }
            },
            // `Nil` is already in simplest form
            Expression::Nil => Ok((self.clone(), false)),
        }
    }

    /// Simplify this expression, given a reference to a list of variables.
    ///
    /// Returns the value of the expression, and leaves the variables as the
    /// evaluation bound them. A call of a name that no function has does not
    /// end the evaluation: it is reported beside the value as
    /// `CouldNotFindFunction`, and its own value is the matrix without cells.
    /// After any other error the variables are as they were before.
    pub fn simplify<H: Fn(Request) -> Reply>(&self, variables: &mut Environment, host: &H) -> (outcome:
        Result<Evaluation, Error>)
        requires
            old(variables).wf(),
            well_behaved(host),
        ensures
            final(variables).wf(),
            match outcome {
                Ok(evaluation) => simplified(self@, old(variables)@, numerics(host)) == Ok::<
                    (Term, Bindings),
                    ErrorView,
                >((evaluation.value@, final(variables)@)) && evaluation.reported == reported_by(
                    self@,
                ),
                Err(e) => simplified(self@, old(variables)@, numerics(host)) == Err::<
                    (Term, Bindings),
                    ErrorView,
                >(e@) && final(variables)@ == old(variables)@,
            },
    {
        let mut scratch = variables.clone();
        match self.reduce(&mut scratch, host) {
            Ok((value, missing)) => {
                *variables = scratch;
                let reported = if missing {
                    Some(Error::CouldNotFindFunction)
                } else {
                    None
                };
                Ok(Evaluation { value, reported })
            },
            Err(e) => Err(e),
        }
    }
}

} // verus!
