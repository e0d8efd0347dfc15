//! Terms that evaluation leaves as they are, and the proof that evaluation
//! yields such terms.
use vstd::prelude::*;

use crate::error::ErrorView;
use crate::evaluator::{
    arguments, as_float, binop_of, collected, combined, demoted, elementwise, from_matrix,
    is_operand, is_scalar, is_whole, matrix_value, over_left, over_right, product, product_cell,
    product_cells, simplified, simplified_all, to_matrix, Bindings,
};
use crate::expression::Term;
use crate::host::Numerics;
use crate::matrix::{empty_matrix, lemma_cell_index, lemma_cell_of_index, MatrixView};
use crate::standard::{all_shaped, applied, found, StdFunction};

verus! {

/// No assignment occurs in the term.
pub open spec fn is_pure(t: Term) -> bool
    decreases t,
{
    match t {
        Term::Assignment { .. } => false,
        Term::Matrix { values, .. } => forall|i: int|
            0 <= i < values.len() ==> is_pure(#[trigger] values[i]),
        Term::BinOp { left, right, .. } => is_pure(*left) && is_pure(*right),
        Term::Call { args, .. } => forall|i: int| 0 <= i < args.len() ==> is_pure(#[trigger] args[i]),
        _ => true,
    }
}

/// A statement: an expression without assignments, or the assignment of a
/// statement to a variable.
pub open spec fn is_statement(t: Term) -> bool
    decreases t,
{
    match t {
        Term::Assignment { value, .. } => is_statement(*value),
        _ => is_pure(t),
    }
}

/// The term is settled where the variables are `env`: it holds no
/// assignment, evaluation gives it back and leaves the variables alone, and
/// where it is a matrix, it is well shaped, has more than one cell or none,
/// and its cells are settled.
pub open spec fn is_settled(t: Term, env: Bindings, n: Numerics) -> bool
    decreases t,
{
    &&& is_pure(t)
    &&& simplified(t, env, n) == Ok::<(Term, Bindings), ErrorView>((t, env))
    &&& t matches Term::Matrix { rows, cols, values } ==> {
        &&& values.len() == rows * cols
        &&& !(rows == 1 && cols == 1)
        &&& forall|i: int| 0 <= i < values.len() ==> is_settled(#[trigger] values[i], env, n)
    }
}

/// Every variable is bound to a term that is settled.
pub open spec fn env_settled(env: Bindings, n: Numerics) -> bool {
    forall|name: Seq<char>| env.dom().contains(name) ==> is_settled(#[trigger] env[name], env, n)
}

/// Every term of the sequence is settled.
pub open spec fn all_settled(cells: Seq<Term>, env: Bindings, n: Numerics) -> bool {
    forall|i: int| 0 <= i < cells.len() ==> is_settled(#[trigger] cells[i], env, n)
}

/// A value: an integer, a float with a fractional part, or a well-shaped
/// matrix of values that has more than one cell or none.
pub open spec fn is_value(t: Term, n: Numerics) -> bool
    decreases t,
{
    match t {
        Term::Int(_) => true,
        Term::Float(f) => !is_whole(f, n),
        Term::Matrix { rows, cols, values } => {
            &&& values.len() == rows * cols
            &&& !(rows == 1 && cols == 1)
            &&& forall|i: int| 0 <= i < values.len() ==> is_value(#[trigger] values[i], n)
        },
        _ => false,
    }
}

/// A value is settled, whatever the variables.
pub proof fn lemma_value_settled(t: Term, env: Bindings, n: Numerics)
    requires
        is_value(t, n),
    ensures
        is_settled(t, env, n),
    decreases t,
{
    match t {
        Term::Matrix { rows, cols, values } => {
            assert forall|i: int| 0 <= i < values.len() implies is_settled(
                #[trigger] values[i],
                env,
                n,
            ) by {
                lemma_value_settled(values[i], env, n);
            }
            lemma_matrix_settled(rows, cols, values, env, n);
        },
        _ => {},
    }
}

/// Where every variable is bound to a value, every variable is bound to a
/// settled term.
pub proof fn lemma_values_settle(env: Bindings, n: Numerics)
    requires
        forall|name: Seq<char>| env.dom().contains(name) ==> is_value(#[trigger] env[name], n),
    ensures
        env_settled(env, n),
{
    assert forall|name: Seq<char>| env.dom().contains(name) implies is_settled(
        #[trigger] env[name],
        env,
        n,
    ) by {
        lemma_value_settled(env[name], env, n);
    }
}

/// Binding a variable to a value, where every variable is bound to a value,
/// leaves every variable bound to a value.
pub proof fn lemma_binding_keeps_values(env: Bindings, name: Seq<char>, value: Term, n: Numerics)
    requires
        forall|other: Seq<char>| env.dom().contains(other) ==> is_value(#[trigger] env[other], n),
        is_value(value, n),
    ensures
        forall|other: Seq<char>|
            env.insert(name, value).dom().contains(other) ==> is_value(
                #[trigger] env.insert(name, value)[other],
                n,
            ),
        env_settled(env.insert(name, value), n),
{
    lemma_values_settle(env.insert(name, value), n);
}

/// A number as a value of the language is settled.
pub proof fn lemma_demoted_settled(f: u64, env: Bindings, n: Numerics)
    ensures
        is_settled(demoted(f, n), env, n),
{
}

/// Evaluating settled terms one after the other gives them back.
pub proof fn lemma_settled_all(cells: Seq<Term>, count: int, env: Bindings, n: Numerics)
    requires
        all_settled(cells, env, n),
        0 <= count <= cells.len(),
    ensures
        simplified_all(cells, count, env, n) == Ok::<(Seq<Term>, Bindings), ErrorView>(
            (cells.subrange(0, count), env),
        ),
    decreases count,
{
    if count > 0 {
        lemma_settled_all(cells, count - 1, env, n);
        assert(is_settled(cells[count - 1], env, n));
        assert(cells.subrange(0, count - 1).push(cells[count - 1]) == cells.subrange(0, count));
    } else {
        assert(cells.subrange(0, 0) == Seq::<Term>::empty());
    }
}

/// Settled cells in a shape that fits them make a settled value.
pub proof fn lemma_matrix_settled(
    rows: usize,
    cols: usize,
    cells: Seq<Term>,
    env: Bindings,
    n: Numerics,
)
    requires
        cells.len() == rows * cols,
        all_settled(cells, env, n),
    ensures
        is_settled(matrix_value(rows, cols, cells), env, n),
{
    if rows == 1 && cols == 1 && cells.len() == 1 {
        assert(is_settled(cells[0], env, n));
    } else {
        let t = Term::Matrix { rows, cols, values: cells };
        lemma_settled_all(cells, cells.len() as int, env, n);
        assert(cells.subrange(0, cells.len() as int) == cells);
        assert forall|i: int| 0 <= i < cells.len() implies is_pure(#[trigger] cells[i]) by {
            assert(is_settled(cells[i], env, n));
        }
        assert(is_pure(t));
        assert(simplified(t, env, n) == Ok::<(Term, Bindings), ErrorView>((t, env)));
    }
}

/// Results that are collected without error are as many as there were, and
/// each is what was collected in its place.
pub proof fn lemma_collected(results: Seq<Result<Term, ErrorView>>)
    requires
        collected(results) is Ok,
    ensures
        collected(results)->Ok_0.len() == results.len(),
        forall|i: int|
            0 <= i < results.len() ==> #[trigger] results[i] == Ok::<Term, ErrorView>(
                collected(results)->Ok_0[i],
            ),
    decreases results.len(),
{
    if results.len() > 0 {
        lemma_collected(results.drop_last());
        let init = collected(results.drop_last())->Ok_0;
        assert forall|i: int| 0 <= i < results.len() implies #[trigger] results[i] == Ok::<
            Term,
            ErrorView,
        >(collected(results)->Ok_0[i]) by {
            if i < results.len() - 1 {
                assert(results.drop_last()[i] == results[i]);
            }
        }
    }
}

/// An operator on two settled values, one of which at least is no matrix,
/// gives a settled value.
pub proof fn lemma_elementwise_settled(l: Term, op: Seq<char>, r: Term, env: Bindings, n: Numerics)
    requires
        is_settled(l, env, n),
        is_settled(r, env, n),
        elementwise(l, op, r, n) is Ok,
    ensures
        is_settled(elementwise(l, op, r, n)->Ok_0, env, n),
    decreases l, r,
{
    if is_scalar(l) && is_scalar(r) {
        let f = binop_of(as_float(l, n), as_float(r, n), op, n)->Ok_0;
        lemma_demoted_settled(f, env, n);
    } else if is_scalar(l) && r is Matrix {
        let cells = r->Matrix_values;
        let results = over_right(l, op, cells, n);
        lemma_collected(results);
        let values = collected(results)->Ok_0;
        assert forall|i: int| 0 <= i < values.len() implies is_settled(
            #[trigger] values[i],
            env,
            n,
        ) by {
            assert(results[i] == Ok::<Term, ErrorView>(values[i]));
            assert(is_settled(cells[i], env, n));
            lemma_elementwise_settled(l, op, cells[i], env, n);
        }
        lemma_matrix_settled(r->Matrix_rows, r->Matrix_cols, values, env, n);
    } else if l is Matrix && is_scalar(r) {
        let cells = l->Matrix_values;
        let results = over_left(cells, op, r, n);
        lemma_collected(results);
        let values = collected(results)->Ok_0;
        assert forall|i: int| 0 <= i < values.len() implies is_settled(
            #[trigger] values[i],
            env,
            n,
        ) by {
            assert(results[i] == Ok::<Term, ErrorView>(values[i]));
            assert(is_settled(cells[i], env, n));
            lemma_elementwise_settled(cells[i], op, r, env, n);
        }
        lemma_matrix_settled(l->Matrix_rows, l->Matrix_cols, values, env, n);
    } else if l is Matrix && r is Matrix {
    } else {
        let t = Term::BinOp { left: Box::new(l), op, right: Box::new(r) };
        assert(!(is_operand(l) && is_operand(r)));
        assert(simplified(t, env, n) == Ok::<(Term, Bindings), ErrorView>((t, env)));
    }
}

/// One cell of the product of two matrices of settled cells is settled.
pub proof fn lemma_product_cell_settled(
    left: Seq<Term>,
    right: Seq<Term>,
    i: int,
    j: int,
    cols: int,
    count: int,
    upto: int,
    env: Bindings,
    n: Numerics,
)
    requires
        all_settled(left, env, n),
        all_settled(right, env, n),
        0 <= i,
        (i + 1) * count <= left.len(),
        0 <= j < cols,
        right.len() == count * cols,
        0 <= upto <= count,
        product_cell(left, right, i, j, cols, count, upto, n) is Ok,
    ensures
        is_settled(product_cell(left, right, i, j, cols, count, upto, n)->Ok_0, env, n),
    decreases left, upto,
{
    if upto > 0 {
        lemma_product_cell_settled(left, right, i, j, cols, count, upto - 1, env, n);
        let sum = product_cell(left, right, i, j, cols, count, upto - 1, n)->Ok_0;
        let at = i * count + (upto - 1);
        assert(0 <= i * count) by (nonlinear_arith)
            requires
                0 <= i,
                0 <= count,
        ;
        assert(at < (i + 1) * count) by (nonlinear_arith)
            requires
                at == i * count + (upto - 1),
                upto <= count,
        ;
        lemma_cell_index(count, cols, upto - 1, j);
        let factor = right[(upto - 1) * cols + j];
        assert(is_settled(left[at], env, n));
        assert(is_settled(factor, env, n));
        lemma_combined_settled(left[at], "*"@, factor, env, n);
        let p = combined(left[at], "*"@, factor, n)->Ok_0;
        lemma_elementwise_settled(sum, "+"@, p, env, n);
    }
}

/// An operator on two settled values gives a settled value.
pub proof fn lemma_combined_settled(l: Term, op: Seq<char>, r: Term, env: Bindings, n: Numerics)
    requires
        is_settled(l, env, n),
        is_settled(r, env, n),
        combined(l, op, r, n) is Ok,
    ensures
        is_settled(combined(l, op, r, n)->Ok_0, env, n),
    decreases l,
{
    if l is Matrix && r is Matrix && op == "*"@ {
        let left = l->Matrix_values;
        let right = r->Matrix_values;
        let rows = l->Matrix_rows;
        let cols = r->Matrix_cols;
        let count = l->Matrix_cols;
        let results = product_cells(left, right, rows, cols, count, n);
        lemma_collected(results);
        let cells = collected(results)->Ok_0;
        assert forall|k: int| 0 <= k < cells.len() implies is_settled(
            #[trigger] cells[k],
            env,
            n,
        ) by {
            assert(results[k] == Ok::<Term, ErrorView>(cells[k]));
            assert(cols > 0) by (nonlinear_arith)
                requires
                    0 <= k < rows * cols,
                    0 <= rows,
            ;
            lemma_cell_of_index(cols as int, k);
            let i = k / (cols as int);
            let j = k % (cols as int);
            assert(i < rows) by (nonlinear_arith)
                requires
                    k == i * cols + j,
                    0 <= j,
                    k < rows * cols,
                    0 < cols,
            ;
            assert((i + 1) * count <= rows * count) by (nonlinear_arith)
                requires
                    i < rows,
                    0 <= count,
            ;
            lemma_product_cell_settled(
                left,
                right,
                i,
                j,
                cols as int,
                count as int,
                count as int,
                env,
                n,
            );
        }
        lemma_matrix_settled(rows, cols, cells, env, n);
    } else {
        lemma_elementwise_settled(l, op, r, env, n);
    }
}

/// A built-in function that is given well-shaped matrices returns a
/// well-shaped matrix.
pub proof fn lemma_applied_shaped(f: StdFunction, args: Seq<MatrixView>, n: Numerics)
    requires
        all_shaped(args),
        applied(f, args, n) is Ok,
    ensures
        applied(f, args, n)->Ok_0.shaped(),
{
    let m = applied(f, args, n)->Ok_0;
    match f {
        StdFunction::Transpose => {
            assert(args[0].shaped());
            assert(args[0].cols * args[0].rows == args[0].rows * args[0].cols) by (nonlinear_arith);
            assert(m.shaped());
        },
        StdFunction::Determinant => {
            assert(m.vals.len() == 1 * 1);
            assert(m.shaped());
        },
        StdFunction::Identity => {
            let count = (n.to_int)(args[0].vals[0]);
            let dim: int = if count < 0 {
                0
            } else {
                count as int
            };
            assert(dim <= usize::MAX) by (nonlinear_arith)
                requires
                    dim * dim <= usize::MAX,
                    0 <= dim,
            ;
            assert(m.shaped());
        },
        StdFunction::Invert => {
            assert(args[0].shaped());
            assert(args[0].cols * args[0].rows == args[0].rows * args[0].cols) by (nonlinear_arith);
            assert(m.shaped());
        },
        StdFunction::Sqrt => {
            assert(args[0].shaped());
            assert(m.shaped());
        },
        StdFunction::Sin => {
            assert(args[0].shaped());
            assert(m.shaped());
        },
        StdFunction::Cos => {
            assert(args[0].shaped());
            assert(m.shaped());
        },
        StdFunction::Exit => {
            assert(m == empty_matrix());
            assert(m.vals.len() == 0 * 0);
            assert(m.shaped());
        },
        StdFunction::Cross => {
            assert(args[0].shaped());
            assert(m.shaped());
        },
        StdFunction::Dot => {
            assert(m.vals.len() == 1 * 1);
            assert(m.shaped());
        },
        StdFunction::Linspace => {
            assert(m.rows == 1);
            assert(1 * m.cols == m.cols) by (nonlinear_arith);
            assert(m.shaped());
        },
        StdFunction::Missing => {
            assert(m == empty_matrix());
            assert(m.vals.len() == 0 * 0);
            assert(m.shaped());
        },
        StdFunction::Plot => {
            assert(m == empty_matrix());
            assert(m.vals.len() == 0 * 0);
            assert(m.shaped());
        },
        StdFunction::Rotation2d => {
            assert(m.vals.len() == 2 * 2);
            assert(m.shaped());
        },
    }
}

/// The value that a well-shaped matrix of numbers stands for is settled.
pub proof fn lemma_from_matrix_settled(m: MatrixView, env: Bindings, n: Numerics)
    requires
        m.shaped(),
    ensures
        is_settled(from_matrix(m, n), env, n),
{
    let cells = Seq::new(m.vals.len(), |i: int| demoted(m.vals[i], n));
    assert forall|i: int| 0 <= i < cells.len() implies is_settled(#[trigger] cells[i], env, n) by {
        lemma_demoted_settled(m.vals[i], env, n);
    }
    lemma_matrix_settled(m.rows, m.cols, cells, env, n);
}

/// The matrix of numbers that a value stands for is well shaped.
pub proof fn lemma_to_matrix_shaped(t: Term, n: Numerics)
    requires
        to_matrix(t, n) is Ok,
    ensures
        to_matrix(t, n)->Ok_0.shaped(),
{
    let m = to_matrix(t, n)->Ok_0;
    match t {
        Term::Int(_) => {
            assert(m.vals.len() == 1 * 1);
        },
        Term::Float(_) => {
            assert(m.vals.len() == 1 * 1);
        },
        _ => {},
    }
}

/// Evaluating an expression without assignments, where every variable is
/// bound to a settled term, gives a settled term and leaves the variables
/// alone.
pub proof fn lemma_simplified_settled(e: Term, env: Bindings, n: Numerics)
    requires
        is_pure(e),
        env_settled(env, n),
        simplified(e, env, n) is Ok,
    ensures
        simplified(e, env, n)->Ok_0.1 == env,
        is_settled(simplified(e, env, n)->Ok_0.0, env, n),
    decreases e, 0int,
{
    match e {
        Term::Identifier(s) => {},
        Term::Assignment { .. } => {},
        Term::Int(_) => {},
        Term::Nil => {},
        Term::Float(f) => {
            lemma_demoted_settled(f, env, n);
        },
        Term::Matrix { rows, cols, values } => {
            lemma_simplified_all_settled(values, values.len() as int, env, n);
            let cells = simplified_all(values, values.len() as int, env, n)->Ok_0.0;
            lemma_matrix_settled(rows, cols, cells, env, n);
        },
        Term::BinOp { left, op, right } => {
            lemma_simplified_settled(*left, env, n);
            lemma_simplified_settled(*right, env, n);
            let l = simplified(*left, env, n)->Ok_0.0;
            let r = simplified(*right, env, n)->Ok_0.0;
            if is_operand(l) && is_operand(r) {
                lemma_combined_settled(l, op, r, env, n);
            }
        },
        Term::Call { name, args } => {
            lemma_arguments_shaped(args, args.len() as int, env, n);
            let matrices = arguments(args, args.len() as int, env, n)->Ok_0.0;
            let f = found(name);
            lemma_applied_shaped(f, matrices, n);
            lemma_from_matrix_settled(applied(f, matrices, n)->Ok_0, env, n);
        },
    }
}

/// Evaluating expressions without assignments one after the other, where
/// every variable is bound to a settled term, gives settled terms and leaves
/// the variables alone.
pub proof fn lemma_simplified_all_settled(items: Seq<Term>, count: int, env: Bindings, n: Numerics)
    requires
        forall|i: int| 0 <= i < items.len() ==> is_pure(#[trigger] items[i]),
        env_settled(env, n),
        0 <= count <= items.len(),
        simplified_all(items, count, env, n) is Ok,
    ensures
        simplified_all(items, count, env, n)->Ok_0.1 == env,
        simplified_all(items, count, env, n)->Ok_0.0.len() == count,
        all_settled(simplified_all(items, count, env, n)->Ok_0.0, env, n),
    decreases items, count,
{
    if count > 0 {
        lemma_simplified_all_settled(items, count - 1, env, n);
        lemma_simplified_settled(items[count - 1], env, n);
    }
}

/// Evaluating the arguments of a call, where they hold no assignments and
/// every variable is bound to a settled term, gives well-shaped matrices and
/// leaves the variables alone.
pub proof fn lemma_arguments_shaped(items: Seq<Term>, count: int, env: Bindings, n: Numerics)
    requires
        forall|i: int| 0 <= i < items.len() ==> is_pure(#[trigger] items[i]),
        env_settled(env, n),
        0 <= count <= items.len(),
        arguments(items, count, env, n) is Ok,
    ensures
        arguments(items, count, env, n)->Ok_0.1 == env,
        all_shaped(arguments(items, count, env, n)->Ok_0.0),
    decreases items, count,
{
    if count > 0 {
        lemma_arguments_shaped(items, count - 1, env, n);
        lemma_simplified_settled(items[count - 1], env, n);
        lemma_to_matrix_shaped(simplified(items[count - 1], env, n)->Ok_0.0, n);
    }
}

/// Evaluating the value of a statement once more changes nothing: where
/// every variable is bound to a settled term and a statement evaluates to a
/// value, that value evaluates to itself and leaves the variables alone.
pub proof fn lemma_simplify_idempotent(e: Term, env: Bindings, n: Numerics)
    requires
        is_statement(e),
        env_settled(env, n),
        simplified(e, env, n) is Ok,
    ensures
        simplified(simplified(e, env, n)->Ok_0.0, env, n) == Ok::<(Term, Bindings), ErrorView>(
            (simplified(e, env, n)->Ok_0.0, env),
        ),
    decreases e,
{
    match e {
        Term::Assignment { identifier, value } => {
            lemma_simplify_idempotent(*value, env, n);
        },
        _ => {
            lemma_simplified_settled(e, env, n);
        },
    }
}

/// Evaluating the value of an expression once more, with the variables as
/// the first evaluation left them, gives the value back and leaves the
/// variables alone. This holds where the value is a number or a matrix of
/// numbers, whatever the expression and the variables; and it holds where the
/// expression holds no assignment and every variable is bound to a settled
/// term.
pub proof fn lemma_simplify_twice(e: Term, env: Bindings, n: Numerics)
    requires
        simplified(e, env, n) is Ok,
        is_value(simplified(e, env, n)->Ok_0.0, n) || (is_pure(e) && env_settled(env, n)),
    ensures
        simplified(simplified(e, env, n)->Ok_0.0, simplified(e, env, n)->Ok_0.1, n) == Ok::<
            (Term, Bindings),
            ErrorView,
        >(simplified(e, env, n)->Ok_0),
{
    let value = simplified(e, env, n)->Ok_0.0;
    let after = simplified(e, env, n)->Ok_0.1;
    if is_value(value, n) {
        lemma_value_settled(value, after, n);
    } else {
        lemma_simplified_settled(e, env, n);
    }
}

} // verus!
