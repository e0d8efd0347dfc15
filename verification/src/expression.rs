//! The expression tree that the parser builds and the evaluator reduces.
use vstd::prelude::*;

verus! {

/// An expression of the language.
///
/// A `Float` holds the bit pattern of a binary64 number. The cells of a
/// `Matrix` stand row by row; a matrix is well shaped where it holds
/// `rows * cols` of them.
#[derive(Debug, PartialEq)]
pub enum Expression {
    Assignment { identifier: String, value: Box<Expression> },
    Identifier(String),
    Int(i64),
    Float(u64),
    Matrix { rows: usize, cols: usize, values: Vec<Expression> },
    BinOp { left: Box<Expression>, op: String, right: Box<Expression> },
    Call { name: String, args: Vec<Expression> },
    Nil,
}

/// An expression as a mathematical value: texts are sequences of characters,
/// vectors are sequences.
pub enum Term {
    Assignment { identifier: Seq<char>, value: Box<Term> },
    Identifier(Seq<char>),
    Int(i64),
    Float(u64),
    Matrix { rows: usize, cols: usize, values: Seq<Term> },
    BinOp { left: Box<Term>, op: Seq<char>, right: Box<Term> },
    Call { name: Seq<char>, args: Seq<Term> },
    Nil,
}

/// The term that an expression stands for.
pub open spec fn term_of(e: Expression) -> Term
    decreases e,
{
    match e {
        Expression::Assignment { identifier, value } => Term::Assignment {
            identifier: identifier@,
            value: Box::new(term_of(*value)),
        },
        Expression::Identifier(s) => Term::Identifier(s@),
        Expression::Int(i) => Term::Int(i),
        Expression::Float(f) => Term::Float(f),
        Expression::Matrix { rows, cols, values } => Term::Matrix {
            rows,
            cols,
            values: Seq::new(
                values.len() as nat,
                |i: int|
                    if 0 <= i < values.len() {
                        term_of(values[i])
                    } else {
                        Term::Nil
                    },
            ),
        },
        Expression::BinOp { left, op, right } => Term::BinOp {
            left: Box::new(term_of(*left)),
            op: op@,
            right: Box::new(term_of(*right)),
        },
        Expression::Call { name, args } => Term::Call {
            name: name@,
            args: Seq::new(
                args.len() as nat,
                |i: int|
                    if 0 <= i < args.len() {
                        term_of(args[i])
                    } else {
                        Term::Nil
                    },
            ),
        },
        Expression::Nil => Term::Nil,
    }
}

impl View for Expression {
    type V = Term;

    open spec fn view(&self) -> Term {
        term_of(*self)
    }
}

/// The terms of a sequence of expressions.
pub open spec fn terms(items: Seq<Expression>) -> Seq<Term> {
    Seq::new(items.len(), |i: int| items[i]@)
}

/// The view of a matrix or a call holds the terms of its cells or arguments.
pub proof fn lemma_view_of_items(e: Expression)
    ensures
        e matches Expression::Matrix { rows, cols, values } ==> e@ == (Term::Matrix {
            rows,
            cols,
            values: terms(values@),
        }),
        e matches Expression::Call { name, args } ==> e@ == (Term::Call {
            name: name@,
            args: terms(args@),
        }),
{
    match e {
        Expression::Matrix { rows, cols, values } => {
            assert(e@->Matrix_values =~= terms(values@));
        },
        Expression::Call { name, args } => {
            assert(e@->Call_args =~= terms(args@));
        },
        _ => {},
    }
}

/// Copies a vector of expressions.
pub fn clone_all(items: &Vec<Expression>) -> (copy: Vec<Expression>)
    ensures
        terms(copy@) == terms(items@),
    decreases items,
{
    let mut copy: Vec<Expression> = Vec::new();
    let mut i: usize = 0;
    while i < items.len()
        invariant
            i <= items.len(),
            copy.len() == i,
            forall|k: int| 0 <= k < i ==> copy@[k]@ == items@[k]@,
        decreases items.len() - i,
    {
        copy.push(items[i].clone());
        i += 1;
    }
    assert(terms(copy@) == terms(items@));
    copy
}

impl Clone for Expression {
    fn clone(&self) -> (copy: Self)
        ensures
            copy@ == self@,
        decreases self,
    {
        match self {
            Expression::Assignment { identifier, value } => Expression::Assignment {
                identifier: identifier.clone(),
                value: Box::new((**value).clone()),
            },
            Expression::Identifier(s) => Expression::Identifier(s.clone()),
            Expression::Int(i) => Expression::Int(*i),
            Expression::Float(f) => Expression::Float(*f),
            Expression::Matrix { rows, cols, values } => {
                let copy = Expression::Matrix { rows: *rows, cols: *cols, values: clone_all(values) };
                proof {
                    lemma_view_of_items(copy);
                    lemma_view_of_items(*self);
                }
                copy
            },
            Expression::BinOp { left, op, right } => Expression::BinOp {
                left: Box::new((**left).clone()),
                op: op.clone(),
                right: Box::new((**right).clone()),
            },
            Expression::Call { name, args } => {
                let copy = Expression::Call { name: name.clone(), args: clone_all(args) };
                proof {
                    lemma_view_of_items(copy);
                    lemma_view_of_items(*self);
                }
                copy
            },
            Expression::Nil => Expression::Nil,
        }
    }
}

} // verus!
