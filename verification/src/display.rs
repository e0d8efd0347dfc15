//! The text that shows an expression to the user.
use vstd::prelude::*;
use vstd::string::{StrSliceExecFns, StringExecFns};

use crate::expression::{lemma_view_of_items, terms, Expression, Term};
use crate::host::{numerics, show, well_behaved, Numerics, Reply, Request};
use crate::text::push_char;

verus! {

/// The character that stands for a digit.
pub open spec fn digit_char(d: int) -> char {
    if d == 0 {
        '0'
    } else if d == 1 {
        '1'
    } else if d == 2 {
        '2'
    } else if d == 3 {
        '3'
    } else if d == 4 {
        '4'
    } else if d == 5 {
        '5'
    } else if d == 6 {
        '6'
    } else if d == 7 {
        '7'
    } else if d == 8 {
        '8'
    } else {
        '9'
    }
}

/// The decimal digits of a natural number, without leading zeros.
pub open spec fn digits_of(n: nat) -> Seq<char>
    decreases n,
{
    if n < 10 {
        seq![digit_char(n as int)]
    } else {
        digits_of(n / 10).push(digit_char((n % 10) as int))
    }
}

/// The decimal numeral of an integer: its digits, behind a minus sign where
/// it is negative.
pub open spec fn decimal_of(i: int) -> Seq<char> {
    if i < 0 {
        seq!['-'] + digits_of((-i) as nat)
    } else {
        digits_of(i as nat)
    }
}

/// `count` spaces.
pub open spec fn spaces(count: int) -> Seq<char> {
    Seq::new(
        if count < 0 {
            0
        } else {
            count as nat
        },
        |i: int| ' ',
    )
}

/// A text in the middle of a field of `width` characters: spaces are added
/// on both sides, and where their number is odd, the one more on the right.
/// A text that is longer than the field stays as it is.
pub open spec fn centered(text: Seq<char>, width: int) -> Seq<char> {
    if text.len() >= width {
        text
    } else {
        let pad = width - text.len();
        spaces(pad / 2) + text + spaces(pad - pad / 2)
    }
}

/// The width of the field of a cell of a matrix.
pub const CELL_WIDTH: usize = 10;

/// The text that shows a term.
///
/// - An assignment shows as its value, an identifier as its name, `Nil` as
///   nothing.
/// - An integer shows as its decimal numeral, a float as the host writes it.
/// - An operation shows as its sides with the operator between them, set off
///   by spaces.
/// - A call shows as its name and, in parentheses, its arguments with `, `
///   between them.
/// - A matrix shows row by row, each in square brackets and on a line of
///   its own, its cells centered in fields of ten characters with a space
///   between them. A matrix that is not well shaped shows as nothing.
pub open spec fn shown(t: Term, n: Numerics) -> Seq<char>
    decreases t, 0int, 0int,
{
    match t {
        Term::Assignment { identifier, value } => shown(*value, n),
        Term::Identifier(s) => s,
        Term::Int(i) => decimal_of(i as int),
        Term::Float(f) => (n.show)(f),
        Term::Matrix { rows, cols, values } => if values.len() == rows * cols {
            rows_shown(values, cols as int, rows as int, n)
        } else {
            Seq::empty()
        },
        Term::BinOp { left, op, right } => shown(*left, n) + seq![' '] + op + seq![' '] + shown(
            *right,
            n,
        ),
        Term::Call { name, args } => name + seq!['('] + args_shown(args, args.len() as int, n)
            + seq![')'],
        Term::Nil => Seq::empty(),
    }
}

/// The text of the first `upto` rows of a matrix.
pub open spec fn rows_shown(values: Seq<Term>, cols: int, upto: int, n: Numerics) -> Seq<char>
    decreases values, 1int, upto,
{
    if upto <= 0 {
        Seq::empty()
    } else {
        rows_shown(values, cols, upto - 1, n) + seq!['['] + cells_shown(
            values,
            cols,
            upto - 1,
            cols,
            n,
        ) + seq![']', '\n']
    }
}

/// The text of the first `upto` cells of row `row` of a matrix.
pub open spec fn cells_shown(values: Seq<Term>, cols: int, row: int, upto: int, n: Numerics) -> Seq<
    char,
>
    decreases values, 0int, upto,
{
    if upto <= 0 {
        Seq::empty()
    } else {
        let at = row * cols + (upto - 1);
        let cell = if 0 <= at < values.len() {
            centered(shown(values[at], n), CELL_WIDTH as int)
        } else {
            Seq::empty()
        };
        let gap = if upto == cols {
            Seq::<char>::empty()
        } else {
            seq![' ']
        };
        cells_shown(values, cols, row, upto - 1, n) + cell + gap
    }
}

/// The text of the first `upto` arguments of a call, with `, ` between them.
pub open spec fn args_shown(args: Seq<Term>, upto: int, n: Numerics) -> Seq<char>
    decreases args, 0int, upto,
{
    if upto <= 0 || upto > args.len() {
        Seq::empty()
    } else if upto == 1 {
        shown(args[0], n)
    } else {
        args_shown(args, upto - 1, n) + seq![',', ' '] + shown(args[upto - 1], n)
    }
}

/// The character that stands for a digit.
fn digit_to_char(d: u64) -> (c: char)
    requires
        d < 10,
    ensures
        c == digit_char(d as int),
{
    if d == 0 {
        '0'
    } else if d == 1 {
        '1'
    } else if d == 2 {
        '2'
    } else if d == 3 {
        '3'
    } else if d == 4 {
        '4'
    } else if d == 5 {
        '5'
    } else if d == 6 {
        '6'
    } else if d == 7 {
        '7'
    } else if d == 8 {
        '8'
    } else {
        '9'
    }
}

/// Appends the decimal digits of a number to a text.
fn push_digits(n: u64, out: &mut String)
    ensures
        final(out)@ == old(out)@ + digits_of(n as nat),
    decreases n,
{
    if n >= 10 {
        push_digits(n / 10, out);
    }
    push_char(out, digit_to_char(n % 10));
    proof {
        if n >= 10 {
            assert(old(out)@ + digits_of((n / 10) as nat).push(digit_char((n % 10) as int))
                == (old(out)@ + digits_of((n / 10) as nat)).push(digit_char((n % 10) as int)));
        } else {
            assert(old(out)@ + seq![digit_char(n as int)] == old(out)@.push(digit_char(n as int)));
        }
    }
}

/// The decimal numeral of an integer.
pub fn int_text(i: i64) -> (text: String)
    ensures
        text@ == decimal_of(i as int),
{
    let mut text = String::new();
    if i < 0 {
        push_char(&mut text, '-');
        let magnitude: u64 = if i == i64::MIN {
            0x8000_0000_0000_0000
        } else {
            (-i) as u64
        };
        push_digits(magnitude, &mut text);
        assert(text@ == seq!['-'] + digits_of((-i) as nat)) by {
            assert(Seq::<char>::empty().push('-') == seq!['-']);
        }
    } else {
        push_digits(i as u64, &mut text);
        assert(Seq::<char>::empty() + digits_of(i as nat) == digits_of(i as nat));
    }
    text
}

/// Appends `count` spaces to a text.
fn push_spaces(count: usize, out: &mut String)
    ensures
        final(out)@ == old(out)@ + spaces(count as int),
{
    let mut i: usize = 0;
    assert(old(out)@ + spaces(0) == old(out)@);
    while i < count
        invariant
            i <= count,
            out@ == old(out)@ + spaces(i as int),
        decreases count - i,
    {
        push_char(out, ' ');
        i += 1;
        assert(old(out)@ + spaces(i as int) == (old(out)@ + spaces(i - 1)).push(' '));
    }
}

/// Appends a text to another, in the middle of a field of `width`
/// characters.
fn push_centered(text: &String, width: usize, out: &mut String)
    ensures
        final(out)@ == old(out)@ + centered(text@, width as int),
{
    let len = text.as_str().unicode_len();
    if len >= width {
        out.append(text.as_str());
    } else {
        let pad = width - len;
        push_spaces(pad / 2, out);
        out.append(text.as_str());
        push_spaces(pad - pad / 2, out);
        assert(out@ == old(out)@ + (spaces((pad / 2) as int) + text@ + spaces(
            (pad - pad / 2) as int,
        )));
    }
}

/// Appends the text of the rows of a matrix to `out`.
fn write_rows<H: Fn(Request) -> Reply>(
    values: &Vec<Expression>,
    rows: usize,
    cols: usize,
    out: &mut String,
    host: &H,
)
    requires
        well_behaved(host),
        values.len() == rows * cols,
    ensures
        final(out)@ == old(out)@ + rows_shown(terms(values@), cols as int, rows as int, numerics(host)),
    decreases values,
{
    let ghost n = numerics(host);
    let ghost cells = terms(values@);
    let mut i: usize = 0;
    assert(old(out)@ + Seq::<char>::empty() == old(out)@);
    while i < rows
        invariant
            well_behaved(host),
            n == numerics(host),
            cells == terms(values@),
            values.len() == rows * cols,
            i <= rows,
            out@ == old(out)@ + rows_shown(cells, cols as int, i as int, n),
        decreases rows - i,
    {
        let ghost before = out@;
        push_char(out, '[');
        let mut j: usize = 0;
        assert(before.push('[') + Seq::<char>::empty() == before.push('['));
        while j < cols
            invariant
                well_behaved(host),
                n == numerics(host),
                cells == terms(values@),
                values.len() == rows * cols,
                i < rows,
                j <= cols,
                out@ == before.push('[') + cells_shown(cells, cols as int, i as int, j as int, n),
            decreases cols - j,
        {
            proof {
                crate::matrix::lemma_cell_index(rows as int, cols as int, i as int, j as int);
                assert(cells[i * cols + j] == values[i * cols + j]@);
            }
            let ghost start = out@;
            let mut cell = String::new();
            values[i * cols + j].write(&mut cell, host);
            assert(cell@ == shown(cells[i * cols + j], n)) by {
                assert(Seq::<char>::empty() + shown(cells[i * cols + j], n) == shown(
                    cells[i * cols + j],
                    n,
                ));
            }
            push_centered(&cell, CELL_WIDTH, out);
            // A space where this is not the end of the row yet
            if j != cols - 1 {
                push_char(out, ' ');
            }
            j += 1;
            proof {
                let piece = centered(cell@, CELL_WIDTH as int);
                let gap = if j == cols {
                    Seq::<char>::empty()
                } else {
                    seq![' ']
                };
                let sofar = cells_shown(cells, cols as int, i as int, j - 1, n);
                assert(out@ == start + piece + gap);
                assert(before.push('[') + (sofar + piece + gap) == before.push('[') + sofar
                    + piece + gap);
            }
        }
        push_char(out, ']');
        push_char(out, '\n');
        i += 1;
        proof {
            let sofar = rows_shown(cells, cols as int, i - 1, n);
            let row = cells_shown(cells, cols as int, i - 1, cols as int, n);
            assert(before == old(out)@ + sofar);
            assert(out@ == (before.push('[') + row).push(']').push('\n'));
            assert(out@ == old(out)@ + (sofar + seq!['['] + row + seq![']', '\n']));
        }
    }
}

/// Appends the text of the arguments of a call to `out`.
fn write_args<H: Fn(Request) -> Reply>(args: &Vec<Expression>, out: &mut String, host: &H)
    requires
        well_behaved(host),
    ensures
        final(out)@ == old(out)@ + args_shown(terms(args@), args.len() as int, numerics(host)),
    decreases args,
{
    let ghost n = numerics(host);
    let ghost items = terms(args@);
    let ghost opened = out@;
    let mut i: usize = 0;
    assert(opened + Seq::<char>::empty() == opened);
    while i < args.len()
        invariant
            well_behaved(host),
            n == numerics(host),
            items == terms(args@),
            i <= args.len(),
            out@ == opened + args_shown(items, i as int, n),
        decreases args.len() - i,
    {
        let ghost sofar = args_shown(items, i as int, n);
        if i > 0 {
            push_char(out, ',');
            push_char(out, ' ');
        }
        assert(items[i as int] == args[i as int]@);
        args[i].write(out, host);
        i += 1;
        proof {
            let arg = shown(items[i - 1], n);
            if i == 1 {
                assert(sofar == Seq::<char>::empty());
                assert(out@ == opened + arg);
            } else {
                assert(out@ == (opened + sofar).push(',').push(' ') + arg);
                assert(out@ == opened + (sofar + seq![',', ' '] + arg));
            }
        }
    }
}

impl Expression {
    /// Appends the text that shows this expression to `out`.
    fn write<H: Fn(Request) -> Reply>(&self, out: &mut String, host: &H)
        requires
            well_behaved(host),
        ensures
            final(out)@ == old(out)@ + shown(self@, numerics(host)),
        decreases self,
    {
        let ghost n = numerics(host);
        match self {
            Expression::Assignment { identifier: _, value } => {
                value.write(out, host);
            },
            Expression::Identifier(s) => {
                out.append(s.as_str());
            },
            Expression::Int(i) => {
                let text = int_text(*i);
                out.append(text.as_str());
            },
            Expression::Float(f) => {
                let text = show(host, *f);
                out.append(text.as_str());
            },
            Expression::Matrix { rows, cols, values } => {
                proof {
                    lemma_view_of_items(*self);
                }
                if rows.checked_mul(*cols) != Some(values.len()) {
                    assert(old(out)@ + Seq::<char>::empty() == old(out)@);
                    return ;
                }
                write_rows(values, *rows, *cols, out, host);
            },
            Expression::BinOp { left, op, right } => {
                let ghost before = out@;
                left.write(out, host);
                push_char(out, ' ');
                out.append(op.as_str());
                push_char(out, ' ');
                right.write(out, host);
                assert(out@ == before + (shown(left@, n) + seq![' '] + op@ + seq![' '] + shown(
                    right@,
                    n,
                )));
            },
            Expression::Call { name, args } => {
                proof {
                    lemma_view_of_items(*self);
                }
                let ghost before = out@;
                out.append(name.as_str());
                push_char(out, '(');
                write_args(args, out, host);
                push_char(out, ')');
                assert(out@ == before + (name@ + seq!['('] + args_shown(
                    terms(args@),
                    args.len() as int,
                    n,
                ) + seq![')']));
            },
            Expression::Nil => {
                assert(old(out)@ + Seq::<char>::empty() == old(out)@);
            },
        }
    }

    /// The text that shows this expression to the user.
    pub fn to_text<H: Fn(Request) -> Reply>(&self, host: &H) -> (text: String)
        requires
            well_behaved(host),
        ensures
            text@ == shown(self@, numerics(host)),
    {
        let mut text = String::new();
        self.write(&mut text, host);
        assert(Seq::<char>::empty() + shown(self@, numerics(host)) == shown(self@, numerics(host)));
        text
    }
}

} // verus!
