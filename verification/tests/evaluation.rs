use elemental::evaluator::{apply_elementwise, combine, demote, from_runtime, to_runtime};
use elemental::host::{Arith, Func, Reply, Request};
use elemental::{
    binop, interpret, matrix_dot, Environment, Error, Evaluation, Expression, Matrix,
};

fn host(request: Request) -> Reply {
    match request {
        Request::Literal(text) => Reply::Float(text.parse::<f64>().unwrap_or(f64::NAN).to_bits()),
        Request::Binary(op, x, y) => {
            let x = f64::from_bits(x);
            let y = f64::from_bits(y);
            let result = match op {
                Arith::Add => x + y,
                Arith::Sub => x - y,
                Arith::Mul => x * y,
                Arith::Div => x / y,
            };
            Reply::Float(result.to_bits())
        }
        Request::Unary(f, x) => {
            let x = f64::from_bits(x);
            let result = match f {
                Func::Sin => x.sin(),
                Func::Cos => x.cos(),
                Func::Sqrt => x.sqrt(),
                Func::Round => x.round(),
                Func::Fract => x.fract(),
                Func::Neg => -x,
            };
            Reply::Float(result.to_bits())
        }
        Request::FromInt(i) => Reply::Float((i as f64).to_bits()),
        Request::ToInt(x) => Reply::Int(f64::from_bits(x) as i64),
        Request::Show(x) => Reply::Text(format!("{:.8}", f64::from_bits(x))),
        Request::Plot(_, _) => Reply::Done,
        Request::Exit => Reply::Done,
    }
}

fn run(code: &str) -> Result<Expression, Error> {
    let mut variables = Environment::new();
    value(interpret(&mut variables, code.to_string(), &host).0)
}

fn value(outcome: Result<Evaluation, Error>) -> Result<Expression, Error> {
    outcome.map(|evaluation| evaluation.value)
}

fn report(code: &str) -> Option<Error> {
    let mut variables = Environment::new();
    interpret(&mut variables, code.to_string(), &host).0.unwrap().reported
}

fn float(x: f64) -> Expression {
    Expression::Float(x.to_bits())
}

fn ints(rows: usize, cols: usize, values: &[i64]) -> Expression {
    Expression::Matrix {
        rows,
        cols,
        values: values.iter().map(|i| Expression::Int(*i)).collect(),
    }
}

fn id(name: &str) -> Expression {
    Expression::Identifier(name.to_string())
}

fn op(left: Expression, op: &str, right: Expression) -> Expression {
    Expression::BinOp { left: Box::new(left), op: op.to_string(), right: Box::new(right) }
}

fn close(value: &Expression, wanted: f64) -> bool {
    let got = match value {
        Expression::Int(i) => *i as f64,
        Expression::Float(f) => f64::from_bits(*f),
        _ => return false,
    };
    (got - wanted).abs() < 1e-9
}

#[test]
fn scalar_arithmetic() {
    assert_eq!(run("1 + 2"), Ok(Expression::Int(3)));
    assert_eq!(run("1 - 2"), Ok(Expression::Int(-1)));
    assert_eq!(run("3 * 4"), Ok(Expression::Int(12)));
    assert_eq!(run("4 / 2"), Ok(Expression::Int(2)));
    assert_eq!(run("1 / 2"), Ok(float(0.5)));
    assert_eq!(run("1.5 + 1.5"), Ok(Expression::Int(3)));
    assert_eq!(run("1.5 + 1"), Ok(float(2.5)));
    assert_eq!(run("1 + 1.25"), Ok(float(2.25)));
    assert_eq!(run("0.5 * 0.5"), Ok(float(0.25)));
    assert_eq!(run("1 + 2 * 3"), Ok(Expression::Int(7)));
    assert_eq!(run("(1 + 2) * 3"), Ok(Expression::Int(9)));
}

#[test]
fn binop_on_numbers() {
    let x = 6.0f64.to_bits();
    let y = 1.5f64.to_bits();
    assert_eq!(binop(x, y, "+", &host), Ok(7.5f64.to_bits()));
    assert_eq!(binop(x, y, "-", &host), Ok(4.5f64.to_bits()));
    assert_eq!(binop(x, y, "*", &host), Ok(9.0f64.to_bits()));
    assert_eq!(binop(x, y, "/", &host), Ok(4.0f64.to_bits()));
    assert_eq!(binop(x, 0.0f64.to_bits(), "/", &host), Err(Error::DividedByZero));
    assert_eq!(binop(x, (-0.0f64).to_bits(), "/", &host), Err(Error::DividedByZero));
    assert_eq!(binop(x, y, "^", &host), Err(Error::InvalidOperator));
    assert_eq!(binop(x, y, "", &host), Err(Error::InvalidOperator));
}

#[test]
fn whole_floats_become_integers() {
    assert_eq!(demote(2.0f64.to_bits(), &host), Expression::Int(2));
    assert_eq!(demote((-3.0f64).to_bits(), &host), Expression::Int(-3));
    assert_eq!(demote(0.0f64.to_bits(), &host), Expression::Int(0));
    assert_eq!(demote((-0.0f64).to_bits(), &host), Expression::Int(0));
    assert_eq!(demote(2.5f64.to_bits(), &host), float(2.5));
    assert_eq!(demote(f64::INFINITY.to_bits(), &host), float(f64::INFINITY));
    assert_eq!(run("2.0"), Ok(Expression::Int(2)));
    assert_eq!(run("3.5"), Ok(float(3.5)));
    let mut variables = Environment::new();
    assert_eq!(value(float(7.0).simplify(&mut variables, &host)), Ok(Expression::Int(7)));
}

#[test]
fn identifiers_bound_and_unbound() {
    let mut variables = Environment::new();
    assert_eq!(value(id("y").simplify(&mut variables, &host)), Ok(id("y")));
    variables.insert("y".to_string(), Expression::Int(3));
    assert_eq!(value(id("y").simplify(&mut variables, &host)), Ok(Expression::Int(3)));
    assert_eq!(
        value(op(id("y"), "*", Expression::Int(2)).simplify(&mut variables, &host)),
        Ok(Expression::Int(6))
    );
    let symbolic = op(id("z"), "+", op(Expression::Int(1), "+", Expression::Int(2)));
    assert_eq!(value(symbolic.simplify(&mut variables, &host)), Ok(symbolic.clone()));
    assert_eq!(value(Expression::Nil.simplify(&mut variables, &host)), Ok(Expression::Nil));
}

#[test]
fn assignment_binds_the_value() {
    let mut variables = Environment::new();
    let assignment = Expression::Assignment {
        identifier: "x".to_string(),
        value: Box::new(op(Expression::Int(2), "*", Expression::Int(4))),
    };
    assert_eq!(value(assignment.simplify(&mut variables, &host)), Ok(Expression::Int(8)));
    assert_eq!(variables.get(&"x".to_string()), Some(Expression::Int(8)));
    assert_eq!(variables.len(), 1);
    let again = Expression::Assignment {
        identifier: "x".to_string(),
        value: Box::new(op(id("x"), "+", Expression::Int(1))),
    };
    assert_eq!(value(again.simplify(&mut variables, &host)), Ok(Expression::Int(9)));
    assert_eq!(variables.get(&"x".to_string()), Some(Expression::Int(9)));
    assert_eq!(variables.len(), 1);
}

#[test]
fn a_failed_statement_binds_nothing() {
    let mut variables = Environment::new();
    variables.insert("a".to_string(), Expression::Int(1));
    let cells = Expression::Matrix {
        rows: 1,
        cols: 2,
        values: vec![
            Expression::Assignment { identifier: "b".to_string(), value: Box::new(Expression::Int(2)) },
            op(Expression::Int(1), "/", Expression::Int(0)),
        ],
    };
    assert_eq!(value(cells.simplify(&mut variables, &host)), Err(Error::DividedByZero));
    assert_eq!(variables.get(&"b".to_string()), None);
    assert_eq!(variables.get(&"a".to_string()), Some(Expression::Int(1)));
    assert_eq!(variables.len(), 1);
}

#[test]
fn matrices_simplify_cell_by_cell() {
    assert_eq!(run("[1+1 2.0; 3 4.5]"), Ok(Expression::Matrix {
        rows: 2,
        cols: 2,
        values: vec![Expression::Int(2), Expression::Int(2), Expression::Int(3), float(4.5)],
    }));
    assert_eq!(run("[5]"), Ok(Expression::Int(5)));
    assert_eq!(run("[2 * 3]"), Ok(Expression::Int(6)));
    let mut variables = Environment::new();
    let misshaped = Expression::Matrix { rows: 2, cols: 2, values: vec![Expression::Int(1)] };
    assert_eq!(value(misshaped.simplify(&mut variables, &host)), Err(Error::ImproperDimensions));
    let empty = Expression::Matrix { rows: 1, cols: 1, values: vec![] };
    assert_eq!(value(empty.simplify(&mut variables, &host)), Err(Error::ImproperDimensions));
}

#[test]
fn scalars_broadcast_over_matrices() {
    assert_eq!(run("2 * [1 2; 3 4]"), Ok(ints(2, 2, &[2, 4, 6, 8])));
    assert_eq!(run("[1 2; 3 4] * 2"), Ok(ints(2, 2, &[2, 4, 6, 8])));
    assert_eq!(run("1 + [1 2; 3 4]"), Ok(ints(2, 2, &[2, 3, 4, 5])));
    assert_eq!(run("[1 2; 3 4] - 1"), Ok(ints(2, 2, &[0, 1, 2, 3])));
    assert_eq!(run("10 - [1 2]"), Ok(ints(1, 2, &[9, 8])));
    assert_eq!(
        run("[1 2] / 2"),
        Ok(Expression::Matrix { rows: 1, cols: 2, values: vec![float(0.5), Expression::Int(1)] })
    );
    assert_eq!(run("0.5 * [2 4]"), Ok(ints(1, 2, &[1, 2])));
    assert_eq!(run("[1 2] / 0"), Err(Error::DividedByZero));
    assert_eq!(
        run("2 * [y 1]"),
        Ok(Expression::Matrix {
            rows: 1,
            cols: 2,
            values: vec![op(Expression::Int(2), "*", id("y")), Expression::Int(2)],
        })
    );
}

#[test]
fn matrix_products() {
    assert_eq!(run("[1 2; 3 4] * [1 0; 0 1]"), Ok(ints(2, 2, &[1, 2, 3, 4])));
    assert_eq!(run("[1 2; 3 4] * [5 6; 7 8]"), Ok(ints(2, 2, &[19, 22, 43, 50])));
    assert_eq!(run("[1 2 3] * [4; 5; 6]"), Ok(Expression::Int(32)));
    assert_eq!(run("[1; 2] * [3 4]"), Ok(ints(2, 2, &[3, 4, 6, 8])));
    assert_eq!(run("[1 2 3] * [1 2]"), Err(Error::ImproperDimensions));
    assert_eq!(run("[1 2; 3 4] * [1 2 3]"), Err(Error::ImproperDimensions));
    assert_eq!(run("[1 2] + [3 4]"), Err(Error::InvalidOperands));
    assert_eq!(run("[1 2] - [3 4]"), Err(Error::InvalidOperands));
    assert_eq!(run("[1 2] / [3 4]"), Err(Error::InvalidOperands));
}

#[test]
fn matrix_dot_on_cells() {
    let left = vec![Expression::Int(1), Expression::Int(2), Expression::Int(3), Expression::Int(4)];
    let right = vec![Expression::Int(5), Expression::Int(6), Expression::Int(7), Expression::Int(8)];
    assert_eq!(matrix_dot(&left, &right, 2, 2, 2, &host), Ok(ints(2, 2, &[19, 22, 43, 50])));
    assert_eq!(matrix_dot(&left, &right, 1, 1, 4, &host), Ok(ints(1, 1, &[70])));
    assert_eq!(matrix_dot(&left, &right, 2, 2, 3, &host), Err(Error::ImproperDimensions));
    assert_eq!(matrix_dot(&left, &right, 3, 2, 2, &host), Err(Error::ImproperDimensions));
    assert_eq!(
        matrix_dot(&left, &right, usize::MAX, usize::MAX, 2, &host),
        Err(Error::ImproperDimensions)
    );
    let symbolic = vec![id("a"), Expression::Int(2)];
    let column = vec![Expression::Int(3), Expression::Int(4)];
    assert_eq!(
        matrix_dot(&symbolic, &column, 1, 1, 2, &host),
        Ok(Expression::Matrix {
            rows: 1,
            cols: 1,
            values: vec![op(
                op(Expression::Int(0), "+", op(id("a"), "*", Expression::Int(3))),
                "+",
                Expression::Int(8)
            )],
        })
    );
}

#[test]
fn combine_and_elementwise() {
    let plus = "+".to_string();
    let times = "*".to_string();
    let power = "^".to_string();
    let row = ints(1, 2, &[1, 2]);
    let column = ints(2, 1, &[3, 4]);
    assert_eq!(combine(&row, &times, &column, &host), Ok(Expression::Int(11)));
    assert_eq!(combine(&row, &plus, &column, &host), Err(Error::InvalidOperands));
    assert_eq!(apply_elementwise(&row, &times, &column, &host), Err(Error::InvalidOperands));
    assert_eq!(combine(&Expression::Int(2), &plus, &row, &host), Ok(ints(1, 2, &[3, 4])));
    assert_eq!(
        apply_elementwise(&Expression::Int(2), &power, &Expression::Int(3), &host),
        Err(Error::InvalidOperator)
    );
    assert_eq!(
        apply_elementwise(&Expression::Nil, &plus, &Expression::Int(3), &host),
        Ok(op(Expression::Nil, "+", Expression::Int(3)))
    );
    let nested = Expression::Matrix { rows: 1, cols: 2, values: vec![row.clone(), Expression::Int(5)] };
    assert_eq!(
        combine(&Expression::Int(2), &times, &nested, &host),
        Ok(Expression::Matrix {
            rows: 1,
            cols: 2,
            values: vec![ints(1, 2, &[2, 4]), Expression::Int(10)],
        })
    );
}

#[test]
fn values_to_matrices_and_back() {
    let m = to_runtime(&ints(1, 2, &[1, 2]), &host).unwrap();
    assert_eq!((m.rows(), m.cols()), (1, 2));
    assert_eq!(m.copy_vals(), vec![1.0f64.to_bits(), 2.0f64.to_bits()]);
    let one = to_runtime(&Expression::Int(7), &host).unwrap();
    assert_eq!((one.rows(), one.cols()), (1, 1));
    assert_eq!(one.copy_vals(), vec![7.0f64.to_bits()]);
    let half = to_runtime(&float(0.5), &host).unwrap();
    assert_eq!(half.copy_vals(), vec![0.5f64.to_bits()]);
    assert_eq!(to_runtime(&id("x"), &host).err(), Some(Error::InvalidOperands));
    assert_eq!(to_runtime(&Expression::Nil, &host).err(), Some(Error::InvalidOperands));
    let symbolic = Expression::Matrix { rows: 1, cols: 2, values: vec![Expression::Int(1), id("x")] };
    assert_eq!(to_runtime(&symbolic, &host).err(), Some(Error::InvalidValue));
    let misshaped = Expression::Matrix { rows: 2, cols: 2, values: vec![Expression::Int(1)] };
    assert_eq!(to_runtime(&misshaped, &host).err(), Some(Error::ImproperDimensions));

    let back = Matrix::new(1, 3, vec![1.0f64.to_bits(), 2.5f64.to_bits(), (-0.0f64).to_bits()]);
    assert_eq!(
        from_runtime(&back, &host),
        Expression::Matrix {
            rows: 1,
            cols: 3,
            values: vec![Expression::Int(1), float(2.5), Expression::Int(0)],
        }
    );
    assert_eq!(from_runtime(&Matrix::new(1, 1, vec![4.0f64.to_bits()]), &host), Expression::Int(4));
    assert_eq!(
        from_runtime(&Matrix::empty(), &host),
        Expression::Matrix { rows: 0, cols: 0, values: vec![] }
    );
}

#[test]
fn calls_of_built_in_functions() {
    assert_eq!(run("det([1 2; 3 4])"), Ok(Expression::Int(-2)));
    assert_eq!(run("det([2 0 0; 0 3 0; 0 0 4])"), Ok(Expression::Int(24)));
    assert_eq!(run("det([1 2 3; 4 5 6; 7 8 10])"), Ok(Expression::Int(-3)));
    assert_eq!(run("det(5)"), Ok(Expression::Int(5)));
    assert_eq!(run("t([1 2; 3 4])"), Ok(ints(2, 2, &[1, 3, 2, 4])));
    assert_eq!(run("[1 2 3]'"), Ok(ints(3, 1, &[1, 2, 3])));
    assert_eq!(run("I(2)"), Ok(ints(2, 2, &[1, 0, 0, 1])));
    assert_eq!(run("I(1)"), Ok(Expression::Int(1)));
    assert_eq!(run("I(0)"), Ok(Expression::Matrix { rows: 0, cols: 0, values: vec![] }));
    assert_eq!(run("I(2.7)"), Ok(ints(2, 2, &[1, 0, 0, 1])));
    assert_eq!(run("dot([1 2 3], [4 5 6])"), Ok(Expression::Int(32)));
    assert_eq!(run("cross([1 0 0], [0 1 0])"), Ok(ints(1, 3, &[0, 0, 1])));
    assert_eq!(run("cross([1 2 3], [4 5 6])"), Ok(ints(1, 3, &[-3, 6, -3])));
    assert_eq!(run("sqrt(4)"), Ok(Expression::Int(2)));
    assert_eq!(run("sqrt([4 9; 16 2.25])"), Ok(Expression::Matrix {
        rows: 2,
        cols: 2,
        values: vec![Expression::Int(2), Expression::Int(3), Expression::Int(4), float(1.5)],
    }));
    assert_eq!(run("sin(0)"), Ok(Expression::Int(0)));
    assert_eq!(run("cos(0)"), Ok(Expression::Int(1)));
    assert_eq!(run("rotation2d(0)"), Ok(ints(2, 2, &[1, 0, 0, 1])));
    assert_eq!(
        run("linspace(0, 1, 4)"),
        Ok(Expression::Matrix {
            rows: 1,
            cols: 4,
            values: vec![Expression::Int(0), float(0.25), float(0.5), float(0.75)],
        })
    );
    assert_eq!(run("linspace(0, 3)"), Ok(ints(1, 3, &[0, 1, 2])));
    assert_eq!(run("linspace(2, 4, 1)"), Ok(Expression::Int(2)));
    assert_eq!(run("linspace(2, 4, 0)"), Ok(Expression::Matrix { rows: 1, cols: 0, values: vec![] }));
    assert_eq!(run("plot([1 2 3], [4 5 6])"), Ok(Expression::Matrix { rows: 0, cols: 0, values: vec![] }));
    assert_eq!(run("exit()"), Ok(Expression::Matrix { rows: 0, cols: 0, values: vec![] }));
    assert_eq!(run("x = det([1 2; 3 4]) + 1"), Ok(Expression::Int(-1)));
}

#[test]
fn inverse_by_the_adjugate() {
    assert_eq!(
        run("inv([1 2; 3 4])"),
        Ok(Expression::Matrix {
            rows: 2,
            cols: 2,
            values: vec![Expression::Int(-2), Expression::Int(1), float(1.5), float(-0.5)],
        })
    );
    assert_eq!(run("inv(4)"), Ok(float(0.25)));
    assert_eq!(run("inv([1 2; 2 4])"), Err(Error::DividedByZero));
    assert_eq!(run("inv([1 2 3])"), Err(Error::SquareMatrixRequired));
}

#[test]
fn a_matrix_times_its_inverse_is_the_identity() {
    for code in ["[1 2; 3 4]", "[2 1 0; 1 3 1; 0 1 4]", "[4 7; 2 6]", "[3]"] {
        let mut variables = Environment::new();
        let _ = interpret(&mut variables, format!("m = {}", code), &host);
        let product = interpret(&mut variables, "m * inv(m)".to_string(), &host).0.unwrap().value;
        match product {
            Expression::Matrix { rows, cols, values } => {
                assert_eq!(rows, cols);
                for i in 0..rows {
                    for j in 0..cols {
                        let wanted = if i == j { 1.0 } else { 0.0 };
                        assert!(close(&values[i * cols + j], wanted), "{} at {} {}", code, i, j);
                    }
                }
            }
            scalar => assert!(close(&scalar, 1.0), "{}", code),
        }
    }
}

#[test]
fn errors_of_calls() {
    assert_eq!(run("det(1, 2)"), Err(Error::WrongNumberOfArgs));
    assert_eq!(run("det()"), Err(Error::WrongNumberOfArgs));
    assert_eq!(run("dot([1 2 3])"), Err(Error::WrongNumberOfArgs));
    assert_eq!(run("linspace(1)"), Err(Error::WrongNumberOfArgs));
    assert_eq!(run("linspace(1, 2, 3, 4)"), Err(Error::WrongNumberOfArgs));
    assert_eq!(run("det([1 2 3])"), Err(Error::SquareMatrixRequired));
    assert_eq!(run("I([1 2])"), Err(Error::RequiresUnitMatrix));
    assert_eq!(run("rotation2d([1 2])"), Err(Error::RequiresUnitMatrix));
    assert_eq!(run("dot([1 2 3], [4 5])"), Err(Error::ImproperDimensions));
    assert_eq!(run("dot([1 2 3], [4; 5; 6])"), Err(Error::ImproperDimensions));
    assert_eq!(run("cross([1 2], [4 5])"), Err(Error::ImproperDimensions));
    assert_eq!(run("plot([1 2 3], [4 5])"), Err(Error::ImproperDimensions));
    assert_eq!(run("det([x 1; 1 1])"), Err(Error::InvalidValue));
    assert_eq!(run("det(x)"), Err(Error::InvalidOperands));
    assert_eq!(run("det([1 2; 3 4/0])"), Err(Error::DividedByZero));
    let mut variables = Environment::new();
    let call = Expression::Call { name: "t".to_string(), args: vec![op(Expression::Int(1), "^", Expression::Int(2))] };
    assert_eq!(value(call.simplify(&mut variables, &host)), Err(Error::InvalidOperator));
}

#[test]
fn simplifying_twice_changes_nothing() {
    for code in ["1 + 2", "1 / 3", "[1 2; 3 4] * 0.5", "y + 1", "det([1 2; 3 4])", "inv([1 2; 3 4])", "[4]", "2.0", "linspace(0, 1, 3)", "x"] {
        let mut variables = Environment::new();
        variables.insert("x".to_string(), float(1.5));
        let expression = {
            let mut tokenizer = elemental::Tokenizer::from(code.to_string()).unwrap();
            elemental::Parser::new().parse(&mut tokenizer, 0, &host).unwrap()
        };
        let once = expression.simplify(&mut variables, &host).unwrap().value;
        let twice = once.simplify(&mut variables, &host).unwrap().value;
        assert_eq!(once, twice, "{}", code);
    }
}

#[test]
fn showing_and_reading_a_number_gives_it_back() {
    for i in [0i64, 7, -7, 1234567890123, i64::MAX, i64::MIN] {
        let shown = Expression::Int(i).to_text(&host);
        assert_eq!(run(&shown), Ok(Expression::Int(i)));
    }
    for x in [0.5f64, -2.25, 3.1415, 1e-3] {
        let shown = float(x).to_text(&host);
        assert_eq!(run(&shown), Ok(float(x)));
    }
}

#[test]
fn shows_expressions() {
    assert_eq!(Expression::Int(5).to_text(&host), "5");
    assert_eq!(Expression::Int(-12).to_text(&host), "-12");
    assert_eq!(Expression::Int(0).to_text(&host), "0");
    assert_eq!(Expression::Int(i64::MIN).to_text(&host), "-9223372036854775808");
    assert_eq!(Expression::Int(i64::MAX).to_text(&host), "9223372036854775807");
    assert_eq!(float(0.5).to_text(&host), "0.50000000");
    assert_eq!(float(3.1415).to_text(&host), "3.14150000");
    assert_eq!(Expression::Nil.to_text(&host), "");
    assert_eq!(id("abc").to_text(&host), "abc");
    assert_eq!(op(id("y"), "+", Expression::Int(1)).to_text(&host), "y + 1");
    assert_eq!(
        Expression::Assignment { identifier: "x".to_string(), value: Box::new(Expression::Int(4)) }
            .to_text(&host),
        "4"
    );
    assert_eq!(
        Expression::Call { name: "f".to_string(), args: vec![Expression::Int(1), id("x")] }
            .to_text(&host),
        "f(1, x)"
    );
    assert_eq!(Expression::Call { name: "f".to_string(), args: vec![] }.to_text(&host), "f()");
}

#[test]
fn shows_matrices_row_by_row() {
    assert_eq!(
        ints(2, 2, &[1, 2, 3, 4]).to_text(&host),
        "[    1          2     ]\n[    3          4     ]\n"
    );
    assert_eq!(ints(1, 1, &[12]).to_text(&host), "[    12    ]\n");
    assert_eq!(
        Expression::Matrix { rows: 1, cols: 2, values: vec![float(0.5), Expression::Int(-123)] }
            .to_text(&host),
        "[0.50000000    -123   ]\n"
    );
    assert_eq!(
        Expression::Matrix { rows: 1, cols: 1, values: vec![float(-1234.5)] }.to_text(&host),
        "[-1234.50000000]\n"
    );
    assert_eq!(Expression::Matrix { rows: 0, cols: 0, values: vec![] }.to_text(&host), "");
    assert_eq!(Expression::Matrix { rows: 2, cols: 0, values: vec![] }.to_text(&host), "[]\n[]\n");
    assert_eq!(
        Expression::Matrix { rows: 2, cols: 2, values: vec![Expression::Int(1)] }.to_text(&host),
        ""
    );
}

#[test]
fn cloning_keeps_the_expression() {
    let expression = Expression::Call {
        name: "f".to_string(),
        args: vec![
            ints(1, 2, &[1, 2]),
            Expression::Assignment { identifier: "x".to_string(), value: Box::new(float(0.5)) },
            op(id("a"), "-", Expression::Nil),
        ],
    };
    assert_eq!(expression.clone(), expression);
}

#[test]
fn error_messages() {
    assert_eq!(Error::ImproperDimensions.message(), "improper dimensions");
    assert_eq!(Error::InvalidOperands.message(), "invalid binary operands");
    assert_eq!(Error::InvalidOperator.message(), "invalid operator");
    assert_eq!(
        Error::InvalidValue.message(),
        "at least one value in this matrix is not a numeric literal"
    );
    assert_eq!(Error::CouldNotParseNumeric.message(), "could not parse numeric input");
    assert_eq!(Error::UnexpectedEof.message(), "unexpected token or end of token stream");
    assert_eq!(Error::CouldNotFindFunction.message(), "could not find function in standard library");
    assert_eq!(Error::WrongNumberOfArgs.message(), "wrong number of arguments passed to function");
    assert_eq!(Error::RequiresUnitMatrix.message(), "function requires a unit (1x1) matrix");
    assert_eq!(Error::SquareMatrixRequired.message(), "function requires a square matrix");
    assert_eq!(Error::ExpectedIdentifier.message(), "expected identifier");
    assert_eq!(Error::ExpectedCloseParen.message(), "expected closing parenthesis");
    assert_eq!(Error::DividedByZero.message(), "attempted to divide by zero");
    assert_eq!(Error::UndeclaredVariable("x".to_string()).message(), "found undeclared variable x");
    assert_eq!(Error::CouldNotReadFile("a.el".to_string()).message(), "could not read file a.el");
    assert_eq!(Error::CouldNotWriteToFile.message(), "unable to export data to file");
    assert_eq!(Error::CouldNotDisplayPlot.message(), "could not display plot in terminal");
    assert_eq!(Error::CouldNotFlushOutput.message(), "could not flush stdout");
    assert_eq!(Error::CouldNotReadStdin.message(), "could not read stdin");
}

#[test]
fn environment_binds_and_rebinds() {
    let mut variables = Environment::new();
    assert_eq!(variables.len(), 0);
    assert_eq!(variables.get(&"x".to_string()), None);
    variables.insert("x".to_string(), Expression::Int(1));
    variables.insert("y".to_string(), Expression::Int(2));
    variables.insert("x".to_string(), Expression::Int(3));
    assert_eq!(variables.len(), 2);
    assert_eq!(variables.get(&"x".to_string()), Some(Expression::Int(3)));
    assert_eq!(variables.get(&"y".to_string()), Some(Expression::Int(2)));
    let copy = variables.clone();
    assert_eq!(copy.len(), 2);
    assert_eq!(copy.get(&"x".to_string()), Some(Expression::Int(3)));
}

#[test]
fn a_function_that_is_not_found_is_reported_and_gives_the_empty_matrix() {
    let empty = Expression::Matrix { rows: 0, cols: 0, values: vec![] };
    let mut variables = Environment::new();
    let (outcome, silent) = interpret(&mut variables, "foo(1)".to_string(), &host);
    assert_eq!(
        outcome,
        Ok(Evaluation { value: empty.clone(), reported: Some(Error::CouldNotFindFunction) })
    );
    assert!(!silent);
    assert_eq!(run("foo()"), Ok(empty.clone()));
    assert_eq!(run("Det([1 2; 3 4])"), Ok(empty.clone()));
    assert_eq!(report("Det([1 2; 3 4])"), Some(Error::CouldNotFindFunction));
    let call = Expression::Call { name: "routh".to_string(), args: vec![Expression::Int(1)] };
    assert_eq!(
        call.simplify(&mut variables, &host),
        Ok(Evaluation { value: empty.clone(), reported: Some(Error::CouldNotFindFunction) })
    );
}

#[test]
fn the_evaluation_goes_on_behind_a_function_that_is_not_found() {
    let empty = Expression::Matrix { rows: 0, cols: 0, values: vec![] };
    let mut variables = Environment::new();
    let (outcome, _) = interpret(&mut variables, "x = foo(1)".to_string(), &host);
    assert_eq!(
        outcome,
        Ok(Evaluation { value: empty.clone(), reported: Some(Error::CouldNotFindFunction) })
    );
    assert_eq!(variables.get(&"x".to_string()), Some(empty.clone()));
    assert_eq!(
        run("[foo(1) 2 + 3]"),
        Ok(Expression::Matrix { rows: 1, cols: 2, values: vec![empty.clone(), Expression::Int(5)] })
    );
    assert_eq!(report("[foo(1) 2 + 3]"), Some(Error::CouldNotFindFunction));
    assert_eq!(run("det(foo(1))"), Ok(Expression::Int(1)));
    assert_eq!(report("det(foo(1))"), Some(Error::CouldNotFindFunction));
    assert_eq!(report("1 + bar(2)"), Some(Error::CouldNotFindFunction));
    assert_eq!(report("y + bar(2)"), Some(Error::CouldNotFindFunction));
    assert_eq!(run("y + bar(2)"), Ok(op(id("y"), "+", Expression::Call {
        name: "bar".to_string(),
        args: vec![Expression::Int(2)],
    })));
    assert_eq!(run("foo(1) + 1/0"), Err(Error::DividedByZero));
    assert_eq!(run("foo(1/0)"), Err(Error::DividedByZero));
    assert_eq!(run("foo(x)"), Err(Error::InvalidOperands));
}

#[test]
fn nothing_is_reported_where_every_function_is_found() {
    for code in [
        "1 + 2",
        "x = 4",
        "y",
        "[1 2; 3 4]",
        "det([1 2; 3 4])",
        "t([1 2])",
        "I(2)",
        "inv(2)",
        "dot([1 2 3], [4 5 6])",
        "cross([1 2 3], [4 5 6])",
        "sin(0)",
        "cos(0)",
        "sqrt(4)",
        "rotation2d(0)",
        "linspace(0, 1, 2)",
        "exit()",
        "plot([1 2], [3 4])",
        "",
    ] {
        assert_eq!(report(code), None, "{}", code);
    }
}
