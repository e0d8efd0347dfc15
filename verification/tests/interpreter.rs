use elemental::host::{Arith, Func, Reply, Request};
use elemental::{
    interpret, Environment, Error, Evaluation, Expression, TokenClass, Tokenizer,
};

fn host(request: Request) -> Reply {
    match request {
        Request::Literal(text) => Reply::Float(text.parse::<f64>().unwrap_or(f64::NAN).to_bits()),
        Request::Binary(op, x, y) => {
            let x = f64::from_bits(x);
            let y = f64::from_bits(y);
            let result = match op {
                Arith::Add => x + y,
                Arith::Sub => x - y,
                Arith::Mul => x * y,
                Arith::Div => x / y,
            };
            Reply::Float(result.to_bits())
        }
        Request::Unary(f, x) => {
            let x = f64::from_bits(x);
            let result = match f {
                Func::Sin => x.sin(),
                Func::Cos => x.cos(),
                Func::Sqrt => x.sqrt(),
                Func::Round => x.round(),
                Func::Fract => x.fract(),
                Func::Neg => -x,
            };
            Reply::Float(result.to_bits())
        }
        Request::FromInt(i) => Reply::Float((i as f64).to_bits()),
        Request::ToInt(x) => Reply::Int(f64::from_bits(x) as i64),
        Request::Show(x) => Reply::Text(format!("{:.8}", f64::from_bits(x))),
        Request::Plot(_, _) => Reply::Done,
        Request::Exit => Reply::Done,
    }
}

fn float(x: f64) -> Expression {
    Expression::Float(x.to_bits())
}

#[test]
fn tokenize_00() {
    let input: String = "x = 1.3\ny = 2.6".to_string();
    let mut tokenizer = Tokenizer::from(input).unwrap();
    let tokens = tokenizer.get_tokens();
    println!("Tokens: {:#?}", tokens);
    let classes: Vec<TokenClass> = tokens.iter().map(|t| t.get_class()).collect();
    assert_eq!(
        classes,
        vec![
            TokenClass::Identifier,
            TokenClass::Assignment,
            TokenClass::Float,
            TokenClass::Identifier,
            TokenClass::Assignment,
            TokenClass::Float,
        ]
    );
    let values: Vec<String> = tokens.iter().map(|t| t.get_value()).collect();
    assert_eq!(values, vec!["x", "=", "1.3", "y", "=", "2.6"]);
}

#[test]
fn interpret_00() {
    let code = "3.1415".to_string();
    let mut variables = Environment::new();
    let (value, silent) = interpret(&mut variables, code, &host);
    assert_eq!(value, Ok(Evaluation { value: float(3.1415), reported: None }));
    assert!(!silent);
}

#[test]
fn interpret_01() {
    let code = "x = 4".to_string();
    let mut variables = Environment::new();
    let (value, silent) = interpret(&mut variables, code, &host);
    assert_eq!(value, Ok(Evaluation { value: Expression::Int(4), reported: None }));
    assert!(!silent);
    assert_eq!(variables.get(&"x".to_string()), Some(Expression::Int(4)));
}

#[test]
fn assignment_then_use() {
    let mut variables = Environment::new();
    let _ = interpret(&mut variables, "x = 4".to_string(), &host);
    let (value, _) = interpret(&mut variables, "x + 1".to_string(), &host);
    assert_eq!(value, Ok(Evaluation { value: Expression::Int(5), reported: None }));
}

#[test]
fn matrix_literal() {
    let mut variables = Environment::new();
    let (value, _) = interpret(&mut variables, "[1 2; 3 4]".to_string(), &host);
    assert_eq!(
        value,
        Ok(Evaluation {
            value: Expression::Matrix {
                rows: 2,
                cols: 2,
                values: vec![
                    Expression::Int(1),
                    Expression::Int(2),
                    Expression::Int(3),
                    Expression::Int(4)
                ],
            },
            reported: None,
        })
    );
}

#[test]
fn determinant_of_literal() {
    let mut variables = Environment::new();
    let (value, _) = interpret(&mut variables, "det([1 2; 3 4])".to_string(), &host);
    assert_eq!(value, Ok(Evaluation { value: Expression::Int(-2), reported: None }));
}

#[test]
fn division_by_zero() {
    let mut variables = Environment::new();
    let (value, _) = interpret(&mut variables, "x = 1/0".to_string(), &host);
    assert_eq!(value, Err(Error::DividedByZero));
    assert_eq!(variables.get(&"x".to_string()), None);
    assert_eq!(variables.len(), 0);
    let (value, _) = interpret(&mut variables, "1/0".to_string(), &host);
    assert_eq!(value, Err(Error::DividedByZero));
}

#[test]
fn silent_assignment() {
    let mut variables = Environment::new();
    let (value, silent) = interpret(&mut variables, "x = 5;".to_string(), &host);
    assert_eq!(value, Ok(Evaluation { value: Expression::Int(5), reported: None }));
    assert!(silent);
    assert_eq!(variables.get(&"x".to_string()), Some(Expression::Int(5)));
}
