use elemental::host::{Arith, Func, Reply, Request};
use elemental::parser::{
    AssignmentParselet, BinOpParselet, FuncParselet, IdentifierParselet, InfixParselet, InfixRule,
    LiteralParselet, MatrixParselet, ParenParselet, PrefixParselet, PrefixRule, PrimeParselet,
};
use elemental::text::{check_decimal, chars_of, parse_int, same_text, text_of};
use elemental::{CharStream, Error, Expression, Parser, Token, TokenClass, Tokenizer};

fn host(request: Request) -> Reply {
    match request {
        Request::Literal(text) => Reply::Float(text.parse::<f64>().unwrap_or(f64::NAN).to_bits()),
        Request::Binary(op, x, y) => {
            let x = f64::from_bits(x);
            let y = f64::from_bits(y);
            let result = match op {
                Arith::Add => x + y,
                Arith::Sub => x - y,
                Arith::Mul => x * y,
                Arith::Div => x / y,
            };
            Reply::Float(result.to_bits())
        }
        Request::Unary(f, x) => {
            let x = f64::from_bits(x);
            let result = match f {
                Func::Sin => x.sin(),
                Func::Cos => x.cos(),
                Func::Sqrt => x.sqrt(),
                Func::Round => x.round(),
                Func::Fract => x.fract(),
                Func::Neg => -x,
            };
            Reply::Float(result.to_bits())
        }
        Request::FromInt(i) => Reply::Float((i as f64).to_bits()),
        Request::ToInt(x) => Reply::Int(f64::from_bits(x) as i64),
        Request::Show(x) => Reply::Text(format!("{:.8}", f64::from_bits(x))),
        Request::Plot(_, _) => Reply::Done,
        Request::Exit => Reply::Done,
    }
}

fn classes(code: &str) -> Vec<TokenClass> {
    let mut tokenizer = Tokenizer::from(code.to_string()).unwrap();
    tokenizer.get_tokens().iter().map(|t| t.get_class()).collect()
}

fn values(code: &str) -> Vec<String> {
    let mut tokenizer = Tokenizer::from(code.to_string()).unwrap();
    tokenizer.get_tokens().iter().map(|t| t.get_value()).collect()
}

fn lex_error(code: &str) -> Error {
    match Tokenizer::from(code.to_string()) {
        Ok(_) => panic!("{:?} lexes", code),
        Err(e) => e,
    }
}

fn parse(code: &str) -> Result<Expression, Error> {
    let mut tokenizer = Tokenizer::from(code.to_string()).unwrap();
    Parser::new().parse(&mut tokenizer, 0, &host)
}

fn id(name: &str) -> Expression {
    Expression::Identifier(name.to_string())
}

fn op(left: Expression, op: &str, right: Expression) -> Expression {
    Expression::BinOp { left: Box::new(left), op: op.to_string(), right: Box::new(right) }
}

#[test]
fn token_holds_class_and_value() {
    let token = Token::new(TokenClass::Plus, "+".to_string());
    assert_eq!(token.get_class(), TokenClass::Plus);
    assert_eq!(token.get_value(), "+");
    assert!(token.check(TokenClass::Plus));
    assert!(!token.check(TokenClass::Minus));
    let copy = token.clone();
    assert_eq!(copy.get_value(), "+");
}

#[test]
fn precedence_table() {
    assert_eq!(TokenClass::Assignment.precedence(), 1);
    assert_eq!(TokenClass::Plus.precedence(), 3);
    assert_eq!(TokenClass::Minus.precedence(), 3);
    assert_eq!(TokenClass::Multiply.precedence(), 4);
    assert_eq!(TokenClass::Divide.precedence(), 4);
    assert_eq!(TokenClass::Prime.precedence(), 5);
    assert_eq!(TokenClass::OpenParen.precedence(), 6);
    assert_eq!(TokenClass::OpenBracket.precedence(), 7);
    assert_eq!(TokenClass::Identifier.precedence(), 0);
    assert_eq!(TokenClass::Semicolon.precedence(), 0);
    assert_eq!(u8::from(TokenClass::Multiply), 4);
    assert_eq!(u8::from(TokenClass::Comma), 0);
}

#[test]
fn char_stream_reads_in_order() {
    let mut stream = CharStream::from("ab".to_string());
    assert_eq!(stream.peek(), Some('a'));
    assert_eq!(stream.lookahead(0), Some('a'));
    assert_eq!(stream.lookahead(1), Some('b'));
    assert_eq!(stream.lookahead(2), None);
    assert_eq!(stream.next(), Some('a'));
    assert_eq!(stream.next(), Some('b'));
    assert_eq!(stream.next(), None);
    assert_eq!(stream.peek(), None);
    assert_eq!(stream.lookahead(0), None);
}

#[test]
fn char_stream_get_takes_a_run() {
    let mut stream = CharStream::from("abc123 x".to_string());
    assert_eq!(stream.get("abc"), "abc");
    assert_eq!(stream.get("abc"), "");
    assert_eq!(stream.get("0123456789"), "123");
    assert_eq!(stream.peek(), Some(' '));
}

#[test]
fn char_stream_skips_comment_lines() {
    let mut stream = CharStream::from("// one\n// two\nx // three".to_string());
    stream.skip_comments();
    assert_eq!(stream.peek(), Some('x'));
    stream.skip_comments();
    assert_eq!(stream.next(), Some('x'));
    let mut open = CharStream::from("// no line end".to_string());
    open.skip_comments();
    assert_eq!(open.peek(), None);
    let mut slash = CharStream::from("/ 2".to_string());
    slash.skip_comments();
    assert_eq!(slash.peek(), Some('/'));
}

#[test]
fn lexes_each_single_character() {
    assert_eq!(
        classes("+ - * / ; ( ) [ ] ' ,"),
        vec![
            TokenClass::Plus,
            TokenClass::Minus,
            TokenClass::Multiply,
            TokenClass::Divide,
            TokenClass::Semicolon,
            TokenClass::OpenParen,
            TokenClass::CloseParen,
            TokenClass::OpenBracket,
            TokenClass::CloseBracket,
            TokenClass::Prime,
            TokenClass::Comma,
        ]
    );
}

#[test]
fn lexes_identifiers_and_numbers() {
    assert_eq!(
        classes("_a1 12 1.5 5. 99999999999999999999"),
        vec![
            TokenClass::Identifier,
            TokenClass::Int,
            TokenClass::Float,
            TokenClass::Float,
            TokenClass::Float,
        ]
    );
    assert_eq!(values("_a1 12 1.5"), vec!["_a1", "12", "1.5"]);
    assert_eq!(classes("9223372036854775807"), vec![TokenClass::Int]);
    assert_eq!(classes("9223372036854775808"), vec![TokenClass::Float]);
    assert_eq!(classes("-9223372036854775808"), vec![TokenClass::Int]);
    assert_eq!(classes("-9223372036854775809"), vec![TokenClass::Float]);
}

#[test]
fn minus_before_a_digit_starts_a_literal() {
    assert_eq!(classes("-5"), vec![TokenClass::Int]);
    assert_eq!(values("-5"), vec!["-5"]);
    assert_eq!(classes("-2.5"), vec![TokenClass::Float]);
    assert_eq!(
        classes("x - 1"),
        vec![TokenClass::Identifier, TokenClass::Minus, TokenClass::Int]
    );
    assert_eq!(classes("x -1"), vec![TokenClass::Identifier, TokenClass::Int]);
    assert_eq!(
        classes("x - y"),
        vec![TokenClass::Identifier, TokenClass::Minus, TokenClass::Identifier]
    );
}

#[test]
fn assignment_and_equality() {
    assert_eq!(
        classes("x = 1"),
        vec![TokenClass::Identifier, TokenClass::Assignment, TokenClass::Int]
    );
    assert_eq!(
        classes("x == 1"),
        vec![TokenClass::Identifier, TokenClass::Eq, TokenClass::Int]
    );
    assert_eq!(values("x == 1"), vec!["x", "==", "1"]);
}

#[test]
fn comments_and_whitespace_give_no_token() {
    assert_eq!(classes(""), vec![]);
    assert_eq!(classes(" \t\n"), vec![]);
    assert_eq!(classes("// nothing"), vec![]);
    assert_eq!(classes("x // the rest\ny"), vec![TokenClass::Identifier, TokenClass::Identifier]);
    assert_eq!(
        classes("x / y"),
        vec![TokenClass::Identifier, TokenClass::Divide, TokenClass::Identifier]
    );
}

#[test]
fn lexing_errors() {
    assert_eq!(lex_error("1.2.3"), Error::CouldNotParseNumeric);
    assert_eq!(lex_error("1..2"), Error::CouldNotParseNumeric);
    assert_eq!(lex_error("x $ y"), Error::UnexpectedEof);
    assert_eq!(lex_error("x ="), Error::UnexpectedEof);
    assert_eq!(lex_error("x -"), Error::UnexpectedEof);
    assert_eq!(lex_error(".5"), Error::UnexpectedEof);
}

#[test]
fn tokenizer_walks_its_tokens() {
    let mut tokenizer = Tokenizer::from("a * 2".to_string()).unwrap();
    assert_eq!(tokenizer.get_next_precedence(), 0);
    assert_eq!(tokenizer.peek().unwrap().get_value(), "a");
    assert_eq!(tokenizer.next().unwrap().get_value(), "a");
    assert_eq!(tokenizer.get_next_precedence(), 4);
    assert_eq!(tokenizer.next().unwrap().get_class(), TokenClass::Multiply);
    assert_eq!(tokenizer.next().unwrap().get_class(), TokenClass::Int);
    assert!(tokenizer.next().is_none());
    assert!(tokenizer.peek().is_none());
    assert_eq!(tokenizer.get_next_precedence(), 0);
    assert_eq!(tokenizer.get_tokens().len(), 3);
}

#[test]
fn silent_only_behind_a_semicolon() {
    assert!(Tokenizer::from("x = 5;".to_string()).unwrap().chk_silent());
    assert!(Tokenizer::from("x = 5;\n".to_string()).unwrap().chk_silent());
    assert!(!Tokenizer::from("x = 5".to_string()).unwrap().chk_silent());
    assert!(!Tokenizer::from("".to_string()).unwrap().chk_silent());
    assert!(!Tokenizer::from("1; 2".to_string()).unwrap().chk_silent());
}

#[test]
fn text_helpers() {
    assert_eq!(chars_of("a-1"), vec!['a', '-', '1']);
    assert_eq!(text_of(&vec!['h', 'i']), "hi");
    assert_eq!(text_of(&vec![]), "");
    assert!(same_text("det", "det"));
    assert!(!same_text("det", "dot"));
    assert!(!same_text("det", "de"));
    assert_eq!(parse_int(&chars_of("0")), Some(0));
    assert_eq!(parse_int(&chars_of("007")), Some(7));
    assert_eq!(parse_int(&chars_of("-42")), Some(-42));
    assert_eq!(parse_int(&chars_of("9223372036854775807")), Some(i64::MAX));
    assert_eq!(parse_int(&chars_of("-9223372036854775808")), Some(i64::MIN));
    assert_eq!(parse_int(&chars_of("9223372036854775808")), None);
    assert_eq!(parse_int(&chars_of("")), None);
    assert_eq!(parse_int(&chars_of("-")), None);
    assert_eq!(parse_int(&chars_of("1.0")), None);
    assert!(check_decimal(&chars_of("1.0")));
    assert!(check_decimal(&chars_of("5.")));
    assert!(check_decimal(&chars_of("-.5")));
    assert!(check_decimal(&chars_of("12")));
    assert!(!check_decimal(&chars_of(".")));
    assert!(!check_decimal(&chars_of("-")));
    assert!(!check_decimal(&chars_of("")));
    assert!(!check_decimal(&chars_of("1.2.3")));
    assert!(!check_decimal(&chars_of("1e5")));
}

#[test]
fn rules_by_token_class() {
    let parser = Parser::new();
    assert_eq!(parser.prefix_rule(TokenClass::Identifier), Some(PrefixRule::Identifier));
    assert_eq!(parser.prefix_rule(TokenClass::Int), Some(PrefixRule::Literal));
    assert_eq!(parser.prefix_rule(TokenClass::Float), Some(PrefixRule::Literal));
    assert_eq!(parser.prefix_rule(TokenClass::OpenParen), Some(PrefixRule::Paren));
    assert_eq!(parser.prefix_rule(TokenClass::OpenBracket), Some(PrefixRule::Matrix));
    assert_eq!(parser.prefix_rule(TokenClass::Plus), None);
    assert_eq!(parser.infix_rule(TokenClass::Assignment), Some(InfixRule::Assignment));
    assert_eq!(parser.infix_rule(TokenClass::Plus), Some(InfixRule::BinOp));
    assert_eq!(parser.infix_rule(TokenClass::Divide), Some(InfixRule::BinOp));
    assert_eq!(parser.infix_rule(TokenClass::OpenParen), Some(InfixRule::Func));
    assert_eq!(parser.infix_rule(TokenClass::Prime), Some(InfixRule::Prime));
    assert_eq!(parser.infix_rule(TokenClass::OpenBracket), None);
    assert_eq!(parser.infix_rule(TokenClass::Int), None);
    assert_eq!(parser.infix_rule(TokenClass::Minus), Some(InfixRule::BinOp));
    assert_eq!(parser.infix_rule(TokenClass::Multiply), Some(InfixRule::BinOp));
    for class in [
        TokenClass::Assignment,
        TokenClass::Minus,
        TokenClass::Multiply,
        TokenClass::Divide,
        TokenClass::Eq,
        TokenClass::Semicolon,
        TokenClass::Newline,
        TokenClass::CloseParen,
        TokenClass::CloseBracket,
        TokenClass::Prime,
        TokenClass::Comma,
    ] {
        assert_eq!(parser.prefix_rule(class), None);
    }
    for class in [
        TokenClass::Identifier,
        TokenClass::Float,
        TokenClass::Eq,
        TokenClass::Semicolon,
        TokenClass::Newline,
        TokenClass::CloseParen,
        TokenClass::CloseBracket,
        TokenClass::Comma,
    ] {
        assert_eq!(parser.infix_rule(class), None);
    }
}

#[test]
fn parses_leaves() {
    assert_eq!(parse("x"), Ok(id("x")));
    assert_eq!(parse("42"), Ok(Expression::Int(42)));
    assert_eq!(parse("-42"), Ok(Expression::Int(-42)));
    assert_eq!(parse("3.1415"), Ok(Expression::Float(3.1415f64.to_bits())));
    assert_eq!(parse("2.0"), Ok(Expression::Float(2.0f64.to_bits())));
    assert_eq!(parse(""), Ok(Expression::Nil));
}

#[test]
fn multiplication_binds_tighter_than_addition() {
    assert_eq!(
        parse("1 + 2 * 3"),
        Ok(op(Expression::Int(1), "+", op(Expression::Int(2), "*", Expression::Int(3))))
    );
    assert_eq!(
        parse("1 * 2 + 3"),
        Ok(op(op(Expression::Int(1), "*", Expression::Int(2)), "+", Expression::Int(3)))
    );
    assert_eq!(
        parse("1 - 2 - 3"),
        Ok(op(op(Expression::Int(1), "-", Expression::Int(2)), "-", Expression::Int(3)))
    );
    assert_eq!(
        parse("(1 + 2) * 3"),
        Ok(op(op(Expression::Int(1), "+", Expression::Int(2)), "*", Expression::Int(3)))
    );
    assert_eq!(parse("a / b"), Ok(op(id("a"), "/", id("b"))));
}

#[test]
fn parses_assignment() {
    assert_eq!(
        parse("x = 1 + 2"),
        Ok(Expression::Assignment {
            identifier: "x".to_string(),
            value: Box::new(op(Expression::Int(1), "+", Expression::Int(2))),
        })
    );
    assert_eq!(
        parse("x = 5;"),
        Ok(Expression::Assignment {
            identifier: "x".to_string(),
            value: Box::new(Expression::Int(5)),
        })
    );
}

#[test]
fn parses_calls() {
    assert_eq!(
        parse("f(1, 2)"),
        Ok(Expression::Call {
            name: "f".to_string(),
            args: vec![Expression::Int(1), Expression::Int(2)],
        })
    );
    assert_eq!(
        parse("f(1 2)"),
        Ok(Expression::Call {
            name: "f".to_string(),
            args: vec![Expression::Int(1), Expression::Int(2)],
        })
    );
    assert_eq!(parse("f()"), Ok(Expression::Call { name: "f".to_string(), args: vec![] }));
    assert_eq!(
        parse("f(x + 1, (y) * 2)"),
        Ok(Expression::Call {
            name: "f".to_string(),
            args: vec![op(id("x"), "+", Expression::Int(1)), op(id("y"), "*", Expression::Int(2))],
        })
    );
    assert_eq!(
        parse("a'"),
        Ok(Expression::Call { name: "t".to_string(), args: vec![id("a")] })
    );
    assert_eq!(
        parse("a' * b"),
        Ok(op(Expression::Call { name: "t".to_string(), args: vec![id("a")] }, "*", id("b")))
    );
}

#[test]
fn parses_matrix_literals() {
    assert_eq!(
        parse("[1 2 3]"),
        Ok(Expression::Matrix {
            rows: 1,
            cols: 3,
            values: vec![Expression::Int(1), Expression::Int(2), Expression::Int(3)],
        })
    );
    assert_eq!(
        parse("[1 -2; 3 4]"),
        Ok(Expression::Matrix {
            rows: 2,
            cols: 2,
            values: vec![
                Expression::Int(1),
                Expression::Int(-2),
                Expression::Int(3),
                Expression::Int(4)
            ],
        })
    );
    assert_eq!(
        parse("[1; 2; 3]"),
        Ok(Expression::Matrix {
            rows: 3,
            cols: 1,
            values: vec![Expression::Int(1), Expression::Int(2), Expression::Int(3)],
        })
    );
    assert_eq!(
        parse("[x + 1]"),
        Ok(Expression::Matrix {
            rows: 1,
            cols: 1,
            values: vec![op(id("x"), "+", Expression::Int(1))],
        })
    );
}

#[test]
fn parse_errors() {
    assert_eq!(parse("[1 2; 3]"), Err(Error::ImproperDimensions));
    assert_eq!(parse("[1; 2 3]"), Err(Error::ImproperDimensions));
    assert_eq!(parse("[1 2"), Err(Error::UnexpectedEof));
    assert_eq!(parse("[1 2;"), Err(Error::UnexpectedEof));
    assert_eq!(parse("[;]"), Err(Error::UnexpectedEof));
    assert_eq!(parse("[1 2;;]"), Err(Error::UnexpectedEof));
    assert_eq!(parse("[1 2; 3;]"), Err(Error::ImproperDimensions));
    assert_eq!(parse("[]"), Err(Error::UnexpectedEof));
    assert_eq!(parse("(1"), Err(Error::UnexpectedEof));
    assert_eq!(parse("("), Err(Error::UnexpectedEof));
    assert_eq!(parse("(1 2"), Err(Error::ExpectedCloseParen));
    assert_eq!(parse("1 = 2"), Err(Error::ExpectedIdentifier));
    assert_eq!(parse("1(2)"), Err(Error::ExpectedIdentifier));
    assert_eq!(parse("+"), Err(Error::UnexpectedEof));
    assert_eq!(parse("1 +"), Err(Error::UnexpectedEof));
    assert_eq!(parse("f(1"), Err(Error::UnexpectedEof));
    assert_eq!(parse("f("), Err(Error::UnexpectedEof));
    assert_eq!(parse("f(1,)"), Err(Error::UnexpectedEof));
}

#[test]
fn parselets_one_by_one() {
    let parser = Parser::new();
    assert_eq!(
        IdentifierParselet.parse(Token::new(TokenClass::Identifier, "abc".to_string())),
        id("abc")
    );
    assert_eq!(
        LiteralParselet.parse(Token::new(TokenClass::Int, "12".to_string()), &host),
        Ok(Expression::Int(12))
    );
    assert_eq!(
        LiteralParselet.parse(Token::new(TokenClass::Float, "0.5".to_string()), &host),
        Ok(Expression::Float(0.5f64.to_bits()))
    );
    assert_eq!(
        LiteralParselet.parse(Token::new(TokenClass::Int, "1.5".to_string()), &host),
        Err(Error::CouldNotParseNumeric)
    );
    assert_eq!(
        LiteralParselet.parse(Token::new(TokenClass::Float, "x".to_string()), &host),
        Err(Error::CouldNotParseNumeric)
    );
    assert_eq!(
        PrimeParselet.parse(Expression::Int(1)),
        Expression::Call { name: "t".to_string(), args: vec![Expression::Int(1)] }
    );

    let mut group = Tokenizer::from("(1 + 2) 3".to_string()).unwrap();
    let _ = group.next();
    assert_eq!(
        ParenParselet.parse(&parser, &mut group, &host),
        Ok(op(Expression::Int(1), "+", Expression::Int(2)))
    );
    assert_eq!(group.next().unwrap().get_value(), "3");

    let mut literal = Tokenizer::from("[1 2] 3".to_string()).unwrap();
    let _ = literal.next();
    assert_eq!(
        MatrixParselet.parse(&parser, &mut literal, &host),
        Ok(Expression::Matrix {
            rows: 1,
            cols: 2,
            values: vec![Expression::Int(1), Expression::Int(2)],
        })
    );
    assert_eq!(literal.next().unwrap().get_value(), "3");

    let mut assignment = Tokenizer::from("x = 7".to_string()).unwrap();
    let _ = assignment.next();
    let _ = assignment.next();
    assert_eq!(
        AssignmentParselet.parse(&parser, &mut assignment, id("x"), &host),
        Ok(Expression::Assignment { identifier: "x".to_string(), value: Box::new(Expression::Int(7)) })
    );

    let mut operation = Tokenizer::from("x * 7 + 1".to_string()).unwrap();
    let _ = operation.next();
    let star = operation.next().unwrap();
    assert_eq!(
        BinOpParselet.parse(&parser, &mut operation, star, id("x"), &host),
        Ok(op(id("x"), "*", Expression::Int(7)))
    );
    assert_eq!(operation.next().unwrap().get_class(), TokenClass::Plus);

    let mut call = Tokenizer::from("f(1, 2) 3".to_string()).unwrap();
    let _ = call.next();
    let _ = call.next();
    assert_eq!(
        FuncParselet.parse(&parser, &mut call, id("f"), &host),
        Ok(Expression::Call {
            name: "f".to_string(),
            args: vec![Expression::Int(1), Expression::Int(2)],
        })
    );
    assert_eq!(call.next().unwrap().get_value(), "3");
}

fn start<P: PrefixParselet>(rule: &P, code: &str) -> Result<Expression, Error> {
    let parser = Parser::new();
    let mut tokenizer = Tokenizer::from(code.to_string()).unwrap();
    let token = tokenizer.next().unwrap();
    PrefixParselet::parse(rule, &parser, &mut tokenizer, token, &host)
}

fn go_on<P: InfixParselet>(rule: &P, left: Expression, code: &str) -> Result<Expression, Error> {
    let parser = Parser::new();
    let mut tokenizer = Tokenizer::from(code.to_string()).unwrap();
    let token = tokenizer.next().unwrap();
    InfixParselet::parse(rule, &parser, &mut tokenizer, token, left, &host)
}

#[test]
fn parselets_behind_their_traits() {
    assert_eq!(start(&IdentifierParselet, "abc + 1"), Ok(id("abc")));
    assert_eq!(start(&LiteralParselet, "12 + 1"), Ok(Expression::Int(12)));
    assert_eq!(start(&ParenParselet, "(2 * x) + 1"), Ok(op(Expression::Int(2), "*", id("x"))));
    assert_eq!(
        start(&MatrixParselet, "[1; 2] + 1"),
        Ok(Expression::Matrix { rows: 2, cols: 1, values: vec![Expression::Int(1), Expression::Int(2)] })
    );
    assert_eq!(start(&MatrixParselet, "[1 2; 3]"), Err(Error::ImproperDimensions));
    assert_eq!(
        go_on(&AssignmentParselet, id("x"), "= 2 + 3"),
        Ok(Expression::Assignment {
            identifier: "x".to_string(),
            value: Box::new(op(Expression::Int(2), "+", Expression::Int(3))),
        })
    );
    assert_eq!(go_on(&AssignmentParselet, Expression::Int(1), "= 2"), Err(Error::ExpectedIdentifier));
    assert_eq!(
        go_on(&BinOpParselet, id("x"), "+ 2 * 3"),
        Ok(op(id("x"), "+", op(Expression::Int(2), "*", Expression::Int(3))))
    );
    assert_eq!(go_on(&BinOpParselet, id("x"), "+"), Err(Error::UnexpectedEof));
    assert_eq!(
        go_on(&FuncParselet, id("f"), "(1)"),
        Ok(Expression::Call { name: "f".to_string(), args: vec![Expression::Int(1)] })
    );
    assert_eq!(go_on(&FuncParselet, Expression::Nil, "(1)"), Err(Error::ExpectedIdentifier));
    assert_eq!(
        go_on(&PrimeParselet, id("m"), "'"),
        Ok(Expression::Call { name: "t".to_string(), args: vec![id("m")] })
    );
}

#[test]
fn a_semicolon_before_the_closing_bracket_adds_no_row() {
    assert_eq!(
        parse("[1 2;]"),
        Ok(Expression::Matrix {
            rows: 1,
            cols: 2,
            values: vec![Expression::Int(1), Expression::Int(2)],
        })
    );
    assert_eq!(
        parse("[1 2; 3 4;]"),
        Ok(Expression::Matrix {
            rows: 2,
            cols: 2,
            values: vec![
                Expression::Int(1),
                Expression::Int(2),
                Expression::Int(3),
                Expression::Int(4)
            ],
        })
    );
    assert_eq!(
        parse("[7;] + 1"),
        Ok(op(
            Expression::Matrix { rows: 1, cols: 1, values: vec![Expression::Int(7)] },
            "+",
            Expression::Int(1)
        ))
    );
}
