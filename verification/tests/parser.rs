use sierra::ast::{self, Expression, FuncParam, Statement};
use sierra::lexer::{LexError, Lexer};
use sierra::parser::{BindingPower, ParseError, Parser};
use sierra::token::Token;

fn parse_body(input: &[u8]) -> Vec<Statement> {
    let parser = Parser::new(Lexer::new(input.to_vec())).unwrap();
    parser.parse_file().unwrap().body
}

fn parse_error(input: &[u8]) -> ParseError {
    match Parser::new(Lexer::new(input.to_vec())) {
        Err(e) => e,
        Ok(parser) => match parser.parse_file() {
            Err(e) => e,
            Ok(file) => panic!("expected a parse error, got {file:?}"),
        },
    }
}

#[test]
fn test_expect_peek() -> Result<(), ParseError> {
    let input = b"let a: int32 = 10;";
    let lexer = Lexer::new(input.to_vec());
    let mut parser = Parser::new(lexer)?;

    parser.expect_peek(&Token::Let)?;
    parser.expect_peek(&Token::Ident("a".to_string()))?;
    parser.expect_peek(&Token::Colon)?;
    parser.expect_peek(&Token::Ident("int32".to_string()))?;
    parser.expect_peek(&Token::Assign)?;
    parser.expect_peek(&Token::Int("10".to_string()))?;
    parser.expect_peek(&Token::Semicolon)?;
    parser.expect_peek(&Token::Eof)?;

    Ok(())
}

#[test]
fn test_parse_program() -> Result<(), ParseError> {
    let input = br#"
            fn main() -> i32 {
                printf("salutare")
                let a: i32 = 1 + 1
                let b: bool = !false
            }
        "#;

    let lexer = Lexer::new(input.to_vec());
    let parser = Parser::new(lexer)?;
    let program = parser.parse_file()?;

    println!("{:#?}", program);

    Ok(())
}

#[test]
fn expect_peek_reports_the_token_found() {
    let mut parser = Parser::new(Lexer::new(b"let".to_vec())).unwrap();
    let err = parser.expect_peek(&Token::Fn).unwrap_err();
    assert_eq!(err.message(), "expected fn but got let");
    parser.expect_peek(&Token::Let).unwrap();
    parser.expect_peek(&Token::Eof).unwrap();
}

fn ident(name: &str, id: u64) -> Expression {
    Expression::Ident { value: name.to_string(), id }
}

fn num(value: &str) -> Expression {
    Expression::Int { value: value.to_string() }
}

fn binary(op: Token, left: Expression, right: Expression) -> Expression {
    Expression::Binary { op, left: Box::new(left), right: Box::new(right) }
}

#[test]
fn products_bind_tighter_than_sums() {
    let body = parse_body(b"fn main() { 1 + 2 * 3 - 4; }");
    let expected = Statement::Func {
        name: "main".to_string(),
        return_type: ast::Type::Void,
        params: vec![],
        body: Some(vec![Statement::Expr {
            value: binary(Token::Minus, binary(Token::Plus, num("1"), binary(Token::Asterisk, num("2"), num("3"))), num("4")),
        }]),
    };
    assert_eq!(body, vec![expected]);
}

#[test]
fn assignment_binds_loosest_and_comparison_above_it() {
    let body = parse_body(b"fn main(x: i32) { x = 1 < 2; }");
    if let Statement::Func { body: Some(stmts), params, .. } = &body[0] {
        assert_eq!(params, &vec![FuncParam { name: "x".to_string(), ty: ast::Type::Named("i32".to_string()) }]);
        assert_eq!(
            stmts[0],
            Statement::Expr { value: binary(Token::Assign, ident("x", 0), binary(Token::Lt, num("1"), num("2"))) }
        );
    } else {
        panic!("expected a function");
    }
}

#[test]
fn calls_prefixes_and_identifiers_in_order() {
    let body = parse_body(b"fn main() { f(a, -b, !c(1)); g(); }");
    if let Statement::Func { body: Some(stmts), .. } = &body[0] {
        let call = Expression::Call {
            func: Box::new(ident("f", 0)),
            args: vec![
                ident("a", 1),
                Expression::Unary { op: Token::Minus, right: Box::new(ident("b", 2)) },
                Expression::Unary {
                    op: Token::Bang,
                    right: Box::new(Expression::Call { func: Box::new(ident("c", 3)), args: vec![num("1")] }),
                },
            ],
        };
        assert_eq!(stmts[0], Statement::Expr { value: call });
        assert_eq!(stmts[1], Statement::Expr { value: Expression::Call { func: Box::new(ident("g", 4)), args: vec![] } });
    } else {
        panic!("expected a function");
    }
}

#[test]
fn statements_of_every_kind() {
    let body = parse_body(b"fn f(a: u8, b: i64) -> u8; fn main() { let x: i32 = 1; let y: u8; if x { return x; } else { y; } }");
    assert_eq!(body.len(), 2);
    match &body[0] {
        Statement::Func { name, params, return_type, body } => {
            assert_eq!(name, "f");
            assert_eq!(params.len(), 2);
            assert_eq!(return_type, &ast::Type::Named("u8".to_string()));
            assert!(body.is_none());
        },
        other => panic!("unexpected {other:?}"),
    }
    match &body[1] {
        Statement::Func { body: Some(stmts), .. } => {
            assert_eq!(stmts[0], Statement::Let { name: "x".to_string(), ty: Some(ast::Type::Named("i32".to_string())), value: Some(num("1")) });
            assert_eq!(
                stmts[1],
                Statement::Let { name: "y".to_string(), ty: Some(ast::Type::Named("u8".to_string())), value: None }
            );
            assert_eq!(
                stmts[2],
                Statement::If {
                    cond: ident("x", 0),
                    then: vec![Statement::Return { value: ident("x", 1) }],
                    else_then: vec![Statement::Expr { value: ident("y", 2) }],
                }
            );
        },
        other => panic!("unexpected {other:?}"),
    }
}

#[test]
fn parse_errors() {
    assert_eq!(parse_error(b"fn 1() {}").message(), "expected identifier but got 1");
    assert_eq!(parse_error(b"fn main() { ); }").message(), "invalid prefix operator )");
    assert_eq!(parse_error(b"fn main( {").message(), "expected identifier but got {");
    assert_eq!(parse_error(b"fn main() { let x: i32 = @; }").message(), "unexpected character @");
    assert_eq!(parse_error(b"fn main() { let x = 1; }").message(), "expected : but got =");
    assert_eq!(parse_error(b"fn main() { let x; }").message(), "expected : but got ;");
    assert!(matches!(parse_error(b"fn main() { \"abc"), ParseError::Lex(LexError::UnterminatedString)));
}

#[test]
fn binding_powers() {
    assert_eq!(BindingPower::get(&Token::Plus), BindingPower::Sum);
    assert_eq!(BindingPower::get(&Token::Slash), BindingPower::Product);
    assert_eq!(BindingPower::get(&Token::Gte), BindingPower::Equals);
    assert_eq!(BindingPower::get(&Token::LParen), BindingPower::Call);
    assert_eq!(BindingPower::get(&Token::Assign), BindingPower::Assign);
    assert_eq!(BindingPower::get(&Token::Comma), BindingPower::Lowest);
    assert!(BindingPower::Call.rank() > BindingPower::Unary.rank());
    assert!(BindingPower::Product.rank() > BindingPower::Sum.rank());
}
