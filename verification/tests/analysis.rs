use sierra::analysis::{Analysis, AnalysisError, Primitive, Type};
use sierra::ast::{self, Expression, File, FuncParam, Statement};
use sierra::token::Token;
use sierra::lexer::Lexer;
use sierra::parser::Parser;

fn parse(input: &[u8]) -> File {
    let lexer = Lexer::new(input.to_vec());
    let parser = Parser::new(lexer).unwrap();
    parser.parse_file().unwrap()
}

fn check(file: &File) -> Result<Analysis, AnalysisError> {
    assert!(Analysis::supports(file));
    Analysis::new(file)
}

fn analyze(input: &[u8]) -> Result<(), String> {
    let lexer = Lexer::new(input.to_vec());
    let parser = Parser::new(lexer).map_err(|e| e.message())?;
    let file = parser.parse_file().map_err(|e| e.message())?;
    if !Analysis::supports(&file) {
        panic!("not yet implemented: we don't support strings atm");
    }
    Analysis::new(&file).map_err(|e| e.message())?;
    Ok(())
}

fn error_of(input: &[u8]) -> AnalysisError {
    match check(&parse(input)) {
        Ok(_) => panic!("expected an analysis error"),
        Err(e) => e,
    }
}

#[test]
fn valid_function() {
    analyze(b"fn main() -> i32 { let x: i32 = 1; return x; }").unwrap();
}

#[test]
fn undefined_variable() {
    let result = analyze(b"fn main() -> i32 { let x: i32 = y; return x; }");
    assert!(result.is_err());
    let err = result.unwrap_err();
    assert!(err.contains("does not exist"), "{err}");
}

#[test]
fn duplicate_function() {
    let result = analyze(b"fn foo() -> i32 { return 1; } fn foo() -> i32 { return 2; }");
    assert!(result.is_err());
    let err = result.unwrap_err();
    assert!(err.contains("foo already exists"), "{err}");
}

#[test]
fn argument_count_mismatch() {
    let result = analyze(b"fn foo(x: i32) -> i32 { return x; } fn main() -> i32 { return foo(1, 2); }");
    assert!(result.is_err());
    let err = result.unwrap_err();
    assert!(err.contains("expected"), "{err}");
}

#[test]
fn call_non_function() {
    let result = analyze(b"fn main() -> i32 { let x: i32 = 1; return x(1); }");
    assert!(result.is_err());
    let err = result.unwrap_err();
    assert!(err.contains("not a function"), "{err}");
}

#[test]
fn unknown_type() {
    let result = analyze(b"fn main() -> nope { return 1; }");
    assert!(result.is_err());
    let err = result.unwrap_err();
    assert!(err.contains("is not a type"), "{err}");
}

#[test]
fn unknown_type_in_let() {
    let result = analyze(b"fn main() { let x: nope = 1; }");
    assert!(result.is_err());
    let err = result.unwrap_err();
    assert!(err.contains("is not a type"), "{err}");
}

#[test]
fn decl_then_def_is_ok() {
    analyze(b"fn foo() -> i32; fn foo() -> i32 { return 1; }").unwrap();
}

#[test]
fn shadowing_in_inner_block_is_allowed() {
    analyze(b"fn main() -> i32 { let x: i32 = 1; if 1 { let x: i32 = 2; } return x; }").unwrap();
}

#[test]
fn same_scope_redefinition_errors() {
    let result = analyze(b"fn main() { let x: i32 = 1; let x: i32 = 2; }");
    assert!(result.is_err());
    let err = result.unwrap_err();
    assert!(err.contains("already exists"), "{err}");
}

#[test]
fn local_shadows_function() {
    analyze(b"fn foo() -> i32 { return 1; } fn main() -> i32 { let foo: i32 = 1; return foo; }").unwrap();
}

#[test]
fn param_can_be_named_like_a_function() {
    analyze(b"fn foo() -> i32 { return 1; } fn main(foo: i32) -> i32 { return foo; }").unwrap();
}

#[test]
fn param_cannot_be_shadowed_at_body_top() {
    let result = analyze(b"fn main(x: i32) { let x: i32 = 1; }");
    assert!(result.is_err());
    let err = result.unwrap_err();
    assert!(err.contains("already exists"), "{err}");
}

#[test]
fn param_can_be_shadowed_in_if_block() {
    analyze(b"fn main(x: i32) -> i32 { if 1 { let x: i32 = 2; } return x; }").unwrap();
}

#[test]
fn duplicate_params_error() {
    let result = analyze(b"fn foo(x: i32, x: i32) {}");
    assert!(result.is_err());
    let err = result.unwrap_err();
    assert!(err.contains("already exists"), "{err}");
}

fn ident(name: &str, id: u64) -> Expression {
    Expression::Ident { value: name.to_string(), id }
}

fn num(value: &str) -> Expression {
    Expression::Int { value: value.to_string() }
}

fn param(name: &str, ty: ast::Type) -> FuncParam {
    FuncParam { name: name.to_string(), ty }
}

fn named(name: &str) -> ast::Type {
    ast::Type::Named(name.to_string())
}

fn ptr(inner: ast::Type) -> ast::Type {
    ast::Type::Ptr(Box::new(inner))
}

fn array(inner: ast::Type, size: u64) -> ast::Type {
    ast::Type::Array(Box::new(inner), size)
}

fn function(name: &str, params: Vec<FuncParam>, return_type: ast::Type, body: Vec<Statement>) -> Statement {
    Statement::Func { name: name.to_string(), return_type, params, body: Some(body) }
}

#[test]
fn exact_messages_of_each_error() {
    let cases: Vec<(&[u8], &str)> = vec![
        (b"fn main() -> nope { return 1; }", "nope is not a type"),
        (b"fn main() { let x: i32 = y; }", "y does not exist"),
        (b"fn foo() {} fn foo() -> i32;", "foo already exists"),
        (b"fn f() {} fn main() { -f; }", "type fn() -> <void> is incompatible with unary operator -"),
        (b"fn main() { 1 = 2; }", "left side of = operator must be an lvalue"),
        (b"fn f() {} fn main() { f + 1; }", "types fn() -> <void> and i32 are incompatible with binary operator +"),
        (b"fn f() {} fn main() -> i32 { return f; }", "expected type i32 but got fn() -> <void>"),
        (b"fn main() { let x: i32 = 1; x(); }", "left of call expr is not a function"),
        (b"fn f(a: i32) {} fn main() { f(); }", "expected 1 args but got 0"),
        (b"fn main() { fn g() {} }", "funcs are only allowed at top level"),
        (b"fn f() {} fn main() { if f { } }", "if statement condition must be a primitive but instead got fn() -> <void>"),
    ];
    for (input, message) in cases {
        let err = error_of(input);
        assert_eq!(err.message(), message);
    }
}

#[test]
fn address_of_needs_a_place() {
    let file = File {
        body: vec![function(
            "main",
            vec![],
            ast::Type::Void,
            vec![Statement::Expr { value: Expression::Unary { op: Token::Ampersand, right: Box::new(num("1")) } }],
        )],
    };
    assert_eq!(check(&file).unwrap_err().message(), "right side of & unary operator must be an lvalue");
}

#[test]
fn dereference_needs_a_pointer() {
    let file = File {
        body: vec![function(
            "main",
            vec![],
            ast::Type::Void,
            vec![Statement::Expr { value: Expression::Unary { op: Token::Asterisk, right: Box::new(num("1")) } }],
        )],
    };
    assert_eq!(check(&file).unwrap_err().message(), "type i32 is incompatible with unary operator *");
}

#[test]
fn pointers_take_and_give_back_their_target() {
    // fn main(p: *u8) -> u8 { let q: **u8 = &p; return *p; }
    let file = File {
        body: vec![function(
            "main",
            vec![param("p", ptr(named("u8")))],
            named("u8"),
            vec![
                Statement::Let {
                    name: "q".to_string(),
                    ty: Some(ptr(ptr(named("u8")))),
                    value: Some(Expression::Unary { op: Token::Ampersand, right: Box::new(ident("p", 1)) }),
                },
                Statement::Return { value: Expression::Unary { op: Token::Asterisk, right: Box::new(ident("p", 2)) } },
            ],
        )],
    };
    assert!(check(&file).is_ok());
    // A pointer to a pointer is not a pointer to `u8`.
    let file = File {
        body: vec![function(
            "main",
            vec![param("p", ptr(named("u8")))],
            ast::Type::Void,
            vec![Statement::Let {
                name: "q".to_string(),
                ty: Some(ptr(named("u8"))),
                value: Some(Expression::Unary { op: Token::Ampersand, right: Box::new(ident("p", 1)) }),
            }],
        )],
    };
    assert_eq!(check(&file).unwrap_err().message(), "expected type *u8 but got **u8");
}

#[test]
fn argument_errors_are_joined_in_the_call() {
    let file = File {
        body: vec![
            function("f", vec![param("a", ptr(named("u8"))), param("b", ptr(named("u8")))], ast::Type::Void, vec![]),
            function(
                "main",
                vec![],
                ast::Type::Void,
                vec![Statement::Expr {
                    value: Expression::Call { func: Box::new(ident("f", 1)), args: vec![num("1"), num("2")] },
                }],
            ),
        ],
    };
    assert_eq!(
        check(&file).unwrap_err().message(),
        "expected type *u8 but got i32\nexpected type *u8 but got i32"
    );
}

fn at(left: Expression, right: Expression) -> Expression {
    Expression::At { left: Box::new(left), right: Box::new(right) }
}

#[test]
fn at_expression_errors_on_non_arrays() {
    let file = File {
        body: vec![function(
            "main",
            vec![param("a", named("i32"))],
            ast::Type::Void,
            vec![Statement::Expr { value: at(ident("a", 1), num("0")) }],
        )],
    };
    assert_eq!(check(&file).unwrap_err().message(), "at expression expected an array but got i32");
}

#[test]
fn at_expression_needs_a_primitive_index() {
    let file = File {
        body: vec![function(
            "main",
            vec![param("a", array(named("i32"), 3)), param("p", ptr(named("u8")))],
            ast::Type::Void,
            vec![Statement::Expr { value: at(ident("a", 1), ident("p", 2)) }],
        )],
    };
    assert_eq!(check(&file).unwrap_err().message(), "at expression expected a primitive but got *u8");
}

#[test]
fn at_expression_gives_the_element_type() {
    let file = File {
        body: vec![function(
            "main",
            vec![param("a", array(named("i32"), 3))],
            named("i32"),
            vec![Statement::Return { value: at(ident("a", 1), num("0")) }],
        )],
    };
    let analysis = check(&file).unwrap();
    if let Statement::Func { body: Some(body), .. } = &file.body[0] {
        if let Statement::Return { value } = &body[0] {
            assert_eq!(*analysis.get_type_of_expr(value), Type::Primitive(Primitive::I32));
            return;
        }
    }
    panic!("unexpected shape");
}

#[test]
fn while_condition_must_be_primitive() {
    let mut file = parse(b"fn f() {} fn main() { 1; }");
    if let Statement::Func { body: Some(body), .. } = &mut file.body[1] {
        body[0] = Statement::While {
            cond: Expression::Ident { value: "f".to_string(), id: 100 },
            block: vec![],
        };
    }
    let err = check(&file).unwrap_err();
    assert_eq!(err.message(), "while statement condition must be a primitive but instead got fn() -> <void>");
}

#[test]
fn only_functions_at_top_level() {
    let file = File { body: vec![Statement::Expr { value: Expression::Int { value: "1".to_string() } }] };
    let err = check(&file).unwrap_err();
    assert_eq!(err.message(), "only functions are allowed at top level");
}

#[test]
fn errors_of_all_bodies_are_joined() {
    let err = error_of(b"fn a() { x; } fn b() { y; }");
    assert_eq!(err.message(), "x does not exist\ny does not exist");
    match err {
        AnalysisError::Joined(errs) => assert_eq!(errs.len(), 2),
        other => panic!("expected joined errors, got {other:?}"),
    }
}

#[test]
fn primitive_arguments_convert() {
    analyze(b"fn f(a: u8, b: f64) -> u64 { return a + b; } fn main() -> i64 { return f(1, 2); }").unwrap();
}

#[test]
fn binary_operation_takes_the_wider_type() {
    let file = parse(b"fn main(a: u8, b: u64) -> u64 { return a * b; }");
    let analysis = check(&file).unwrap();
    if let Statement::Func { body: Some(body), .. } = &file.body[0] {
        if let Statement::Return { value } = &body[0] {
            assert_eq!(*analysis.get_type_of_expr(value), Type::Primitive(Primitive::U64));
            return;
        }
    }
    panic!("unexpected shape");
}

#[test]
fn string_literals_are_not_supported() {
    let file = parse(b"fn main() { \"hi\"; }");
    assert!(!Analysis::supports(&file));
    let file = parse(b"fn main() { 1; }");
    assert!(Analysis::supports(&file));
}

#[test]
fn used_types_hold_every_part() {
    // fn main(a: *[4]u8, s: [][2]i32) {}
    let file = File {
        body: vec![function(
            "main",
            vec![
                param("a", ptr(array(named("u8"), 4))),
                param("s", ast::Type::Slice(Box::new(array(named("i32"), 2)))),
            ],
            ast::Type::Void,
            vec![],
        )],
    };
    let analysis = check(&file).unwrap();
    let used = &analysis.types_used;
    let has = |t: &Type| used.iter().any(|u| u == t);
    let arr = Type::Array(Box::new(Type::Primitive(Primitive::U8)), 4);
    let ptr_arr = Type::Ptr(Box::new(Type::Array(Box::new(Type::Primitive(Primitive::U8)), 4)));
    let inner = Type::Array(Box::new(Type::Primitive(Primitive::I32)), 2);
    let slice = Type::Slice(Box::new(Type::Array(Box::new(Type::Primitive(Primitive::I32)), 2)));
    assert!(has(&Type::Primitive(Primitive::U8)));
    assert!(has(&arr));
    assert!(has(&ptr_arr));
    assert!(has(&inner));
    assert!(has(&slice));
    assert!(has(&Type::Primitive(Primitive::I32)));
    assert!(has(&Type::Void));
    for (i, a) in used.iter().enumerate() {
        for b in used.iter().skip(i + 1) {
            assert_ne!(a, b);
        }
    }
}

#[test]
fn functions_are_declared_with_their_types() {
    let file = parse(b"fn f(a: u8) -> i32; fn main() -> i32 { return f(1); }");
    let analysis = check(&file).unwrap();
    let names: Vec<&String> = analysis.func_decls.entries.iter().map(|(n, _)| n).collect();
    assert_eq!(names, vec!["f", "main"]);
    let f = &analysis.func_decls.entries[0].1;
    assert_eq!(f.return_type, Type::Primitive(Primitive::I32));
    assert_eq!(f.params, vec![Type::Primitive(Primitive::U8)]);
}

#[test]
fn redeclaration_with_another_type_fails() {
    let err = error_of(b"fn f() -> i32; fn f() -> u8 { return 1; }");
    assert_eq!(err.message(), "f already exists");
}

#[test]
fn equal_types_have_equal_fingerprints() {
    let a = Type::Ptr(Box::new(Type::Array(Box::new(Type::Primitive(Primitive::U8)), 3)));
    let b = Type::Ptr(Box::new(Type::Array(Box::new(Type::Primitive(Primitive::U8)), 3)));
    let c = Type::Ptr(Box::new(Type::Array(Box::new(Type::Primitive(Primitive::U8)), 4)));
    assert_eq!(a.get_hash(), b.get_hash());
    assert_ne!(a.get_hash(), c.get_hash());
    assert_eq!(a.get_hash().display(), b.get_hash().display());
}

#[test]
fn type_text() {
    let f = Type::Func(Box::new(sierra::analysis::FuncType {
        return_type: Type::Void,
        params: vec![Type::Primitive(Primitive::I8), Type::Slice(Box::new(Type::Primitive(Primitive::U16)))],
    }));
    assert_eq!(f.display(), "fn(i8, []u16) -> <void>");
    assert_eq!(Type::Array(Box::new(Type::Primitive(Primitive::F32)), 12).display(), "[12]f32");
}

#[test]
fn primitive_order_by_width() {
    assert_eq!(Primitive::I8.wider(Primitive::U8), Primitive::U8);
    assert_eq!(Primitive::F64.wider(Primitive::I32), Primitive::F64);
    assert_eq!(Primitive::U32.wider(Primitive::U32), Primitive::U32);
    assert_eq!(Primitive::U16.display(), "u16");
}

#[test]
fn names_of_a_block_are_gone_after_it() {
    let err = error_of(b"fn main() -> i32 { if 1 { let y: i32 = 1; } return y; }");
    assert_eq!(err.message(), "y does not exist");
}

#[test]
fn inner_let_shadows_with_its_own_type() {
    let file = parse(b"fn main() -> i32 { let x: i32 = 1; if 1 { let x: u8 = 2; x; } return x; }");
    let analysis = check(&file).unwrap();
    if let Statement::Func { body: Some(body), .. } = &file.body[0] {
        if let (Statement::If { then, .. }, Statement::Return { value }) = (&body[1], &body[2]) {
            if let Statement::Expr { value: inner } = &then[1] {
                assert_eq!(*analysis.get_type_of_expr(inner), Type::Primitive(Primitive::U8));
                assert_eq!(*analysis.get_type_of_expr(value), Type::Primitive(Primitive::I32));
                return;
            }
        }
    }
    panic!("unexpected shape");
}

#[test]
fn every_let_value_has_a_recorded_type() {
    let file = parse(b"fn main() { let a: i32 = 1; let b: u64 = a * 2; if a { let c: u64 = b; } }");
    let analysis = check(&file).unwrap();
    if let Statement::Func { body: Some(body), .. } = &file.body[0] {
        let mut values = vec![];
        for stmt in body {
            match stmt {
                Statement::Let { value: Some(v), .. } => values.push(v),
                Statement::If { then, .. } => {
                    for inner in then {
                        if let Statement::Let { value: Some(v), .. } = inner {
                            values.push(v);
                        }
                    }
                },
                _ => {},
            }
        }
        assert_eq!(values.len(), 3);
        assert_eq!(*analysis.get_type_of_expr(values[0]), Type::Primitive(Primitive::I32));
        assert_eq!(*analysis.get_type_of_expr(values[1]), Type::Primitive(Primitive::I32));
        assert_eq!(*analysis.get_type_of_expr(values[2]), Type::Primitive(Primitive::U64));
        return;
    }
    panic!("unexpected shape");
}

#[test]
fn definition_then_declaration_fails() {
    let err = error_of(b"fn foo() -> i32 { return 1; } fn foo() -> i32;");
    assert_eq!(err.message(), "foo already exists");
}

#[test]
fn two_declarations_fail() {
    let err = error_of(b"fn foo() -> i32; fn foo() -> i32;");
    assert_eq!(err.message(), "foo already exists");
}


#[test]
fn let_needs_a_type_or_a_value() {
    // The parser always gives a `let` its type; a tree built by hand may leave both out.
    let file = File {
        body: vec![function(
            "main",
            vec![],
            ast::Type::Void,
            vec![Statement::Let { name: "x".to_string(), ty: None, value: None }],
        )],
    };
    assert_eq!(check(&file).unwrap_err().message(), "let statement neither has a type nor an assigned value");
}

#[test]
fn every_expression_inside_a_checked_body_has_a_type() {
    let file = parse(b"fn f(a: u8, b: i64) -> u64; fn main() -> u64 { return f(1, -2 * 3) + 4; }");
    let analysis = check(&file).unwrap();
    let Statement::Func { body: Some(body), .. } = &file.body[1] else { panic!("unexpected shape") };
    let Statement::Return { value } = &body[0] else { panic!("unexpected shape") };
    assert_eq!(*analysis.get_type_of_expr(value), Type::Primitive(Primitive::U64));
    let Expression::Binary { left, right, .. } = value else { panic!("unexpected shape") };
    assert_eq!(*analysis.get_type_of_expr(right), Type::Primitive(Primitive::I32));
    assert_eq!(*analysis.get_type_of_expr(left), Type::Primitive(Primitive::U64));
    let Expression::Call { func, args } = &**left else { panic!("unexpected shape") };
    assert!(matches!(analysis.get_type_of_expr(func), Type::Func(_)));
    assert_eq!(*analysis.get_type_of_expr(&args[0]), Type::Primitive(Primitive::I32));
    assert_eq!(*analysis.get_type_of_expr(&args[1]), Type::Primitive(Primitive::I32));
    let Expression::Binary { left: neg, .. } = &args[1] else { panic!("unexpected shape") };
    assert_eq!(*analysis.get_type_of_expr(neg), Type::Primitive(Primitive::I32));
}
