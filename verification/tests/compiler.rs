use sierra::analysis::{Analysis, Primitive, Type};
use sierra::ast::{self, Expression, File, FuncParam, Statement};
use sierra::compiler::Compiler;
use sierra::lexer::Lexer;
use sierra::parser::Parser;

const PRELUDE: &str = "// compiled from Sierra
#include <stdint.h>

typedef int8_t i8;
typedef uint8_t u8;
typedef int16_t i16;
typedef uint16_t u16;
typedef int32_t i32;
typedef uint32_t u32;
typedef int64_t i64;
typedef uint64_t u64;
typedef float f32;
typedef double f64;

";

fn compiler_for(file: File) -> Compiler {
    assert!(Analysis::supports(&file));
    let analysis = Analysis::new(&file).unwrap();
    Compiler::new(file, analysis)
}

fn compile_source(input: &[u8]) -> String {
    let parser = Parser::new(Lexer::new(input.to_vec())).unwrap();
    let compiler = compiler_for(parser.parse_file().unwrap());
    assert!(compiler.can_compile());
    compiler.compile()
}

#[test]
fn compiles_functions_and_statements() {
    let out = compile_source(
        b"fn add(a: i32, b: i32) -> i32 { return a + b; } fn main() -> i32 { let x: i32 = add(1, 2); if x { return x; } else { return 0; } }",
    );
    let expected = format!(
        "{PRELUDE}\n\n\n\ni32 add(i32, i32);\ni32 main();\n\ni32 add(i32 a, i32 b) {{\n    return a + b;\n}}\ni32 main() {{\n    i32 x = add(1, 2);\n    if (x) {{\n        return x;\n    }} else {{\n        return 0;\n    }}\n}}\n            "
    );
    assert_eq!(out, expected);
}

#[test]
fn declarations_only_get_prototypes() {
    let out = compile_source(b"fn put(c: u8) -> i32; fn main() { put(1); }");
    let expected = format!("{PRELUDE}\n\n\n\ni32 put(u8);\nvoid main();\n\nvoid main() {{\n    put(1);\n}}\n            ");
    assert_eq!(out, expected);
}

#[test]
fn let_without_value_uses_the_declared_type() {
    let out = compile_source(b"fn main() { let x: u16; let y: u16 = 3; let z: u16 = y; x = z; }");
    assert!(out.contains("void main() {\n    u16 x;\n    i32 y = 3;\n    u16 z = y;\n    x = z;\n}"), "{out}");
}

#[test]
fn arrays_become_structures() {
    // fn main(a: [4]u8) {}
    let file = File {
        body: vec![Statement::Func {
            name: "main".to_string(),
            return_type: ast::Type::Void,
            params: vec![FuncParam {
                name: "a".to_string(),
                ty: ast::Type::Array(Box::new(ast::Type::Named("u8".to_string())), 4),
            }],
            body: Some(vec![]),
        }],
    };
    let compiler = compiler_for(file);
    assert!(compiler.can_compile());
    let out = compiler.compile();
    let h = Type::Array(Box::new(Type::Primitive(Primitive::U8)), 4).get_hash().display();
    let expected = format!(
        "{PRELUDE}struct __Array_{h};\n\nstruct __Array_{h} {{\n    u8 inner[4];\n}};\n\nvoid main(struct __Array_{h});\n\nvoid main(struct __Array_{h} a) {{\n\n}}\n            "
    );
    assert_eq!(out, expected);
}

#[test]
fn nested_structures_come_after_what_they_hold() {
    // fn main(a: [2][3]i32, s: []*u8) {}
    let file = File {
        body: vec![Statement::Func {
            name: "main".to_string(),
            return_type: ast::Type::Void,
            params: vec![
                FuncParam {
                    name: "a".to_string(),
                    ty: ast::Type::Array(Box::new(ast::Type::Array(Box::new(ast::Type::Named("i32".to_string())), 3)), 2),
                },
                FuncParam {
                    name: "s".to_string(),
                    ty: ast::Type::Slice(Box::new(ast::Type::Ptr(Box::new(ast::Type::Named("u8".to_string()))))),
                },
            ],
            body: Some(vec![]),
        }],
    };
    let compiler = compiler_for(file);
    assert!(compiler.can_compile());
    let out = compiler.compile();
    let inner = Type::Array(Box::new(Type::Primitive(Primitive::I32)), 3);
    let outer = Type::Array(Box::new(Type::Array(Box::new(Type::Primitive(Primitive::I32)), 3)), 2);
    let slice = Type::Slice(Box::new(Type::Ptr(Box::new(Type::Primitive(Primitive::U8)))));
    let hi = inner.get_hash().display();
    let ho = outer.get_hash().display();
    let hs = slice.get_hash().display();
    let inner_def = format!("struct __Array_{hi} {{\n    i32 inner[3];\n}};");
    let outer_def = format!("struct __Array_{ho} {{\n    struct __Array_{hi} inner[2];\n}};");
    let slice_def = format!("struct __Slice_{hs} {{\n    u8** inner;\n    u64 len;\n}};");
    let pi = out.find(&inner_def).unwrap();
    let po = out.find(&outer_def).unwrap();
    assert!(pi < po);
    assert!(out.contains(&slice_def));
    assert!(out.contains(&format!("void main(struct __Array_{ho} a, struct __Slice_{hs} s) {{\n\n}}")));
}

#[test]
fn function_values_cannot_be_written_in_c() {
    // fn f() {} fn main() { let g = f; }, built by hand: the parser requires a type in `let`,
    // and no type name spells a function type.
    let parser = Parser::new(Lexer::new(b"fn f() {} fn main() {}".to_vec())).unwrap();
    let mut file = parser.parse_file().unwrap();
    if let Statement::Func { body: Some(body), .. } = &mut file.body[1] {
        body.push(Statement::Let {
            name: "g".to_string(),
            ty: None,
            value: Some(Expression::Ident { value: "f".to_string(), id: 100 }),
        });
    }
    let compiler = compiler_for(file);
    assert!(!compiler.can_compile());
}

#[test]
fn expressions_in_c() {
    let out = compile_source(b"fn main(a: i32) -> i32 { a = -a * a + 1 / 2; return !a; }");
    assert!(out.contains("    a = -a * a + 1 / 2;\n"), "{out}");
    assert!(out.contains("    return !a;\n"), "{out}");
}
