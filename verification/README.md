# Sierra

A small language that compiles to C, with its front end and code generator verified by Verus.

```rs
fn add(a: i32, b: i32) -> i32 { return a + b; }
fn main() -> i32 { let x: i32 = add(1, 2); if x { return x; } else { return 0; } }
```

## Layout

- `src/text.rs`, `src/table.rs`: strings and a small map with distinct keys.
- `src/token.rs`, `src/lexer.rs`: tokens and the lexer (bytes to tokens).
- `src/ast.rs`, `src/parser.rs`: the syntax tree and a Pratt parser; each parsing function is
  specified by a function on values of the same name with a `p_` prefix.
- `src/semantics.rs`, `src/analysis.rs`: what type checking computes, as functions on values,
  and the checker that is proved to compute it.
- `src/emit.rs`, `src/compiler.rs`: the C text that a checked file becomes, and the code
  generator (including the ordering of structure definitions after the types they hold).
- `src/laws.rs`: properties of checking as a whole (scopes, declarations, recorded types).
- `app/main.rs`: the command-line compiler: `sierra FILE` writes `FILE.c`.
