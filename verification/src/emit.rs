//! The C text that compilation produces, as functions on values.
use vstd::prelude::*;

use crate::analysis::{FuncTypeV, TypeV, prim_text, type_hash};
use crate::ast::{ExprV, ParamV, StmtV, expr_hash};
use crate::semantics::{AnalysisV, min_len};
use crate::text::{decimal, hex, indentation, join};
use crate::token::token_text;

verus! {

/// Whether code generation can spell a type in C: a function type has no spelling, and
/// neither has a pointer to one.
pub open spec fn c_ready(t: TypeV) -> bool
    decreases t,
{
    match t {
        TypeV::Func(_) => false,
        TypeV::Ptr(i) => c_ready(*i),
        _ => true,
    }
}

/// The C spelling of a type. Arrays and slices are structures named by their fingerprint.
pub open spec fn c_type(t: TypeV) -> Seq<char>
    decreases t,
{
    match t {
        TypeV::Void => "void"@,
        TypeV::Primitive(p) => prim_text(p),
        TypeV::Func(_) => Seq::empty(),
        TypeV::Ptr(i) => c_type(*i) + "*"@,
        TypeV::Array(_, _) => "struct __Array_"@ + hex(type_hash(t) as nat),
        TypeV::Slice(_) => "struct __Slice_"@ + hex(type_hash(t) as nat),
    }
}

/// The C spellings of a list of types.
pub open spec fn c_types(s: Seq<TypeV>) -> Seq<Seq<char>>
    decreases s.len(),
{
    if s.len() == 0 {
        Seq::empty()
    } else {
        c_types(s.subrange(0, s.len() - 1)).push(c_type(s[s.len() - 1]))
    }
}

/// Whether every type of a list can be spelled in C.
pub open spec fn all_c_ready(s: Seq<TypeV>) -> bool {
    forall|k: int| 0 <= k < s.len() ==> c_ready(#[trigger] s[k])
}

/// Whether a function's return and parameter types can be spelled in C.
pub open spec fn func_ready(f: FuncTypeV) -> bool {
    c_ready(f.return_type) && all_c_ready(f.params)
}

/// The types that C needs complete before a type: a function's return and parameter types,
/// and an array's element type (a pointer or a slice only points at its element type).
pub open spec fn order_deps(t: TypeV) -> Seq<TypeV> {
    match t {
        TypeV::Func(f) => seq![f.return_type] + f.params,
        TypeV::Array(i, _) => seq![*i],
        _ => Seq::empty(),
    }
}

/// The used types, each once, each after every type it needs.
pub open spec fn dep_ordered(order: Seq<TypeV>, used: Set<TypeV>) -> bool {
    &&& order.no_duplicates()
    &&& order.to_set() == used
    &&& forall|i: int, k: int|
        0 <= i < order.len() && 0 <= k < order_deps(order[i]).len() ==> #[trigger] order.take(i).contains(
            order_deps(order[i])[k],
        )
}

/// The forward declaration of the structure of an array or slice type.
pub open spec fn type_decl(t: TypeV) -> Option<Seq<char>> {
    match t {
        TypeV::Array(_, _) => Some("struct __Array_"@ + hex(type_hash(t) as nat) + ";"@),
        TypeV::Slice(_) => Some("struct __Slice_"@ + hex(type_hash(t) as nat) + ";"@),
        _ => None,
    }
}

/// The definition of the structure of an array or slice type.
pub open spec fn type_def(t: TypeV) -> Option<Seq<char>> {
    match t {
        TypeV::Array(i, n) => Some(
            "struct __Array_"@ + hex(type_hash(t) as nat) + " {\n    "@ + c_type(*i) + " inner["@ + decimal(n as nat)
                + "];\n};"@,
        ),
        TypeV::Slice(i) => Some(
            "struct __Slice_"@ + hex(type_hash(t) as nat) + " {\n    "@ + c_type(*i) + "* inner;\n    u64 len;\n};"@,
        ),
        _ => None,
    }
}

/// Whether the structure of a type can be defined: an array's or slice's element type must
/// be spelled in C.
pub open spec fn def_ready(t: TypeV) -> bool {
    match t {
        TypeV::Array(i, _) => c_ready(*i),
        TypeV::Slice(i) => c_ready(*i),
        _ => true,
    }
}

/// The forward declarations for a list of types, in order.
pub open spec fn decl_lines(order: Seq<TypeV>) -> Seq<Seq<char>>
    decreases order.len(),
{
    if order.len() == 0 {
        Seq::empty()
    } else {
        let rest = decl_lines(order.subrange(0, order.len() - 1));
        match type_decl(order[order.len() - 1]) {
            Some(d) => rest.push(d),
            None => rest,
        }
    }
}

/// The structure definitions for a list of types, in order.
pub open spec fn def_lines(order: Seq<TypeV>) -> Seq<Seq<char>>
    decreases order.len(),
{
    if order.len() == 0 {
        Seq::empty()
    } else {
        let rest = def_lines(order.subrange(0, order.len() - 1));
        match type_def(order[order.len() - 1]) {
            Some(d) => rest.push(d),
            None => rest,
        }
    }
}

/// The C text of an expression.
pub open spec fn expr_text(e: ExprV) -> Seq<char>
    decreases e, 1nat,
{
    match e {
        ExprV::Ident { value, .. } => value,
        ExprV::Int { value } => value,
        ExprV::Str { value } => "\""@ + value + "\""@,
        ExprV::Unary { op, right } => token_text(op) + expr_text(*right),
        ExprV::Binary { op, left, right } => expr_text(*left) + " "@ + token_text(op) + " "@ + expr_text(*right),
        ExprV::Call { func, args } => expr_text(*func) + "("@ + join(expr_texts(args), ", "@) + ")"@,
        ExprV::At { left, right } => "("@ + expr_text(*left) + ").inner["@ + expr_text(*right) + "]"@,
    }
}

/// The C texts of a list of expressions.
pub open spec fn expr_texts(s: Seq<ExprV>) -> Seq<Seq<char>>
    decreases s, 0nat,
{
    if s.len() == 0 {
        Seq::empty()
    } else {
        expr_texts(s.subrange(0, s.len() - 1)).push(expr_text(s[s.len() - 1]))
    }
}

/// A parameter: its C type, then its name.
pub open spec fn param_text(name: Seq<char>, t: TypeV) -> Seq<char> {
    c_type(t) + " "@ + name
}

/// The first `n` parameters, each name with the type at the same position.
pub open spec fn param_texts(params: Seq<ParamV>, types: Seq<TypeV>, n: nat) -> Seq<Seq<char>>
    decreases n,
{
    if n == 0 {
        Seq::empty()
    } else {
        param_texts(params, types, (n - 1) as nat).push(param_text(params[n - 1].name, types[n - 1]))
    }
}

/// The head of a function definition: return type, name and parameters (as many as there are
/// both names and types).
pub open spec fn func_head(name: Seq<char>, f: FuncTypeV, params: Seq<ParamV>) -> Seq<char> {
    c_type(f.return_type) + " "@ + name + "("@ + join(
        param_texts(params, f.params, min_len(params.len(), f.params.len())),
        ", "@,
    ) + ")"@
}

/// The prototype of a declared function.
pub open spec fn func_decl_line(name: Seq<char>, f: FuncTypeV) -> Seq<char> {
    c_type(f.return_type) + " "@ + name + "("@ + join(c_types(f.params), ", "@) + ");"@
}

/// The prototypes of the declared functions, in order.
pub open spec fn func_decl_lines(funcs: Seq<(Seq<char>, FuncTypeV)>) -> Seq<Seq<char>>
    decreases funcs.len(),
{
    if funcs.len() == 0 {
        Seq::empty()
    } else {
        let last = funcs[funcs.len() - 1];
        func_decl_lines(funcs.subrange(0, funcs.len() - 1)).push(func_decl_line(last.0, last.1))
    }
}

/// The C text of a statement at the given depth of indentation.
pub open spec fn stmt_text(a: AnalysisV, s: StmtV, indent: nat) -> Seq<char>
    decreases s, 2nat,
{
    indentation(indent) + match s {
        StmtV::Let { name, ty, value } => match value {
            Some(v) => c_type(a.exprs[expr_hash(v)]) + " "@ + name + " = "@ + expr_text(v) + ";"@,
            None => c_type(a.type_map[ty.unwrap()]) + " "@ + name + ";"@,
        },
        StmtV::Return { value } => "return "@ + expr_text(value) + ";"@,
        StmtV::If { cond, then, else_then } => "if ("@ + expr_text(cond) + ") "@ + block_text(a, then, indent)
            + " else "@ + block_text(a, else_then, indent),
        StmtV::While { cond, block } => "while ("@ + expr_text(cond) + ") "@ + block_text(a, block, indent),
        StmtV::Func { name, params, body, .. } => match body {
            Some(b) => func_head(name, a.funcs[name], params) + " "@ + block_text(a, b, indent),
            None => Seq::empty(),
        },
        StmtV::Expr { value } => expr_text(value) + ";"@,
    }
}

/// A block: its statements one level deeper, between braces.
pub open spec fn block_text(a: AnalysisV, b: Seq<StmtV>, indent: nat) -> Seq<char>
    decreases b, 1nat,
{
    "{\n"@ + join(stmt_texts(a, b, indent + 1), "\n"@) + "\n"@ + indentation(indent) + "}"@
}

/// The texts of a list of statements at the given depth.
pub open spec fn stmt_texts(a: AnalysisV, b: Seq<StmtV>, indent: nat) -> Seq<Seq<char>>
    decreases b, 0nat,
{
    if b.len() == 0 {
        Seq::empty()
    } else {
        stmt_texts(a, b.subrange(0, b.len() - 1), indent).push(stmt_text(a, b[b.len() - 1], indent))
    }
}

/// How deeply blocks nest inside a statement.
pub open spec fn stmt_depth(s: StmtV) -> nat
    decreases s, 1nat,
{
    match s {
        StmtV::If { then, else_then, .. } => {
            let d1 = block_depth(then);
            let d2 = block_depth(else_then);
            1 + if d1 <= d2 { d2 } else { d1 }
        },
        StmtV::While { block, .. } => 1 + block_depth(block),
        StmtV::Func { body: Some(b), .. } => 1 + block_depth(b),
        _ => 0,
    }
}

/// How deeply blocks nest inside a list of statements.
pub open spec fn block_depth(b: Seq<StmtV>) -> nat
    decreases b, 0nat,
{
    if b.len() == 0 {
        0
    } else {
        let d1 = block_depth(b.subrange(0, b.len() - 1));
        let d2 = stmt_depth(b[b.len() - 1]);
        if d1 <= d2 { d2 } else { d1 }
    }
}

/// Whether code generation finds what it needs for a statement: the recorded type of a
/// `let` value, or the resolved declared type of a `let` without one, spelled in C; the
/// declared type of a function with a body; and the same for nested blocks.
pub open spec fn stmt_ok(a: AnalysisV, s: StmtV) -> bool
    decreases s, 1nat,
{
    match s {
        StmtV::Let { ty, value, .. } => match value {
            Some(v) => a.exprs.contains_key(expr_hash(v)) && c_ready(a.exprs[expr_hash(v)]),
            None => ty matches Some(t) && a.type_map.contains_key(t) && c_ready(a.type_map[t]),
        },
        StmtV::If { then, else_then, .. } => block_ok(a, then) && block_ok(a, else_then),
        StmtV::While { block, .. } => block_ok(a, block),
        StmtV::Func { name, body: Some(b), .. } => a.funcs.contains_key(name) && func_ready(a.funcs[name])
            && block_ok(a, b),
        _ => true,
    }
}

/// Whether code generation finds what it needs for every statement of a list.
pub open spec fn block_ok(a: AnalysisV, b: Seq<StmtV>) -> bool
    decreases b, 0nat,
{
    b.len() == 0 || (block_ok(a, b.subrange(0, b.len() - 1)) && stmt_ok(a, b[b.len() - 1]))
}

/// Whether a top-level statement is a function with a body (the ones that are defined in C).
pub open spec fn is_definition(s: StmtV) -> bool {
    s matches StmtV::Func { body: Some(_), .. }
}

/// The definitions of the functions with a body, in order.
pub open spec fn func_def_texts(a: AnalysisV, file: Seq<StmtV>) -> Seq<Seq<char>>
    decreases file.len(),
{
    if file.len() == 0 {
        Seq::empty()
    } else {
        let rest = func_def_texts(a, file.subrange(0, file.len() - 1));
        let s = file[file.len() - 1];
        if is_definition(s) {
            rest.push(stmt_text(a, s, 0))
        } else {
            rest
        }
    }
}

/// Whether every function with a body can be written out: what it needs is there, and its
/// blocks nest less deeply than the largest `i32`.
pub open spec fn defs_ok(a: AnalysisV, file: Seq<StmtV>) -> bool {
    forall|k: int|
        0 <= k < file.len() && is_definition(#[trigger] file[k]) ==> stmt_ok(a, file[k]) && stmt_depth(file[k])
            <= 0x7fff_ffff
}

/// Whether a file and its analysis can be compiled: every type that a used type needs is
/// used too, every structure and prototype can be spelled, and every function with a body
/// can be written out.
pub open spec fn compilable(file: Seq<StmtV>, a: AnalysisV, funcs: Seq<(Seq<char>, FuncTypeV)>) -> bool {
    &&& deps_present(a.used)
    &&& forall|t: TypeV| a.used.contains(t) ==> def_ready(t)
    &&& forall|k: int| 0 <= k < funcs.len() ==> func_ready(#[trigger] funcs[k].1)
    &&& defs_ok(a, file)
}

/// The start of every compiled file: where it comes from, and the names of the primitive types.
pub open spec fn prelude_text() -> Seq<char> {
    "// compiled from Sierra\n#include <stdint.h>\n\ntypedef int8_t i8;\ntypedef uint8_t u8;\ntypedef int16_t i16;\ntypedef uint16_t u16;\ntypedef int32_t i32;\ntypedef uint32_t u32;\ntypedef int64_t i64;\ntypedef uint64_t u64;\ntypedef float f32;\ntypedef double f64;\n\n"@
}

/// The compiled file: the prelude, then the structure declarations and definitions (in the
/// given order of types), the function prototypes and the function definitions.
pub open spec fn program_text(
    order: Seq<TypeV>,
    funcs: Seq<(Seq<char>, FuncTypeV)>,
    a: AnalysisV,
    file: Seq<StmtV>,
) -> Seq<char> {
    prelude_text() + join(decl_lines(order), "\n"@) + "\n\n"@ + join(def_lines(order), "\n"@) + "\n\n"@ + join(
        func_decl_lines(funcs),
        "\n"@,
    ) + "\n\n"@ + join(func_def_texts(a, file), "\n"@) + "\n            "@
}


/// A statement of a list nests no deeper than the list, and code generation finds what it
/// needs for it when it finds it for the list.
pub proof fn lemma_block_member(a: AnalysisV, b: Seq<StmtV>, k: int)
    requires
        0 <= k < b.len(),
    ensures
        stmt_depth(b[k]) <= block_depth(b),
        block_ok(a, b) ==> stmt_ok(a, b[k]),
    decreases b.len(),
{
    if k < b.len() - 1 {
        let rest = b.subrange(0, b.len() - 1);
        lemma_block_member(a, rest, k);
        assert(rest[k] == b[k]);
    }
}

/// The statement lists of the first `n + 1` statements: those of the first `n`, then one more.
pub proof fn lemma_stmt_texts_step(a: AnalysisV, b: Seq<StmtV>, n: int, indent: nat)
    requires
        0 <= n < b.len(),
    ensures
        stmt_texts(a, b.subrange(0, n + 1), indent) == stmt_texts(a, b.subrange(0, n), indent).push(
            stmt_text(a, b[n], indent),
        ),
{
    assert(b.subrange(0, n + 1).subrange(0, n) =~= b.subrange(0, n));
}

/// The texts of the first `n + 1` expressions: those of the first `n`, then one more.
pub proof fn lemma_expr_texts_step(s: Seq<ExprV>, n: int)
    requires
        0 <= n < s.len(),
    ensures
        expr_texts(s.subrange(0, n + 1)) == expr_texts(s.subrange(0, n)).push(expr_text(s[n])),
{
    assert(s.subrange(0, n + 1).subrange(0, n) =~= s.subrange(0, n));
}

/// The spellings of the first `n + 1` types: those of the first `n`, then one more.
pub proof fn lemma_c_types_step(s: Seq<TypeV>, n: int)
    requires
        0 <= n < s.len(),
    ensures
        c_types(s.subrange(0, n + 1)) == c_types(s.subrange(0, n)).push(c_type(s[n])),
{
    assert(s.subrange(0, n + 1).subrange(0, n) =~= s.subrange(0, n));
}


/// The number of nodes of a type's tree: it shrinks from a type to each type it needs.
pub open spec fn type_size(t: TypeV) -> nat
    decreases t,
{
    match t {
        TypeV::Func(f) => 1 + type_size(f.return_type) + type_sizes(f.params),
        TypeV::Ptr(i) => 1 + type_size(*i),
        TypeV::Array(i, _) => 1 + type_size(*i),
        TypeV::Slice(i) => 1 + type_size(*i),
        _ => 1,
    }
}

/// The sum of the sizes of a list of types.
pub open spec fn type_sizes(s: Seq<TypeV>) -> nat
    decreases s,
{
    if s.len() == 0 {
        0
    } else {
        type_sizes(s.subrange(0, s.len() - 1)) + type_size(s[s.len() - 1])
    }
}

pub proof fn lemma_type_sizes_member(s: Seq<TypeV>, k: int)
    requires
        0 <= k < s.len(),
    ensures
        type_size(s[k]) <= type_sizes(s),
    decreases s.len(),
{
    if k < s.len() - 1 {
        let rest = s.subrange(0, s.len() - 1);
        lemma_type_sizes_member(rest, k);
        assert(rest[k] == s[k]);
    }
}

/// Every type that a type needs is smaller than it.
pub proof fn lemma_deps_smaller(t: TypeV, k: int)
    requires
        0 <= k < order_deps(t).len(),
    ensures
        type_size(order_deps(t)[k]) < type_size(t),
{
    match t {
        TypeV::Func(f) => {
            if k > 0 {
                assert(order_deps(t)[k] == f.params[k - 1]);
                lemma_type_sizes_member(f.params, k - 1);
            }
        },
        _ => {},
    }
}

/// Whether every type that a used type needs is used too.
pub open spec fn deps_present(used: Set<TypeV>) -> bool {
    forall|t: TypeV, k: int| used.contains(t) && 0 <= k < order_deps(t).len() ==> used.contains(
        #[trigger] order_deps(t)[k],
    )
}

} // verus!
