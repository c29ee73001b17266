//! Properties of checking as a whole: scopes, declarations, and the types that code
//! generation finds recorded.
use vstd::prelude::*;

use crate::analysis::{Primitive, TypeV, prim_max, prim_rank, type_bytes, types_bytes};
use crate::ast::{AstTypeV, ExprV, ParamV, StmtV, expr_hash, u64_bytes};
use crate::lexer::{LexError, ascii_chars, lex_token, skip_spaces, word_end};
use crate::parser::{BindingPower, binding_power, bp_rank, is_binary_op};
use crate::token::{TokenV, symbol_token};
use crate::emit::{deps_present, lemma_type_sizes_member, order_deps, type_size};
use crate::semantics::{
    AErrV, AState, Halt, ScopeV, TopState, analyze, binary_type, check_block, check_expr, check_func, check_func_bodies, check_let,
    check_stmt, check_top_level, closed_under_parts, direct_parts, first_duplicate, is_part, lemma_check_grows,
    lemma_part_unfold, local_contains, lookup, parts_closure, resolve, scope_child,
};

verus! {

/// A type directly inside another is smaller than it.
proof fn lemma_direct_smaller(t: TypeV, k: int)
    requires
        0 <= k < direct_parts(t).len(),
    ensures
        type_size(direct_parts(t)[k]) < type_size(t),
{
    match t {
        TypeV::Func(f) => {
            if k > 0 {
                assert(direct_parts(t)[k] == f.params[k - 1]);
                lemma_type_sizes_member(f.params, k - 1);
            }
        },
        _ => {},
    }
}

/// A part of a part of a type is a part of the type.
pub proof fn lemma_part_trans(x: TypeV, u: TypeV, r: TypeV)
    requires
        is_part(x, u),
        is_part(u, r),
    ensures
        is_part(x, r),
    decreases type_size(r),
{
    lemma_part_unfold(u, r);
    if u != r {
        let dp = direct_parts(r);
        let k = choose|k: int| 0 <= k < dp.len() && is_part(u, #[trigger] dp[k]);
        lemma_direct_smaller(r, k);
        lemma_part_trans(x, u, dp[k]);
        lemma_part_unfold(x, r);
    }
}

/// The types of a set together with all their parts hold every part of each member.
pub proof fn lemma_closure_closed(roots: Set<TypeV>)
    ensures
        closed_under_parts(parts_closure(roots)),
{
    assert forall|u: TypeV, t: TypeV| parts_closure(roots).contains(u) && is_part(t, u) implies parts_closure(
        roots,
    ).contains(t) by {
        let r = choose|r: TypeV| roots.contains(r) && is_part(u, r);
        lemma_part_trans(t, u, r);
    }
}

/// A set that holds every part of its members holds every type that C needs complete
/// before one of them.
pub proof fn lemma_closed_has_deps(s: Set<TypeV>)
    requires
        closed_under_parts(s),
    ensures
        deps_present(s),
{
    assert forall|t: TypeV, k: int| s.contains(t) && 0 <= k < order_deps(t).len() implies s.contains(
        #[trigger] order_deps(t)[k],
    ) by {
        let d = order_deps(t)[k];
        assert(direct_parts(t)[k] == d);
        assert(is_part(d, d));
        lemma_part_unfold(d, t);
    }
}

/// When a file checks, the used types hold every part of their members, every type that C
/// needs complete before one of them, and every type recorded for an expression or a source
/// type: code generation finds a definition for every structure it names.
pub proof fn lemma_used_types_complete(file: Seq<StmtV>)
    ensures
        analyze(file) matches Ok(v) ==> {
            &&& closed_under_parts(v.used)
            &&& deps_present(v.used)
            &&& forall|t: TypeV| v.exprs.values().contains(t) ==> v.used.contains(t)
            &&& forall|t: TypeV| v.type_map.values().contains(t) ==> v.used.contains(t)
        },
{
    if let Ok(v) = analyze(file) {
        let ts0 = TopState { a: crate::semantics::initial_state(), global: Map::empty(), funcs: Map::empty(), defined: Set::empty() };
        let (ts, _) = check_top_level(ts0, file);
        let (st, _) = crate::semantics::check_func_bodies(ts.a, ts.global, file, Seq::empty());
        let roots = ts.global.values() + st.exprs.values() + st.type_map.values();
        assert(v.used == parts_closure(roots));
        lemma_closure_closed(roots);
        lemma_closed_has_deps(v.used);
        assert forall|t: TypeV| v.exprs.values().contains(t) implies v.used.contains(t) by {
            assert(roots.contains(t) && is_part(t, t));
        }
        assert forall|t: TypeV| v.type_map.values().contains(t) implies v.used.contains(t) by {
            assert(roots.contains(t) && is_part(t, t));
        }
    }
}

/// Declaring the top-level statements in order succeeds only if each is a function; every
/// function is then declared, and earlier declarations stay.
proof fn lemma_top_level_declares(ts: TopState, body: Seq<StmtV>)
    ensures
        ({
            let (ts1, r) = check_top_level(ts, body);
            r is Ok ==> {
                &&& ts.funcs.dom().subset_of(ts1.funcs.dom())
                &&& forall|k: int| 0 <= k < body.len() ==> (#[trigger] body[k] is Func && ts1.funcs.contains_key(
                    body[k]->Func_name,
                ))
            }
        }),
    decreases body.len(),
{
    if body.len() > 0 {
        if let StmtV::Func { name, return_type, params, body: b } = body[0] {
            let (ts1, r) = check_func(ts, name, return_type, params, b is Some);
            if r is Ok {
                let rest = body.subrange(1, body.len() as int);
                lemma_top_level_declares(ts1, rest);
                let (ts2, r2) = check_top_level(ts1, rest);
                if r2 is Ok {
                    assert forall|k: int| 0 <= k < body.len() implies (#[trigger] body[k] is Func
                        && ts2.funcs.contains_key(body[k]->Func_name)) by {
                        if k > 0 {
                            assert(rest[k - 1] == body[k]);
                        }
                    }
                }
            }
        }
    }
}

/// When a file checks, every top-level statement is a function, and every function is
/// declared with its type.
pub proof fn lemma_checked_file_declares(file: Seq<StmtV>)
    ensures
        analyze(file) matches Ok(v) ==> forall|k: int|
            0 <= k < file.len() ==> #[trigger] file[k] is Func && v.funcs.contains_key(file[k]->Func_name),
{
    let ts0 = TopState { a: crate::semantics::initial_state(), global: Map::empty(), funcs: Map::empty(), defined: Set::empty() };
    lemma_top_level_declares(ts0, file);
}

/// Once a function has a body, no later top-level statement can give it another.
proof fn lemma_defined_stays_defined(ts: TopState, body: Seq<StmtV>, n: Seq<char>, j: int)
    requires
        ts.global.contains_key(n),
        ts.defined.contains(n),
        0 <= j < body.len(),
        body[j] matches StmtV::Func { name, body: Some(_), .. } && name == n,
    ensures
        check_top_level(ts, body).1 is Err,
    decreases body.len(),
{
    if let StmtV::Func { name, return_type, params, body: b } = body[0] {
        let (ts1, r) = check_func(ts, name, return_type, params, b is Some);
        if r is Ok && j > 0 {
            let rest = body.subrange(1, body.len() as int);
            assert(rest[j - 1] == body[j]);
            lemma_defined_stays_defined(ts1, rest, n, j - 1);
        }
    }
}

/// A function defined twice is refused, whatever lies between the two definitions.
proof fn lemma_top_level_two_bodies(ts: TopState, body: Seq<StmtV>, n: Seq<char>, i: int, j: int)
    requires
        0 <= i < j < body.len(),
        body[i] matches StmtV::Func { name, body: Some(_), .. } && name == n,
        body[j] matches StmtV::Func { name, body: Some(_), .. } && name == n,
    ensures
        check_top_level(ts, body).1 is Err,
    decreases body.len(),
{
    if let StmtV::Func { name, return_type, params, body: b } = body[0] {
        let (ts1, r) = check_func(ts, name, return_type, params, b is Some);
        if r is Ok {
            let rest = body.subrange(1, body.len() as int);
            assert(rest[j - 1] == body[j]);
            if i == 0 {
                lemma_defined_stays_defined(ts1, rest, n, j - 1);
            } else {
                assert(rest[i - 1] == body[i]);
                lemma_top_level_two_bodies(ts1, rest, n, i - 1, j - 1);
            }
        }
    }
}

/// A file that gives one function two bodies does not check.
pub proof fn lemma_two_definitions_refused(file: Seq<StmtV>, n: Seq<char>, i: int, j: int)
    requires
        0 <= i < j < file.len(),
        file[i] matches StmtV::Func { name, body: Some(_), .. } && name == n,
        file[j] matches StmtV::Func { name, body: Some(_), .. } && name == n,
    ensures
        analyze(file) matches Err(Halt::Fail(_)),
{
    let ts0 = TopState { a: crate::semantics::initial_state(), global: Map::empty(), funcs: Map::empty(), defined: Set::empty() };
    lemma_top_level_two_bodies(ts0, file, n, i, j);
}

/// Some parameter name repeats an earlier one, looking from `m` on, when one at or after
/// `m` repeats one before it.
proof fn lemma_duplicate_found(params: Seq<ParamV>, m: nat, i: int, j: int)
    requires
        0 <= i < j < params.len(),
        m <= j,
        params[i].name == params[j].name,
    ensures
        first_duplicate(params, m) is Some,
    decreases j - m,
{
    if !(exists|k: int| 0 <= k < m && params[k].name == params[m as int].name) && m < j {
        lemma_duplicate_found(params, m + 1, i, j);
    }
}

/// A function whose parameters repeat a name is refused.
pub proof fn lemma_duplicate_params_refused(
    ts: TopState,
    name: Seq<char>,
    rt: AstTypeV,
    params: Seq<ParamV>,
    has_body: bool,
    i: int,
    j: int,
)
    requires
        0 <= i < j < params.len(),
        params[i].name == params[j].name,
    ensures
        check_func(ts, name, rt, params, has_body).1 is Err,
{
    lemma_duplicate_found(params, 0, i, j);
}

/// A name cannot be declared twice in one block: a `let` of a name that the innermost frame
/// already binds fails.
pub proof fn lemma_let_same_block_refused(
    st: AState,
    sc: ScopeV,
    name: Seq<char>,
    ty: Option<AstTypeV>,
    value: Option<ExprV>,
)
    requires
        local_contains(sc, name),
    ensures
        !(check_let(st, sc, name, ty, value).2 is Ok),
{
}

/// In a new block a `let` cannot clash: whether it succeeds does not depend on the name it
/// declares, so it may shadow a name of an enclosing block.
pub proof fn lemma_let_new_block_any_name(
    st: AState,
    sc: ScopeV,
    n1: Seq<char>,
    n2: Seq<char>,
    ty: Option<AstTypeV>,
    value: Option<ExprV>,
)
    ensures
        check_let(st, scope_child(sc), n1, ty, value).2 == check_let(st, scope_child(sc), n2, ty, value).2,
{
}

/// A `let` that succeeds binds its name in the innermost frame: looking the name up then
/// gives the declared type (or, without one, the value's type), whatever an enclosing frame
/// binds it to; the enclosing frames and the return type stay as they were.
pub proof fn lemma_let_binds(st: AState, sc: ScopeV, name: Seq<char>, ty: Option<AstTypeV>, value: Option<ExprV>)
    requires
        sc.frames.len() > 0,
    ensures
        ({
            let (st1, sc1, r) = check_let(st, sc, name, ty, value);
            r is Ok ==> {
                &&& sc1.frames.len() == sc.frames.len()
                &&& sc1.frames.drop_last() == sc.frames.drop_last()
                &&& sc1.ret == sc.ret
                &&& match ty {
                    Some(t) => resolve(st.named, st.type_map, t).1 matches Ok(d) && lookup(sc1.frames, name) == Some(d),
                    None => value matches Some(v) && lookup(sc1.frames, name) == Some(st1.exprs[expr_hash(v)]),
                }
            }
        }),
{
    let (st1, sc1, r) = check_let(st, sc, name, ty, value);
    if r is Ok {
        assert(sc1.frames.drop_last() =~= sc.frames.drop_last());
    }
}

/// An `if` or a `while` leaves the scope around it as it was: what its blocks declare is gone
/// after it.
pub proof fn lemma_blocks_keep_scope(st: AState, sc: ScopeV, s: StmtV)
    requires
        s is If || s is While,
    ensures
        check_stmt(st, sc, s).1 == sc,
{
}

/// A function inside a function is refused.
pub proof fn lemma_nested_function_refused(st: AState, sc: ScopeV, s: StmtV)
    requires
        s is Func,
    ensures
        check_stmt(st, sc, s).2 == Err::<(), Halt>(Halt::Fail(AErrV::FuncNotAtTopLevel)),
{
}


/// Whether an expression and every expression inside it have a recorded type.
pub open spec fn expr_recorded(exprs: Map<u64, TypeV>, e: ExprV) -> bool
    decreases e, 1nat,
{
    exprs.contains_key(expr_hash(e)) && match e {
        ExprV::Unary { right, .. } => expr_recorded(exprs, *right),
        ExprV::Binary { left, right, .. } => expr_recorded(exprs, *left) && expr_recorded(exprs, *right),
        ExprV::Call { func, args } => expr_recorded(exprs, *func) && exprs_recorded(exprs, args),
        ExprV::At { left, right } => expr_recorded(exprs, *left) && expr_recorded(exprs, *right),
        _ => true,
    }
}

/// Whether every expression of a list, with every expression inside it, has a recorded type.
pub open spec fn exprs_recorded(exprs: Map<u64, TypeV>, s: Seq<ExprV>) -> bool
    decreases s, 0nat,
{
    s.len() == 0 || (expr_recorded(exprs, s[0]) && exprs_recorded(exprs, s.subrange(1, s.len() as int)))
}

/// What checking leaves recorded for a statement of a function body: a type for every
/// expression in it (and every expression inside those), the resolved declared type of a
/// `let` without a value, and the same inside nested blocks. This is what code generation
/// reads. (A function inside a body is refused by checking.)
pub open spec fn stmt_recorded(exprs: Map<u64, TypeV>, type_map: Map<AstTypeV, TypeV>, s: StmtV) -> bool
    decreases s, 1nat,
{
    match s {
        StmtV::Let { ty, value, .. } => match value {
            Some(v) => expr_recorded(exprs, v),
            None => ty matches Some(t) && type_map.contains_key(t),
        },
        StmtV::Return { value } => expr_recorded(exprs, value),
        StmtV::Expr { value } => expr_recorded(exprs, value),
        StmtV::If { cond, then, else_then } => expr_recorded(exprs, cond) && block_recorded(exprs, type_map, then)
            && block_recorded(exprs, type_map, else_then),
        StmtV::While { cond, block } => expr_recorded(exprs, cond) && block_recorded(exprs, type_map, block),
        StmtV::Func { .. } => false,
    }
}

/// What stays recorded for an expression as more is recorded.
proof fn lemma_expr_recorded_mono(m: Map<u64, TypeV>, m1: Map<u64, TypeV>, e: ExprV)
    requires
        m.dom().subset_of(m1.dom()),
        expr_recorded(m, e),
    ensures
        expr_recorded(m1, e),
    decreases e, 1nat,
{
    match e {
        ExprV::Unary { right, .. } => lemma_expr_recorded_mono(m, m1, *right),
        ExprV::Binary { left, right, .. } => {
            lemma_expr_recorded_mono(m, m1, *left);
            lemma_expr_recorded_mono(m, m1, *right);
        },
        ExprV::Call { func, args } => {
            lemma_expr_recorded_mono(m, m1, *func);
            lemma_exprs_recorded_mono(m, m1, args);
        },
        ExprV::At { left, right } => {
            lemma_expr_recorded_mono(m, m1, *left);
            lemma_expr_recorded_mono(m, m1, *right);
        },
        _ => {},
    }
}

proof fn lemma_exprs_recorded_mono(m: Map<u64, TypeV>, m1: Map<u64, TypeV>, s: Seq<ExprV>)
    requires
        m.dom().subset_of(m1.dom()),
        exprs_recorded(m, s),
    ensures
        exprs_recorded(m1, s),
    decreases s, 0nat,
{
    if s.len() > 0 {
        lemma_expr_recorded_mono(m, m1, s[0]);
        lemma_exprs_recorded_mono(m, m1, s.subrange(1, s.len() as int));
    }
}

/// A successful check of an expression records a type for it and for every expression
/// inside it.
pub proof fn lemma_check_records_all(st: AState, sc: ScopeV, e: ExprV)
    ensures
        ({
            let (st1, r) = check_expr(st, sc, e);
            r is Ok ==> expr_recorded(st1.exprs, e)
        }),
    decreases e, 1nat,
{
    let (st_e, r_e) = check_expr(st, sc, e);
    if r_e is Ok {
        match e {
            ExprV::Unary { right, .. } => {
                lemma_check_records_all(st, sc, *right);
                let (st1, _) = check_expr(st, sc, *right);
                lemma_expr_recorded_mono(st1.exprs, st_e.exprs, *right);
            },
            ExprV::Binary { left, right, .. } => {
                lemma_check_records_all(st, sc, *left);
                let (st1, _) = check_expr(st, sc, *left);
                lemma_check_grows(st1, sc, *right);
                lemma_check_records_all(st1, sc, *right);
                let (st2, _) = check_expr(st1, sc, *right);
                lemma_expr_recorded_mono(st1.exprs, st2.exprs, *left);
                lemma_expr_recorded_mono(st2.exprs, st_e.exprs, *left);
                lemma_expr_recorded_mono(st2.exprs, st_e.exprs, *right);
            },
            ExprV::At { left, right } => {
                lemma_check_records_all(st, sc, *left);
                let (st1, _) = check_expr(st, sc, *left);
                lemma_check_grows(st1, sc, *right);
                lemma_check_records_all(st1, sc, *right);
                let (st2, _) = check_expr(st1, sc, *right);
                lemma_expr_recorded_mono(st1.exprs, st2.exprs, *left);
                lemma_expr_recorded_mono(st2.exprs, st_e.exprs, *left);
                lemma_expr_recorded_mono(st2.exprs, st_e.exprs, *right);
            },
            ExprV::Call { func, args } => {
                lemma_check_records_all(st, sc, *func);
                let (st1, _) = check_expr(st, sc, *func);
                let f = st1.exprs[expr_hash(*func)]->Func_0;
                crate::semantics::lemma_call_unfold(st, sc, e);
                crate::semantics::lemma_args_grow(st1, sc, args, f.params, Seq::empty());
                lemma_args_record_all(st1, sc, args, f.params, Seq::empty());
                let (st2, _) = crate::semantics::check_args(st1, sc, args, f.params, Seq::empty());
                lemma_expr_recorded_mono(st1.exprs, st2.exprs, *func);
                lemma_expr_recorded_mono(st2.exprs, st_e.exprs, *func);
                lemma_exprs_recorded_mono(st2.exprs, st_e.exprs, args);
            },
            _ => {},
        }
    }
}

/// When checking the arguments of a call adds no error, every argument and every expression
/// inside it has a recorded type.
proof fn lemma_args_record_all(st: AState, sc: ScopeV, args: Seq<ExprV>, params: Seq<TypeV>, errs: Seq<AErrV>)
    requires
        args.len() == params.len(),
    ensures
        ({
            let (st1, r) = crate::semantics::check_args(st, sc, args, params, errs);
            r matches Ok(e) ==> e.len() >= errs.len() && (e.len() == errs.len() ==> exprs_recorded(st1.exprs, args))
        }),
    decreases args, 0nat,
{
    if args.len() > 0 {
        lemma_check_records_all(st, sc, args[0]);
        lemma_check_grows(st, sc, args[0]);
        let (st1, r) = check_expr(st, sc, args[0]);
        let errs1 = match r {
            Err(Halt::Fail(x)) => errs.push(x),
            _ => errs,
        };
        let h = expr_hash(args[0]);
        if st1.exprs.contains_key(h) {
            let errs2 = match crate::semantics::coerce(params[0], st1.exprs[h]) {
                Err(x) => errs1.push(x),
                Ok(_) => errs1,
            };
            let rest = args.subrange(1, args.len() as int);
            let prest = params.subrange(1, params.len() as int);
            lemma_args_record_all(st1, sc, rest, prest, errs2);
            crate::semantics::lemma_args_grow(st1, sc, rest, prest, errs2);
            let (st2, _) = crate::semantics::check_args(st1, sc, rest, prest, errs2);
            if r is Ok {
                lemma_expr_recorded_mono(st1.exprs, st2.exprs, args[0]);
            }
        }
    }
}

/// What code generation reads for every statement of a block.
pub open spec fn block_recorded(exprs: Map<u64, TypeV>, type_map: Map<AstTypeV, TypeV>, b: Seq<StmtV>) -> bool
    decreases b, 0nat,
{
    b.len() == 0 || (stmt_recorded(exprs, type_map, b[0]) && block_recorded(
        exprs,
        type_map,
        b.subrange(1, b.len() as int),
    ))
}

/// Whether an analysis state holds at least what another holds.
spec fn grows(st: AState, st1: AState) -> bool {
    st.exprs.dom().subset_of(st1.exprs.dom()) && st.type_map.dom().subset_of(st1.type_map.dom())
}

/// What is recorded stays recorded as the state grows.
proof fn lemma_recorded_mono(st: AState, st1: AState, s: StmtV)
    requires
        grows(st, st1),
        stmt_recorded(st.exprs, st.type_map, s),
    ensures
        stmt_recorded(st1.exprs, st1.type_map, s),
    decreases s, 1nat,
{
    match s {
        StmtV::Let { value: Some(v), .. } => lemma_expr_recorded_mono(st.exprs, st1.exprs, v),
        StmtV::Return { value } => lemma_expr_recorded_mono(st.exprs, st1.exprs, value),
        StmtV::Expr { value } => lemma_expr_recorded_mono(st.exprs, st1.exprs, value),
        StmtV::If { cond, then, else_then } => {
            lemma_expr_recorded_mono(st.exprs, st1.exprs, cond);
            lemma_block_recorded_mono(st, st1, then);
            lemma_block_recorded_mono(st, st1, else_then);
        },
        StmtV::While { cond, block } => {
            lemma_expr_recorded_mono(st.exprs, st1.exprs, cond);
            lemma_block_recorded_mono(st, st1, block);
        },
        _ => {},
    }
}

proof fn lemma_block_recorded_mono(st: AState, st1: AState, b: Seq<StmtV>)
    requires
        grows(st, st1),
        block_recorded(st.exprs, st.type_map, b),
    ensures
        block_recorded(st1.exprs, st1.type_map, b),
    decreases b, 0nat,
{
    if b.len() > 0 {
        lemma_recorded_mono(st, st1, b[0]);
        lemma_block_recorded_mono(st, st1, b.subrange(1, b.len() as int));
    }
}

/// Resolving a source type only adds to the resolved types, and a resolved type is recorded.
proof fn lemma_resolve_records(named: Map<Seq<char>, TypeV>, tm: Map<AstTypeV, TypeV>, t: AstTypeV)
    ensures
        tm.dom().subset_of(resolve(named, tm, t).0.dom()),
        resolve(named, tm, t).1 is Ok ==> resolve(named, tm, t).0.contains_key(t),
    decreases t,
{
    match t {
        AstTypeV::Ptr(i) => lemma_resolve_records(named, tm, *i),
        AstTypeV::Array(i, _) => lemma_resolve_records(named, tm, *i),
        AstTypeV::Slice(i) => lemma_resolve_records(named, tm, *i),
        _ => {},
    }
}

/// Checking a `let` only adds to the state; when it succeeds, what code generation reads
/// for it is recorded.
proof fn lemma_let_records(st: AState, sc: ScopeV, name: Seq<char>, ty: Option<AstTypeV>, value: Option<ExprV>)
    ensures
        ({
            let (st1, _, r) = check_let(st, sc, name, ty, value);
            &&& grows(st, st1)
            &&& r is Ok ==> stmt_recorded(st1.exprs, st1.type_map, StmtV::Let { name, ty, value })
        }),
{
    if let Some(t) = ty {
        lemma_resolve_records(st.named, st.type_map, t);
    }
    let tm1 = match ty {
        Some(t) => resolve(st.named, st.type_map, t).0,
        None => st.type_map,
    };
    let st_a = AState { named: st.named, type_map: tm1, exprs: st.exprs };
    if let Some(v) = value {
        lemma_check_grows(st_a, sc, v);
        lemma_check_records_all(st_a, sc, v);
    }
}

/// Checking a statement only adds to the state; when it succeeds, what code generation reads
/// for it is recorded.
proof fn lemma_stmt_records(st: AState, sc: ScopeV, s: StmtV)
    ensures
        ({
            let (st1, _, r) = check_stmt(st, sc, s);
            &&& grows(st, st1)
            &&& r is Ok ==> stmt_recorded(st1.exprs, st1.type_map, s)
        }),
    decreases s,
{
    match s {
        StmtV::Let { name, ty, value } => lemma_let_records(st, sc, name, ty, value),
        StmtV::Return { value } => {
            lemma_check_grows(st, sc, value);
            lemma_check_records_all(st, sc, value);
        },
        StmtV::Expr { value } => {
            lemma_check_grows(st, sc, value);
            lemma_check_records_all(st, sc, value);
        },
        StmtV::If { cond, then, else_then } => {
            lemma_check_grows(st, sc, cond);
            lemma_check_records_all(st, sc, cond);
            let (st1, r) = check_expr(st, sc, cond);
            lemma_block_records(st1, scope_child(sc), then);
            let (st2, _, r2) = check_block(st1, scope_child(sc), then);
            lemma_block_records(st2, scope_child(sc), else_then);
            let (st3, _, r3) = check_block(st2, scope_child(sc), else_then);
            if r is Ok && r2 is Ok && r3 is Ok {
                lemma_block_recorded_mono(st2, st3, then);
                lemma_expr_recorded_mono(st1.exprs, st2.exprs, cond);
                lemma_expr_recorded_mono(st2.exprs, st3.exprs, cond);
            }
        },
        StmtV::While { cond, block } => {
            lemma_check_grows(st, sc, cond);
            lemma_check_records_all(st, sc, cond);
            let (st1, r) = check_expr(st, sc, cond);
            lemma_block_records(st1, scope_child(sc), block);
            let (st2, _, r2) = check_block(st1, scope_child(sc), block);
            if r is Ok && r2 is Ok {
                lemma_expr_recorded_mono(st1.exprs, st2.exprs, cond);
            }
        },
        StmtV::Func { .. } => {},
    }
}

/// Checking a block only adds to the state; when it succeeds, what code generation reads for
/// each of its statements is recorded.
proof fn lemma_block_records(st: AState, sc: ScopeV, b: Seq<StmtV>)
    ensures
        ({
            let (st1, _, r) = check_block(st, sc, b);
            &&& grows(st, st1)
            &&& r is Ok ==> block_recorded(st1.exprs, st1.type_map, b)
        }),
    decreases b,
{
    if b.len() > 0 {
        lemma_stmt_records(st, sc, b[0]);
        let (st1, sc1, r) = check_stmt(st, sc, b[0]);
        if r is Ok {
            let rest = b.subrange(1, b.len() as int);
            lemma_block_records(st1, sc1, rest);
            let (st2, _, r2) = check_block(st1, sc1, rest);
            if r2 is Ok {
                lemma_recorded_mono(st1, st2, b[0]);
            }
        }
    }
}

/// Checking function bodies only adds to the state and to the errors; when no body adds an
/// error, what code generation reads for every body is recorded.
proof fn lemma_bodies_record(st: AState, global: Map<Seq<char>, TypeV>, body: Seq<StmtV>, errs: Seq<AErrV>)
    ensures
        ({
            let (st1, r) = check_func_bodies(st, global, body, errs);
            &&& grows(st, st1)
            &&& r matches Ok(e) ==> {
                &&& e.len() >= errs.len()
                &&& e.len() == errs.len() ==> forall|k: int|
                    0 <= k < body.len() ==> (#[trigger] body[k] matches StmtV::Func { body: Some(b), .. }
                        ==> block_recorded(st1.exprs, st1.type_map, b))
            }
        }),
    decreases body.len(),
{
    if body.len() > 0 {
        let rest = body.subrange(1, body.len() as int);
        if let StmtV::Func { name, params, body: b, .. } = body[0] {
            match b {
                None => {
                    lemma_bodies_record(st, global, rest, errs);
                    let (st1, r) = check_func_bodies(st, global, rest, errs);
                    assert forall|k: int| 0 < k < body.len() implies body[k] == rest[k - 1] by {}
                },
                Some(stmts) => {
                    if global.contains_key(name) && global[name] is Func {
                        let f = match global[name] {
                            TypeV::Func(f) => *f,
                            _ => crate::analysis::FuncTypeV { return_type: TypeV::Void, params: Seq::empty() },
                        };
                        let sc = crate::semantics::body_scope(global, f, params);
                        lemma_block_records(st, sc, stmts);
                        let (st1, _, r) = check_block(st, sc, stmts);
                        let errs1 = match r {
                            Err(Halt::Fail(x)) => errs.push(x),
                            _ => errs,
                        };
                        lemma_bodies_record(st1, global, rest, errs1);
                        let (st2, r2) = check_func_bodies(st1, global, rest, errs1);
                        if r2 is Ok && r is Ok {
                            lemma_block_recorded_mono(st1, st2, stmts);
                        }
                        assert forall|k: int| 0 < k < body.len() implies body[k] == rest[k - 1] by {}
                    }
                },
            }
        }
    }
}

/// When a file checks, every function with a body is declared, and in its body every
/// expression (with every expression inside it) has a recorded type, as has the declared type
/// of every `let` without a value: everything code generation reads is recorded.
pub proof fn lemma_checked_file_recorded(file: Seq<StmtV>)
    ensures
        analyze(file) matches Ok(v) ==> forall|k: int|
            0 <= k < file.len() ==> (#[trigger] file[k] matches StmtV::Func { name, body: Some(b), .. } ==> {
                &&& v.funcs.contains_key(name)
                &&& block_recorded(v.exprs, v.type_map, b)
            }),
{
    lemma_checked_file_declares(file);
    let ts0 = TopState { a: crate::semantics::initial_state(), global: Map::empty(), funcs: Map::empty(), defined: Set::empty() };
    let (ts, _) = check_top_level(ts0, file);
    lemma_bodies_record(ts.a, ts.global, file, Seq::empty());
}


/// A name already declared at the top level cannot be declared again without a body.
pub proof fn lemma_redeclaration_refused(ts: TopState, name: Seq<char>, rt: AstTypeV, params: Seq<ParamV>)
    requires
        ts.global.contains_key(name),
    ensures
        check_func(ts, name, rt, params, false).1 is Err,
{
}

/// A function already defined cannot be declared or defined again.
pub proof fn lemma_defined_function_refused(
    ts: TopState,
    name: Seq<char>,
    rt: AstTypeV,
    params: Seq<ParamV>,
    has_body: bool,
)
    requires
        ts.global.contains_key(name),
        ts.defined.contains(name),
    ensures
        check_func(ts, name, rt, params, has_body).1 is Err,
{
}

/// Looking a name up right after binding it in the innermost frame gives the bound type,
/// whatever enclosing frames bind it to.
pub proof fn lemma_lookup_after_add(sc: ScopeV, name: Seq<char>, t: TypeV)
    requires
        sc.frames.len() > 0,
    ensures
        lookup(crate::semantics::scope_add(sc, name, t).frames, name) == Some(t),
{
}

/// Recording a type and all its parts in a set that holds every part of its members keeps
/// that so.
pub proof fn lemma_record_keeps_closed(s: Set<TypeV>, t: TypeV)
    requires
        closed_under_parts(s),
    ensures
        closed_under_parts(s + parts_closure(set![t])),
{
    lemma_closure_closed(set![t]);
}


// ----- Widths of primitive types -----

/// The wider of two primitive types is one of them, and no narrower than either: a binary
/// operation on primitives never loses width, whichever side the wider operand stands on.
pub proof fn lemma_wider_is_widest(a: Primitive, b: Primitive)
    ensures
        prim_max(a, b) == a || prim_max(a, b) == b,
        prim_rank(a) <= prim_rank(prim_max(a, b)),
        prim_rank(b) <= prim_rank(prim_max(a, b)),
        prim_max(a, b) == prim_max(b, a),
{
    lemma_rank_injective(a, b);
}

/// Primitive types are ordered by width as declared: signed before unsigned at each size,
/// smaller sizes first, floating point last.
pub proof fn lemma_rank_order()
    ensures
        prim_rank(Primitive::I8) < prim_rank(Primitive::U8) < prim_rank(Primitive::I16) < prim_rank(Primitive::U16)
            < prim_rank(Primitive::I32) < prim_rank(Primitive::U32) < prim_rank(Primitive::I64) < prim_rank(
            Primitive::U64,
        ) < prim_rank(Primitive::F32) < prim_rank(Primitive::F64),
{
}

/// Distinct primitive types have distinct widths.
pub proof fn lemma_rank_injective(a: Primitive, b: Primitive)
    ensures
        prim_rank(a) == prim_rank(b) ==> a == b,
{
}

/// A binary operation other than `=` on two primitives has the wider of the two types: one
/// of them, at least as wide as either.
pub proof fn lemma_binary_takes_wider(op: TokenV, left: ExprV, a: Primitive, b: Primitive)
    requires
        !(op is Assign),
    ensures
        binary_type(op, left, TypeV::Primitive(a), TypeV::Primitive(b)) matches Ok(TypeV::Primitive(p)) && (p == a
            || p == b) && prim_rank(a) <= prim_rank(p) && prim_rank(b) <= prim_rank(p),
{
    lemma_wider_is_widest(a, b);
}

// ----- Operator precedence -----

/// The comparison operators.
pub open spec fn is_comparison(t: TokenV) -> bool {
    t is Equal || t is NotEqual || t is Lt || t is Gt || t is Lte || t is Gte
}

/// Precedence, loosest first: assignment, then every comparison (all alike), then `+` and `-`,
/// then `*` and `/`, then calls; any other token ends an expression.
pub proof fn lemma_precedence(t: TokenV, u: TokenV)
    ensures
        is_comparison(t) ==> bp_rank(binding_power(TokenV::Assign)) < bp_rank(binding_power(t)) < bp_rank(
            binding_power(TokenV::Plus),
        ),
        is_comparison(t) && is_comparison(u) ==> binding_power(t) == binding_power(u),
        bp_rank(binding_power(TokenV::Plus)) == bp_rank(binding_power(TokenV::Minus)) < bp_rank(
            binding_power(TokenV::Asterisk),
        ),
        bp_rank(binding_power(TokenV::Asterisk)) == bp_rank(binding_power(TokenV::Slash)) < bp_rank(
            binding_power(TokenV::LParen),
        ),
        bp_rank(BindingPower::Lowest) < bp_rank(binding_power(TokenV::Assign)),
        !(is_binary_op(t) || t is LParen) ==> binding_power(t) == BindingPower::Lowest,
{
}

// ----- Words -----

/// An ASCII letter of either case.
pub open spec fn ascii_letter(b: u8) -> bool {
    (65 <= b && b <= 90) || (97 <= b && b <= 122)
}

/// A word: a letter or an underscore, then letters, digits and underscores.
pub open spec fn is_word(w: Seq<u8>) -> bool {
    &&& w.len() > 0
    &&& (ascii_letter(w[0]) || w[0] == 95)
    &&& forall|i: int| 0 <= i < w.len() ==> ascii_letter(#[trigger] w[i]) || w[i] == 95 || (48 <= w[i] && w[i] <= 57)
}

proof fn lemma_word_end_all(w: Seq<u8>, rest: Seq<u8>, p: nat)
    requires
        is_word(w),
        1 <= p <= w.len(),
        rest.len() == 0 || !(ascii_letter(rest[0]) || rest[0] == 95 || (48 <= rest[0] && rest[0] <= 57)),
    ensures
        word_end(w + rest, p) == w.len(),
    decreases w.len() - p,
{
    let input = w + rest;
    if p < w.len() {
        assert(input[p as int] == w[p as int]);
        lemma_word_end_all(w, rest, p + 1);
    } else if rest.len() > 0 {
        assert(input[p as int] == rest[0]);
    }
}

/// A word, followed by anything that cannot continue it, lexes as one token: its keyword,
/// type name or identifier, ending right after it.
pub proof fn lemma_word_lexes_whole(w: Seq<u8>, rest: Seq<u8>)
    requires
        is_word(w),
        rest.len() == 0 || !(ascii_letter(rest[0]) || rest[0] == 95 || (48 <= rest[0] && rest[0] <= 57)),
    ensures
        lex_token(w + rest, 0) == Ok::<(TokenV, nat), LexError>((symbol_token(ascii_chars(w)), w.len())),
{
    let input = w + rest;
    assert(input[0] == w[0]);
    assert(skip_spaces(input, 0) == 0);
    lemma_word_end_all(w, rest, 1);
    assert(input.subrange(0, w.len() as int) =~= w);
}

// ----- Fingerprints of types -----

proof fn lemma_type_bytes_start(t: TypeV)
    ensures
        type_bytes(t).len() > 0,
        type_bytes(t)[0] <= 5,
{
}

proof fn lemma_types_bytes_front(ps: Seq<TypeV>)
    requires
        ps.len() > 0,
    ensures
        types_bytes(ps) == type_bytes(ps[0]) + types_bytes(ps.subrange(1, ps.len() as int)),
    decreases ps.len(),
{
    let n = ps.len() as int;
    if n > 1 {
        let init = ps.subrange(0, n - 1);
        lemma_types_bytes_front(init);
        assert(init[0] == ps[0]);
        let tail = ps.subrange(1, n);
        assert(tail.subrange(0, tail.len() - 1) =~= init.subrange(1, init.len() as int));
        assert(tail[tail.len() - 1] == ps[n - 1]);
    } else {
        assert(ps.subrange(1, n) =~= Seq::<TypeV>::empty());
        assert(ps.subrange(0, 0) =~= Seq::<TypeV>::empty());
    }
}

proof fn lemma_u64_bytes_injective(n: u64, m: u64)
    requires
        u64_bytes(n) == u64_bytes(m),
    ensures
        n == m,
{
    let a = u64_bytes(n);
    let b = u64_bytes(m);
    assert(a[0] == b[0] && a[1] == b[1] && a[2] == b[2] && a[3] == b[3] && a[4] == b[4] && a[5] == b[5] && a[6]
        == b[6] && a[7] == b[7]);
    assert((n % 256) == (m % 256));
    assert(((n / 0x100) % 256) == ((m / 0x100) % 256));
    assert(((n / 0x10000) % 256) == ((m / 0x10000) % 256));
    assert(((n / 0x1000000) % 256) == ((m / 0x1000000) % 256));
    assert(((n / 0x100000000) % 256) == ((m / 0x100000000) % 256));
    assert(((n / 0x10000000000) % 256) == ((m / 0x10000000000) % 256));
    assert(((n / 0x1000000000000) % 256) == ((m / 0x1000000000000) % 256));
    assert(((n / 0x100000000000000) % 256) == ((m / 0x100000000000000) % 256));
    assert(n == m) by (bit_vector)
        requires
            (n % 256) == (m % 256),
            ((n / 0x100) % 256) == ((m / 0x100) % 256),
            ((n / 0x10000) % 256) == ((m / 0x10000) % 256),
            ((n / 0x1000000) % 256) == ((m / 0x1000000) % 256),
            ((n / 0x100000000) % 256) == ((m / 0x100000000) % 256),
            ((n / 0x10000000000) % 256) == ((m / 0x10000000000) % 256),
            ((n / 0x1000000000000) % 256) == ((m / 0x1000000000000) % 256),
            ((n / 0x100000000000000) % 256) == ((m / 0x100000000000000) % 256),
    ;
}

/// The bytes of a type, followed by anything, determine the type and what follows.
proof fn lemma_type_bytes_prefix(t1: TypeV, t2: TypeV, r1: Seq<u8>, r2: Seq<u8>)
    requires
        type_bytes(t1) + r1 == type_bytes(t2) + r2,
    ensures
        t1 == t2,
        r1 == r2,
    decreases t1,
{
    let x = type_bytes(t1) + r1;
    let y = type_bytes(t2) + r2;
    assert(x[0] == y[0]);
    match t1 {
        TypeV::Void => {
            assert(r1 =~= x.subrange(1, x.len() as int));
            assert(r2 =~= y.subrange(1, y.len() as int));
        },
        TypeV::Primitive(a) => {
            if let TypeV::Primitive(b) = t2 {
                assert(x[1] == y[1]);
                lemma_rank_injective(a, b);
                assert(r1 =~= x.subrange(2, x.len() as int));
                assert(r2 =~= y.subrange(2, y.len() as int));
            }
        },
        TypeV::Ptr(i1) => {
            if let TypeV::Ptr(i2) = t2 {
                assert(type_bytes(*i1) + r1 =~= x.subrange(1, x.len() as int));
                assert(type_bytes(*i2) + r2 =~= y.subrange(1, y.len() as int));
                lemma_type_bytes_prefix(*i1, *i2, r1, r2);
            }
        },
        TypeV::Slice(i1) => {
            if let TypeV::Slice(i2) = t2 {
                assert(type_bytes(*i1) + r1 =~= x.subrange(1, x.len() as int));
                assert(type_bytes(*i2) + r2 =~= y.subrange(1, y.len() as int));
                lemma_type_bytes_prefix(*i1, *i2, r1, r2);
            }
        },
        TypeV::Array(i1, n1) => {
            if let TypeV::Array(i2, n2) = t2 {
                assert(u64_bytes(n1) =~= x.subrange(1, 9));
                assert(u64_bytes(n2) =~= y.subrange(1, 9));
                lemma_u64_bytes_injective(n1, n2);
                assert(type_bytes(*i1) + r1 =~= x.subrange(9, x.len() as int));
                assert(type_bytes(*i2) + r2 =~= y.subrange(9, y.len() as int));
                lemma_type_bytes_prefix(*i1, *i2, r1, r2);
            }
        },
        TypeV::Func(f1) => {
            if let TypeV::Func(f2) = t2 {
                let tail1 = types_bytes(f1.params).push(0xfe) + r1;
                let tail2 = types_bytes(f2.params).push(0xfe) + r2;
                assert(type_bytes(f1.return_type) + tail1 =~= x.subrange(1, x.len() as int));
                assert(type_bytes(f2.return_type) + tail2 =~= y.subrange(1, y.len() as int));
                lemma_type_bytes_prefix(f1.return_type, f2.return_type, tail1, tail2);
                lemma_params_bytes_prefix(f1.params, f2.params, r1, r2);
                assert(*f1 == *f2);
            }
        },
    }
}

/// The bytes of a list of types closed by `0xfe`, followed by anything, determine the list
/// and what follows.
proof fn lemma_params_bytes_prefix(p1: Seq<TypeV>, p2: Seq<TypeV>, r1: Seq<u8>, r2: Seq<u8>)
    requires
        types_bytes(p1).push(0xfe) + r1 == types_bytes(p2).push(0xfe) + r2,
    ensures
        p1 == p2,
        r1 == r2,
    decreases p1,
{
    let x = types_bytes(p1).push(0xfe) + r1;
    let y = types_bytes(p2).push(0xfe) + r2;
    if p1.len() == 0 {
        assert(types_bytes(p1) =~= Seq::<u8>::empty());
        if p2.len() > 0 {
            lemma_types_bytes_front(p2);
            lemma_type_bytes_start(p2[0]);
            assert(y[0] == type_bytes(p2[0])[0]);
            assert(x[0] == 0xfe);
        } else {
            assert(types_bytes(p2) =~= Seq::<u8>::empty());
            assert(r1 =~= x.subrange(1, x.len() as int));
            assert(r2 =~= y.subrange(1, y.len() as int));
            assert(p1 =~= p2);
        }
    } else {
        lemma_types_bytes_front(p1);
        lemma_type_bytes_start(p1[0]);
        if p2.len() == 0 {
            assert(types_bytes(p2) =~= Seq::<u8>::empty());
            assert(x[0] == type_bytes(p1[0])[0]);
            assert(y[0] == 0xfe);
        } else {
            lemma_types_bytes_front(p2);
            let rest1 = p1.subrange(1, p1.len() as int);
            let rest2 = p2.subrange(1, p2.len() as int);
            let tail1 = types_bytes(rest1).push(0xfe) + r1;
            let tail2 = types_bytes(rest2).push(0xfe) + r2;
            assert(x =~= type_bytes(p1[0]) + tail1);
            assert(y =~= type_bytes(p2[0]) + tail2);
            lemma_type_bytes_prefix(p1[0], p2[0], tail1, tail2);
            lemma_params_bytes_prefix(rest1, rest2, r1, r2);
            assert(p1 =~= seq![p1[0]] + rest1);
            assert(p2 =~= seq![p2[0]] + rest2);
        }
    }
}

/// Distinct types have distinct fingerprint bytes: the bytes name the whole type, element
/// and pointee types, sizes and parameter lists included.
pub proof fn lemma_type_bytes_injective(t1: TypeV, t2: TypeV)
    requires
        type_bytes(t1) == type_bytes(t2),
    ensures
        t1 == t2,
{
    assert(type_bytes(t1) + Seq::<u8>::empty() =~= type_bytes(t1));
    assert(type_bytes(t2) + Seq::<u8>::empty() =~= type_bytes(t2));
    lemma_type_bytes_prefix(t1, t2, Seq::empty(), Seq::empty());
}

// ----- Declaration and definition -----

/// A function that is already declared keeps its type: declaring it again succeeds only as
/// its first definition, with exactly the declared return and parameter types.
pub proof fn lemma_definition_matches_declaration(
    ts: TopState,
    name: Seq<char>,
    rt: AstTypeV,
    params: Seq<ParamV>,
    has_body: bool,
)
    requires
        ts.global.contains_key(name),
    ensures
        ({
            let (ts1, r) = check_func(ts, name, rt, params, has_body);
            r is Ok ==> {
                &&& has_body
                &&& !ts.defined.contains(name)
                &&& ts1.global[name] == ts.global[name]
                &&& resolve(ts.a.named, ts.a.type_map, rt).1 matches Ok(ret) && ts.global[name] matches TypeV::Func(
                    f,
                ) && f.return_type == ret && crate::semantics::resolve_params(
                    ts.a.named,
                    resolve(ts.a.named, ts.a.type_map, rt).0,
                    params,
                    Seq::empty(),
                ).1 == Ok::<Seq<TypeV>, AErrV>(f.params)
            }
        }),
{
}

} // verus!
