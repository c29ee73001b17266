//! The meaning of the analysis: what checking a file computes, as functions on values.
use vstd::prelude::*;

use crate::analysis::{FuncTypeV, Primitive, TypeV, prim_max, type_text};
use crate::ast::{AstTypeV, ExprV, ParamV, StmtV, expr_hash};
use crate::text::{decimal, join};
use crate::token::{TokenV, token_text};

verus! {

/// The mathematical value of an analysis error.
pub enum AErrV {
    NotAType(Seq<char>),
    OnlyFunctionsAtTopLevel,
    AlreadyExists(Seq<char>),
    DoesNotExist(Seq<char>),
    AddressOfNonLvalue,
    UnaryIncompatible { ty: TypeV, op: TokenV },
    AssignToNonLvalue,
    BinaryIncompatible { left: TypeV, right: TypeV, op: TokenV },
    Mismatch { expected: TypeV, got: TypeV },
    NotAFunction,
    ArgCount { expected: nat, got: nat },
    AtNotArray(TypeV),
    AtNotPrimitive(TypeV),
    FuncNotAtTopLevel,
    LetWithoutTypeOrValue,
    IfCondition(TypeV),
    WhileCondition(TypeV),
    Joined(Seq<AErrV>),
}

/// How checking stops: with an error to report, or at a construct that the analysis does
/// not handle (a string literal, or an argument that has no type because its check failed).
pub enum Halt {
    Fail(AErrV),
    Abort,
}

/// The text that reports an analysis error.
pub open spec fn err_text(e: AErrV) -> Seq<char>
    decreases e,
{
    match e {
        AErrV::NotAType(n) => n + " is not a type"@,
        AErrV::OnlyFunctionsAtTopLevel => "only functions are allowed at top level"@,
        AErrV::AlreadyExists(n) => n + " already exists"@,
        AErrV::DoesNotExist(n) => n + " does not exist"@,
        AErrV::AddressOfNonLvalue => "right side of & unary operator must be an lvalue"@,
        AErrV::UnaryIncompatible { ty, op } => "type "@ + type_text(ty) + " is incompatible with unary operator "@
            + token_text(op),
        AErrV::AssignToNonLvalue => "left side of = operator must be an lvalue"@,
        AErrV::BinaryIncompatible { left, right, op } => "types "@ + type_text(left) + " and "@ + type_text(right)
            + " are incompatible with binary operator "@ + token_text(op),
        AErrV::Mismatch { expected, got } => "expected type "@ + type_text(expected) + " but got "@ + type_text(got),
        AErrV::NotAFunction => "left of call expr is not a function"@,
        AErrV::ArgCount { expected, got } => "expected "@ + decimal(expected) + " args but got "@ + decimal(got),
        AErrV::AtNotArray(t) => "at expression expected an array but got "@ + type_text(t),
        AErrV::AtNotPrimitive(t) => "at expression expected a primitive but got "@ + type_text(t),
        AErrV::FuncNotAtTopLevel => "funcs are only allowed at top level"@,
        AErrV::LetWithoutTypeOrValue => "let statement neither has a type nor an assigned value"@,
        AErrV::IfCondition(t) => "if statement condition must be a primitive but instead got "@ + type_text(t),
        AErrV::WhileCondition(t) => "while statement condition must be a primitive but instead got "@ + type_text(t),
        AErrV::Joined(errs) => join(err_texts(errs), "\n"@),
    }
}

pub open spec fn err_texts(errs: Seq<AErrV>) -> Seq<Seq<char>>
    decreases errs,
{
    if errs.len() == 0 {
        Seq::empty()
    } else {
        err_texts(errs.subrange(0, errs.len() - 1)).push(err_text(errs[errs.len() - 1]))
    }
}

/// What the analysis has recorded so far: the named types, the type of every source type
/// resolved, and the type of every expression checked (by fingerprint).
pub struct AState {
    pub named: Map<Seq<char>, TypeV>,
    pub type_map: Map<AstTypeV, TypeV>,
    pub exprs: Map<u64, TypeV>,
}

/// The names in scope, innermost frame last, and the return type of the enclosing function.
pub struct ScopeV {
    pub frames: Seq<Map<Seq<char>, TypeV>>,
    pub ret: TypeV,
}

/// The primitive types, by name.
pub open spec fn primitive_types() -> Map<Seq<char>, TypeV> {
    Map::empty()
        .insert("i8"@, TypeV::Primitive(Primitive::I8))
        .insert("u8"@, TypeV::Primitive(Primitive::U8))
        .insert("i16"@, TypeV::Primitive(Primitive::I16))
        .insert("u16"@, TypeV::Primitive(Primitive::U16))
        .insert("i32"@, TypeV::Primitive(Primitive::I32))
        .insert("u32"@, TypeV::Primitive(Primitive::U32))
        .insert("i64"@, TypeV::Primitive(Primitive::I64))
        .insert("u64"@, TypeV::Primitive(Primitive::U64))
        .insert("f32"@, TypeV::Primitive(Primitive::F32))
        .insert("f64"@, TypeV::Primitive(Primitive::F64))
}

/// Turns a source type into a type, recording in `tm` every part that resolves.
pub open spec fn resolve(named: Map<Seq<char>, TypeV>, tm: Map<AstTypeV, TypeV>, t: AstTypeV) -> (
    Map<AstTypeV, TypeV>,
    Result<TypeV, AErrV>,
)
    decreases t,
{
    match t {
        AstTypeV::Void => (tm.insert(t, TypeV::Void), Ok(TypeV::Void)),
        AstTypeV::Named(n) => if named.contains_key(n) {
            (tm.insert(t, named[n]), Ok(named[n]))
        } else {
            (tm, Err(AErrV::NotAType(n)))
        },
        AstTypeV::Ptr(i) => {
            let (tm1, r) = resolve(named, tm, *i);
            match r {
                Ok(ti) => (tm1.insert(t, TypeV::Ptr(Box::new(ti))), Ok(TypeV::Ptr(Box::new(ti)))),
                Err(e) => (tm1, Err(e)),
            }
        },
        AstTypeV::Array(i, n) => {
            let (tm1, r) = resolve(named, tm, *i);
            match r {
                Ok(ti) => (tm1.insert(t, TypeV::Array(Box::new(ti), n)), Ok(TypeV::Array(Box::new(ti), n))),
                Err(e) => (tm1, Err(e)),
            }
        },
        AstTypeV::Slice(i) => {
            let (tm1, r) = resolve(named, tm, *i);
            match r {
                Ok(ti) => (tm1.insert(t, TypeV::Slice(Box::new(ti))), Ok(TypeV::Slice(Box::new(ti)))),
                Err(e) => (tm1, Err(e)),
            }
        },
    }
}

/// The type a name has in scope: its binding in the innermost frame that has it.
pub open spec fn lookup(frames: Seq<Map<Seq<char>, TypeV>>, name: Seq<char>) -> Option<TypeV>
    decreases frames.len(),
{
    if frames.len() == 0 {
        None
    } else if frames.last().contains_key(name) {
        Some(frames.last()[name])
    } else {
        lookup(frames.drop_last(), name)
    }
}

/// Whether the innermost frame binds `name`.
pub open spec fn local_contains(sc: ScopeV, name: Seq<char>) -> bool {
    sc.frames.len() > 0 && sc.frames.last().contains_key(name)
}

/// The scope with `name` bound to `t` in the innermost frame.
pub open spec fn scope_add(sc: ScopeV, name: Seq<char>, t: TypeV) -> ScopeV {
    ScopeV { frames: sc.frames.update(sc.frames.len() - 1, sc.frames.last().insert(name, t)), ret: sc.ret }
}

/// A new innermost frame.
pub open spec fn scope_child(sc: ScopeV) -> ScopeV {
    ScopeV { frames: sc.frames.push(Map::empty()), ret: sc.ret }
}

/// Records the type of an expression.
pub open spec fn record(st: AState, e: ExprV, t: TypeV) -> AState {
    AState { named: st.named, type_map: st.type_map, exprs: st.exprs.insert(expr_hash(e), t) }
}

/// An expression that denotes a place: a name, a dereference, or an element of an array.
pub open spec fn is_lvalue(e: ExprV) -> bool {
    match e {
        ExprV::Ident { .. } => true,
        ExprV::Unary { op, .. } => op is Asterisk,
        ExprV::At { .. } => true,
        _ => false,
    }
}

/// The type of a prefix operation whose operand `right` has type `rt`.
pub open spec fn unary_type(op: TokenV, right: ExprV, rt: TypeV) -> Result<TypeV, AErrV> {
    if op is Ampersand {
        if is_lvalue(right) {
            Ok(TypeV::Ptr(Box::new(rt)))
        } else {
            Err(AErrV::AddressOfNonLvalue)
        }
    } else if op is Asterisk && rt is Ptr {
        match rt {
            TypeV::Ptr(inner) => Ok(*inner),
            _ => Ok(rt),
        }
    } else if rt is Primitive && !(op is Asterisk) {
        Ok(rt)
    } else {
        Err(AErrV::UnaryIncompatible { ty: rt, op })
    }
}

/// The type of a binary operation with operands of types `lt` and `rt`.
pub open spec fn binary_type(op: TokenV, left: ExprV, lt: TypeV, rt: TypeV) -> Result<TypeV, AErrV> {
    match (lt, rt) {
        (TypeV::Primitive(a), TypeV::Primitive(b)) if !(op is Assign) => Ok(TypeV::Primitive(prim_max(a, b))),
        _ => if op is Assign && lt == rt {
            if is_lvalue(left) {
                Ok(rt)
            } else {
                Err(AErrV::AssignToNonLvalue)
            }
        } else {
            Err(AErrV::BinaryIncompatible { left: lt, right: rt, op })
        },
    }
}

/// A value of type `got` used where `expected` is needed: equal types match, and any
/// primitive converts to another primitive.
pub open spec fn coerce(expected: TypeV, got: TypeV) -> Result<TypeV, AErrV> {
    if expected == got {
        Ok(expected)
    } else if expected is Primitive && got is Primitive {
        Ok(expected)
    } else {
        Err(AErrV::Mismatch { expected, got })
    }
}

/// Checks an expression in a scope, recording the type of it and of its parts.
pub open spec fn check_expr(st: AState, sc: ScopeV, e: ExprV) -> (AState, Result<TypeV, Halt>)
    decreases e, 1nat,
{
    match e {
        ExprV::Ident { value, .. } => match lookup(sc.frames, value) {
            None => (st, Err(Halt::Fail(AErrV::DoesNotExist(value)))),
            Some(t) => (record(st, e, t), Ok(t)),
        },
        ExprV::Int { .. } => (record(st, e, TypeV::Primitive(Primitive::I32)), Ok(TypeV::Primitive(Primitive::I32))),
        ExprV::Str { .. } => (st, Err(Halt::Abort)),
        ExprV::Unary { .. } => check_unary(st, sc, e),
        ExprV::Binary { .. } => check_binary(st, sc, e),
        ExprV::Call { .. } => check_call(st, sc, e),
        ExprV::At { .. } => check_at(st, sc, e),
    }
}

/// Checks a prefix operation: its operand, then the operator against the operand's type.
pub open spec fn check_unary(st: AState, sc: ScopeV, e: ExprV) -> (AState, Result<TypeV, Halt>)
    decreases e, 0nat,
{
    match e {
        ExprV::Unary { op, right } => {
            let (st1, r) = check_expr(st, sc, *right);
            match r {
                Err(h) => (st1, Err(h)),
                Ok(_) => match unary_type(op, *right, st1.exprs[expr_hash(*right)]) {
                    Ok(t) => (record(st1, e, t), Ok(t)),
                    Err(x) => (st1, Err(Halt::Fail(x))),
                },
            }
        },
        _ => (st, Err(Halt::Abort)),
    }
}

/// Checks a binary operation: the left operand, the right one, then the operator.
pub open spec fn check_binary(st: AState, sc: ScopeV, e: ExprV) -> (AState, Result<TypeV, Halt>)
    decreases e, 0nat,
{
    match e {
        ExprV::Binary { op, left, right } => {
            let (st1, r1) = check_expr(st, sc, *left);
            match r1 {
                Err(h) => (st1, Err(h)),
                Ok(_) => {
                    let (st2, r2) = check_expr(st1, sc, *right);
                    match r2 {
                        Err(h) => (st2, Err(h)),
                        Ok(_) => match binary_type(
                            op,
                            *left,
                            st2.exprs[expr_hash(*left)],
                            st2.exprs[expr_hash(*right)],
                        ) {
                            Ok(t) => (record(st2, e, t), Ok(t)),
                            Err(x) => (st2, Err(Halt::Fail(x))),
                        },
                    }
                },
            }
        },
        _ => (st, Err(Halt::Abort)),
    }
}

/// Checks a call: the callee must be a function taking as many arguments as given; every
/// argument is checked and matched against its parameter, and all their errors are reported
/// together. The call's type (the return type) is recorded even when an argument fails.
pub open spec fn check_call(st: AState, sc: ScopeV, e: ExprV) -> (AState, Result<TypeV, Halt>)
    decreases e, 0nat,
{
    match e {
        ExprV::Call { func, args } => {
            let (st1, r) = check_expr(st, sc, *func);
            match r {
                Err(h) => (st1, Err(h)),
                Ok(_) => match st1.exprs[expr_hash(*func)] {
                    TypeV::Func(f) => if args.len() != f.params.len() {
                        (st1, Err(Halt::Fail(AErrV::ArgCount { expected: f.params.len(), got: args.len() })))
                    } else {
                        finish_call(e, f.return_type, check_args(st1, sc, args, f.params, Seq::empty()))
                    },
                    _ => (st1, Err(Halt::Fail(AErrV::NotAFunction))),
                },
            }
        },
        _ => (st, Err(Halt::Abort)),
    }
}

/// The end of a call, after its arguments were checked: the call's type (the return type) is
/// recorded even when an argument failed, and the argument errors are reported together.
pub open spec fn finish_call(e: ExprV, ret: TypeV, args_res: (AState, Result<Seq<AErrV>, Halt>)) -> (
    AState,
    Result<TypeV, Halt>,
) {
    let (st2, ra) = args_res;
    match ra {
        Err(h) => (st2, Err(h)),
        Ok(errs) => {
            let st3 = record(st2, e, ret);
            if errs.len() == 0 {
                (st3, Ok(ret))
            } else {
                (st3, Err(Halt::Fail(AErrV::Joined(errs))))
            }
        },
    }
}

/// Checks an element access: the left side must be an array, the index primitive.
pub open spec fn check_at(st: AState, sc: ScopeV, e: ExprV) -> (AState, Result<TypeV, Halt>)
    decreases e, 0nat,
{
    match e {
        ExprV::At { left, right } => {
            let (st1, r1) = check_expr(st, sc, *left);
            match r1 {
                Err(h) => (st1, Err(h)),
                Ok(_) => {
                    let (st2, r2) = check_expr(st1, sc, *right);
                    match r2 {
                        Err(h) => (st2, Err(h)),
                        Ok(_) => match st2.exprs[expr_hash(*left)] {
                            TypeV::Array(inner, _) => match st2.exprs[expr_hash(*right)] {
                                TypeV::Primitive(_) => (record(st2, e, *inner), Ok(*inner)),
                                rt => (st2, Err(Halt::Fail(AErrV::AtNotPrimitive(rt)))),
                            },
                            lt => (st2, Err(Halt::Fail(AErrV::AtNotArray(lt)))),
                        },
                    }
                },
            }
        },
        _ => (st, Err(Halt::Abort)),
    }
}

/// A successful check records the expression's type.
pub proof fn lemma_check_records(st: AState, sc: ScopeV, e: ExprV)
    ensures
        ({
            let (st1, r) = check_expr(st, sc, e);
            r matches Ok(t) ==> st1.exprs.contains_key(expr_hash(e)) && st1.exprs[expr_hash(e)] == t
        }),
{
}

/// Checking only adds to what has been recorded: earlier expression types stay recorded
/// (possibly with a new type), and named types and resolved source types do not change.
pub proof fn lemma_check_grows(st: AState, sc: ScopeV, e: ExprV)
    ensures
        ({
            let (st1, _) = check_expr(st, sc, e);
            &&& st1.named == st.named
            &&& st1.type_map == st.type_map
            &&& st.exprs.dom().subset_of(st1.exprs.dom())
        }),
    decreases e, 1nat,
{
    match e {
        ExprV::Unary { op, right } => {
            lemma_check_grows(st, sc, *right);
        },
        ExprV::Binary { op, left, right } => {
            lemma_check_grows(st, sc, *left);
            let (st1, _) = check_expr(st, sc, *left);
            lemma_check_grows(st1, sc, *right);
        },
        ExprV::At { left, right } => {
            lemma_check_grows(st, sc, *left);
            let (st1, _) = check_expr(st, sc, *left);
            lemma_check_grows(st1, sc, *right);
        },
        ExprV::Call { func, args } => {
            lemma_check_grows(st, sc, *func);
            let (st1, r) = check_expr(st, sc, *func);
            if r is Ok {
                if let TypeV::Func(f) = st1.exprs[expr_hash(*func)] {
                    if args.len() == f.params.len() {
                        lemma_args_grow(st1, sc, args, f.params, Seq::empty());
                        let res = check_args(st1, sc, args, f.params, Seq::empty());
                        lemma_call_unfold(st, sc, e);
                    }
                }
            }
        },
        _ => {},
    }
}

/// What checking a call computes once its callee checked as a function taking as many
/// parameters as the call has arguments.
pub proof fn lemma_call_unfold(st: AState, sc: ScopeV, e: ExprV)
    requires
        e is Call,
    ensures
        ({
            let (st1, r) = check_expr(st, sc, *e->Call_func);
            r is Ok && st1.exprs[expr_hash(*e->Call_func)] is Func ==> {
                let f = st1.exprs[expr_hash(*e->Call_func)]->Func_0;
                e->Call_args.len() == f.params.len() ==> check_call(st, sc, e) == finish_call(
                    e,
                    f.return_type,
                    check_args(st1, sc, e->Call_args, f.params, Seq::empty()),
                )
            }
        }),
{
    let func = *e->Call_func;
    let args = e->Call_args;
    let (st1, r) = check_expr(st, sc, func);
    if r is Ok && st1.exprs[expr_hash(func)] is Func {
        let f = st1.exprs[expr_hash(func)]->Func_0;
        assert(e == ExprV::Call { func: Box::new(func), args });
        if args.len() == f.params.len() {
            assert(check_call(st, sc, e) == finish_call(e, f.return_type, check_args(st1, sc, args, f.params, Seq::empty())));
        }
    }
}

/// Checking arguments only adds to what has been recorded.
pub proof fn lemma_args_grow(st: AState, sc: ScopeV, args: Seq<ExprV>, params: Seq<TypeV>, errs: Seq<AErrV>)
    ensures
        ({
            let (st1, _) = check_args(st, sc, args, params, errs);
            &&& st1.named == st.named
            &&& st1.type_map == st.type_map
            &&& st.exprs.dom().subset_of(st1.exprs.dom())
        }),
    decreases args, 0nat,
{
    if args.len() > 0 && params.len() > 0 {
        lemma_check_grows(st, sc, args[0]);
        let (st1, r) = check_expr(st, sc, args[0]);
        let errs1 = match r {
            Err(Halt::Fail(x)) => errs.push(x),
            _ => errs,
        };
        let h = expr_hash(args[0]);
        if st1.exprs.contains_key(h) {
            let errs2 = match coerce(params[0], st1.exprs[h]) {
                Err(x) => errs1.push(x),
                Ok(_) => errs1,
            };
            lemma_args_grow(st1, sc, args.subrange(1, args.len() as int), params.subrange(1, params.len() as int), errs2);
        }
    }
}

/// Checks call arguments against parameter types, one by one, collecting errors after `errs`.
pub open spec fn check_args(st: AState, sc: ScopeV, args: Seq<ExprV>, params: Seq<TypeV>, errs: Seq<AErrV>) -> (
    AState,
    Result<Seq<AErrV>, Halt>,
)
    decreases args, 0nat,
{
    if args.len() == 0 || params.len() == 0 {
        (st, Ok(errs))
    } else {
        let (st1, r) = check_expr(st, sc, args[0]);
        match r {
            Err(Halt::Abort) => (st1, Err(Halt::Abort)),
            _ => {
                let errs1 = match r {
                    Err(Halt::Fail(x)) => errs.push(x),
                    _ => errs,
                };
                let h = expr_hash(args[0]);
                if !st1.exprs.contains_key(h) {
                    (st1, Err(Halt::Abort))
                } else {
                    let errs2 = match coerce(params[0], st1.exprs[h]) {
                        Err(x) => errs1.push(x),
                        Ok(_) => errs1,
                    };
                    check_args(st1, sc, args.subrange(1, args.len() as int), params.subrange(1, params.len() as int), errs2)
                }
            },
        }
    }
}

/// One argument of a call: check it, then match its type against the parameter's. `Ok`
/// carries the errors so far; `Err` stops the call.
pub open spec fn arg_step(st: AState, sc: ScopeV, arg: ExprV, param: TypeV, errs: Seq<AErrV>) -> (
    AState,
    Result<Seq<AErrV>, Halt>,
) {
    let (st1, r) = check_expr(st, sc, arg);
    match r {
        Err(Halt::Abort) => (st1, Err(Halt::Abort)),
        _ => {
            let errs1 = match r {
                Err(Halt::Fail(x)) => errs.push(x),
                _ => errs,
            };
            let h = expr_hash(arg);
            if !st1.exprs.contains_key(h) {
                (st1, Err(Halt::Abort))
            } else {
                match coerce(param, st1.exprs[h]) {
                    Err(x) => (st1, Ok(errs1.push(x))),
                    Ok(_) => (st1, Ok(errs1)),
                }
            }
        },
    }
}

/// Checking a non-empty argument list is one step, then the rest.
pub proof fn lemma_args_step(st: AState, sc: ScopeV, args: Seq<ExprV>, params: Seq<TypeV>, errs: Seq<AErrV>)
    requires
        args.len() > 0,
        params.len() > 0,
    ensures
        check_args(st, sc, args, params, errs) == ({
            let (st1, r) = arg_step(st, sc, args[0], params[0], errs);
            match r {
                Err(h) => (st1, Err(h)),
                Ok(errs2) => check_args(
                    st1,
                    sc,
                    args.subrange(1, args.len() as int),
                    params.subrange(1, params.len() as int),
                    errs2,
                ),
            }
        }),
{
}

/// Checking no arguments records nothing and adds no error.
pub proof fn lemma_args_done(st: AState, sc: ScopeV, args: Seq<ExprV>, params: Seq<TypeV>, errs: Seq<AErrV>)
    requires
        args.len() == 0 || params.len() == 0,
    ensures
        check_args(st, sc, args, params, errs) == (st, Ok::<Seq<AErrV>, Halt>(errs)),
{
}

/// Checks `let name [: ty] [= value]`, binding `name` in the innermost frame.
pub open spec fn check_let(st: AState, sc: ScopeV, name: Seq<char>, ty: Option<AstTypeV>, value: Option<ExprV>) -> (
    AState,
    ScopeV,
    Result<(), Halt>,
) {
    let (tm1, declared) = match ty {
        Some(t) => {
            let (tm1, r) = resolve(st.named, st.type_map, t);
            match r {
                Ok(d) => (tm1, Ok(Some(d))),
                Err(x) => (tm1, Err(x)),
            }
        },
        None => (st.type_map, Ok(None)),
    };
    let st1 = AState { named: st.named, type_map: tm1, exprs: st.exprs };
    match declared {
        Err(x) => (st1, sc, Err(Halt::Fail(x))),
        Ok(declared) => {
            let (st2, value_ty) = match value {
                Some(v) => {
                    let (st2, r) = check_expr(st1, sc, v);
                    match r {
                        Err(h) => (st2, Err(h)),
                        Ok(_) => (st2, Ok(Some(st2.exprs[expr_hash(v)]))),
                    }
                },
                None => (st1, Ok(None)),
            };
            match value_ty {
                Err(h) => (st2, sc, Err(h)),
                Ok(value_ty) => {
                    let compat: Result<(), AErrV> = match (declared, value_ty) {
                        (Some(d), Some(g)) => match coerce(d, g) {
                            Ok(_) => Ok(()),
                            Err(x) => Err(x),
                        },
                        (None, None) => Err(AErrV::LetWithoutTypeOrValue),
                        _ => Ok(()),
                    };
                    match compat {
                        Err(x) => (st2, sc, Err(Halt::Fail(x))),
                        Ok(_) => if local_contains(sc, name) {
                            (st2, sc, Err(Halt::Fail(AErrV::AlreadyExists(name))))
                        } else {
                            let t = match declared {
                                Some(d) => d,
                                None => value_ty.unwrap(),
                            };
                            (st2, scope_add(sc, name, t), Ok(()))
                        },
                    }
                },
            }
        },
    }
}

/// Checks `if` and `while` conditions: the condition must have a primitive type.
pub open spec fn check_cond(st: AState, sc: ScopeV, cond: ExprV, is_while: bool) -> (AState, Result<(), Halt>) {
    let (st1, r) = check_expr(st, sc, cond);
    match r {
        Err(h) => (st1, Err(h)),
        Ok(_) => match st1.exprs[expr_hash(cond)] {
            TypeV::Primitive(_) => (st1, Ok(())),
            t => (st1, Err(Halt::Fail(if is_while { AErrV::WhileCondition(t) } else { AErrV::IfCondition(t) }))),
        },
    }
}

/// Checks a statement inside a function body.
pub open spec fn check_stmt(st: AState, sc: ScopeV, s: StmtV) -> (AState, ScopeV, Result<(), Halt>)
    decreases s,
{
    match s {
        StmtV::Let { name, ty, value } => check_let(st, sc, name, ty, value),
        StmtV::Return { value } => {
            let (st1, r) = check_expr(st, sc, value);
            match r {
                Err(h) => (st1, sc, Err(h)),
                Ok(_) => match coerce(sc.ret, st1.exprs[expr_hash(value)]) {
                    Ok(_) => (st1, sc, Ok(())),
                    Err(x) => (st1, sc, Err(Halt::Fail(x))),
                },
            }
        },
        StmtV::If { cond, then, else_then } => {
            let (st1, r) = check_cond(st, sc, cond, false);
            match r {
                Err(h) => (st1, sc, Err(h)),
                Ok(_) => {
                    let (st2, _, r2) = check_block(st1, scope_child(sc), then);
                    match r2 {
                        Err(h) => (st2, sc, Err(h)),
                        Ok(_) => {
                            let (st3, _, r3) = check_block(st2, scope_child(sc), else_then);
                            (st3, sc, r3)
                        },
                    }
                },
            }
        },
        StmtV::While { cond, block } => {
            let (st1, r) = check_cond(st, sc, cond, true);
            match r {
                Err(h) => (st1, sc, Err(h)),
                Ok(_) => {
                    let (st2, _, r2) = check_block(st1, scope_child(sc), block);
                    (st2, sc, r2)
                },
            }
        },
        StmtV::Func { .. } => (st, sc, Err(Halt::Fail(AErrV::FuncNotAtTopLevel))),
        StmtV::Expr { value } => {
            let (st1, r) = check_expr(st, sc, value);
            match r {
                Err(h) => (st1, sc, Err(h)),
                Ok(_) => (st1, sc, Ok(())),
            }
        },
    }
}

/// Checks statements in order, stopping at the first that fails.
pub open spec fn check_block(st: AState, sc: ScopeV, b: Seq<StmtV>) -> (AState, ScopeV, Result<(), Halt>)
    decreases b,
{
    if b.len() == 0 {
        (st, sc, Ok(()))
    } else {
        let (st1, sc1, r) = check_stmt(st, sc, b[0]);
        match r {
            Err(h) => (st1, sc1, Err(h)),
            Ok(_) => check_block(st1, sc1, b.subrange(1, b.len() as int)),
        }
    }
}

/// What checking the top level builds: the analysis state, the global names, the function
/// types by name, and the names of the functions that have a body.
pub struct TopState {
    pub a: AState,
    pub global: Map<Seq<char>, TypeV>,
    pub funcs: Map<Seq<char>, FuncTypeV>,
    pub defined: Set<Seq<char>>,
}

/// Resolves parameter types in order, after the types already in `acc`.
pub open spec fn resolve_params(named: Map<Seq<char>, TypeV>, tm: Map<AstTypeV, TypeV>, params: Seq<ParamV>, acc: Seq<TypeV>) -> (
    Map<AstTypeV, TypeV>,
    Result<Seq<TypeV>, AErrV>,
)
    decreases params.len(),
{
    if params.len() == 0 {
        (tm, Ok(acc))
    } else {
        let (tm1, r) = resolve(named, tm, params[0].ty);
        match r {
            Err(e) => (tm1, Err(e)),
            Ok(t) => resolve_params(named, tm1, params.subrange(1, params.len() as int), acc.push(t)),
        }
    }
}

/// The first parameter name that repeats an earlier one, looking from position `i` on.
pub open spec fn first_duplicate(params: Seq<ParamV>, i: nat) -> Option<Seq<char>>
    decreases params.len() - i,
{
    if i >= params.len() {
        None
    } else if exists|j: int| 0 <= j < i && params[j].name == params[i as int].name {
        Some(params[i as int].name)
    } else {
        first_duplicate(params, i + 1)
    }
}

/// Whether a declaration of `name` with type `f` clashes with what is already global: a name
/// may be taken again only by the definition (with a body) of a function declared before with
/// the same type and not yet defined.
pub open spec fn clashes(ts: TopState, name: Seq<char>, f: FuncTypeV, has_body: bool) -> bool {
    ts.global.contains_key(name) && !(ts.global[name] == TypeV::Func(Box::new(f)) && has_body
        && !ts.defined.contains(name))
}

/// Checks a function's signature and declares it.
pub open spec fn check_func(ts: TopState, name: Seq<char>, rt: AstTypeV, params: Seq<ParamV>, has_body: bool) -> (
    TopState,
    Result<(), AErrV>,
) {
    let (tm1, r) = resolve(ts.a.named, ts.a.type_map, rt);
    let a1 = AState { named: ts.a.named, type_map: tm1, exprs: ts.a.exprs };
    let ts1 = TopState { a: a1, global: ts.global, funcs: ts.funcs, defined: ts.defined };
    match r {
        Err(e) => (ts1, Err(e)),
        Ok(ret) => {
            let (tm2, rp) = resolve_params(ts.a.named, tm1, params, Seq::empty());
            let a2 = AState { named: ts.a.named, type_map: tm2, exprs: ts.a.exprs };
            let ts2 = TopState { a: a2, global: ts.global, funcs: ts.funcs, defined: ts.defined };
            match rp {
                Err(e) => (ts2, Err(e)),
                Ok(ptys) => {
                    let f = FuncTypeV { return_type: ret, params: ptys };
                    if clashes(ts2, name, f, has_body) {
                        (ts2, Err(AErrV::AlreadyExists(name)))
                    } else {
                        match first_duplicate(params, 0) {
                            Some(p) => (ts2, Err(AErrV::AlreadyExists(p))),
                            None => (
                                TopState {
                                    a: a2,
                                    global: ts.global.insert(name, TypeV::Func(Box::new(f))),
                                    funcs: ts.funcs.insert(name, f),
                                    defined: if has_body { ts.defined.insert(name) } else { ts.defined },
                                },
                                Ok(()),
                            ),
                        }
                    }
                },
            }
        },
    }
}

/// Checks the top-level statements in order: each must be a function, which is declared.
pub open spec fn check_top_level(ts: TopState, body: Seq<StmtV>) -> (TopState, Result<(), AErrV>)
    decreases body.len(),
{
    if body.len() == 0 {
        (ts, Ok(()))
    } else {
        match body[0] {
            StmtV::Func { name, return_type, params, body: b } => {
                let (ts1, r) = check_func(ts, name, return_type, params, b is Some);
                match r {
                    Err(e) => (ts1, Err(e)),
                    Ok(_) => check_top_level(ts1, body.subrange(1, body.len() as int)),
                }
            },
            _ => (ts, Err(AErrV::OnlyFunctionsAtTopLevel)),
        }
    }
}

/// The frame of a function's parameters: the first `n` names bound to the first `n` types.
pub open spec fn params_frame(params: Seq<ParamV>, types: Seq<TypeV>, n: nat) -> Map<Seq<char>, TypeV>
    decreases n,
{
    if n == 0 {
        Map::empty()
    } else {
        params_frame(params, types, (n - 1) as nat).insert(params[n - 1].name, types[n - 1])
    }
}

/// The smaller of two counts.
pub open spec fn min_len(a: nat, b: nat) -> nat {
    if a <= b { a } else { b }
}

/// The scope of a function body: the global names, then the parameters.
pub open spec fn body_scope(global: Map<Seq<char>, TypeV>, f: FuncTypeV, params: Seq<ParamV>) -> ScopeV {
    ScopeV {
        frames: seq![global, params_frame(params, f.params, min_len(params.len(), f.params.len()))],
        ret: f.return_type,
    }
}

/// Checks the bodies of the top-level functions in order, collecting the errors after `errs`.
pub open spec fn check_func_bodies(st: AState, global: Map<Seq<char>, TypeV>, body: Seq<StmtV>, errs: Seq<AErrV>) -> (
    AState,
    Result<Seq<AErrV>, Halt>,
)
    decreases body.len(),
{
    if body.len() == 0 {
        (st, Ok(errs))
    } else {
        match body[0] {
            StmtV::Func { name, params, body: b, .. } => match b {
                None => check_func_bodies(st, global, body.subrange(1, body.len() as int), errs),
                Some(stmts) => if global.contains_key(name) && global[name] is Func {
                    let f = match global[name] {
                        TypeV::Func(f) => *f,
                        _ => FuncTypeV { return_type: TypeV::Void, params: Seq::empty() },
                    };
                    let (st1, _, r) = check_block(st, body_scope(global, f, params), stmts);
                    match r {
                        Err(Halt::Abort) => (st1, Err(Halt::Abort)),
                        Err(Halt::Fail(x)) => check_func_bodies(st1, global, body.subrange(1, body.len() as int), errs.push(x)),
                        Ok(_) => check_func_bodies(st1, global, body.subrange(1, body.len() as int), errs),
                    }
                } else {
                    (st, Err(Halt::Abort))
                },
            },
            _ => (st, Err(Halt::Abort)),
        }
    }
}

/// Whether `t` is `r` or a part of it (a return or parameter type, or an element or pointee type).
pub open spec fn is_part(t: TypeV, r: TypeV) -> bool
    decreases r,
{
    t == r || match r {
        TypeV::Func(f) => is_part(t, f.return_type) || is_part_any(t, f.params),
        TypeV::Ptr(i) => is_part(t, *i),
        TypeV::Array(i, _) => is_part(t, *i),
        TypeV::Slice(i) => is_part(t, *i),
        _ => false,
    }
}

/// Whether `t` is a part of one of the types.
pub open spec fn is_part_any(t: TypeV, s: Seq<TypeV>) -> bool
    decreases s,
{
    s.len() > 0 && (is_part(t, s[0]) || is_part_any(t, s.subrange(1, s.len() as int)))
}

/// The given types and all their parts.
pub open spec fn parts_closure(roots: Set<TypeV>) -> Set<TypeV> {
    Set::new(|t: TypeV| exists|r: TypeV| roots.contains(r) && is_part(t, r))
}

/// Every part of a member is a member.
pub open spec fn closed_under_parts(s: Set<TypeV>) -> bool {
    forall|u: TypeV, t: TypeV| s.contains(u) && is_part(t, u) ==> s.contains(t)
}

/// The types directly inside a type: a function's return type and parameter types, or the
/// element or pointee type.
pub open spec fn direct_parts(t: TypeV) -> Seq<TypeV> {
    match t {
        TypeV::Func(f) => seq![f.return_type] + f.params,
        TypeV::Ptr(i) => seq![*i],
        TypeV::Array(i, _) => seq![*i],
        TypeV::Slice(i) => seq![*i],
        _ => Seq::empty(),
    }
}

/// `t` is a part of some type of the list exactly when it is a part of one of them.
pub proof fn lemma_part_any(t: TypeV, s: Seq<TypeV>)
    ensures
        is_part_any(t, s) <==> exists|k: int| 0 <= k < s.len() && is_part(t, s[k]),
    decreases s.len(),
{
    if s.len() > 0 {
        let rest = s.subrange(1, s.len() as int);
        lemma_part_any(t, rest);
        if is_part_any(t, rest) {
            let k = choose|k: int| 0 <= k < rest.len() && is_part(t, rest[k]);
            assert(rest[k] == s[k + 1]);
        }
        if exists|k: int| 0 <= k < s.len() && is_part(t, s[k]) {
            let k = choose|k: int| 0 <= k < s.len() && is_part(t, s[k]);
            if k > 0 {
                assert(rest[k - 1] == s[k]);
            }
        }
    }
}

/// A part of `t` is `t` itself or a part of a type directly inside `t`.
pub proof fn lemma_part_unfold(x: TypeV, t: TypeV)
    ensures
        is_part(x, t) <==> (x == t || exists|k: int|
            0 <= k < direct_parts(t).len() && is_part(x, #[trigger] direct_parts(t)[k])),
{
    let dp = direct_parts(t);
    match t {
        TypeV::Func(f) => {
            lemma_part_any(x, f.params);
            assert(dp[0] == f.return_type);
            assert forall|k: int| 0 <= k < f.params.len() implies dp[k + 1] == f.params[k] by {}
            if exists|k: int| 0 <= k < dp.len() && is_part(x, dp[k]) {
                let k = choose|k: int| 0 <= k < dp.len() && is_part(x, dp[k]);
                if k > 0 {
                    assert(dp[k] == f.params[k - 1]);
                }
            }
        },
        TypeV::Ptr(i) => {
            assert(dp[0] == *i);
        },
        TypeV::Array(i, _) => {
            assert(dp[0] == *i);
        },
        TypeV::Slice(i) => {
            assert(dp[0] == *i);
        },
        _ => {},
    }
}

/// The parts of a type are the type itself and the parts of the types directly inside it.
pub proof fn lemma_closure_of_one(t: TypeV)
    ensures
        parts_closure(set![t]) == set![t] + parts_closure(direct_parts(t).to_set()),
{
    let dp = direct_parts(t);
    assert forall|x: TypeV| parts_closure(set![t]).contains(x) implies (set![t] + parts_closure(dp.to_set())).contains(
        x,
    ) by {
        lemma_part_unfold(x, t);
        if x != t {
            let k = choose|k: int| 0 <= k < dp.len() && is_part(x, #[trigger] dp[k]);
            assert(dp.to_set().contains(dp[k]));
        }
    }
    assert forall|x: TypeV| (set![t] + parts_closure(dp.to_set())).contains(x) implies parts_closure(set![t]).contains(
        x,
    ) by {
        lemma_part_unfold(x, t);
        if x != t {
            let r = choose|r: TypeV| dp.to_set().contains(r) && is_part(x, r);
            let k = choose|k: int| 0 <= k < dp.len() && dp[k] == r;
            assert(is_part(x, dp[k]));
        }
        assert(set![t].contains(t));
    }
    assert(parts_closure(set![t]) =~= set![t] + parts_closure(dp.to_set()));
}

/// The parts of the types of a union are the parts of the types of either side.
pub proof fn lemma_closure_union(a: Set<TypeV>, b: Set<TypeV>)
    ensures
        parts_closure(a + b) == parts_closure(a) + parts_closure(b),
{
    assert(parts_closure(a + b) =~= parts_closure(a) + parts_closure(b));
}

/// A set closed under parts holds every part of each of its members.
pub proof fn lemma_closed_holds_parts(s: Set<TypeV>, roots: Set<TypeV>)
    requires
        closed_under_parts(s),
        roots.subset_of(s),
    ensures
        parts_closure(roots).subset_of(s),
{
}

/// The mathematical value of a finished analysis.
pub struct AnalysisV {
    pub named: Map<Seq<char>, TypeV>,
    pub type_map: Map<AstTypeV, TypeV>,
    pub exprs: Map<u64, TypeV>,
    pub funcs: Map<Seq<char>, FuncTypeV>,
    pub used: Set<TypeV>,
}

/// The analysis state at the start: the primitive types and nothing else.
pub open spec fn initial_state() -> AState {
    AState { named: primitive_types(), type_map: Map::empty(), exprs: Map::empty() }
}

/// The types that code generation needs: those of the global names, of the expressions
/// and of the source types, with all their parts.
pub open spec fn used_types(global: Map<Seq<char>, TypeV>, st: AState) -> Set<TypeV> {
    parts_closure(global.values() + st.exprs.values() + st.type_map.values())
}

/// Analyses a file: declares the top-level functions, checks their bodies (reporting the
/// errors of all bodies together), and collects the types used.
pub open spec fn analyze(file: Seq<StmtV>) -> Result<AnalysisV, Halt> {
    let ts0 = TopState { a: initial_state(), global: Map::empty(), funcs: Map::empty(), defined: Set::empty() };
    let (ts, r) = check_top_level(ts0, file);
    match r {
        Err(e) => Err(Halt::Fail(e)),
        Ok(_) => {
            let (st, rb) = check_func_bodies(ts.a, ts.global, file, Seq::empty());
            match rb {
                Err(h) => Err(h),
                Ok(errs) => if errs.len() > 0 {
                    Err(Halt::Fail(AErrV::Joined(errs)))
                } else {
                    Ok(AnalysisV {
                        named: st.named,
                        type_map: st.type_map,
                        exprs: st.exprs,
                        funcs: ts.funcs,
                        used: used_types(ts.global, st),
                    })
                },
            }
        },
    }
}

} // verus!
