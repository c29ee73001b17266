//! Code generation: a checked file becomes C.
use vstd::prelude::*;

use crate::analysis::{Analysis, FuncType, Type, TypeV, lemma_types_view, type_set, types_view};
use crate::ast::{BlockStmt, Expression, File, FuncParam, Statement, exprs_view, lemma_exprs_view, lemma_stmts_view,
    params_view, stmts_view};
use crate::emit::{
    all_c_ready, block_depth, block_ok, block_text, c_ready, c_type, c_types, compilable, decl_lines, def_lines,
    def_ready, defs_ok, dep_ordered, deps_present, lemma_deps_smaller, order_deps, type_size, expr_text, expr_texts, func_decl_line, func_decl_lines, func_def_texts,
    func_head, func_ready, is_definition, lemma_block_member, lemma_c_types_step, lemma_expr_texts_step,
    lemma_stmt_texts_step, param_text, param_texts, program_text, stmt_depth, stmt_ok, stmt_text, stmt_texts,
    type_decl, type_def,
};
use crate::semantics::min_len;
use crate::table::Table;
use crate::text::{decimal_string, indent_string, join, lemma_join_push, lit};

verus! {

/// A checked file and its analysis, ready to be turned into C.
pub struct Compiler {
    pub file: File,
    pub analysis: Analysis,
}

impl Compiler {
    /// Pairs a file with its analysis.
    pub fn new(file: File, analysis: Analysis) -> (r: Self)
        ensures
            r.file == file,
            r.analysis == analysis,
    {
        Compiler { file, analysis }
    }

    /// The C spelling of a type.
    fn compile_type(&self, ty: &Type) -> (r: String)
        requires
            c_ready(ty@),
        ensures
            r@ == c_type(ty@),
        decreases ty,
    {
        match ty {
            Type::Void => lit("void"),
            Type::Primitive(p) => p.display(),
            Type::Func(_) => {
                // Ruled out by the precondition.
                proof {
                    assert(false);
                }
                String::new()
            },
            Type::Ptr(inner) => {
                let mut r = self.compile_type(inner);
                r.append("*");
                r
            },
            Type::Array(_, _) => {
                let mut r = lit("struct __Array_");
                r.append(ty.get_hash().display().as_str());
                r
            },
            Type::Slice(_) => {
                let mut r = lit("struct __Slice_");
                r.append(ty.get_hash().display().as_str());
                r
            },
        }
    }

    /// The C text of an expression.
    fn compile_expression(&self, expr: &Expression) -> (r: String)
        ensures
            r@ == expr_text(expr@),
        decreases expr,
    {
        match expr {
            Expression::Ident { value, .. } => value.clone(),
            Expression::Int { value } => value.clone(),
            Expression::String { value } => {
                let mut r = lit("\"");
                r.append(value.as_str());
                r.append("\"");
                r
            },
            Expression::Unary { op, right } => {
                let mut r = op.display();
                r.append(self.compile_expression(right).as_str());
                r
            },
            Expression::Binary { op, left, right } => {
                let mut r = self.compile_expression(left);
                r.append(" ");
                r.append(op.display().as_str());
                r.append(" ");
                r.append(self.compile_expression(right).as_str());
                r
            },
            Expression::Call { func, args } => {
                let ghost av = exprs_view(args@);
                proof {
                    lemma_exprs_view(args@);
                    assert(expr_texts(av.subrange(0, 0)) =~= Seq::<Seq<char>>::empty());
                }
                let mut joined = String::new();
                let mut i: usize = 0;
                #[verifier::loop_isolation(false)]
                while i < args.len()
                    invariant
                        i <= args.len(),
                        av == exprs_view(args@),
                        av.len() == args.len(),
                        forall|k: int| 0 <= k < args.len() ==> #[trigger] av[k] == args@[k]@,
                        joined@ == join(expr_texts(av.subrange(0, i as int)), ", "@),
                    decreases args.len() - i,
                {
                    proof {
                        assert(decreases_to!(expr => *args));
                        assert(decreases_to!(args => args@));
                        assert(decreases_to!(args@ => args@[i as int]));
                    }
                    let text = self.compile_expression(&args[i]);
                    proof {
                        lemma_expr_texts_step(av, i as int);
                        lemma_join_push(expr_texts(av.subrange(0, i as int)), ", "@, text@);
                    }
                    if i > 0 {
                        joined.append(", ");
                    }
                    joined.append(text.as_str());
                    i = i + 1;
                }
                assert(av.subrange(0, i as int) =~= av);
                let mut r = self.compile_expression(func);
                r.append("(");
                r.append(joined.as_str());
                r.append(")");
                r
            },
            Expression::At { left, right } => {
                let mut r = lit("(");
                r.append(self.compile_expression(left).as_str());
                r.append(").inner[");
                r.append(self.compile_expression(right).as_str());
                r.append("]");
                r
            },
        }
    }

    /// A parameter: its C type, then its name.
    fn compile_param(&self, name: &String, ty: &Type) -> (r: String)
        requires
            c_ready(ty@),
        ensures
            r@ == param_text(name@, ty@),
    {
        let mut r = self.compile_type(ty);
        r.append(" ");
        r.append(name.as_str());
        r
    }

    /// The head of a function definition: return type, name, and each parameter name with
    /// the type at the same position.
    fn compile_func_decl(&self, name: &String, func_type: &FuncType, params: &Vec<FuncParam>) -> (r: String)
        requires
            func_ready(func_type@),
        ensures
            r@ == func_head(name@, func_type@, params_view(params@)),
    {
        let ghost pv = params_view(params@);
        let ghost tv = func_type@.params;
        proof {
            lemma_types_view(func_type.params@);
        }
        let n = if params.len() <= func_type.params.len() { params.len() } else { func_type.params.len() };
        let mut joined = String::new();
        let mut i: usize = 0;
        while i < n
            invariant
                i <= n,
                n == min_len(params.len() as nat, func_type.params.len() as nat),
                n <= params.len(),
                n <= func_type.params.len(),
                pv == params_view(params@),
                tv == func_type@.params,
                tv.len() == func_type.params.len(),
                forall|k: int| 0 <= k < func_type.params.len() ==> #[trigger] tv[k] == func_type.params@[k]@,
                all_c_ready(tv),
                joined@ == join(param_texts(pv, tv, i as nat), ", "@),
            decreases n - i,
        {
            assert(c_ready(tv[i as int]));
            let text = self.compile_param(&params[i].name, &func_type.params[i]);
            proof {
                lemma_join_push(param_texts(pv, tv, i as nat), ", "@, text@);
            }
            if i > 0 {
                joined.append(", ");
            }
            joined.append(text.as_str());
            i = i + 1;
        }
        let mut r = self.compile_type(&func_type.return_type);
        r.append(" ");
        r.append(name.as_str());
        r.append("(");
        r.append(joined.as_str());
        r.append(")");
        r
    }

    /// The C text of a statement at the given depth of indentation.
    #[verifier::spinoff_prover]
    fn compile_statement(&self, stmt: &Statement, indent: i32) -> (r: String)
        requires
            self.analysis.wf(),
            0 <= indent,
            indent + stmt_depth(stmt@) <= i32::MAX,
            stmt_ok(self.analysis@, stmt@),
        ensures
            r@ == stmt_text(self.analysis@, stmt@, indent as nat),
        decreases stmt, 2nat,
    {
        let mut r = indent_string(indent as u32);
        let body = match stmt {
            Statement::Let { name, ty, value } => match value {
                Some(value) => {
                    let mut s = self.compile_type(self.analysis.get_type_of_expr(value));
                    s.append(" ");
                    s.append(name.as_str());
                    s.append(" = ");
                    s.append(self.compile_expression(value).as_str());
                    s.append(";");
                    s
                },
                None => match ty {
                    Some(t) => match self.analysis.type_map.get(t) {
                        Some(resolved) => {
                            let mut s = self.compile_type(resolved);
                            s.append(" ");
                            s.append(name.as_str());
                            s.append(";");
                            s
                        },
                        None => {
                            // Ruled out by the precondition.
                            proof {
                                assert(false);
                            }
                            String::new()
                        },
                    },
                    None => {
                        // Ruled out by the precondition.
                        proof {
                            assert(false);
                        }
                        String::new()
                    },
                },
            },
            Statement::Return { value } => {
                let mut s = lit("return ");
                s.append(self.compile_expression(value).as_str());
                s.append(";");
                s
            },
            Statement::If { cond, then, else_then } => {
                let mut s = lit("if (");
                s.append(self.compile_expression(cond).as_str());
                s.append(") ");
                s.append(self.compile_block_statement(then, indent).as_str());
                s.append(" else ");
                s.append(self.compile_block_statement(else_then, indent).as_str());
                s
            },
            Statement::While { cond, block } => {
                let mut s = lit("while (");
                s.append(self.compile_expression(cond).as_str());
                s.append(") ");
                s.append(self.compile_block_statement(block, indent).as_str());
                s
            },
            Statement::Expr { value } => {
                let mut s = self.compile_expression(value);
                s.append(";");
                s
            },
            Statement::Func { name, params, body, .. } => match body {
                Some(body) => match self.analysis.func_decls.get(name) {
                    Some(func_type) => {
                        let mut s = self.compile_func_decl(name, func_type, params);
                        s.append(" ");
                        s.append(self.compile_block_statement(body, indent).as_str());
                        s
                    },
                    None => {
                        // Ruled out by the precondition.
                        proof {
                            assert(false);
                        }
                        String::new()
                    },
                },
                None => String::new(),
            },
        };
        r.append(body.as_str());
        r
    }

    /// A block: its statements one level deeper, between braces.
    fn compile_block_statement(&self, block: &BlockStmt, indent: i32) -> (r: String)
        requires
            self.analysis.wf(),
            0 <= indent,
            indent + 1 + block_depth(stmts_view(block@)) <= i32::MAX,
            block_ok(self.analysis@, stmts_view(block@)),
        ensures
            r@ == block_text(self.analysis@, stmts_view(block@), indent as nat),
        decreases block, 1nat,
    {
        let mut r = lit("{\n");
        r.append(self.compile_statements(block, indent + 1).as_str());
        r.append("\n");
        r.append(indent_string(indent as u32).as_str());
        r.append("}");
        r
    }

    /// The statements of a list at the given depth, one per line.
    fn compile_statements(&self, stmts: &Vec<Statement>, indent: i32) -> (r: String)
        requires
            self.analysis.wf(),
            0 <= indent,
            indent + block_depth(stmts_view(stmts@)) <= i32::MAX,
            block_ok(self.analysis@, stmts_view(stmts@)),
        ensures
            r@ == join(stmt_texts(self.analysis@, stmts_view(stmts@), indent as nat), "\n"@),
        decreases stmts, 0nat,
    {
        let ghost bv = stmts_view(stmts@);
        proof {
            lemma_stmts_view(stmts@);
            assert(stmt_texts(self.analysis@, bv.subrange(0, 0), indent as nat) =~= Seq::<Seq<char>>::empty());
        }
        let mut r = String::new();
        let mut i: usize = 0;
        while i < stmts.len()
            invariant
                self.analysis.wf(),
                0 <= indent,
                indent + block_depth(bv) <= i32::MAX,
                block_ok(self.analysis@, bv),
                i <= stmts.len(),
                bv == stmts_view(stmts@),
                bv.len() == stmts.len(),
                forall|k: int| 0 <= k < stmts.len() ==> #[trigger] bv[k] == stmts@[k]@,
                r@ == join(stmt_texts(self.analysis@, bv.subrange(0, i as int), indent as nat), "\n"@),
            decreases stmts.len() - i,
        {
            proof {
                assert(decreases_to!(stmts => stmts@));
                assert(decreases_to!(stmts@ => stmts@[i as int]));
                lemma_block_member(self.analysis@, bv, i as int);
            }
            let text = self.compile_statement(&stmts[i], indent);
            proof {
                lemma_stmt_texts_step(self.analysis@, bv, i as int, indent as nat);
                lemma_join_push(stmt_texts(self.analysis@, bv.subrange(0, i as int), indent as nat), "\n"@, text@);
            }
            if i > 0 {
                r.append("\n");
            }
            r.append(text.as_str());
            i = i + 1;
        }
        assert(bv.subrange(0, i as int) =~= bv);
        r
    }

    /// The definitions of the functions that have a body, one after another.
    fn compile_func_defs(&self, body: &Vec<Statement>) -> (r: String)
        requires
            self.analysis.wf(),
            defs_ok(self.analysis@, stmts_view(body@)),
        ensures
            r@ == join(func_def_texts(self.analysis@, stmts_view(body@)), "\n"@),
    {
        let ghost bv = stmts_view(body@);
        proof {
            lemma_stmts_view(body@);
            assert(func_def_texts(self.analysis@, bv.subrange(0, 0)) =~= Seq::<Seq<char>>::empty());
        }
        let mut r = String::new();
        let mut any = false;
        let mut i: usize = 0;
        while i < body.len()
            invariant
                self.analysis.wf(),
                defs_ok(self.analysis@, bv),
                any == (func_def_texts(self.analysis@, bv.subrange(0, i as int)).len() > 0),
                i <= body.len(),
                bv == stmts_view(body@),
                bv.len() == body.len(),
                forall|k: int| 0 <= k < body.len() ==> #[trigger] bv[k] == body@[k]@,
                r@ == join(func_def_texts(self.analysis@, bv.subrange(0, i as int)), "\n"@),
            decreases body.len() - i,
        {
            let ghost before = func_def_texts(self.analysis@, bv.subrange(0, i as int));
            proof {
                assert(bv.subrange(0, i + 1).subrange(0, i as int) =~= bv.subrange(0, i as int));
                assert(bv.subrange(0, i + 1)[i as int] == bv[i as int]);
            }
            match &body[i] {
                Statement::Func { body: Some(_), .. } => {
                    assert(is_definition(bv[i as int]));
                    let text = self.compile_statement(&body[i], 0);
                    proof {
                        lemma_join_push(before, "\n"@, text@);
                    }
                    if any {
                        r.append("\n");
                    }
                    r.append(text.as_str());
                    any = true;
                },
                _ => {
                    assert(!is_definition(bv[i as int]));
                },
            }
            i = i + 1;
        }
        assert(bv.subrange(0, i as int) =~= bv);
        r
    }
}


impl Compiler {
    /// The forward declarations of the structures of the array and slice types, in order.
    fn compile_type_decls(&self, decls: &Vec<Type>) -> (r: String)
        ensures
            r@ == join(decl_lines(types_view(decls@)), "\n"@),
    {
        let ghost tv = types_view(decls@);
        proof {
            lemma_types_view(decls@);
            assert(decl_lines(tv.subrange(0, 0)) =~= Seq::<Seq<char>>::empty());
        }
        let mut r = String::new();
        let mut any = false;
        let mut i: usize = 0;
        while i < decls.len()
            invariant
                i <= decls.len(),
                tv == types_view(decls@),
                tv.len() == decls.len(),
                forall|k: int| 0 <= k < decls.len() ==> #[trigger] tv[k] == decls@[k]@,
                r@ == join(decl_lines(tv.subrange(0, i as int)), "\n"@),
                any == (decl_lines(tv.subrange(0, i as int)).len() > 0),
            decreases decls.len() - i,
        {
            let ghost before = decl_lines(tv.subrange(0, i as int));
            proof {
                assert(tv.subrange(0, i + 1).subrange(0, i as int) =~= tv.subrange(0, i as int));
                assert(tv.subrange(0, i + 1)[i as int] == decls@[i as int]@);
            }
            let ty = &decls[i];
            let line = match ty {
                Type::Array(_, _) => {
                    let mut d = lit("struct __Array_");
                    d.append(ty.get_hash().display().as_str());
                    d.append(";");
                    Some(d)
                },
                Type::Slice(_) => {
                    let mut d = lit("struct __Slice_");
                    d.append(ty.get_hash().display().as_str());
                    d.append(";");
                    Some(d)
                },
                _ => None,
            };
            assert(match line { Some(d) => type_decl(ty@) == Some(d@), None => type_decl(ty@) is None });
            if let Some(d) = line {
                proof {
                    lemma_join_push(before, "\n"@, d@);
                }
                if any {
                    r.append("\n");
                }
                r.append(d.as_str());
                any = true;
            }
            i = i + 1;
        }
        assert(tv.subrange(0, i as int) =~= tv);
        r
    }

    /// The definitions of the structures of the array and slice types, in order.
    fn compile_type_defs(&self, defs: &Vec<Type>) -> (r: String)
        requires
            forall|k: int| 0 <= k < defs.len() ==> def_ready(#[trigger] defs@[k]@),
        ensures
            r@ == join(def_lines(types_view(defs@)), "\n"@),
    {
        let ghost tv = types_view(defs@);
        proof {
            lemma_types_view(defs@);
            assert(def_lines(tv.subrange(0, 0)) =~= Seq::<Seq<char>>::empty());
        }
        let mut r = String::new();
        let mut any = false;
        let mut i: usize = 0;
        while i < defs.len()
            invariant
                i <= defs.len(),
                tv == types_view(defs@),
                tv.len() == defs.len(),
                forall|k: int| 0 <= k < defs.len() ==> #[trigger] tv[k] == defs@[k]@,
                forall|k: int| 0 <= k < defs.len() ==> def_ready(#[trigger] defs@[k]@),
                r@ == join(def_lines(tv.subrange(0, i as int)), "\n"@),
                any == (def_lines(tv.subrange(0, i as int)).len() > 0),
            decreases defs.len() - i,
        {
            let ghost before = def_lines(tv.subrange(0, i as int));
            proof {
                assert(tv.subrange(0, i + 1).subrange(0, i as int) =~= tv.subrange(0, i as int));
                assert(tv.subrange(0, i + 1)[i as int] == defs@[i as int]@);
            }
            let ty = &defs[i];
            assert(def_ready(ty@));
            let line = match ty {
                Type::Array(inner, size) => {
                    let mut d = lit("struct __Array_");
                    d.append(ty.get_hash().display().as_str());
                    d.append(" {\n    ");
                    d.append(self.compile_type(inner).as_str());
                    d.append(" inner[");
                    d.append(decimal_string(*size).as_str());
                    d.append("];\n};");
                    Some(d)
                },
                Type::Slice(inner) => {
                    let mut d = lit("struct __Slice_");
                    d.append(ty.get_hash().display().as_str());
                    d.append(" {\n    ");
                    d.append(self.compile_type(inner).as_str());
                    d.append("* inner;\n    u64 len;\n};");
                    Some(d)
                },
                _ => None,
            };
            assert(match line { Some(d) => type_def(ty@) == Some(d@), None => type_def(ty@) is None });
            if let Some(d) = line {
                proof {
                    lemma_join_push(before, "\n"@, d@);
                }
                if any {
                    r.append("\n");
                }
                r.append(d.as_str());
                any = true;
            }
            i = i + 1;
        }
        assert(tv.subrange(0, i as int) =~= tv);
        r
    }

    /// The C spellings of a list of types, separated by commas.
    fn compile_type_list(&self, tys: &Vec<Type>) -> (r: String)
        requires
            all_c_ready(types_view(tys@)),
        ensures
            r@ == join(c_types(types_view(tys@)), ", "@),
    {
        let ghost tv = types_view(tys@);
        proof {
            lemma_types_view(tys@);
            assert(c_types(tv.subrange(0, 0)) =~= Seq::<Seq<char>>::empty());
        }
        let mut r = String::new();
        let mut i: usize = 0;
        while i < tys.len()
            invariant
                i <= tys.len(),
                tv == types_view(tys@),
                tv.len() == tys.len(),
                forall|k: int| 0 <= k < tys.len() ==> #[trigger] tv[k] == tys@[k]@,
                all_c_ready(tv),
                r@ == join(c_types(tv.subrange(0, i as int)), ", "@),
            decreases tys.len() - i,
        {
            assert(c_ready(tv[i as int]));
            let text = self.compile_type(&tys[i]);
            proof {
                lemma_c_types_step(tv, i as int);
                lemma_join_push(c_types(tv.subrange(0, i as int)), ", "@, text@);
            }
            if i > 0 {
                r.append(", ");
            }
            r.append(text.as_str());
            i = i + 1;
        }
        assert(tv.subrange(0, i as int) =~= tv);
        r
    }

    /// The prototypes of the declared functions, in the order they were first declared.
    fn compile_func_decls(&self, decls: &Table<String, FuncType>) -> (r: String)
        requires
            forall|k: int| 0 <= k < decls.pairs().len() ==> func_ready(#[trigger] decls.pairs()[k].1),
        ensures
            r@ == join(func_decl_lines(decls.pairs()), "\n"@),
    {
        let ghost ps = decls.pairs();
        assert(func_decl_lines(ps.subrange(0, 0)) =~= Seq::<Seq<char>>::empty());
        let mut r = String::new();
        let mut i: usize = 0;
        while i < decls.entries.len()
            invariant
                i <= decls.entries.len(),
                ps == decls.pairs(),
                ps.len() == decls.entries.len(),
                forall|k: int| 0 <= k < ps.len() ==> func_ready(#[trigger] ps[k].1),
                r@ == join(func_decl_lines(ps.subrange(0, i as int)), "\n"@),
            decreases decls.entries.len() - i,
        {
            let (name, ty) = &decls.entries[i];
            assert(ps[i as int] == (name@, ty@));
            assert(func_ready(ps[i as int].1));
            let mut line = self.compile_type(&ty.return_type);
            line.append(" ");
            line.append(name.as_str());
            line.append("(");
            line.append(self.compile_type_list(&ty.params).as_str());
            line.append(");");
            proof {
                assert(line@ == func_decl_line(name@, ty@));
                assert(ps.subrange(0, i + 1).subrange(0, i as int) =~= ps.subrange(0, i as int));
                lemma_join_push(func_decl_lines(ps.subrange(0, i as int)), "\n"@, line@);
            }
            if i > 0 {
                r.append("\n");
            }
            r.append(line.as_str());
            i = i + 1;
        }
        assert(ps.subrange(0, i as int) =~= ps);
        r
    }
}


/// How often `x` occurs in a list.
spec fn occ(x: usize, s: Seq<usize>) -> nat
    decreases s.len(),
{
    if s.len() == 0 {
        0
    } else {
        occ(x, s.drop_last()) + if s.last() == x { 1nat } else { 0nat }
    }
}

/// How many entries of a list are outside a set.
spec fn pending(s: Seq<usize>, placed: Set<usize>) -> nat
    decreases s.len(),
{
    if s.len() == 0 {
        0
    } else {
        pending(s.drop_last(), placed) + if placed.contains(s.last()) { 0nat } else { 1nat }
    }
}

proof fn lemma_occ_push(x: usize, s: Seq<usize>, y: usize)
    ensures
        occ(x, s.push(y)) == occ(x, s) + if y == x { 1nat } else { 0nat },
{
    assert(s.push(y).drop_last() =~= s);
}

/// Placing `x` leaves pending the entries that were, less the occurrences of `x`.
proof fn lemma_pending_place(s: Seq<usize>, placed: Set<usize>, x: usize)
    requires
        !placed.contains(x),
    ensures
        pending(s, placed.insert(x)) + occ(x, s) == pending(s, placed),
    decreases s.len(),
{
    if s.len() > 0 {
        lemma_pending_place(s.drop_last(), placed, x);
    }
}

/// With nothing placed, every entry is pending.
proof fn lemma_pending_none(s: Seq<usize>)
    ensures
        pending(s, Set::empty()) == s.len(),
    decreases s.len(),
{
    if s.len() > 0 {
        lemma_pending_none(s.drop_last());
    }
}

/// Nothing pending means every entry is placed; something pending means some entry is not.
proof fn lemma_pending_entries(s: Seq<usize>, placed: Set<usize>)
    ensures
        pending(s, placed) == 0 ==> forall|p: int| 0 <= p < s.len() ==> placed.contains(#[trigger] s[p]),
        pending(s, placed) > 0 ==> exists|p: int| 0 <= p < s.len() && !placed.contains(#[trigger] s[p]),
    decreases s.len(),
{
    if s.len() > 0 {
        let rest = s.drop_last();
        lemma_pending_entries(rest, placed);
        assert forall|p: int| 0 <= p < rest.len() implies rest[p] == s[p] by {}
        if pending(s, placed) > 0 && placed.contains(s.last()) {
            let p = choose|p: int| 0 <= p < rest.len() && !placed.contains(#[trigger] rest[p]);
            assert(!placed.contains(s[p]));
        }
        if pending(s, placed) > 0 && !placed.contains(s.last()) {
            assert(!placed.contains(s[s.len() - 1]));
        }
    }
}

/// A list of distinct positions below `n` has at most `n` entries.
proof fn lemma_distinct_bounded(s: Seq<usize>, n: usize)
    requires
        s.no_duplicates(),
        forall|k: int| 0 <= k < s.len() ==> s[k] < n,
    ensures
        s.len() <= n,
    decreases n,
{
    if s.len() > 0 {
        assert(s[0] < n);
        let top = (n - 1) as usize;
        if s.contains(top) {
            let k = s.index_of(top);
            let t = s.remove(k);
            assert forall|a: int, b: int| 0 <= a < b < t.len() implies t[a] != t[b] by {
                let a1 = if a < k { a } else { a + 1 };
                let b1 = if b < k { b } else { b + 1 };
                assert(t[a] == s[a1] && t[b] == s[b1]);
            }
            assert forall|j: int| 0 <= j < t.len() implies t[j] < top by {
                let j1 = if j < k { j } else { j + 1 };
                assert(t[j] == s[j1]);
                assert(j1 != k);
            }
            lemma_distinct_bounded(t, top);
        } else {
            assert forall|j: int| 0 <= j < s.len() implies s[j] < top by {
                assert(s[j] != top);
            }
            lemma_distinct_bounded(s, top);
        }
    }
}

/// The position of a type in a list that holds it.
fn position_of(types: &Vec<Type>, ty: &Type) -> (r: usize)
    requires
        type_set(types@).contains(ty@),
    ensures
        r < types.len(),
        types@[r as int]@ == ty@,
{
    let mut i: usize = 0;
    while i < types.len()
        invariant
            i <= types.len(),
            type_set(types@).contains(ty@),
            forall|k: int| 0 <= k < i ==> types@[k]@ != ty@,
        decreases types.len() - i,
    {
        if types[i].same_as(ty) {
            return i;
        }
        i = i + 1;
    }
    // The list holds the type, so the search found it.
    proof {
        assert(false);
    }
    0
}

/// The positions, in a list of types, of the types that `ty` needs, in the order of `order_deps`.
fn dep_positions(types: &Vec<Type>, ty: &Type) -> (r: Vec<usize>)
    requires
        forall|k: int| 0 <= k < order_deps(ty@).len() ==> type_set(types@).contains(#[trigger] order_deps(ty@)[k]),
    ensures
        r.len() == order_deps(ty@).len(),
        forall|p: int| 0 <= p < r.len() ==> #[trigger] r@[p] < types.len() && types@[r@[p] as int]@ == order_deps(ty@)[p],
{
    let mut r: Vec<usize> = Vec::new();
    let ghost ds = order_deps(ty@);
    match ty {
        Type::Func(f) => {
            proof {
                lemma_types_view(f.params@);
                assert(ds[0] == f.return_type@);
            }
            r.push(position_of(types, &f.return_type));
            let mut k: usize = 0;
            while k < f.params.len()
                invariant
                    k <= f.params.len(),
                    ds == order_deps(ty@),
                    ds.len() == f.params.len() + 1,
                    forall|j: int| 0 <= j < f.params.len() ==> #[trigger] ds[j + 1] == f.params@[j]@,
                    forall|j: int| 0 <= j < ds.len() ==> type_set(types@).contains(#[trigger] ds[j]),
                    r.len() == k + 1,
                    forall|p: int| 0 <= p < r.len() ==> #[trigger] r@[p] < types.len() && types@[r@[p] as int]@ == ds[p],
                decreases f.params.len() - k,
            {
                assert(ds[k + 1] == f.params@[k as int]@);
                assert(type_set(types@).contains(ds[k + 1]));
                r.push(position_of(types, &f.params[k]));
                k = k + 1;
            }
        },
        Type::Array(inner, _) => {
            assert(ds[0] == inner@);
            assert(type_set(types@).contains(ds[0]));
            r.push(position_of(types, inner));
        },
        _ => {},
    }
    r
}


/// A prefix holds an entry no more often than the whole list.
proof fn lemma_occ_prefix(x: usize, s: Seq<usize>, m: int)
    requires
        0 <= m <= s.len(),
    ensures
        occ(x, s.take(m)) <= occ(x, s),
    decreases s.len() - m,
{
    if m < s.len() {
        lemma_occ_prefix(x, s, m + 1);
        assert(s.take(m + 1) =~= s.take(m).push(s[m]));
        lemma_occ_push(x, s.take(m), s[m]);
    } else {
        assert(s.take(m) =~= s);
    }
}

/// An entry that occurs is at some position.
proof fn lemma_occ_found(x: usize, s: Seq<usize>)
    requires
        occ(x, s) > 0,
    ensures
        exists|p: int| 0 <= p < s.len() && s[p] == x,
    decreases s.len(),
{
    if s.last() != x {
        lemma_occ_found(x, s.drop_last());
        let p = choose|p: int| 0 <= p < s.drop_last().len() && s.drop_last()[p] == x;
        assert(s[p] == x);
    } else {
        assert(s[s.len() - 1] == x);
    }
}

/// Whether `x` is among the first `k` positions of `ord`.
spec fn placed_before(ord: Seq<usize>, k: int, x: usize) -> bool {
    exists|j: int| 0 <= j < k && ord[j] == x
}

/// Each position of `ord` comes after every position it depends on.
spec fn placed_after_deps(deps: Seq<Vec<usize>>, ord: Seq<usize>) -> bool {
    forall|k: int, p: int|
        0 <= k < ord.len() && 0 <= p < deps[ord[k] as int]@.len() ==> #[trigger] placed_before(
            ord,
            k,
            deps[ord[k] as int]@[p],
        )
}

/// Placing a position whose dependencies are all placed keeps every position after its
/// dependencies.
proof fn lemma_place_next(deps: Seq<Vec<usize>>, before: Seq<usize>, i: usize)
    requires
        placed_after_deps(deps, before),
        forall|p: int| 0 <= p < deps[i as int]@.len() ==> before.contains(#[trigger] deps[i as int]@[p]),
    ensures
        placed_after_deps(deps, before.push(i)),
{
    let ord = before.push(i);
    assert forall|k: int, p: int|
        0 <= k < ord.len() && 0 <= p < deps[ord[k] as int]@.len() implies #[trigger] placed_before(
            ord,
            k,
            deps[ord[k] as int]@[p],
        ) by {
        if k < before.len() {
            assert(ord[k] == before[k]);
            assert(placed_before(before, k, deps[before[k] as int]@[p]));
            let j = choose|j: int| 0 <= j < k && before[j] == deps[before[k] as int]@[p];
            assert(ord[j] == before[j]);
        } else {
            assert(ord[k] == i);
            assert(before.contains(deps[i as int]@[p]));
            let j = choose|j: int| 0 <= j < before.len() && before[j] == deps[i as int]@[p];
            assert(ord[j] == before[j]);
        }
    }
}

/// When every position not placed still waits for some dependency, and the ranks shrink along
/// dependencies, every position is placed.
proof fn lemma_all_placed(deps: Seq<Vec<usize>>, rank: Seq<nat>, placed: Set<usize>, x: usize)
    requires
        rank.len() == deps.len(),
        x < deps.len(),
        forall|c: int, p: int|
            0 <= c < deps.len() && 0 <= p < deps[c]@.len() ==> #[trigger] deps[c]@[p] < deps.len() && rank[deps[c]@[p] as int]
                < rank[c],
        forall|y: usize| y < deps.len() && !placed.contains(y) ==> pending(#[trigger] deps[y as int]@, placed) > 0,
    ensures
        placed.contains(x),
    decreases rank[x as int],
{
    if !placed.contains(x) {
        lemma_pending_entries(deps[x as int]@, placed);
        let p = choose|p: int| 0 <= p < deps[x as int]@.len() && !placed.contains(#[trigger] deps[x as int]@[p]);
        let y = deps[x as int]@[p];
        assert(y < deps.len() && rank[y as int] < rank[x as int]);
        lemma_all_placed(deps, rank, placed, y);
    }
}

/// The positions whose dependency lists name `j`, each as often as it names `j`, in order.
fn children_of(deps: &Vec<Vec<usize>>, j: usize) -> (r: Vec<usize>)
    ensures
        forall|k: int| 0 <= k < r.len() ==> #[trigger] r@[k] < deps.len(),
        forall|x: usize| occ(x, r@) == if x < deps.len() { occ(j, deps@[x as int]@) } else { 0nat },
{
    let mut r: Vec<usize> = Vec::new();
    let mut c: usize = 0;
    while c < deps.len()
        invariant
            c <= deps.len(),
            forall|k: int| 0 <= k < r.len() ==> #[trigger] r@[k] < deps.len(),
            forall|x: usize| occ(x, r@) == if x < c { occ(j, deps@[x as int]@) } else { 0nat },
        decreases deps.len() - c,
    {
        let ds = &deps[c];
        let mut p: usize = 0;
        assert(ds@.take(0) =~= Seq::<usize>::empty());
        while p < ds.len()
            invariant
                c < deps.len(),
                ds@ == deps@[c as int]@,
                p <= ds.len(),
                forall|k: int| 0 <= k < r.len() ==> #[trigger] r@[k] < deps.len(),
                forall|x: usize| occ(x, r@) == if x < c {
                    occ(j, deps@[x as int]@)
                } else if x == c {
                    occ(j, ds@.take(p as int))
                } else {
                    0nat
                },
            decreases ds.len() - p,
        {
            let ghost before = r@;
            proof {
                assert(ds@.take(p + 1) =~= ds@.take(p as int).push(ds@[p as int]));
                lemma_occ_push(j, ds@.take(p as int), ds@[p as int]);
            }
            if ds[p] == j {
                r.push(c);
                proof {
                    assert forall|x: usize| occ(x, r@) == occ(x, before) + if c == x { 1nat } else { 0nat } by {
                        lemma_occ_push(x, before, c);
                    }
                }
            }
            p = p + 1;
        }
        assert(ds@.take(p as int) =~= ds@);
        c = c + 1;
    }
    r
}

/// Orders positions so that each comes after the positions it depends on (Kahn's method):
/// positions with nothing left to wait for are taken from a stack, and taking one releases
/// the positions that wait for it. `rank` shrinks along every dependency, so every position
/// is reached.
#[verifier::spinoff_prover]
fn order_positions(deps: &Vec<Vec<usize>>, Ghost(rank): Ghost<Seq<nat>>) -> (ord: Vec<usize>)
    requires
        rank.len() == deps.len(),
        forall|c: int, p: int|
            0 <= c < deps.len() && 0 <= p < deps@[c]@.len() ==> #[trigger] deps@[c]@[p] < deps.len() && rank[deps@[c]@[p] as int]
                < rank[c],
    ensures
        ord@.no_duplicates(),
        forall|k: int| 0 <= k < ord.len() ==> #[trigger] ord@[k] < deps.len(),
        forall|x: usize| x < deps.len() ==> #[trigger] ord@.contains(x),
        placed_after_deps(deps@, ord@),
{
    let n = deps.len();
    let mut children: Vec<Vec<usize>> = Vec::new();
    let mut counts: Vec<usize> = Vec::new();
    let mut j: usize = 0;
    while j < n
        invariant
            j <= n,
            n == deps.len(),
            children.len() == j,
            counts.len() == j,
            forall|a: int, m: int| 0 <= a < j && 0 <= m < children@[a]@.len() ==> #[trigger] children@[a]@[m] < n,
            forall|a: int, x: usize| 0 <= a < j ==> #[trigger] occ(x, children@[a]@) == if x < n {
                occ(a as usize, deps@[x as int]@)
            } else {
                0nat
            },
            forall|c: int| 0 <= c < j ==> #[trigger] counts@[c] == deps@[c]@.len(),
        decreases n - j,
    {
        children.push(children_of(deps, j));
        counts.push(deps[j].len());
        j = j + 1;
    }
    let mut q: Vec<usize> = Vec::new();
    let mut c: usize = 0;
    while c < n
        invariant
            c <= n,
            n == deps.len(),
            counts.len() == n,
            forall|k: int| 0 <= k < q.len() ==> #[trigger] q@[k] < c,
            q@.no_duplicates(),
            forall|x: usize| x < n ==> (#[trigger] q@.contains(x) <==> (x < c && counts@[x as int] == 0)),
        decreases n - c,
    {
        let ghost before = q@;
        if counts[c] == 0 {
            q.push(c);
            proof {
                assert(q@[before.len() as int] == c);
                assert forall|a: int, b: int| 0 <= a < b < q@.len() implies q@[a] != q@[b] by {
                    if b == before.len() {
                        assert(before[a] < c);
                    }
                }
            }
        }
        proof {
            assert forall|x: usize| x < n implies (#[trigger] q@.contains(x) <==> (x < c + 1 && counts@[x as int] == 0)) by {
                if q@.contains(x) {
                    let k = choose|k: int| 0 <= k < q@.len() && q@[k] == x;
                    if k < before.len() {
                        assert(before[k] == x);
                    }
                }
                if before.contains(x) {
                    let k = choose|k: int| 0 <= k < before.len() && before[k] == x;
                    assert(q@[k] == x);
                }
            }
        }
        c = c + 1;
    }
    let mut ord: Vec<usize> = Vec::new();
    let ghost mut placed: Set<usize> = Set::empty();
    proof {
        assert forall|x: usize| x < n implies counts@[x as int] == pending(deps@[x as int]@, placed) by {
            lemma_pending_none(deps@[x as int]@);
        }
    }
    while q.len() > 0
        invariant
            n == deps.len(),
            rank.len() == n,
            forall|c: int, p: int|
                0 <= c < n && 0 <= p < deps@[c]@.len() ==> #[trigger] deps@[c]@[p] < n && rank[deps@[c]@[p] as int]
                    < rank[c],
            children.len() == n,
            counts.len() == n,
            forall|a: int, m: int| 0 <= a < n && 0 <= m < children@[a]@.len() ==> #[trigger] children@[a]@[m] < n,
            forall|a: int, x: usize| 0 <= a < n ==> #[trigger] occ(x, children@[a]@) == if x < n {
                occ(a as usize, deps@[x as int]@)
            } else {
                0nat
            },
            ord@.no_duplicates(),
            ord.len() <= n,
            forall|k: int| 0 <= k < ord.len() ==> #[trigger] ord@[k] < n,
            forall|x: usize| #[trigger] placed.contains(x) <==> ord@.contains(x),
            forall|x: usize| x < n && !placed.contains(x) ==> #[trigger] counts@[x as int] == pending(deps@[x as int]@, placed),
            forall|k: int| 0 <= k < q.len() ==> #[trigger] q@[k] < n,
            q@.no_duplicates(),
            forall|x: usize| x < n ==> (#[trigger] q@.contains(x) <==> (!placed.contains(x) && counts@[x as int] == 0)),
            placed_after_deps(deps@, ord@),
        decreases n - ord.len(),
    {
        let ghost q_old = q@;
        let i = q.pop().unwrap();
        let ghost ds_i = deps@[i as int]@;
        proof {
            assert(q_old[q_old.len() - 1] == i);
            assert(q_old.contains(i));
            assert(!placed.contains(i) && counts@[i as int] == 0);
            assert(q_old =~= q@.push(i));
            assert forall|x: usize| x < n implies (#[trigger] q@.contains(x) <==> (!placed.contains(x) && x != i
                && counts@[x as int] == 0)) by {
                if q@.contains(x) {
                    let k = choose|k: int| 0 <= k < q@.len() && q@[k] == x;
                    assert(q_old[k] == x);
                    assert(k != q_old.len() - 1);
                }
                if q_old.contains(x) && x != i {
                    let k = choose|k: int| 0 <= k < q_old.len() && q_old[k] == x;
                    assert(q@[k] == x);
                }
            }
            lemma_pending_entries(ds_i, placed);
            lemma_pending_place(ds_i, placed, i);
            assert forall|p: int| 0 <= p < ds_i.len() implies placed.contains(#[trigger] ds_i[p]) by {}
        }
        let ch = &children[i];
        let ghost chv = ch@;
        proof {
            assert(occ(i, chv) == occ(i, ds_i));
        }
        let mut m: usize = 0;
        assert(chv.take(0) =~= Seq::<usize>::empty());
        while m < ch.len()
            invariant
                n == deps.len(),
                i < n,
                !placed.contains(i),
                chv == ch@,
                chv == children@[i as int]@,
                occ(i, chv) == 0,
                ds_i == deps@[i as int]@,
                forall|p: int| 0 <= p < ds_i.len() ==> placed.contains(#[trigger] ds_i[p]),
                m <= ch.len(),
                counts.len() == n,
                forall|a: int, m: int| 0 <= a < n && 0 <= m < children@[a]@.len() ==> #[trigger] children@[a]@[m] < n,
                forall|a: int, x: usize| 0 <= a < n ==> #[trigger] occ(x, children@[a]@) == if x < n {
                    occ(a as usize, deps@[x as int]@)
                } else {
                    0nat
                },
                forall|x: usize| #[trigger] placed.contains(x) <==> ord@.contains(x),
                forall|x: usize| x < n && !placed.contains(x) ==> #[trigger] counts@[x as int] + occ(x, chv.take(m as int))
                    == pending(deps@[x as int]@, placed),
                forall|k: int| 0 <= k < q.len() ==> #[trigger] q@[k] < n,
                q@.no_duplicates(),
                forall|x: usize| x < n ==> (#[trigger] q@.contains(x) <==> (!placed.contains(x) && x != i
                    && counts@[x as int] == 0)),
                placed_after_deps(deps@, ord@),
            decreases ch.len() - m,
        {
            let c = ch[m];
            proof {
                assert(chv.take(m + 1) =~= chv.take(m as int).push(c));
                assert forall|x: usize| occ(x, chv.take(m + 1)) == occ(x, chv.take(m as int)) + if c == x { 1nat } else { 0nat } by {
                    lemma_occ_push(x, chv.take(m as int), c);
                }
                lemma_occ_prefix(c, chv, m + 1);
                assert(c < n);
                assert(occ(c, chv) == occ(i, deps@[c as int]@));
                if placed.contains(c) {
                    let k = choose|k: int| 0 <= k < ord.len() && ord@[k] == c;
                    lemma_occ_found(i, deps@[c as int]@);
                    let p = choose|p: int| 0 <= p < deps@[c as int]@.len() && deps@[c as int]@[p] == i;
                    assert(deps@[ord@[k] as int]@[p] == i);
                    assert(placed_before(ord@, k, deps@[ord@[k] as int]@[p]));
                    let j = choose|j: int| 0 <= j < k && ord@[j] == i;
                    assert(ord@.contains(i));
                }
                lemma_pending_place(deps@[c as int]@, placed, i);
                assert(c != i);
            }
            let ghost q_before = q@;
            let ghost counts_before = counts@;
            let left = counts[c] - 1;
            counts.set(c, left);
            if left == 0 {
                q.push(c);
                proof {
                    assert(!q_before.contains(c));
                    assert(q@[q_before.len() as int] == c);
                    assert forall|a: int, b: int| 0 <= a < b < q@.len() implies q@[a] != q@[b] by {
                        if b == q_before.len() {
                            assert(q_before.contains(q_before[a]));
                        }
                    }
                }
            }
            proof {
                assert forall|x: usize| x < n implies (#[trigger] q@.contains(x) <==> (!placed.contains(x) && x != i
                    && counts@[x as int] == 0)) by {
                    if q@.contains(x) {
                        let k = choose|k: int| 0 <= k < q@.len() && q@[k] == x;
                        if k < q_before.len() {
                            assert(q_before[k] == x);
                        }
                    }
                    if q_before.contains(x) {
                        let k = choose|k: int| 0 <= k < q_before.len() && q_before[k] == x;
                        assert(q@[k] == x);
                    }
                    if x != c {
                        assert(counts@[x as int] == counts_before[x as int]);
                    }
                }
            }
            m = m + 1;
        }
        proof {
            assert(chv.take(m as int) =~= chv);
            assert forall|x: usize| x < n && !placed.insert(i).contains(x) implies #[trigger] counts@[x as int] == pending(
                deps@[x as int]@,
                placed.insert(i),
            ) by {
                lemma_pending_place(deps@[x as int]@, placed, i);
            }
            lemma_distinct_bounded(ord@.push(i), n);
        }
        let ghost before = ord@;
        proof {
            assert forall|p: int| 0 <= p < ds_i.len() implies before.contains(#[trigger] ds_i[p]) by {
                assert(placed.contains(ds_i[p]));
            }
        }
        ord.push(i);
        proof {
            placed = placed.insert(i);
            assert forall|x: usize| #[trigger] placed.contains(x) <==> ord@.contains(x) by {
                if before.contains(x) {
                    let k = choose|k: int| 0 <= k < before.len() && before[k] == x;
                    assert(ord@[k] == x);
                }
                if ord@.contains(x) && x != i {
                    let k = choose|k: int| 0 <= k < ord@.len() && ord@[k] == x;
                    assert(before[k] == x);
                }
                assert(ord@[before.len() as int] == i);
            }
            lemma_place_next(deps@, before, i);
            assert(placed_after_deps(deps@, ord@));
        }
    }
    proof {
        assert forall|y: usize| y < n && !placed.contains(y) implies pending(#[trigger] deps@[y as int]@, placed) > 0 by {
            assert(!q@.contains(y));
        }
        assert forall|x: usize| x < n implies #[trigger] ord@.contains(x) by {
            lemma_all_placed(deps@, rank, placed, x);
        }
    }
    ord
}


impl Compiler {
    /// Lists the used types so that each comes after the types it needs complete (a
    /// function's return and parameter types, an array's element type), each type once.
    #[verifier::spinoff_prover]
    fn get_ordered_types(&self) -> (r: Vec<Type>)
        requires
            self.analysis.wf(),
            deps_present(type_set(self.analysis.types_used@)),
        ensures
            dep_ordered(types_view(r@), type_set(self.analysis.types_used@)),
    {
        let types = &self.analysis.types_used;
        let n = types.len();
        let mut deps: Vec<Vec<usize>> = Vec::new();
        let mut i: usize = 0;
        while i < n
            invariant
                i <= n,
                n == types.len(),
                deps.len() == i,
                deps_present(type_set(types@)),
                forall|c: int| 0 <= c < i ==> #[trigger] deps@[c]@.len() == order_deps(types@[c]@).len(),
                forall|c: int, p: int|
                    0 <= c < i && 0 <= p < deps@[c]@.len() ==> #[trigger] deps@[c]@[p] < n && types@[deps@[c]@[p] as int]@
                        == order_deps(types@[c]@)[p],
            decreases n - i,
        {
            proof {
                assert(type_set(types@).contains(types@[i as int]@));
            }
            let ds = dep_positions(types, &types[i]);
            deps.push(ds);
            proof {
                assert(deps@[i as int] == ds);
            }
            i = i + 1;
        }
        let ghost rank = Seq::new(n as nat, |c: int| type_size(types@[c]@));
        proof {
            assert forall|c: int, p: int|
                0 <= c < deps.len() && 0 <= p < deps@[c]@.len() implies #[trigger] deps@[c]@[p] < deps.len() && rank[deps@[c]@[p] as int]
                    < rank[c] by {
                lemma_deps_smaller(types@[c]@, p);
            }
        }
        let ord = order_positions(&deps, Ghost(rank));
        let mut res: Vec<Type> = Vec::new();
        let mut k: usize = 0;
        while k < ord.len()
            invariant
                k <= ord.len(),
                n == types.len(),
                forall|m: int| 0 <= m < ord.len() ==> #[trigger] ord@[m] < n,
                res.len() == k,
                forall|m: int| 0 <= m < k ==> #[trigger] res@[m]@ == types@[ord@[m] as int]@,
            decreases ord.len() - k,
        {
            res.push(types[ord[k]].duplicate());
            k = k + 1;
        }
        proof {
            let rv = types_view(res@);
            lemma_types_view(res@);
            assert forall|a: int, b: int| 0 <= a < b < rv.len() implies rv[a] != rv[b] by {
                assert(ord@[a] != ord@[b]);
            }
            assert forall|t: TypeV| rv.to_set().contains(t) <==> type_set(types@).contains(t) by {
                if rv.to_set().contains(t) {
                    let m = choose|m: int| 0 <= m < rv.len() && rv[m] == t;
                    assert(types@[ord@[m] as int]@ == t);
                }
                if type_set(types@).contains(t) {
                    let x = choose|x: int| 0 <= x < types.len() && types@[x]@ == t;
                    assert(ord@.contains(x as usize));
                    let m = choose|m: int| 0 <= m < ord.len() && ord@[m] == x as usize;
                    assert(rv[m] == t);
                }
            }
            assert(rv.to_set() =~= type_set(types@));
            assert forall|a: int, p: int| 0 <= a < rv.len() && 0 <= p < order_deps(rv[a]).len() implies #[trigger] rv.take(
                a,
            ).contains(order_deps(rv[a])[p]) by {
                let c = ord@[a];
                assert(rv[a] == types@[c as int]@);
                assert(placed_before(ord@, a, deps@[c as int]@[p]));
                let j = choose|j: int| 0 <= j < a && ord@[j] == deps@[c as int]@[p];
                assert(rv[j] == types@[ord@[j] as int]@);
                assert(rv.take(a)[j] == rv[j]);
            }
        }
        res
    }

    /// The C file: the prelude, the structures of the array and slice types (declared, then
    /// defined, each after the types it needs), the prototypes of the declared functions, and
    /// the definitions of the functions with a body.
    pub fn compile(&self) -> (r: String)
        requires
            self.analysis.wf(),
            compilable(self.file@, self.analysis@, self.analysis.func_decls.pairs()),
        ensures
            exists|order: Seq<TypeV>|
                dep_ordered(order, self.analysis@.used) && r@ == program_text(
                    order,
                    self.analysis.func_decls.pairs(),
                    self.analysis@,
                    self.file@,
                ),
    {
        let ordered_types = self.get_ordered_types();
        proof {
            lemma_types_view(ordered_types@);
            assert forall|k: int| 0 <= k < ordered_types.len() implies def_ready(#[trigger] ordered_types@[k]@) by {
                assert(types_view(ordered_types@).to_set().contains(types_view(ordered_types@)[k]));
            }
        }
        let mut r = lit(
            "// compiled from Sierra\n#include <stdint.h>\n\ntypedef int8_t i8;\ntypedef uint8_t u8;\ntypedef int16_t i16;\ntypedef uint16_t u16;\ntypedef int32_t i32;\ntypedef uint32_t u32;\ntypedef int64_t i64;\ntypedef uint64_t u64;\ntypedef float f32;\ntypedef double f64;\n\n",
        );
        r.append(self.compile_type_decls(&ordered_types).as_str());
        r.append("\n\n");
        r.append(self.compile_type_defs(&ordered_types).as_str());
        r.append("\n\n");
        r.append(self.compile_func_decls(&self.analysis.func_decls).as_str());
        r.append("\n\n");
        r.append(self.compile_func_defs(&self.file.body).as_str());
        r.append("\n            ");
        r
    }
}


/// Whether code generation can spell a type in C.
fn c_ready_type(t: &Type) -> (r: bool)
    ensures
        r == c_ready(t@),
    decreases t,
{
    match t {
        Type::Func(_) => false,
        Type::Ptr(inner) => c_ready_type(inner),
        _ => true,
    }
}

/// Whether every type of a list can be spelled in C.
fn all_c_ready_types(tys: &Vec<Type>) -> (r: bool)
    ensures
        r == all_c_ready(types_view(tys@)),
{
    proof {
        lemma_types_view(tys@);
    }
    let mut i: usize = 0;
    while i < tys.len()
        invariant
            i <= tys.len(),
            types_view(tys@).len() == tys.len(),
            forall|k: int| 0 <= k < tys.len() ==> #[trigger] types_view(tys@)[k] == tys@[k]@,
            forall|k: int| 0 <= k < i ==> c_ready(#[trigger] types_view(tys@)[k]),
        decreases tys.len() - i,
    {
        if !c_ready_type(&tys[i]) {
            assert(!c_ready(types_view(tys@)[i as int]));
            return false;
        }
        i = i + 1;
    }
    true
}

/// Whether a list of types holds a type.
fn types_contain(types: &Vec<Type>, t: &Type) -> (r: bool)
    ensures
        r == type_set(types@).contains(t@),
{
    let mut i: usize = 0;
    while i < types.len()
        invariant
            i <= types.len(),
            forall|k: int| 0 <= k < i ==> types@[k]@ != t@,
        decreases types.len() - i,
    {
        if types[i].same_as(t) {
            return true;
        }
        i = i + 1;
    }
    false
}

/// Whether every type that a type of the list needs is in the list too.
fn deps_all_listed(types: &Vec<Type>) -> (r: bool)
    ensures
        r == deps_present(type_set(types@)),
{
    let mut i: usize = 0;
    #[verifier::loop_isolation(false)]
    while i < types.len()
        invariant
            i <= types.len(),
            forall|c: int, k: int|
                0 <= c < i && 0 <= k < order_deps(types@[c]@).len() ==> type_set(types@).contains(
                    #[trigger] order_deps(types@[c]@)[k],
                ),
        decreases types.len() - i,
    {
        let ghost ds = order_deps(types@[i as int]@);
        match &types[i] {
            Type::Func(f) => {
                proof {
                    lemma_types_view(f.params@);
                    assert(ds[0] == f.return_type@);
                }
                if !types_contain(types, &f.return_type) {
                    assert(type_set(types@).contains(types@[i as int]@));
                    return false;
                }
                let mut k: usize = 0;
                #[verifier::loop_isolation(false)]
                while k < f.params.len()
                    invariant
                        k <= f.params.len(),
                        ds.len() == f.params.len() + 1,
                        forall|j: int| 0 <= j < f.params.len() ==> #[trigger] ds[j + 1] == f.params@[j]@,
                        forall|j: int| 0 <= j <= k ==> type_set(types@).contains(#[trigger] ds[j]),
                    decreases f.params.len() - k,
                {
                    assert(ds[k + 1] == f.params@[k as int]@);
                    if !types_contain(types, &f.params[k]) {
                        assert(type_set(types@).contains(types@[i as int]@));
                        return false;
                    }
                    k = k + 1;
                }
            },
            Type::Array(inner, _) => {
                assert(ds[0] == inner@);
                if !types_contain(types, inner) {
                    assert(type_set(types@).contains(types@[i as int]@));
                    return false;
                }
            },
            _ => {},
        }
        i = i + 1;
    }
    proof {
        assert forall|t: TypeV, k: int|
            type_set(types@).contains(t) && 0 <= k < order_deps(t).len() implies type_set(types@).contains(
                #[trigger] order_deps(t)[k],
            ) by {
            let c = choose|c: int| 0 <= c < types.len() && types@[c]@ == t;
        }
    }
    true
}

impl Compiler {
    /// Whether code generation finds what it needs for a statement.
    fn stmt_ready(&self, stmt: &Statement) -> (r: bool)
        requires
            self.analysis.wf(),
        ensures
            r == stmt_ok(self.analysis@, stmt@),
        decreases stmt, 1nat,
    {
        match stmt {
            Statement::Let { ty, value, .. } => match value {
                Some(v) => match self.analysis.expr_types.get(&v.get_hash()) {
                    Some(t) => c_ready_type(t),
                    None => false,
                },
                None => match ty {
                    Some(t) => match self.analysis.type_map.get(t) {
                        Some(resolved) => c_ready_type(resolved),
                        None => false,
                    },
                    None => false,
                },
            },
            Statement::If { then, else_then, .. } => self.block_ready(then) && self.block_ready(else_then),
            Statement::While { block, .. } => self.block_ready(block),
            Statement::Func { name, body: Some(b), .. } => match self.analysis.func_decls.get(name) {
                Some(f) => c_ready_type(&f.return_type) && all_c_ready_types(&f.params) && self.block_ready(b),
                None => false,
            },
            _ => true,
        }
    }

    /// Whether code generation finds what it needs for every statement of a list.
    fn block_ready(&self, stmts: &Vec<Statement>) -> (r: bool)
        requires
            self.analysis.wf(),
        ensures
            r == block_ok(self.analysis@, stmts_view(stmts@)),
        decreases stmts, 0nat,
    {
        let ghost bv = stmts_view(stmts@);
        proof {
            lemma_stmts_view(stmts@);
        }
        let mut i: usize = 0;
        assert(block_ok(self.analysis@, bv.subrange(0, 0)));
        while i < stmts.len()
            invariant
                self.analysis.wf(),
                i <= stmts.len(),
                bv == stmts_view(stmts@),
                bv.len() == stmts.len(),
                forall|k: int| 0 <= k < stmts.len() ==> #[trigger] bv[k] == stmts@[k]@,
                block_ok(self.analysis@, bv.subrange(0, i as int)),
            decreases stmts.len() - i,
        {
            proof {
                assert(decreases_to!(stmts => stmts@));
                assert(decreases_to!(stmts@ => stmts@[i as int]));
                assert(bv.subrange(0, i + 1).subrange(0, i as int) =~= bv.subrange(0, i as int));
            }
            if !self.stmt_ready(&stmts[i]) {
                proof {
                    lemma_block_member(self.analysis@, bv, i as int);
                }
                return false;
            }
            i = i + 1;
        }
        assert(bv.subrange(0, i as int) =~= bv);
        true
    }

    /// Whether blocks nest inside a statement no deeper than `limit`.
    fn depth_within(&self, stmt: &Statement, limit: u32) -> (r: bool)
        ensures
            r == (stmt_depth(stmt@) <= limit),
        decreases stmt, 1nat,
    {
        match stmt {
            Statement::If { then, else_then, .. } => limit > 0 && self.block_depth_within(then, limit - 1)
                && self.block_depth_within(else_then, limit - 1),
            Statement::While { block, .. } => limit > 0 && self.block_depth_within(block, limit - 1),
            Statement::Func { body: Some(b), .. } => limit > 0 && self.block_depth_within(b, limit - 1),
            _ => true,
        }
    }

    /// Whether blocks nest inside a list of statements no deeper than `limit`.
    fn block_depth_within(&self, stmts: &Vec<Statement>, limit: u32) -> (r: bool)
        ensures
            r == (block_depth(stmts_view(stmts@)) <= limit),
        decreases stmts, 0nat,
    {
        let ghost bv = stmts_view(stmts@);
        proof {
            lemma_stmts_view(stmts@);
        }
        let mut i: usize = 0;
        while i < stmts.len()
            invariant
                i <= stmts.len(),
                bv == stmts_view(stmts@),
                bv.len() == stmts.len(),
                forall|k: int| 0 <= k < stmts.len() ==> #[trigger] bv[k] == stmts@[k]@,
                block_depth(bv.subrange(0, i as int)) <= limit,
            decreases stmts.len() - i,
        {
            proof {
                assert(decreases_to!(stmts => stmts@));
                assert(decreases_to!(stmts@ => stmts@[i as int]));
                assert(bv.subrange(0, i + 1).subrange(0, i as int) =~= bv.subrange(0, i as int));
            }
            if !self.depth_within(&stmts[i], limit) {
                proof {
                    lemma_block_member(self.analysis@, bv, i as int);
                }
                return false;
            }
            i = i + 1;
        }
        assert(bv.subrange(0, i as int) =~= bv);
        true
    }

    /// Whether the file and its analysis can be compiled (see `compile`): code generation
    /// stops where a function type would have to be written in C.
    #[verifier::spinoff_prover]
    pub fn can_compile(&self) -> (r: bool)
        requires
            self.analysis.wf(),
        ensures
            r == compilable(self.file@, self.analysis@, self.analysis.func_decls.pairs()),
    {
        if !deps_all_listed(&self.analysis.types_used) {
            return false;
        }
        let types = &self.analysis.types_used;
        let mut i: usize = 0;
        #[verifier::loop_isolation(false)]
        while i < types.len()
            invariant
                i <= types.len(),
                forall|k: int| 0 <= k < i ==> def_ready(#[trigger] types@[k]@),
            decreases types.len() - i,
        {
            let ok = match &types[i] {
                Type::Array(inner, _) => c_ready_type(inner),
                Type::Slice(inner) => c_ready_type(inner),
                _ => true,
            };
            if !ok {
                assert(!def_ready(types@[i as int]@));
                assert(self.analysis@.used.contains(types@[i as int]@));
                return false;
            }
            i = i + 1;
        }
        assert forall|t: TypeV| type_set(types@).contains(t) implies def_ready(t) by {
            let k = choose|k: int| 0 <= k < types.len() && types@[k]@ == t;
        }
        let decls = &self.analysis.func_decls;
        let ghost ps = decls.pairs();
        let mut i: usize = 0;
        #[verifier::loop_isolation(false)]
        while i < decls.entries.len()
            invariant
                i <= decls.entries.len(),
                ps == decls.pairs(),
                ps.len() == decls.entries.len(),
                forall|k: int| 0 <= k < i ==> func_ready(#[trigger] ps[k].1),
            decreases decls.entries.len() - i,
        {
            let f = &decls.entries[i].1;
            assert(ps[i as int].1 == f@);
            if !(c_ready_type(&f.return_type) && all_c_ready_types(&f.params)) {
                return false;
            }
            i = i + 1;
        }
        let body = &self.file.body;
        let ghost bv = stmts_view(body@);
        proof {
            lemma_stmts_view(body@);
        }
        let mut i: usize = 0;
        #[verifier::loop_isolation(false)]
        while i < body.len()
            invariant
                self.analysis.wf(),
                i <= body.len(),
                bv == stmts_view(body@),
                bv.len() == body.len(),
                forall|k: int| 0 <= k < body.len() ==> #[trigger] bv[k] == body@[k]@,
                forall|k: int|
                    0 <= k < i && is_definition(#[trigger] bv[k]) ==> stmt_ok(self.analysis@, bv[k]) && stmt_depth(bv[k])
                        <= 0x7fff_ffff,
            decreases body.len() - i,
        {
            let stmt = &body[i];
            if let Statement::Func { body: Some(_), .. } = stmt {
                assert(is_definition(bv[i as int]));
                if !(self.stmt_ready(stmt) && self.depth_within(stmt, 0x7fff_ffff)) {
                    return false;
                }
            } else {
                assert(!is_definition(bv[i as int]));
            }
            i = i + 1;
        }
        true
    }
}

} // verus!
