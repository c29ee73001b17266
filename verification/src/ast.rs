use vstd::prelude::*;
use vstd::utf8::encode_utf8;
use vstd::std_specs::hash::DefaultHasherAdditionalSpecFns;
use std::hash::{DefaultHasher, Hasher};

use crate::text::{lit, decimal, decimal_string};
use crate::token::{Token, TokenV, token_kind};

verus! {

/// An expression of the Sierra language.
#[derive(Debug, PartialEq, Eq, Hash)]
pub enum Expression {
    Ident {
        value: String,
        id: u64,
    },
    Int {
        value: String,
    },
    String {
        value: String,
    },
    Unary {
        op: Token,
        right: Box<Expression>,
    },
    Binary {
        op: Token,
        left: Box<Expression>,
        right: Box<Expression>,
    },
    Call {
        func: Box<Expression>,
        args: Vec<Expression>,
    },
    At {
        left: Box<Expression>,
        right: Box<Expression>,
    },
}

/// The mathematical value of an expression.
pub enum ExprV {
    Ident { value: Seq<char>, id: u64 },
    Int { value: Seq<char> },
    Str { value: Seq<char> },
    Unary { op: TokenV, right: Box<ExprV> },
    Binary { op: TokenV, left: Box<ExprV>, right: Box<ExprV> },
    Call { func: Box<ExprV>, args: Seq<ExprV> },
    At { left: Box<ExprV>, right: Box<ExprV> },
}

pub open spec fn expr_view(e: Expression) -> ExprV
    decreases e,
{
    match e {
        Expression::Ident { value, id } => ExprV::Ident { value: value@, id },
        Expression::Int { value } => ExprV::Int { value: value@ },
        Expression::String { value } => ExprV::Str { value: value@ },
        Expression::Unary { op, right } => ExprV::Unary { op: op@, right: Box::new(expr_view(*right)) },
        Expression::Binary { op, left, right } => ExprV::Binary {
            op: op@,
            left: Box::new(expr_view(*left)),
            right: Box::new(expr_view(*right)),
        },
        Expression::Call { func, args } => ExprV::Call {
            func: Box::new(expr_view(*func)),
            args: exprs_view(args@),
        },
        Expression::At { left, right } => ExprV::At {
            left: Box::new(expr_view(*left)),
            right: Box::new(expr_view(*right)),
        },
    }
}

pub open spec fn exprs_view(s: Seq<Expression>) -> Seq<ExprV>
    decreases s,
{
    if s.len() == 0 {
        Seq::empty()
    } else {
        exprs_view(s.subrange(0, s.len() - 1)).push(expr_view(s[s.len() - 1]))
    }
}

impl View for Expression {
    type V = ExprV;

    open spec fn view(&self) -> ExprV {
        expr_view(*self)
    }
}

pub proof fn lemma_exprs_view(s: Seq<Expression>)
    ensures
        exprs_view(s).len() == s.len(),
        forall|i: int| 0 <= i < s.len() ==> #[trigger] exprs_view(s)[i] == s[i]@,
    decreases s.len(),
{
    if s.len() > 0 {
        lemma_exprs_view(s.subrange(0, s.len() - 1));
    }
}

/// A fingerprint of an expression, used as the key of its type.
#[derive(Debug, PartialEq, Eq, Hash, Clone, Copy)]
pub struct ExprHash(u64);

impl View for ExprHash {
    type V = u64;

    closed spec fn view(&self) -> u64 {
        self.0
    }
}

impl ExprHash {
    /// Whether two fingerprints are equal.
    pub fn same_as(&self, other: &ExprHash) -> (r: bool)
        ensures
            r == (self@ == other@),
    {
        self.0 == other.0
    }

    /// The number behind the fingerprint.
    pub fn value(&self) -> (r: u64)
        ensures
            r == self@,
    {
        self.0
    }
}

/// The eight bytes of a number, least significant first.
pub open spec fn u64_bytes(n: u64) -> Seq<u8> {
    seq![
        (n % 256) as u8,
        ((n / 0x100) % 256) as u8,
        ((n / 0x10000) % 256) as u8,
        ((n / 0x1000000) % 256) as u8,
        ((n / 0x100000000) % 256) as u8,
        ((n / 0x10000000000) % 256) as u8,
        ((n / 0x1000000000000) % 256) as u8,
        ((n / 0x100000000000000) % 256) as u8,
    ]
}

/// The UTF-8 bytes of a text, closed by `0xff` (a byte that UTF-8 never uses).
pub open spec fn text_bytes(s: Seq<char>) -> Seq<u8> {
    encode_utf8(s).push(0xff)
}

/// The bytes that identify a token: its kind, then its payload if it has one.
pub open spec fn token_bytes(t: TokenV) -> Seq<u8> {
    match t {
        TokenV::Ident(s) => seq![token_kind(t)] + text_bytes(s),
        TokenV::Int(s) => seq![token_kind(t)] + text_bytes(s),
        TokenV::Str(s) => seq![token_kind(t)] + text_bytes(s),
        _ => seq![token_kind(t)],
    }
}

/// The bytes that the fingerprint of an expression is computed from: a tag for the
/// variant, then the parts in order (a call's arguments are closed by `0xfe`).
pub open spec fn expr_bytes(e: ExprV) -> Seq<u8>
    decreases e,
{
    match e {
        ExprV::Ident { value, id } => seq![0u8] + text_bytes(value) + u64_bytes(id),
        ExprV::Int { value } => seq![1u8] + text_bytes(value),
        ExprV::Str { value } => seq![2u8] + text_bytes(value),
        ExprV::Unary { op, right } => seq![3u8] + token_bytes(op) + expr_bytes(*right),
        ExprV::Binary { op, left, right } => seq![4u8] + token_bytes(op) + expr_bytes(*left)
            + expr_bytes(*right),
        ExprV::Call { func, args } => seq![5u8] + expr_bytes(*func) + args_bytes(args).push(0xfe),
        ExprV::At { left, right } => seq![6u8] + expr_bytes(*left) + expr_bytes(*right),
    }
}

pub open spec fn args_bytes(args: Seq<ExprV>) -> Seq<u8>
    decreases args,
{
    if args.len() == 0 {
        Seq::empty()
    } else {
        args_bytes(args.subrange(0, args.len() - 1)) + expr_bytes(args[args.len() - 1])
    }
}

/// The fingerprint of an expression: the standard hasher run over its bytes.
pub open spec fn expr_hash(e: ExprV) -> u64 {
    DefaultHasher::spec_finish(seq![expr_bytes(e)])
}

/// Appends the bytes of a number.
pub fn push_u64_bytes(out: &mut Vec<u8>, n: u64)
    ensures
        final(out)@ == old(out)@ + u64_bytes(n),
{
    out.push((n % 256) as u8);
    out.push(((n / 0x100) % 256) as u8);
    out.push(((n / 0x10000) % 256) as u8);
    out.push(((n / 0x1000000) % 256) as u8);
    out.push(((n / 0x100000000) % 256) as u8);
    out.push(((n / 0x10000000000) % 256) as u8);
    out.push(((n / 0x1000000000000) % 256) as u8);
    out.push(((n / 0x100000000000000) % 256) as u8);
    assert(final(out)@ =~= old(out)@ + u64_bytes(n));
}

/// Appends the bytes of a text.
pub fn push_text_bytes(out: &mut Vec<u8>, s: &String)
    ensures
        final(out)@ == old(out)@ + text_bytes(s@),
{
    let bytes = s.as_str().as_bytes();
    let ghost start = out@;
    let mut i: usize = 0;
    while i < bytes.len()
        invariant
            i <= bytes@.len(),
            bytes@ == encode_utf8(s@),
            out@ == start + bytes@.subrange(0, i as int),
        decreases bytes@.len() - i,
    {
        out.push(bytes[i]);
        i = i + 1;
        assert(out@ =~= start + bytes@.subrange(0, i as int));
    }
    out.push(0xff);
    assert(bytes@.subrange(0, i as int) =~= bytes@);
    assert(out@ =~= start + text_bytes(s@));
}

fn push_token_bytes(out: &mut Vec<u8>, t: &Token)
    ensures
        final(out)@ == old(out)@ + token_bytes(t@),
{
    out.push(t.kind_index());
    match t {
        Token::Ident(s) | Token::Int(s) | Token::String(s) => {
            push_text_bytes(out, s);
            assert(final(out)@ =~= old(out)@ + token_bytes(t@));
        },
        _ => {
            assert(final(out)@ =~= old(out)@ + token_bytes(t@));
        },
    }
}

impl Expression {
    /// Appends the bytes that identify the expression.
    pub fn push_bytes(&self, out: &mut Vec<u8>)
        ensures
            final(out)@ == old(out)@ + expr_bytes(self@),
        decreases self,
    {
        let ghost start = out@;
        match self {
            Expression::Ident { value, id } => {
                out.push(0);
                push_text_bytes(out, value);
                push_u64_bytes(out, *id);
                assert(out@ =~= start + expr_bytes(self@));
            },
            Expression::Int { value } => {
                out.push(1);
                push_text_bytes(out, value);
                assert(out@ =~= start + expr_bytes(self@));
            },
            Expression::String { value } => {
                out.push(2);
                push_text_bytes(out, value);
                assert(out@ =~= start + expr_bytes(self@));
            },
            Expression::Unary { op, right } => {
                out.push(3);
                push_token_bytes(out, op);
                right.push_bytes(out);
                assert(out@ =~= start + expr_bytes(self@));
            },
            Expression::Binary { op, left, right } => {
                out.push(4);
                push_token_bytes(out, op);
                left.push_bytes(out);
                right.push_bytes(out);
                assert(out@ =~= start + expr_bytes(self@));
            },
            Expression::Call { func, args } => {
                out.push(5);
                func.push_bytes(out);
                let ghost mid = out@;
                let mut i: usize = 0;
                #[verifier::loop_isolation(false)]
                while i < args.len()
                    invariant
                        i <= args.len(),
                        out@ == mid + args_bytes(exprs_view(args@.subrange(0, i as int))),
                    decreases args.len() - i,
                {
                    proof {
                        lemma_exprs_view(args@.subrange(0, i + 1));
                        lemma_exprs_view(args@.subrange(0, i as int));
                        let a = exprs_view(args@.subrange(0, i + 1));
                        assert(a.subrange(0, a.len() - 1) =~= exprs_view(args@.subrange(0, i as int)));
                    }
                    proof {
                        assert(decreases_to!(args => args@));
                        assert(decreases_to!(args@ => args@[i as int]));
                    }
                    args[i].push_bytes(out);
                    i = i + 1;
                    assert(out@ =~= mid + args_bytes(exprs_view(args@.subrange(0, i as int))));
                }
                out.push(0xfe);
                assert(args@.subrange(0, i as int) =~= args@);
                assert(out@ =~= start + expr_bytes(self@));
            },
            Expression::At { left, right } => {
                out.push(6);
                left.push_bytes(out);
                right.push_bytes(out);
                assert(out@ =~= start + expr_bytes(self@));
            },
        }
    }

    /// The fingerprint of the expression: the standard hasher run over its bytes.
    /// Equal expressions have equal fingerprints.
    pub fn get_hash(&self) -> (h: ExprHash)
        ensures
            h@ == expr_hash(self@),
    {
        let mut bytes: Vec<u8> = Vec::new();
        self.push_bytes(&mut bytes);
        assert(bytes@ =~= expr_bytes(self@));
        let mut hasher = DefaultHasher::new();
        hasher.write(bytes.as_slice());
        assert(hasher@ =~= seq![expr_bytes(self@)]);
        ExprHash(hasher.finish())
    }

    /// A copy of the expression.
    pub fn duplicate(&self) -> (r: Expression)
        ensures
            r@ == self@,
        decreases self,
    {
        match self {
            Expression::Ident { value, id } => Expression::Ident { value: value.clone(), id: *id },
            Expression::Int { value } => Expression::Int { value: value.clone() },
            Expression::String { value } => Expression::String { value: value.clone() },
            Expression::Unary { op, right } => Expression::Unary {
                op: op.duplicate(),
                right: Box::new(right.duplicate()),
            },
            Expression::Binary { op, left, right } => Expression::Binary {
                op: op.duplicate(),
                left: Box::new(left.duplicate()),
                right: Box::new(right.duplicate()),
            },
            Expression::Call { func, args } => {
                let mut copied: Vec<Expression> = Vec::new();
                let mut i: usize = 0;
                #[verifier::loop_isolation(false)]
                while i < args.len()
                    invariant
                        i <= args.len(),
                        exprs_view(copied@) == exprs_view(args@.subrange(0, i as int)),
                    decreases args.len() - i,
                {
                    let ghost before = copied@;
                    proof {
                        assert(decreases_to!(args => args@));
                        assert(decreases_to!(args@ => args@[i as int]));
                    }
                    copied.push(args[i].duplicate());
                    proof {
                        assert(copied@.subrange(0, copied@.len() - 1) =~= before);
                        assert(args@.subrange(0, i + 1).subrange(0, i as int) =~= args@.subrange(0, i as int));
                    }
                    i = i + 1;
                }
                assert(args@.subrange(0, i as int) =~= args@);
                Expression::Call { func: Box::new(func.duplicate()), args: copied }
            },
            Expression::At { left, right } => Expression::At {
                left: Box::new(left.duplicate()),
                right: Box::new(right.duplicate()),
            },
        }
    }
}

/// A block of statements.
pub type BlockStmt = Vec<Statement>;

/// A parameter of a function.
#[derive(Debug, PartialEq)]
pub struct FuncParam {
    pub name: String,
    pub ty: Type,
}

/// A statement of the Sierra language.
#[derive(Debug, PartialEq)]
pub enum Statement {
    Let {
        name: String,
        ty: Option<Type>,
        value: Option<Expression>,
    },
    Return {
        value: Expression,
    },
    If {
        cond: Expression,
        then: BlockStmt,
        else_then: BlockStmt,
    },
    While {
        cond: Expression,
        block: BlockStmt,
    },
    Func {
        name: String,
        return_type: Type,
        params: Vec<FuncParam>,
        body: Option<BlockStmt>,
    },
    Expr {
        value: Expression,
    },
}

/// A parsed source file: its top-level statements.
#[derive(Debug)]
pub struct File {
    pub body: Vec<Statement>,
}

/// A type as written in the source.
#[derive(Debug, PartialEq, Eq, Hash)]
pub enum Type {
    Void,
    Named(String),
    Ptr(Box<Type>),
    Array(Box<Type>, u64),
    Slice(Box<Type>),
}

/// The mathematical value of a type as written in the source.
pub enum AstTypeV {
    Void,
    Named(Seq<char>),
    Ptr(Box<AstTypeV>),
    Array(Box<AstTypeV>, u64),
    Slice(Box<AstTypeV>),
}

pub open spec fn ast_type_view(t: Type) -> AstTypeV
    decreases t,
{
    match t {
        Type::Void => AstTypeV::Void,
        Type::Named(n) => AstTypeV::Named(n@),
        Type::Ptr(i) => AstTypeV::Ptr(Box::new(ast_type_view(*i))),
        Type::Array(i, n) => AstTypeV::Array(Box::new(ast_type_view(*i)), n),
        Type::Slice(i) => AstTypeV::Slice(Box::new(ast_type_view(*i))),
    }
}

impl View for Type {
    type V = AstTypeV;

    open spec fn view(&self) -> AstTypeV {
        ast_type_view(*self)
    }
}

/// The mathematical value of a parameter.
pub struct ParamV {
    pub name: Seq<char>,
    pub ty: AstTypeV,
}

/// The mathematical value of a statement.
pub enum StmtV {
    Let { name: Seq<char>, ty: Option<AstTypeV>, value: Option<ExprV> },
    Return { value: ExprV },
    If { cond: ExprV, then: Seq<StmtV>, else_then: Seq<StmtV> },
    While { cond: ExprV, block: Seq<StmtV> },
    Func { name: Seq<char>, return_type: AstTypeV, params: Seq<ParamV>, body: Option<Seq<StmtV>> },
    Expr { value: ExprV },
}

pub open spec fn params_view(s: Seq<FuncParam>) -> Seq<ParamV> {
    Seq::new(s.len(), |i: int| ParamV { name: s[i].name@, ty: s[i].ty@ })
}

pub open spec fn stmt_view(s: Statement) -> StmtV
    decreases s,
{
    match s {
        Statement::Let { name, ty, value } => StmtV::Let {
            name: name@,
            ty: match ty { Some(t) => Some(t@), None => None },
            value: match value { Some(v) => Some(v@), None => None },
        },
        Statement::Return { value } => StmtV::Return { value: value@ },
        Statement::If { cond, then, else_then } => StmtV::If {
            cond: cond@,
            then: stmts_view(then@),
            else_then: stmts_view(else_then@),
        },
        Statement::While { cond, block } => StmtV::While { cond: cond@, block: stmts_view(block@) },
        Statement::Func { name, return_type, params, body } => StmtV::Func {
            name: name@,
            return_type: return_type@,
            params: params_view(params@),
            body: match body { Some(b) => Some(stmts_view(b@)), None => None },
        },
        Statement::Expr { value } => StmtV::Expr { value: value@ },
    }
}

pub open spec fn stmts_view(s: Seq<Statement>) -> Seq<StmtV>
    decreases s,
{
    if s.len() == 0 {
        Seq::empty()
    } else {
        stmts_view(s.subrange(0, s.len() - 1)).push(stmt_view(s[s.len() - 1]))
    }
}

impl View for Statement {
    type V = StmtV;

    open spec fn view(&self) -> StmtV {
        stmt_view(*self)
    }
}

impl View for File {
    type V = Seq<StmtV>;

    open spec fn view(&self) -> Seq<StmtV> {
        stmts_view(self.body@)
    }
}

pub proof fn lemma_stmts_view(s: Seq<Statement>)
    ensures
        stmts_view(s).len() == s.len(),
        forall|i: int| 0 <= i < s.len() ==> #[trigger] stmts_view(s)[i] == s[i]@,
    decreases s.len(),
{
    if s.len() > 0 {
        lemma_stmts_view(s.subrange(0, s.len() - 1));
    }
}

/// How a source type is written (what `Display` prints for it).
pub open spec fn ast_type_text(t: AstTypeV) -> Seq<char>
    decreases t,
{
    match t {
        AstTypeV::Void => "<void>"@,
        AstTypeV::Named(name) => name,
        AstTypeV::Ptr(i) => "*"@ + ast_type_text(*i),
        AstTypeV::Array(i, n) => "["@ + decimal(n as nat) + "]"@ + ast_type_text(*i),
        AstTypeV::Slice(i) => "[]"@ + ast_type_text(*i),
    }
}

impl Type {
    /// The text of the type as written in the source.
    pub fn display(&self) -> (r: String)
        ensures
            r@ == ast_type_text(self@),
        decreases self,
    {
        match self {
            Type::Void => lit("<void>"),
            Type::Named(name) => name.clone(),
            Type::Ptr(i) => {
                let mut r = lit("*");
                let inner = i.display();
                r.append(inner.as_str());
                r
            },
            Type::Array(i, n) => {
                let mut r = lit("[");
                let size = decimal_string(*n);
                r.append(size.as_str());
                r.append("]");
                let inner = i.display();
                r.append(inner.as_str());
                r
            },
            Type::Slice(i) => {
                let mut r = lit("[]");
                let inner = i.display();
                r.append(inner.as_str());
                r
            },
        }
    }

    /// A copy of the type.
    pub fn duplicate(&self) -> (r: Type)
        ensures
            r@ == self@,
        decreases self,
    {
        match self {
            Type::Void => Type::Void,
            Type::Named(n) => Type::Named(n.clone()),
            Type::Ptr(i) => Type::Ptr(Box::new(i.duplicate())),
            Type::Array(i, n) => Type::Array(Box::new(i.duplicate()), *n),
            Type::Slice(i) => Type::Slice(Box::new(i.duplicate())),
        }
    }

    /// Whether two source types are the same.
    pub fn same_as(&self, other: &Type) -> (r: bool)
        ensures
            r == (self@ == other@),
        decreases self,
    {
        match (self, other) {
            (Type::Void, Type::Void) => true,
            (Type::Named(a), Type::Named(b)) => *a == *b,
            (Type::Ptr(a), Type::Ptr(b)) => a.same_as(b),
            (Type::Array(a, n), Type::Array(b, m)) => *n == *m && a.same_as(b),
            (Type::Slice(a), Type::Slice(b)) => a.same_as(b),
            _ => false,
        }
    }
}

} // verus!
