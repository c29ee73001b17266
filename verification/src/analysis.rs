use vstd::prelude::*;
use vstd::std_specs::hash::DefaultHasherAdditionalSpecFns;
use std::hash::{DefaultHasher, Hasher};

use crate::ast::{self, ExprHash, Expression, File, FuncParam, Statement, BlockStmt, StmtV,
    expr_hash, exprs_view, lemma_exprs_view, lemma_stmts_view, params_view, push_u64_bytes, stmts_view, u64_bytes};
use crate::semantics::{AErrV, AState, AnalysisV, Halt, ScopeV, TopState, analyze, body_scope, check_args,
    closed_under_parts, direct_parts, is_part, lemma_closed_holds_parts, lemma_closure_of_one, lemma_closure_union,
    lemma_part_unfold, parts_closure, used_types,
    check_block, check_expr, check_func, check_func_bodies, check_let, check_stmt, check_top_level, coerce, err_text,
    err_texts, first_duplicate, lookup, params_frame, primitive_types, resolve, resolve_params, scope_add, scope_child};
use crate::table::{Table, TableKey};
use crate::text::{decimal, decimal_string, hex, hex_string, join, lemma_join_push, lit};
use crate::token::Token;

verus! {

/// A primitive type; later variants are wider.
#[derive(Debug, Clone, Copy, PartialEq, Eq, Structural, PartialOrd, Ord, Hash)]
pub enum Primitive {
    I8,
    U8,
    I16,
    U16,
    I32,
    U32,
    I64,
    U64,
    F32,
    F64,
}

/// The position of a primitive type in the order of widths.
pub open spec fn prim_rank(p: Primitive) -> u8 {
    match p {
        Primitive::I8 => 0,
        Primitive::U8 => 1,
        Primitive::I16 => 2,
        Primitive::U16 => 3,
        Primitive::I32 => 4,
        Primitive::U32 => 5,
        Primitive::I64 => 6,
        Primitive::U64 => 7,
        Primitive::F32 => 8,
        Primitive::F64 => 9,
    }
}

/// The wider of two primitive types.
pub open spec fn prim_max(a: Primitive, b: Primitive) -> Primitive {
    if prim_rank(a) <= prim_rank(b) { b } else { a }
}

/// The name of a primitive type.
pub open spec fn prim_text(p: Primitive) -> Seq<char> {
    match p {
        Primitive::I8 => "i8"@,
        Primitive::U8 => "u8"@,
        Primitive::I16 => "i16"@,
        Primitive::U16 => "u16"@,
        Primitive::I32 => "i32"@,
        Primitive::U32 => "u32"@,
        Primitive::I64 => "i64"@,
        Primitive::U64 => "u64"@,
        Primitive::F32 => "f32"@,
        Primitive::F64 => "f64"@,
    }
}

impl Primitive {
    /// The position in the order of widths.
    pub fn rank(&self) -> (r: u8)
        ensures
            r == prim_rank(*self),
    {
        match self {
            Primitive::I8 => 0,
            Primitive::U8 => 1,
            Primitive::I16 => 2,
            Primitive::U16 => 3,
            Primitive::I32 => 4,
            Primitive::U32 => 5,
            Primitive::I64 => 6,
            Primitive::U64 => 7,
            Primitive::F32 => 8,
            Primitive::F64 => 9,
        }
    }

    /// The wider of two primitive types.
    pub fn wider(self, other: Primitive) -> (r: Primitive)
        ensures
            r == prim_max(self, other),
            r == self || r == other,
            prim_rank(self) <= prim_rank(r) && prim_rank(other) <= prim_rank(r),
    {
        if self.rank() <= other.rank() { other } else { self }
    }

    /// The name of the type (what `Display` prints for it).
    pub fn display(&self) -> (r: String)
        ensures
            r@ == prim_text(*self),
    {
        match self {
            Primitive::I8 => lit("i8"),
            Primitive::U8 => lit("u8"),
            Primitive::I16 => lit("i16"),
            Primitive::U16 => lit("u16"),
            Primitive::I32 => lit("i32"),
            Primitive::U32 => lit("u32"),
            Primitive::I64 => lit("i64"),
            Primitive::U64 => lit("u64"),
            Primitive::F32 => lit("f32"),
            Primitive::F64 => lit("f64"),
        }
    }
}

/// A type that the analysis gives to declarations and expressions.
#[derive(Debug, PartialEq, Eq, Hash)]
pub enum Type {
    Void,
    Primitive(Primitive),
    Func(Box<FuncType>),
    Ptr(Box<Type>),
    Array(Box<Type>, u64),
    Slice(Box<Type>),
}

/// The type of a function: what it returns and what its parameters are.
#[derive(Debug, PartialEq, Eq, Hash)]
pub struct FuncType {
    pub return_type: Type,
    pub params: Vec<Type>,
}

/// The mathematical value of a type.
pub enum TypeV {
    Void,
    Primitive(Primitive),
    Func(Box<FuncTypeV>),
    Ptr(Box<TypeV>),
    Array(Box<TypeV>, u64),
    Slice(Box<TypeV>),
}

/// The mathematical value of a function type.
pub struct FuncTypeV {
    pub return_type: TypeV,
    pub params: Seq<TypeV>,
}

pub open spec fn type_view(t: Type) -> TypeV
    decreases t,
{
    match t {
        Type::Void => TypeV::Void,
        Type::Primitive(p) => TypeV::Primitive(p),
        Type::Func(f) => TypeV::Func(Box::new(FuncTypeV {
            return_type: type_view(f.return_type),
            params: types_view(f.params@),
        })),
        Type::Ptr(i) => TypeV::Ptr(Box::new(type_view(*i))),
        Type::Array(i, n) => TypeV::Array(Box::new(type_view(*i)), n),
        Type::Slice(i) => TypeV::Slice(Box::new(type_view(*i))),
    }
}

pub open spec fn types_view(s: Seq<Type>) -> Seq<TypeV>
    decreases s,
{
    if s.len() == 0 {
        Seq::empty()
    } else {
        types_view(s.subrange(0, s.len() - 1)).push(type_view(s[s.len() - 1]))
    }
}

impl View for Type {
    type V = TypeV;

    open spec fn view(&self) -> TypeV {
        type_view(*self)
    }
}

impl View for FuncType {
    type V = FuncTypeV;

    open spec fn view(&self) -> FuncTypeV {
        FuncTypeV { return_type: self.return_type@, params: types_view(self.params@) }
    }
}

pub proof fn lemma_types_view(s: Seq<Type>)
    ensures
        types_view(s).len() == s.len(),
        forall|i: int| 0 <= i < s.len() ==> #[trigger] types_view(s)[i] == s[i]@,
    decreases s.len(),
{
    if s.len() > 0 {
        lemma_types_view(s.subrange(0, s.len() - 1));
    }
}

pub proof fn lemma_types_view_push(s: Seq<Type>, t: Type)
    ensures
        types_view(s.push(t)) == types_view(s).push(t@),
{
    assert(s.push(t).subrange(0, s.len() as int) =~= s);
}

/// How a type is written (what `Display` prints for it).
pub open spec fn type_text(t: TypeV) -> Seq<char>
    decreases t,
{
    match t {
        TypeV::Void => "<void>"@,
        TypeV::Primitive(p) => prim_text(p),
        TypeV::Func(f) => "fn("@ + join(type_texts(f.params), ", "@) + ") -> "@ + type_text(f.return_type),
        TypeV::Ptr(i) => "*"@ + type_text(*i),
        TypeV::Array(i, n) => "["@ + decimal(n as nat) + "]"@ + type_text(*i),
        TypeV::Slice(i) => "[]"@ + type_text(*i),
    }
}

pub open spec fn type_texts(s: Seq<TypeV>) -> Seq<Seq<char>>
    decreases s,
{
    if s.len() == 0 {
        Seq::empty()
    } else {
        type_texts(s.subrange(0, s.len() - 1)).push(type_text(s[s.len() - 1]))
    }
}

/// How a function type is written.
pub open spec fn func_type_text(f: FuncTypeV) -> Seq<char> {
    "fn("@ + join(type_texts(f.params), ", "@) + ") -> "@ + type_text(f.return_type)
}

/// The bytes that the fingerprint of a type is computed from.
pub open spec fn type_bytes(t: TypeV) -> Seq<u8>
    decreases t,
{
    match t {
        TypeV::Void => seq![0u8],
        TypeV::Primitive(p) => seq![1u8, prim_rank(p)],
        TypeV::Func(f) => seq![2u8] + type_bytes(f.return_type) + types_bytes(f.params).push(0xfe),
        TypeV::Ptr(i) => seq![3u8] + type_bytes(*i),
        TypeV::Array(i, n) => seq![4u8] + u64_bytes(n) + type_bytes(*i),
        TypeV::Slice(i) => seq![5u8] + type_bytes(*i),
    }
}

pub open spec fn types_bytes(s: Seq<TypeV>) -> Seq<u8>
    decreases s,
{
    if s.len() == 0 {
        Seq::empty()
    } else {
        types_bytes(s.subrange(0, s.len() - 1)) + type_bytes(s[s.len() - 1])
    }
}

/// The fingerprint of a type: the standard hasher run over its bytes.
pub open spec fn type_hash(t: TypeV) -> u64 {
    DefaultHasher::spec_finish(seq![type_bytes(t)])
}

/// A fingerprint of a type, used to name the C structure that represents it.
#[derive(Debug, PartialEq, Eq, Hash, Clone, Copy)]
pub struct TypeHash(u64);

impl View for TypeHash {
    type V = u64;

    closed spec fn view(&self) -> u64 {
        self.0
    }
}

impl TypeHash {
    /// The fingerprint in lower-case hexadecimal (what `Display` prints for it).
    pub fn display(&self) -> (r: String)
        ensures
            r@ == hex(self@ as nat),
    {
        hex_string(self.0)
    }
}

impl Type {
    /// Appends the bytes that identify the type.
    pub fn push_bytes(&self, out: &mut Vec<u8>)
        ensures
            final(out)@ == old(out)@ + type_bytes(self@),
        decreases self,
    {
        let ghost start = out@;
        match self {
            Type::Void => {
                out.push(0);
            },
            Type::Primitive(p) => {
                out.push(1);
                out.push(p.rank());
            },
            Type::Func(f) => {
                out.push(2);
                f.return_type.push_bytes(out);
                let ghost mid = out@;
                let mut i: usize = 0;
                #[verifier::loop_isolation(false)]
                while i < f.params.len()
                    invariant
                        i <= f.params.len(),
                        out@ == mid + types_bytes(types_view(f.params@.subrange(0, i as int))),
                    decreases f.params.len() - i,
                {
                    proof {
                        lemma_types_view(f.params@.subrange(0, i + 1));
                        lemma_types_view(f.params@.subrange(0, i as int));
                        let a = types_view(f.params@.subrange(0, i + 1));
                        assert(a.subrange(0, a.len() - 1) =~= types_view(f.params@.subrange(0, i as int)));
                        assert(decreases_to!(f.params => f.params@));
                        assert(decreases_to!(f.params@ => f.params@[i as int]));
                    }
                    f.params[i].push_bytes(out);
                    i = i + 1;
                    assert(out@ =~= mid + types_bytes(types_view(f.params@.subrange(0, i as int))));
                }
                out.push(0xfe);
                assert(f.params@.subrange(0, i as int) =~= f.params@);
            },
            Type::Ptr(i) => {
                out.push(3);
                i.push_bytes(out);
            },
            Type::Array(i, n) => {
                out.push(4);
                push_u64_bytes(out, *n);
                i.push_bytes(out);
            },
            Type::Slice(i) => {
                out.push(5);
                i.push_bytes(out);
            },
        }
        assert(out@ =~= start + type_bytes(self@));
    }

    /// The fingerprint of the type: the standard hasher run over its bytes.
    /// Equal types have equal fingerprints.
    pub fn get_hash(&self) -> (h: TypeHash)
        ensures
            h@ == type_hash(self@),
    {
        let mut bytes: Vec<u8> = Vec::new();
        self.push_bytes(&mut bytes);
        assert(bytes@ =~= type_bytes(self@));
        let mut hasher = DefaultHasher::new();
        hasher.write(bytes.as_slice());
        assert(hasher@ =~= seq![type_bytes(self@)]);
        TypeHash(hasher.finish())
    }

    /// A copy of the type.
    pub fn duplicate(&self) -> (r: Type)
        ensures
            r@ == self@,
        decreases self,
    {
        match self {
            Type::Void => Type::Void,
            Type::Primitive(p) => Type::Primitive(*p),
            Type::Func(f) => {
                proof {
                    assert(decreases_to!(self => **f));
                }
                Type::Func(Box::new(f.duplicate_func()))
            },
            Type::Ptr(i) => Type::Ptr(Box::new(i.duplicate())),
            Type::Array(i, n) => Type::Array(Box::new(i.duplicate()), *n),
            Type::Slice(i) => Type::Slice(Box::new(i.duplicate())),
        }
    }

    /// Whether two types are the same.
    pub fn same_as(&self, other: &Type) -> (r: bool)
        ensures
            r == (self@ == other@),
        decreases self,
    {
        match (self, other) {
            (Type::Void, Type::Void) => true,
            (Type::Primitive(a), Type::Primitive(b)) => *a == *b,
            (Type::Func(a), Type::Func(b)) => {
                proof {
                    assert(decreases_to!(self => **a));
                }
                a.same_func(b)
            },
            (Type::Ptr(a), Type::Ptr(b)) => a.same_as(b),
            (Type::Array(a, n), Type::Array(b, m)) => *n == *m && a.same_as(b),
            (Type::Slice(a), Type::Slice(b)) => a.same_as(b),
            _ => false,
        }
    }

    /// The text of the type (what `Display` prints for it).
    pub fn display(&self) -> (r: String)
        ensures
            r@ == type_text(self@),
        decreases self,
    {
        match self {
            Type::Void => lit("<void>"),
            Type::Primitive(p) => p.display(),
            Type::Func(f) => {
                proof {
                    assert(decreases_to!(self => **f));
                }
                f.display()
            },
            Type::Ptr(i) => {
                let mut r = lit("*");
                r.append(i.display().as_str());
                r
            },
            Type::Array(i, n) => {
                let mut r = lit("[");
                r.append(decimal_string(*n).as_str());
                r.append("]");
                r.append(i.display().as_str());
                r
            },
            Type::Slice(i) => {
                let mut r = lit("[]");
                r.append(i.display().as_str());
                r
            },
        }
    }
}

impl FuncType {
    /// A copy of the function type.
    pub fn duplicate_func(&self) -> (r: FuncType)
        ensures
            r@ == self@,
        decreases self,
    {
        let mut params: Vec<Type> = Vec::new();
        let mut i: usize = 0;
        #[verifier::loop_isolation(false)]
        while i < self.params.len()
            invariant
                i <= self.params.len(),
                types_view(params@) == types_view(self.params@.subrange(0, i as int)),
            decreases self.params.len() - i,
        {
            proof {
                assert(decreases_to!(self.params => self.params@));
                assert(decreases_to!(self.params@ => self.params@[i as int]));
            }
            let p = self.params[i].duplicate();
            proof {
                lemma_types_view_push(params@, p);
                lemma_types_view_push(self.params@.subrange(0, i as int), self.params@[i as int]);
                assert(self.params@.subrange(0, i as int).push(self.params@[i as int]) =~= self.params@.subrange(
                    0,
                    i + 1,
                ));
            }
            params.push(p);
            i = i + 1;
        }
        assert(self.params@.subrange(0, i as int) =~= self.params@);
        FuncType { return_type: self.return_type.duplicate(), params }
    }

    /// Whether two function types are the same.
    pub fn same_func(&self, other: &FuncType) -> (r: bool)
        ensures
            r == (self@ == other@),
        decreases self,
    {
        if !self.return_type.same_as(&other.return_type) {
            return false;
        }
        if self.params.len() != other.params.len() {
            proof {
                lemma_types_view(self.params@);
                lemma_types_view(other.params@);
            }
            return false;
        }
        proof {
            lemma_types_view(self.params@);
            lemma_types_view(other.params@);
        }
        let mut i: usize = 0;
        #[verifier::loop_isolation(false)]
        while i < self.params.len()
            invariant
                i <= self.params.len(),
                self.params.len() == other.params.len(),
                forall|j: int| 0 <= j < i ==> self.params@[j]@ == other.params@[j]@,
            decreases self.params.len() - i,
        {
            proof {
                assert(decreases_to!(self.params => self.params@));
                assert(decreases_to!(self.params@ => self.params@[i as int]));
            }
            if !self.params[i].same_as(&other.params[i]) {
                assert(types_view(self.params@)[i as int] != types_view(other.params@)[i as int]);
                return false;
            }
            i = i + 1;
        }
        assert(types_view(self.params@) =~= types_view(other.params@));
        true
    }

    /// The text of the function type (what `Display` prints for it).
    pub fn display(&self) -> (r: String)
        ensures
            r@ == func_type_text(self@),
        decreases self,
    {
        let mut joined = String::new();
        let mut i: usize = 0;
        proof {
            lemma_types_view(self.params@);
        }
        assert(type_texts(types_view(self.params@).subrange(0, 0)) =~= Seq::<Seq<char>>::empty());
        #[verifier::loop_isolation(false)]
        while i < self.params.len()
            invariant
                i <= self.params.len(),
                joined@ == join(type_texts(types_view(self.params@).subrange(0, i as int)), ", "@),
            decreases self.params.len() - i,
        {
            proof {
                assert(decreases_to!(self.params => self.params@));
                assert(decreases_to!(self.params@ => self.params@[i as int]));
            }
            let text = self.params[i].display();
            let ghost before = type_texts(types_view(self.params@).subrange(0, i as int));
            proof {
                lemma_join_push(before, ", "@, text@);
                let s = types_view(self.params@).subrange(0, i + 1);
                assert(s.subrange(0, s.len() - 1) =~= types_view(self.params@).subrange(0, i as int));
            }
            if i > 0 {
                joined.append(", ");
            }
            joined.append(text.as_str());
            i = i + 1;
        }
        assert(types_view(self.params@).subrange(0, i as int) =~= types_view(self.params@));
        let mut r = lit("fn(");
        r.append(joined.as_str());
        r.append(") -> ");
        r.append(self.return_type.display().as_str());
        r
    }
}

impl TableKey for crate::ast::Type {
    fn same_key(&self, other: &crate::ast::Type) -> (r: bool) {
        self.same_as(other)
    }
}

impl TableKey for crate::ast::ExprHash {
    fn same_key(&self, other: &crate::ast::ExprHash) -> (r: bool) {
        self.same_as(other)
    }
}

/// Why a file is not well typed.
#[derive(Debug)]
pub enum AnalysisError {
    /// A type name that names no type.
    NotAType(String),
    /// A statement other than a function at the top level.
    OnlyFunctionsAtTopLevel,
    /// A name declared twice in one scope (or a function defined twice, or declared with two types).
    AlreadyExists(String),
    /// A name used but not declared.
    DoesNotExist(String),
    /// `&` applied to something that is not a place.
    AddressOfNonLvalue,
    /// A prefix operator applied to a type it does not take.
    UnaryIncompatible { ty: Type, op: Token },
    /// `=` with something on the left that is not a place.
    AssignToNonLvalue,
    /// A binary operator applied to types it does not take.
    BinaryIncompatible { left: Type, right: Type, op: Token },
    /// A value of one type where another is needed.
    Mismatch { expected: Type, got: Type },
    /// A call of something that is not a function.
    NotAFunction,
    /// A call with the wrong number of arguments.
    ArgCount { expected: usize, got: usize },
    /// An element access on something that is not an array.
    AtNotArray(Type),
    /// An element access with an index that is not primitive.
    AtNotPrimitive(Type),
    /// A function inside a function.
    FuncNotAtTopLevel,
    /// A `let` with neither a type nor a value.
    LetWithoutTypeOrValue,
    /// An `if` condition that is not primitive.
    IfCondition(Type),
    /// A `while` condition that is not primitive.
    WhileCondition(Type),
    /// Several errors, reported together.
    Joined(Vec<AnalysisError>),
}

pub open spec fn error_view(e: AnalysisError) -> AErrV
    decreases e,
{
    match e {
        AnalysisError::NotAType(n) => AErrV::NotAType(n@),
        AnalysisError::OnlyFunctionsAtTopLevel => AErrV::OnlyFunctionsAtTopLevel,
        AnalysisError::AlreadyExists(n) => AErrV::AlreadyExists(n@),
        AnalysisError::DoesNotExist(n) => AErrV::DoesNotExist(n@),
        AnalysisError::AddressOfNonLvalue => AErrV::AddressOfNonLvalue,
        AnalysisError::UnaryIncompatible { ty, op } => AErrV::UnaryIncompatible { ty: ty@, op: op@ },
        AnalysisError::AssignToNonLvalue => AErrV::AssignToNonLvalue,
        AnalysisError::BinaryIncompatible { left, right, op } => AErrV::BinaryIncompatible {
            left: left@,
            right: right@,
            op: op@,
        },
        AnalysisError::Mismatch { expected, got } => AErrV::Mismatch { expected: expected@, got: got@ },
        AnalysisError::NotAFunction => AErrV::NotAFunction,
        AnalysisError::ArgCount { expected, got } => AErrV::ArgCount { expected: expected as nat, got: got as nat },
        AnalysisError::AtNotArray(t) => AErrV::AtNotArray(t@),
        AnalysisError::AtNotPrimitive(t) => AErrV::AtNotPrimitive(t@),
        AnalysisError::FuncNotAtTopLevel => AErrV::FuncNotAtTopLevel,
        AnalysisError::LetWithoutTypeOrValue => AErrV::LetWithoutTypeOrValue,
        AnalysisError::IfCondition(t) => AErrV::IfCondition(t@),
        AnalysisError::WhileCondition(t) => AErrV::WhileCondition(t@),
        AnalysisError::Joined(errs) => AErrV::Joined(errors_view(errs@)),
    }
}

pub open spec fn errors_view(s: Seq<AnalysisError>) -> Seq<AErrV>
    decreases s,
{
    if s.len() == 0 {
        Seq::empty()
    } else {
        errors_view(s.subrange(0, s.len() - 1)).push(error_view(s[s.len() - 1]))
    }
}

impl View for AnalysisError {
    type V = AErrV;

    open spec fn view(&self) -> AErrV {
        error_view(*self)
    }
}

pub proof fn lemma_errors_view(s: Seq<AnalysisError>)
    ensures
        errors_view(s).len() == s.len(),
        forall|i: int| 0 <= i < s.len() ==> #[trigger] errors_view(s)[i] == s[i]@,
    decreases s.len(),
{
    if s.len() > 0 {
        lemma_errors_view(s.subrange(0, s.len() - 1));
    }
}

pub proof fn lemma_errors_view_push(s: Seq<AnalysisError>, e: AnalysisError)
    ensures
        errors_view(s.push(e)) == errors_view(s).push(e@),
{
    assert(s.push(e).subrange(0, s.len() as int) =~= s);
}

impl AnalysisError {
    /// The text that reports the error.
    pub fn message(&self) -> (r: String)
        ensures
            r@ == err_text(self@),
        decreases self,
    {
        match self {
            AnalysisError::NotAType(n) => {
                let mut r = n.clone();
                r.append(" is not a type");
                r
            },
            AnalysisError::OnlyFunctionsAtTopLevel => lit("only functions are allowed at top level"),
            AnalysisError::AlreadyExists(n) => {
                let mut r = n.clone();
                r.append(" already exists");
                r
            },
            AnalysisError::DoesNotExist(n) => {
                let mut r = n.clone();
                r.append(" does not exist");
                r
            },
            AnalysisError::AddressOfNonLvalue => lit("right side of & unary operator must be an lvalue"),
            AnalysisError::UnaryIncompatible { ty, op } => {
                let mut r = lit("type ");
                r.append(ty.display().as_str());
                r.append(" is incompatible with unary operator ");
                r.append(op.display().as_str());
                r
            },
            AnalysisError::AssignToNonLvalue => lit("left side of = operator must be an lvalue"),
            AnalysisError::BinaryIncompatible { left, right, op } => {
                let mut r = lit("types ");
                r.append(left.display().as_str());
                r.append(" and ");
                r.append(right.display().as_str());
                r.append(" are incompatible with binary operator ");
                r.append(op.display().as_str());
                r
            },
            AnalysisError::Mismatch { expected, got } => {
                let mut r = lit("expected type ");
                r.append(expected.display().as_str());
                r.append(" but got ");
                r.append(got.display().as_str());
                r
            },
            AnalysisError::NotAFunction => lit("left of call expr is not a function"),
            AnalysisError::ArgCount { expected, got } => {
                let mut r = lit("expected ");
                r.append(decimal_string(*expected as u64).as_str());
                r.append(" args but got ");
                r.append(decimal_string(*got as u64).as_str());
                r
            },
            AnalysisError::AtNotArray(t) => {
                let mut r = lit("at expression expected an array but got ");
                r.append(t.display().as_str());
                r
            },
            AnalysisError::AtNotPrimitive(t) => {
                let mut r = lit("at expression expected a primitive but got ");
                r.append(t.display().as_str());
                r
            },
            AnalysisError::FuncNotAtTopLevel => lit("funcs are only allowed at top level"),
            AnalysisError::LetWithoutTypeOrValue => lit("let statement neither has a type nor an assigned value"),
            AnalysisError::IfCondition(t) => {
                let mut r = lit("if statement condition must be a primitive but instead got ");
                r.append(t.display().as_str());
                r
            },
            AnalysisError::WhileCondition(t) => {
                let mut r = lit("while statement condition must be a primitive but instead got ");
                r.append(t.display().as_str());
                r
            },
            AnalysisError::Joined(errs) => {
                let mut r = String::new();
                let mut i: usize = 0;
                proof {
                    lemma_errors_view(errs@);
                    assert(errors_view(errs@).subrange(0, 0) =~= Seq::<AErrV>::empty());
                    assert(err_texts(Seq::<AErrV>::empty()) =~= Seq::<Seq<char>>::empty());
                }
                #[verifier::loop_isolation(false)]
                while i < errs.len()
                    invariant
                        i <= errs.len(),
                        r@ == join(err_texts(errors_view(errs@).subrange(0, i as int)), "\n"@),
                    decreases errs.len() - i,
                {
                    proof {
                        assert(decreases_to!(errs => errs@));
                        assert(decreases_to!(errs@ => errs@[i as int]));
                    }
                    let text = errs[i].message();
                    proof {
                        let before = err_texts(errors_view(errs@).subrange(0, i as int));
                        lemma_join_push(before, "\n"@, text@);
                        let s = errors_view(errs@).subrange(0, i + 1);
                        assert(s.subrange(0, s.len() - 1) =~= errors_view(errs@).subrange(0, i as int));
                    }
                    if i > 0 {
                        r.append("\n");
                    }
                    r.append(text.as_str());
                    i = i + 1;
                }
                assert(errors_view(errs@).subrange(0, i as int) =~= errors_view(errs@));
                r
            },
        }
    }
}

/// How a check stops: with an error, or at a construct that the analysis does not handle.
pub enum Stop {
    Error(AnalysisError),
    Abort,
}

impl View for Stop {
    type V = Halt;

    open spec fn view(&self) -> Halt {
        match self {
            Stop::Error(e) => Halt::Fail(e@),
            Stop::Abort => Halt::Abort,
        }
    }
}

/// A check result matches its meaning: success for success, the same stop otherwise.
pub open spec fn same_outcome<T>(r: Result<(), Stop>, m: Result<T, Halt>) -> bool {
    match m {
        Ok(_) => r is Ok,
        Err(h) => r matches Err(x) && x@ == h,
    }
}

/// Reports the collected errors together, if there are any.
fn join_errs(errs: Vec<AnalysisError>) -> (r: Result<(), AnalysisError>)
    ensures
        errs@.len() == 0 ==> r is Ok,
        errs@.len() > 0 ==> (r matches Err(e) && e@ == AErrV::Joined(errors_view(errs@))),
{
    if errs.len() == 0 {
        Ok(())
    } else {
        Err(AnalysisError::Joined(errs))
    }
}

/// The names visible at a point of a function: its own frame, then the frames around it.
struct Scope<'a> {
    parent: Option<&'a Scope<'a>>,
    symbols: Table<String, Type>,
    return_type: Type,
}

impl<'a> Scope<'a> {
    spec fn frames(&self) -> Seq<Map<Seq<char>, TypeV>>
        decreases self,
    {
        match self.parent {
            Some(p) => p.frames().push(self.symbols@),
            None => seq![self.symbols@],
        }
    }

    spec fn wf(&self) -> bool
        decreases self,
    {
        &&& self.symbols.wf()
        &&& match self.parent {
            Some(p) => p.wf(),
            None => true,
        }
    }

    spec fn view(&self) -> ScopeV {
        ScopeV { frames: self.frames(), ret: self.return_type@ }
    }

    /// The outermost scope.
    fn new(return_type: Type) -> (r: Scope<'a>)
        ensures
            r.wf(),
            r.parent is None,
            r.view() == (ScopeV { frames: seq![Map::empty()], ret: return_type@ }),
            r.symbols@ == Map::<Seq<char>, TypeV>::empty(),
    {
        Scope { parent: None, symbols: Table::new(), return_type }
    }

    /// A scope inside this one, with the same return type.
    fn get_child(&'a self) -> (r: Scope<'a>)
        requires
            self.wf(),
        ensures
            r.wf(),
            r.view() == scope_child(self.view()),
    {
        Scope { parent: Some(self), symbols: Table::new(), return_type: self.return_type.duplicate() }
    }

    /// A scope inside this one, with another return type.
    fn get_child_with(&'a self, return_type: Type) -> (r: Scope<'a>)
        requires
            self.wf(),
        ensures
            r.wf(),
            r.view() == (ScopeV { frames: self.frames().push(Map::empty()), ret: return_type@ }),
    {
        Scope { parent: Some(self), symbols: Table::new(), return_type }
    }

    /// The type of `name` in the innermost frame that binds it.
    fn get_type_of(&self, name: &String) -> (r: Option<Type>)
        requires
            self.wf(),
        ensures
            match lookup(self.frames(), name@) {
                Some(t) => r matches Some(x) && x@ == t,
                None => r is None,
            },
        decreases self,
    {
        proof {
            assert(self.frames().last() == self.symbols@);
        }
        match self.symbols.get(name) {
            Some(t) => Some(t.duplicate()),
            None => match self.parent {
                Some(p) => {
                    proof {
                        assert(self.frames().drop_last() =~= p.frames());
                    }
                    p.get_type_of(name)
                },
                None => {
                    proof {
                        let empty = Seq::<Map<Seq<char>, TypeV>>::empty();
                        assert(self.frames().drop_last() =~= empty);
                        assert(lookup(empty, name@) is None);
                        assert(lookup(self.frames(), name@) == lookup(empty, name@));
                    }
                    None
                },
            },
        }
    }

    /// Whether the innermost frame binds `name`.
    fn contains_local(&self, name: &String) -> (r: bool)
        requires
            self.wf(),
        ensures
            r == crate::semantics::local_contains(self.view(), name@),
    {
        self.symbols.contains_key(name)
    }

    /// Binds `name` to `ty` in the innermost frame.
    fn add(&mut self, name: &String, ty: Type)
        requires
            old(self).wf(),
        ensures
            final(self).wf(),
            final(self).parent == old(self).parent,
            final(self).view() == scope_add(old(self).view(), name@, ty@),
            final(self).symbols@ == old(self).symbols@.insert(name@, ty@),
    {
        self.symbols.insert(name.clone(), ty);
        assert(self.frames() =~= old(self).frames().update(
            old(self).frames().len() - 1,
            old(self).frames().last().insert(name@, ty@),
        ));
    }
}

/// Adding an entry to the right side of a union adds it to the union.
proof fn lemma_union_insert(m: Map<Seq<char>, TypeV>, n: Map<Seq<char>, TypeV>, k: Seq<char>, v: TypeV)
    ensures
        m.union_prefer_right(n.insert(k, v)) == m.union_prefer_right(n).insert(k, v),
{
    assert(m.union_prefer_right(n.insert(k, v)) =~= m.union_prefer_right(n).insert(k, v));
}

/// The results of analysing a file: the named types, the type of every source type and of
/// every expression, the types that code generation needs, and the type of every function.
#[derive(Debug)]
pub struct Analysis {
    pub named_types: Table<String, Type>,
    pub type_map: Table<ast::Type, Type>,
    pub expr_types: Table<ExprHash, Type>,
    pub types_used: Vec<Type>,
    pub func_decls: Table<String, FuncType>,
}

/// No two types of the list are equal.
pub open spec fn types_unique(s: Seq<Type>) -> bool {
    forall|i: int, j: int| 0 <= i < j < s.len() ==> s[i]@ != s[j]@
}

/// The types of a list, as a set of values.
pub open spec fn type_set(s: Seq<Type>) -> Set<TypeV> {
    Set::new(|t: TypeV| exists|i: int| 0 <= i < s.len() && s[i]@ == t)
}

/// The names of a list, as a set of values.
pub open spec fn name_set(s: Seq<String>) -> Set<Seq<char>> {
    Set::new(|n: Seq<char>| exists|i: int| 0 <= i < s.len() && s[i]@ == n)
}

impl Analysis {
    /// The maps that checking reads and extends.
    pub open spec fn state(&self) -> AState {
        AState { named: self.named_types@, type_map: self.type_map@, exprs: self.expr_types@ }
    }

    /// Every table has distinct keys, and the used types are distinct.
    pub open spec fn wf(&self) -> bool {
        &&& self.named_types.wf()
        &&& self.type_map.wf()
        &&& self.expr_types.wf()
        &&& self.func_decls.wf()
        &&& types_unique(self.types_used@)
    }
}

impl View for Analysis {
    type V = AnalysisV;

    open spec fn view(&self) -> AnalysisV {
        AnalysisV {
            named: self.named_types@,
            type_map: self.type_map@,
            exprs: self.expr_types@,
            funcs: self.func_decls@,
            used: type_set(self.types_used@),
        }
    }
}

/// The top-level state of an analysis in progress, with its global names and defined functions.
spec fn top_of(a: Analysis, global: Map<Seq<char>, TypeV>, defined: Seq<String>) -> TopState {
    TopState { a: a.state(), global, funcs: a.func_decls@, defined: name_set(defined) }
}

/// Whether an expression denotes a place: a name, a dereference, or an element of an array.
fn is_lvalue(e: &Expression) -> (r: bool)
    ensures
        r == crate::semantics::is_lvalue(e@),
{
    match e {
        Expression::Ident { .. } | Expression::Unary { op: Token::Asterisk, .. } | Expression::At { .. } => true,
        _ => false,
    }
}

/// Whether a list of names holds `name`.
fn name_listed(names: &Vec<String>, name: &String) -> (r: bool)
    ensures
        r == name_set(names@).contains(name@),
{
    let mut i: usize = 0;
    while i < names.len()
        invariant
            i <= names.len(),
            forall|j: int| 0 <= j < i ==> names@[j]@ != name@,
        decreases names.len() - i,
    {
        if names[i] == *name {
            assert(name_set(names@).contains(name@));
            return true;
        }
        i = i + 1;
    }
    false
}

impl Analysis {
    /// Analyses a file: declares its functions, checks their bodies and collects the types used.
    /// A file with a string literal in a checked expression, or with a call argument that has
    /// no type after its check failed, is outside what the analysis handles: see `supports`.
    pub fn new(file: &File) -> (r: Result<Analysis, AnalysisError>)
        requires
            !(analyze(file@) matches Err(Halt::Abort)),
        ensures
            match analyze(file@) {
                Ok(v) => r matches Ok(a) && a@ == v && a.wf(),
                Err(Halt::Fail(e)) => r matches Err(x) && x@ == e,
                Err(Halt::Abort) => false,
            },
    {
        match Self::run(file) {
            Ok(a) => Ok(a),
            Err(Stop::Error(e)) => Err(e),
            Err(Stop::Abort) => {
                // The precondition rules this out.
                proof {
                    assert(false);
                }
                Err(AnalysisError::NotAFunction)
            },
        }
    }

    /// Whether the analysis handles the file (see `new`).
    pub fn supports(file: &File) -> (r: bool)
        ensures
            r == !(analyze(file@) matches Err(Halt::Abort)),
    {
        match Self::run(file) {
            Err(Stop::Abort) => false,
            _ => true,
        }
    }

    fn run(file: &File) -> (r: Result<Analysis, Stop>)
        ensures
            match analyze(file@) {
                Ok(v) => r matches Ok(a) && a@ == v && a.wf(),
                Err(h) => r matches Err(x) && x@ == h,
            },
    {
        let mut analysis = Analysis {
            expr_types: Table::new(),
            type_map: Table::new(),
            types_used: Vec::new(),
            named_types: Table::new(),
            func_decls: Table::new(),
        };
        let mut global = Scope::new(Type::Void);
        let mut defined: Vec<String> = Vec::new();
        analysis.add_primitive_types();
        proof {
            assert(analysis.named_types@ =~= primitive_types());
            assert(name_set(defined@) =~= Set::<Seq<char>>::empty());
        }
        match analysis.check_top_level(file, &mut global, &mut defined) {
            Ok(()) => {},
            Err(e) => return Err(Stop::Error(e)),
        }
        analysis.check_func_bodies(file, &global)?;
        analysis.collect_used_types(&global);
        Ok(analysis)
    }

    /// Names the primitive types.
    fn add_primitive_types(&mut self)
        requires
            old(self).wf(),
        ensures
            final(self).wf(),
            final(self).named_types@ == old(self).named_types@.union_prefer_right(primitive_types()),
            final(self).type_map == old(self).type_map,
            final(self).expr_types == old(self).expr_types,
            final(self).func_decls == old(self).func_decls,
            final(self).types_used == old(self).types_used,
    {
        let ghost m0 = self.named_types@;
        let ghost mut added = Map::<Seq<char>, TypeV>::empty();
        assert(m0.union_prefer_right(added) =~= m0);
        self.named_types.insert(lit("i8"), Type::Primitive(Primitive::I8));
        proof {
            lemma_union_insert(m0, added, "i8"@, TypeV::Primitive(Primitive::I8));
            added = added.insert("i8"@, TypeV::Primitive(Primitive::I8));
        }
        self.named_types.insert(lit("u8"), Type::Primitive(Primitive::U8));
        proof {
            lemma_union_insert(m0, added, "u8"@, TypeV::Primitive(Primitive::U8));
            added = added.insert("u8"@, TypeV::Primitive(Primitive::U8));
        }
        self.named_types.insert(lit("i16"), Type::Primitive(Primitive::I16));
        proof {
            lemma_union_insert(m0, added, "i16"@, TypeV::Primitive(Primitive::I16));
            added = added.insert("i16"@, TypeV::Primitive(Primitive::I16));
        }
        self.named_types.insert(lit("u16"), Type::Primitive(Primitive::U16));
        proof {
            lemma_union_insert(m0, added, "u16"@, TypeV::Primitive(Primitive::U16));
            added = added.insert("u16"@, TypeV::Primitive(Primitive::U16));
        }
        self.named_types.insert(lit("i32"), Type::Primitive(Primitive::I32));
        proof {
            lemma_union_insert(m0, added, "i32"@, TypeV::Primitive(Primitive::I32));
            added = added.insert("i32"@, TypeV::Primitive(Primitive::I32));
        }
        self.named_types.insert(lit("u32"), Type::Primitive(Primitive::U32));
        proof {
            lemma_union_insert(m0, added, "u32"@, TypeV::Primitive(Primitive::U32));
            added = added.insert("u32"@, TypeV::Primitive(Primitive::U32));
        }
        self.named_types.insert(lit("i64"), Type::Primitive(Primitive::I64));
        proof {
            lemma_union_insert(m0, added, "i64"@, TypeV::Primitive(Primitive::I64));
            added = added.insert("i64"@, TypeV::Primitive(Primitive::I64));
        }
        self.named_types.insert(lit("u64"), Type::Primitive(Primitive::U64));
        proof {
            lemma_union_insert(m0, added, "u64"@, TypeV::Primitive(Primitive::U64));
            added = added.insert("u64"@, TypeV::Primitive(Primitive::U64));
        }
        self.named_types.insert(lit("f32"), Type::Primitive(Primitive::F32));
        proof {
            lemma_union_insert(m0, added, "f32"@, TypeV::Primitive(Primitive::F32));
            added = added.insert("f32"@, TypeV::Primitive(Primitive::F32));
        }
        self.named_types.insert(lit("f64"), Type::Primitive(Primitive::F64));
        proof {
            lemma_union_insert(m0, added, "f64"@, TypeV::Primitive(Primitive::F64));
            added = added.insert("f64"@, TypeV::Primitive(Primitive::F64));
        }
    }

    /// The type recorded for an expression; the expression must have been checked.
    pub fn get_type_of_expr(&self, expr: &Expression) -> (r: &Type)
        requires
            self.wf(),
            self.expr_types@.contains_key(expr_hash(expr@)),
        ensures
            r@ == self.expr_types@[expr_hash(expr@)],
    {
        let h = expr.get_hash();
        match self.expr_types.get(&h) {
            Some(t) => t,
            None => {
                // Ruled out by the precondition.
                proof {
                    assert(false);
                }
                &self.types_used[0]
            },
        }
    }

    /// Turns a source type into a type, recording every part that resolves.
    fn resolve_type(&mut self, ty: &ast::Type) -> (r: Result<Type, AnalysisError>)
        requires
            old(self).wf(),
        ensures
            final(self).wf(),
            final(self).named_types == old(self).named_types,
            final(self).expr_types == old(self).expr_types,
            final(self).func_decls == old(self).func_decls,
            final(self).types_used == old(self).types_used,
            ({
                let (tm, m) = resolve(old(self).named_types@, old(self).type_map@, ty@);
                final(self).type_map@ == tm && match m {
                    Ok(t) => r matches Ok(x) && x@ == t,
                    Err(e) => r matches Err(x) && x@ == e,
                }
            }),
        decreases ty,
    {
        let resolved = match ty {
            ast::Type::Void => Type::Void,
            ast::Type::Named(name) => match self.named_types.get(name) {
                Some(t) => t.duplicate(),
                None => return Err(AnalysisError::NotAType(name.clone())),
            },
            ast::Type::Ptr(inner) => Type::Ptr(Box::new(self.resolve_type(inner)?)),
            ast::Type::Array(inner, size) => Type::Array(Box::new(self.resolve_type(inner)?), *size),
            ast::Type::Slice(inner) => Type::Slice(Box::new(self.resolve_type(inner)?)),
        };
        self.type_map.insert(ty.duplicate(), resolved.duplicate());
        Ok(resolved)
    }

    /// A value of type `got` where `expected` is needed.
    fn try_coercion(&self, expected: &Type, got: &Type) -> (r: Result<Type, AnalysisError>)
        ensures
            match coerce(expected@, got@) {
                Ok(t) => r matches Ok(x) && x@ == t,
                Err(e) => r matches Err(x) && x@ == e,
            },
    {
        if expected.same_as(got) {
            Ok(expected.duplicate())
        } else {
            match (expected, got) {
                (Type::Primitive(p), Type::Primitive(_)) => Ok(Type::Primitive(*p)),
                _ => Err(AnalysisError::Mismatch { expected: expected.duplicate(), got: got.duplicate() }),
            }
        }
    }

    /// Checks an expression, recording the type of it and of its parts.
    fn check_expr(&mut self, expr: &Expression, scope: &Scope) -> (r: Result<(), Stop>)
        requires
            old(self).wf(),
            scope.wf(),
        ensures
            final(self).wf(),
            final(self).named_types == old(self).named_types,
            final(self).func_decls == old(self).func_decls,
            final(self).types_used == old(self).types_used,
            ({
                let (st, m) = check_expr(old(self).state(), scope.view(), expr@);
                final(self).state() == st && same_outcome(r, m)
            }),
        decreases expr, 1nat,
    {
        match expr {
            Expression::Ident { value, .. } => self.check_ident(expr, value, scope),
            Expression::Int { .. } => self.check_int(expr),
            Expression::String { .. } => Err(Stop::Abort),
            Expression::Unary { op, right } => self.check_unary(expr, op, right, scope),
            Expression::Binary { op, left, right } => self.check_binary(expr, op, left, right, scope),
            Expression::Call { func, args } => self.check_call(expr, func, args, scope),
            Expression::At { left, right } => self.check_at(expr, left, right, scope),
        }
    }

    fn check_ident(&mut self, expr: &Expression, value: &String, scope: &Scope) -> (r: Result<(), Stop>)
        requires
            old(self).wf(),
            scope.wf(),
            expr is Ident,
            expr->Ident_value == *value,
        ensures
            final(self).wf(),
            final(self).named_types == old(self).named_types,
            final(self).func_decls == old(self).func_decls,
            final(self).types_used == old(self).types_used,
            ({
                let (st, m) = check_expr(old(self).state(), scope.view(), expr@);
                final(self).state() == st && same_outcome(r, m)
            }),
    {
        match scope.get_type_of(value) {
            None => Err(Stop::Error(AnalysisError::DoesNotExist(value.clone()))),
            Some(ty) => {
                self.expr_types.insert(expr.get_hash(), ty);
                Ok(())
            },
        }
    }

    fn check_int(&mut self, expr: &Expression) -> (r: Result<(), Stop>)
        requires
            old(self).wf(),
            expr is Int,
        ensures
            final(self).wf(),
            final(self).named_types == old(self).named_types,
            final(self).func_decls == old(self).func_decls,
            final(self).types_used == old(self).types_used,
            forall|sc: ScopeV| ({
                let (st, m) = #[trigger] check_expr(old(self).state(), sc, expr@);
                final(self).state() == st && same_outcome(r, m)
            }),
    {
        self.expr_types.insert(expr.get_hash(), Type::Primitive(Primitive::I32));
        Ok(())
    }

    #[verifier::rlimit(50)]
    fn check_unary(&mut self, expr: &Expression, op: &Token, right: &Expression, scope: &Scope) -> (r: Result<(), Stop>)
        requires
            old(self).wf(),
            scope.wf(),
            *expr == (Expression::Unary { op: *op, right: Box::new(*right) }),
        ensures
            final(self).wf(),
            final(self).named_types == old(self).named_types,
            final(self).func_decls == old(self).func_decls,
            final(self).types_used == old(self).types_used,
            ({
                let (st, m) = crate::semantics::check_unary(old(self).state(), scope.view(), expr@);
                final(self).state() == st && same_outcome(r, m)
            }),
        decreases expr, 0nat,
    {
        let ghost st0 = self.state();
        self.check_expr(right, scope)?;
        proof {
            crate::semantics::lemma_check_records(st0, scope.view(), right@);
        }
        let rt = self.get_type_of_expr(right).duplicate();
        let ty = if matches!(op, Token::Ampersand) {
            if is_lvalue(right) {
                Type::Ptr(Box::new(rt))
            } else {
                return Err(Stop::Error(AnalysisError::AddressOfNonLvalue));
            }
        } else if matches!(op, Token::Asterisk) {
            match &rt {
                Type::Ptr(inner) => inner.duplicate(),
                _ => return Err(Stop::Error(AnalysisError::UnaryIncompatible { ty: rt, op: op.duplicate() })),
            }
        } else {
            match &rt {
                Type::Primitive(p) => Type::Primitive(*p),
                _ => return Err(Stop::Error(AnalysisError::UnaryIncompatible { ty: rt, op: op.duplicate() })),
            }
        };
        self.expr_types.insert(expr.get_hash(), ty);
        Ok(())
    }

    #[verifier::rlimit(50)]
    fn check_binary(&mut self, expr: &Expression, op: &Token, left: &Expression, right: &Expression, scope: &Scope) -> (r: Result<(), Stop>)
        requires
            old(self).wf(),
            scope.wf(),
            *expr == (Expression::Binary { op: *op, left: Box::new(*left), right: Box::new(*right) }),
        ensures
            final(self).wf(),
            final(self).named_types == old(self).named_types,
            final(self).func_decls == old(self).func_decls,
            final(self).types_used == old(self).types_used,
            ({
                let (st, m) = crate::semantics::check_binary(old(self).state(), scope.view(), expr@);
                final(self).state() == st && same_outcome(r, m)
            }),
        decreases expr, 0nat,
    {
        let ghost st0 = self.state();
        self.check_expr(left, scope)?;
        let ghost st1 = self.state();
        proof {
            crate::semantics::lemma_check_records(st0, scope.view(), left@);
        }
        self.check_expr(right, scope)?;
        proof {
            crate::semantics::lemma_check_records(st1, scope.view(), right@);
            crate::semantics::lemma_check_grows(st1, scope.view(), right@);
        }
        let lt = self.get_type_of_expr(left);
        let rt = self.get_type_of_expr(right);
        let is_assign = matches!(op, Token::Assign);
        let return_ty = match (lt, rt) {
            (Type::Primitive(a), Type::Primitive(b)) if !is_assign => Type::Primitive(a.wider(*b)),
            _ => if is_assign && lt.same_as(rt) {
                if is_lvalue(left) {
                    rt.duplicate()
                } else {
                    return Err(Stop::Error(AnalysisError::AssignToNonLvalue));
                }
            } else {
                return Err(Stop::Error(AnalysisError::BinaryIncompatible {
                    left: lt.duplicate(),
                    right: rt.duplicate(),
                    op: op.duplicate(),
                }));
            },
        };
        self.expr_types.insert(expr.get_hash(), return_ty);
        Ok(())
    }

    #[verifier::rlimit(50)]
    #[verifier::spinoff_prover]
    fn check_call(&mut self, expr: &Expression, func: &Expression, args: &Vec<Expression>, scope: &Scope) -> (r: Result<(), Stop>)
        requires
            old(self).wf(),
            scope.wf(),
            *expr == (Expression::Call { func: Box::new(*func), args: *args }),
        ensures
            final(self).wf(),
            final(self).named_types == old(self).named_types,
            final(self).func_decls == old(self).func_decls,
            final(self).types_used == old(self).types_used,
            ({
                let (st, m) = crate::semantics::check_call(old(self).state(), scope.view(), expr@);
                final(self).state() == st && same_outcome(r, m)
            }),
        decreases expr, 0nat,
    {
        let ghost sc = scope.view();
        let ghost st0 = self.state();
        self.check_expr(func, scope)?;
        let ghost st1 = self.state();
        proof {
            crate::semantics::lemma_check_records(st0, sc, func@);
        }
        let fty = match self.expr_types.get(&func.get_hash()) {
            Some(Type::Func(f)) => f.duplicate_func(),
            Some(_) => return Err(Stop::Error(AnalysisError::NotAFunction)),
            None => return Err(Stop::Abort),
        };
        proof {
            lemma_types_view(fty.params@);
            lemma_exprs_view(args@);
        }
        if args.len() != fty.params.len() {
            return Err(Stop::Error(AnalysisError::ArgCount { expected: fty.params.len(), got: args.len() }));
        }
        let ghost av = exprs_view(args@);
        let ghost pv = fty@.params;
        let mut errs: Vec<AnalysisError> = Vec::new();
        let mut i: usize = 0;
        assert(av.subrange(0, av.len() as int) =~= av);
        assert(pv.subrange(0, pv.len() as int) =~= pv);
        assert(errors_view(errs@) =~= Seq::<AErrV>::empty());
        while i < args.len()
            invariant
                self.wf(),
                scope.wf(),
                scope.view() == sc,
                self.named_types == old(self).named_types,
                self.func_decls == old(self).func_decls,
                self.types_used == old(self).types_used,
                i <= args.len(),
                args.len() == fty.params.len(),
                av == exprs_view(args@),
                pv == fty@.params,
                av.len() == args.len(),
                pv.len() == args.len(),
                forall|k: int| 0 <= k < args.len() ==> #[trigger] av[k] == args@[k]@,
                forall|k: int| 0 <= k < args.len() ==> #[trigger] pv[k] == fty.params@[k]@,
                *expr == (Expression::Call { func: Box::new(*func), args: *args }),
                st0 == old(self).state(),
                crate::semantics::check_call(st0, sc, expr@) == crate::semantics::finish_call(
                    expr@,
                    fty@.return_type,
                    check_args(st1, sc, av, pv, Seq::empty()),
                ),
                check_args(st1, sc, av, pv, Seq::empty()) == check_args(
                    self.state(),
                    sc,
                    av.subrange(i as int, av.len() as int),
                    pv.subrange(i as int, pv.len() as int),
                    errors_view(errs@),
                ),
            decreases args.len() - i,
        {
            proof {
                assert(decreases_to!(*expr => *args));
                assert(decreases_to!(args => args@));
                assert(decreases_to!(args@ => args@[i as int]));
                let ra = av.subrange(i as int, av.len() as int);
                let rp = pv.subrange(i as int, pv.len() as int);
                assert(ra[0] == args@[i as int]@);
                assert(rp[0] == fty.params@[i as int]@);
                assert(ra.subrange(1, ra.len() as int) =~= av.subrange(i + 1, av.len() as int));
                assert(rp.subrange(1, rp.len() as int) =~= pv.subrange(i + 1, pv.len() as int));
                crate::semantics::lemma_args_step(self.state(), sc, ra, rp, errors_view(errs@));
            }
            self.check_arg(&args[i], &fty.params[i], scope, &mut errs)?;
            i = i + 1;
        }
        proof {
            crate::semantics::lemma_args_done(
                self.state(),
                sc,
                av.subrange(i as int, av.len() as int),
                pv.subrange(i as int, pv.len() as int),
                errors_view(errs@),
            );
        }
        self.expr_types.insert(expr.get_hash(), fty.return_type.duplicate());
        match join_errs(errs) {
            Ok(()) => Ok(()),
            Err(e) => Err(Stop::Error(e)),
        }
    }

    /// Checks one argument of a call and matches its type against the parameter's, collecting
    /// the errors of both in `errs`.
    fn check_arg(&mut self, arg: &Expression, param: &Type, scope: &Scope, errs: &mut Vec<AnalysisError>) -> (r: Result<(), Stop>)
        requires
            old(self).wf(),
            scope.wf(),
        ensures
            final(self).wf(),
            final(self).named_types == old(self).named_types,
            final(self).func_decls == old(self).func_decls,
            final(self).types_used == old(self).types_used,
            ({
                let (st, m) = crate::semantics::arg_step(
                    old(self).state(),
                    scope.view(),
                    arg@,
                    param@,
                    errors_view(old(errs)@),
                );
                final(self).state() == st && match m {
                    Ok(e) => r is Ok && errors_view(final(errs)@) == e,
                    Err(h) => r matches Err(x) && x@ == h,
                }
            }),
        decreases arg, 2nat,
    {
        match self.check_expr(arg, scope) {
            Err(Stop::Abort) => return Err(Stop::Abort),
            Err(Stop::Error(e)) => {
                proof {
                    lemma_errors_view_push(errs@, e);
                }
                errs.push(e);
            },
            Ok(()) => {},
        }
        let h = arg.get_hash();
        match self.expr_types.get(&h) {
            None => Err(Stop::Abort),
            Some(got) => match self.try_coercion(param, got) {
                Err(e) => {
                    proof {
                        lemma_errors_view_push(errs@, e);
                    }
                    errs.push(e);
                    Ok(())
                },
                Ok(_) => Ok(()),
            },
        }
    }

    #[verifier::rlimit(50)]
    fn check_at(&mut self, expr: &Expression, left: &Expression, right: &Expression, scope: &Scope) -> (r: Result<(), Stop>)
        requires
            old(self).wf(),
            scope.wf(),
            *expr == (Expression::At { left: Box::new(*left), right: Box::new(*right) }),
        ensures
            final(self).wf(),
            final(self).named_types == old(self).named_types,
            final(self).func_decls == old(self).func_decls,
            final(self).types_used == old(self).types_used,
            ({
                let (st, m) = crate::semantics::check_at(old(self).state(), scope.view(), expr@);
                final(self).state() == st && same_outcome(r, m)
            }),
        decreases expr, 0nat,
    {
        let ghost st0 = self.state();
        self.check_expr(left, scope)?;
        let ghost st1 = self.state();
        proof {
            crate::semantics::lemma_check_records(st0, scope.view(), left@);
        }
        self.check_expr(right, scope)?;
        proof {
            crate::semantics::lemma_check_records(st1, scope.view(), right@);
            crate::semantics::lemma_check_grows(st1, scope.view(), right@);
        }
        let ty = match self.get_type_of_expr(left) {
            Type::Array(inner, _) => inner.duplicate(),
            lt => return Err(Stop::Error(AnalysisError::AtNotArray(lt.duplicate()))),
        };
        match self.get_type_of_expr(right) {
            Type::Primitive(_) => {},
            rt => return Err(Stop::Error(AnalysisError::AtNotPrimitive(rt.duplicate()))),
        }
        self.expr_types.insert(expr.get_hash(), ty);
        Ok(())
    }
}

impl Analysis {
    /// Checks statements in order, stopping at the first that fails.
    fn check_block(&mut self, block: &BlockStmt, scope: &mut Scope) -> (r: Result<(), Stop>)
        requires
            old(self).wf(),
            old(scope).wf(),
        ensures
            final(self).wf(),
            final(self).named_types == old(self).named_types,
            final(self).func_decls == old(self).func_decls,
            final(self).types_used == old(self).types_used,
            final(scope).wf(),
            final(scope).parent == old(scope).parent,
            ({
                let (st, sc, m) = check_block(old(self).state(), old(scope).view(), stmts_view(block@));
                final(self).state() == st && final(scope).view() == sc && same_outcome(r, m)
            }),
        decreases block, 2nat,
    {
        let ghost bv = stmts_view(block@);
        let ghost st0 = self.state();
        let ghost sc0 = scope.view();
        proof {
            lemma_stmts_view(block@);
            assert(bv.subrange(0, bv.len() as int) =~= bv);
        }
        let mut i: usize = 0;
        while i < block.len()
            invariant
                self.wf(),
                scope.wf(),
                scope.parent == old(scope).parent,
                self.named_types == old(self).named_types,
                self.func_decls == old(self).func_decls,
                self.types_used == old(self).types_used,
                i <= block.len(),
                bv == stmts_view(block@),
                bv.len() == block.len(),
                forall|k: int| 0 <= k < block.len() ==> #[trigger] bv[k] == block@[k]@,
                st0 == old(self).state(),
                sc0 == old(scope).view(),
                check_block(st0, sc0, bv) == check_block(self.state(), scope.view(), bv.subrange(i as int, bv.len() as int)),
            decreases block.len() - i,
        {
            proof {
                assert(decreases_to!(block => block@));
                assert(decreases_to!(block@ => block@[i as int]));
                assert(bv.subrange(i as int, bv.len() as int)[0] == block@[i as int]@);
                assert(bv.subrange(i as int, bv.len() as int).subrange(1, (bv.len() - i) as int) =~= bv.subrange(
                    i + 1,
                    bv.len() as int,
                ));
            }
            self.check_stmt(&block[i], scope)?;
            i = i + 1;
        }
        Ok(())
    }

    /// Checks a statement inside a function body.
    fn check_stmt(&mut self, stmt: &Statement, scope: &mut Scope) -> (r: Result<(), Stop>)
        requires
            old(self).wf(),
            old(scope).wf(),
        ensures
            final(self).wf(),
            final(self).named_types == old(self).named_types,
            final(self).func_decls == old(self).func_decls,
            final(self).types_used == old(self).types_used,
            final(scope).wf(),
            final(scope).parent == old(scope).parent,
            ({
                let (st, sc, m) = check_stmt(old(self).state(), old(scope).view(), stmt@);
                final(self).state() == st && final(scope).view() == sc && same_outcome(r, m)
            }),
        decreases stmt, 1nat,
    {
        match stmt {
            Statement::Let { name, ty, value } => {
                let v = match value {
                    Some(v) => Some(v),
                    None => None,
                };
                self.check_let(name, ty, v, scope)
            },
            Statement::Return { value } => self.check_return(value, scope),
            Statement::If { cond, then, else_then } => self.check_if(stmt, cond, then, else_then, scope),
            Statement::While { cond, block } => self.check_while(stmt, cond, block, scope),
            Statement::Func { .. } => Err(Stop::Error(AnalysisError::FuncNotAtTopLevel)),
            Statement::Expr { value } => self.check_expr(value, scope),
        }
    }

    /// Checks `let name [: ty] [= value]` and binds the name in the innermost frame.
    fn check_let(&mut self, name: &String, ty: &Option<ast::Type>, value: Option<&Expression>, scope: &mut Scope) -> (r: Result<(), Stop>)
        requires
            old(self).wf(),
            old(scope).wf(),
        ensures
            final(self).wf(),
            final(self).named_types == old(self).named_types,
            final(self).func_decls == old(self).func_decls,
            final(self).types_used == old(self).types_used,
            final(scope).wf(),
            final(scope).parent == old(scope).parent,
            ({
                let (st, sc, m) = check_let(
                    old(self).state(),
                    old(scope).view(),
                    name@,
                    match ty { Some(t) => Some(t@), None => None },
                    match value { Some(v) => Some(v@), None => None },
                );
                final(self).state() == st && final(scope).view() == sc && same_outcome(r, m)
            }),
    {
        let declared_ty = match ty {
            Some(t) => match self.resolve_type(t) {
                Ok(d) => Some(d),
                Err(e) => return Err(Stop::Error(e)),
            },
            None => None,
        };
        let value_ty = match value {
            Some(v) => {
                self.check_expr(v, scope)?;
                Some(self.get_type_of_expr(v).duplicate())
            },
            None => None,
        };
        match (&declared_ty, &value_ty) {
            (Some(declared), Some(got)) => {
                if let Err(e) = self.try_coercion(declared, got) {
                    return Err(Stop::Error(e));
                }
            },
            (None, None) => return Err(Stop::Error(AnalysisError::LetWithoutTypeOrValue)),
            _ => {},
        }
        if scope.contains_local(name) {
            return Err(Stop::Error(AnalysisError::AlreadyExists(name.clone())));
        }
        let ty = match declared_ty {
            Some(d) => d,
            None => match value_ty {
                Some(v) => v,
                None => Type::Void,
            },
        };
        scope.add(name, ty);
        Ok(())
    }

    /// Checks `return value` against the return type of the enclosing function.
    fn check_return(&mut self, value: &Expression, scope: &mut Scope) -> (r: Result<(), Stop>)
        requires
            old(self).wf(),
            old(scope).wf(),
        ensures
            final(self).wf(),
            final(self).named_types == old(self).named_types,
            final(self).func_decls == old(self).func_decls,
            final(self).types_used == old(self).types_used,
            final(scope).wf(),
            final(scope).parent == old(scope).parent,
            ({
                let (st, sc, m) = check_stmt(old(self).state(), old(scope).view(), StmtV::Return { value: value@ });
                final(self).state() == st && final(scope).view() == sc && same_outcome(r, m)
            }),
    {
        self.check_expr(value, scope)?;
        let value_type = self.get_type_of_expr(value);
        match self.try_coercion(&scope.return_type, value_type) {
            Ok(_) => Ok(()),
            Err(e) => Err(Stop::Error(e)),
        }
    }

    /// Checks `if cond { then } else { else_then }`; each block gets a scope of its own.
    fn check_if(&mut self, stmt: &Statement, cond: &Expression, then: &BlockStmt, else_then: &BlockStmt, scope: &mut Scope) -> (r: Result<(), Stop>)
        requires
            old(self).wf(),
            old(scope).wf(),
            *stmt == (Statement::If { cond: *cond, then: *then, else_then: *else_then }),
        ensures
            final(self).wf(),
            final(self).named_types == old(self).named_types,
            final(self).func_decls == old(self).func_decls,
            final(self).types_used == old(self).types_used,
            final(scope).wf(),
            final(scope).parent == old(scope).parent,
            ({
                let (st, sc, m) = check_stmt(old(self).state(), old(scope).view(), stmt@);
                final(self).state() == st && final(scope).view() == sc && same_outcome(r, m)
            }),
        decreases stmt, 0nat,
    {
        self.check_expr(cond, scope)?;
        match self.get_type_of_expr(cond) {
            Type::Primitive(_) => {},
            ty => return Err(Stop::Error(AnalysisError::IfCondition(ty.duplicate()))),
        }
        {
            let mut child = scope.get_child();
            self.check_block(then, &mut child)?;
        }
        let mut child = scope.get_child();
        self.check_block(else_then, &mut child)?;
        Ok(())
    }

    /// Checks `while cond { block }`; the block gets a scope of its own.
    fn check_while(&mut self, stmt: &Statement, cond: &Expression, block: &BlockStmt, scope: &mut Scope) -> (r: Result<(), Stop>)
        requires
            old(self).wf(),
            old(scope).wf(),
            *stmt == (Statement::While { cond: *cond, block: *block }),
        ensures
            final(self).wf(),
            final(self).named_types == old(self).named_types,
            final(self).func_decls == old(self).func_decls,
            final(self).types_used == old(self).types_used,
            final(scope).wf(),
            final(scope).parent == old(scope).parent,
            ({
                let (st, sc, m) = check_stmt(old(self).state(), old(scope).view(), stmt@);
                final(self).state() == st && final(scope).view() == sc && same_outcome(r, m)
            }),
        decreases stmt, 0nat,
    {
        self.check_expr(cond, scope)?;
        match self.get_type_of_expr(cond) {
            Type::Primitive(_) => {},
            ty => return Err(Stop::Error(AnalysisError::WhileCondition(ty.duplicate()))),
        }
        let mut child = scope.get_child();
        self.check_block(block, &mut child)?;
        Ok(())
    }
}


/// The position of the first parameter whose name repeats an earlier one.
fn first_duplicate_param(params: &Vec<FuncParam>) -> (r: Option<usize>)
    ensures
        match first_duplicate(params_view(params@), 0) {
            Some(n) => r matches Some(k) && k < params.len() && params@[k as int].name@ == n,
            None => r is None,
        },
{
    let ghost pv = params_view(params@);
    let mut i: usize = 0;
    while i < params.len()
        invariant
            i <= params.len(),
            pv == params_view(params@),
            first_duplicate(pv, 0) == first_duplicate(pv, i as nat),
        decreases params.len() - i,
    {
        let mut j: usize = 0;
        while j < i
            invariant
                j <= i < params.len(),
                pv == params_view(params@),
                first_duplicate(pv, 0) == first_duplicate(pv, i as nat),
                forall|k: int| 0 <= k < j ==> pv[k].name != pv[i as int].name,
            decreases i - j,
        {
            if params[j].name == params[i].name {
                assert(pv[j as int].name == pv[i as int].name);
                assert(first_duplicate(pv, i as nat) == Some(pv[i as int].name));
                return Some(i);
            }
            j = j + 1;
        }
        i = i + 1;
    }
    None
}

impl Analysis {
    /// Resolves the parameter types of a function in order, stopping at the first that fails.
    fn resolve_param_types(&mut self, params: &Vec<FuncParam>) -> (r: Result<Vec<Type>, AnalysisError>)
        requires
            old(self).wf(),
        ensures
            final(self).wf(),
            final(self).named_types == old(self).named_types,
            final(self).expr_types == old(self).expr_types,
            final(self).func_decls == old(self).func_decls,
            final(self).types_used == old(self).types_used,
            ({
                let (tm, m) = resolve_params(old(self).named_types@, old(self).type_map@, params_view(params@), Seq::empty());
                final(self).type_map@ == tm && match m {
                    Ok(ts) => r matches Ok(v) && types_view(v@) == ts,
                    Err(e) => r matches Err(x) && x@ == e,
                }
            }),
    {
        let ghost named = self.named_types@;
        let ghost tm0 = self.type_map@;
        let ghost pv = params_view(params@);
        let mut types: Vec<Type> = Vec::new();
        let mut i: usize = 0;
        assert(pv.subrange(0, pv.len() as int) =~= pv);
        assert(types_view(types@) =~= Seq::<TypeV>::empty());
        while i < params.len()
            invariant
                self.wf(),
                self.named_types == old(self).named_types,
                self.expr_types == old(self).expr_types,
                self.func_decls == old(self).func_decls,
                self.types_used == old(self).types_used,
                named == old(self).named_types@,
                tm0 == old(self).type_map@,
                pv == params_view(params@),
                i <= params.len(),
                resolve_params(named, tm0, pv, Seq::empty()) == resolve_params(
                    named,
                    self.type_map@,
                    pv.subrange(i as int, pv.len() as int),
                    types_view(types@),
                ),
            decreases params.len() - i,
        {
            proof {
                let rest = pv.subrange(i as int, pv.len() as int);
                assert(rest[0] == pv[i as int]);
                assert(rest.subrange(1, rest.len() as int) =~= pv.subrange(i + 1, pv.len() as int));
            }
            let ty = self.resolve_type(&params[i].ty)?;
            proof {
                lemma_types_view_push(types@, ty);
            }
            types.push(ty);
            i = i + 1;
        }
        Ok(types)
    }

    /// Checks a function's signature and declares it in the global scope. A name already
    /// taken may be taken again only by the definition of a function declared before (without
    /// a body) with the same type.
    #[verifier::spinoff_prover]
    fn check_func(
        &mut self,
        name: &String,
        return_type: &ast::Type,
        params: &Vec<FuncParam>,
        has_body: bool,
        global: &mut Scope,
        defined: &mut Vec<String>,
    ) -> (r: Result<(), AnalysisError>)
        requires
            old(self).wf(),
            old(global).wf(),
            old(global).parent is None,
        ensures
            final(self).wf(),
            final(global).wf(),
            final(global).parent is None,
            final(self).types_used == old(self).types_used,
            ({
                let (ts, m) = check_func(
                    top_of(*old(self), old(global).symbols@, old(defined)@),
                    name@,
                    return_type@,
                    params_view(params@),
                    has_body,
                );
                top_of(*final(self), final(global).symbols@, final(defined)@) == ts && match m {
                    Ok(_) => r is Ok,
                    Err(e) => r matches Err(x) && x@ == e,
                }
            }),
    {
        let ret = self.resolve_type(return_type)?;
        let param_types = self.resolve_param_types(params)?;
        let f = FuncType { return_type: ret, params: param_types };
        let clash = match global.symbols.get(name) {
            Some(existing) => {
                let declared = Type::Func(Box::new(f.duplicate_func()));
                !(existing.same_as(&declared) && has_body && !name_listed(defined, name))
            },
            None => false,
        };
        if clash {
            return Err(AnalysisError::AlreadyExists(name.clone()));
        }
        match first_duplicate_param(params) {
            Some(k) => return Err(AnalysisError::AlreadyExists(params[k].name.clone())),
            None => {},
        }
        global.add(name, Type::Func(Box::new(f.duplicate_func())));
        self.func_decls.insert(name.clone(), f);
        if has_body {
            let ghost before = defined@;
            defined.push(name.clone());
            proof {
                assert(defined@[before.len() as int]@ == name@);
                assert(name_set(defined@) =~= name_set(before).insert(name@)) by {
                    assert forall|n: Seq<char>| name_set(before).contains(n) implies name_set(defined@).contains(n) by {
                        let k = choose|k: int| 0 <= k < before.len() && before[k]@ == n;
                        assert(defined@[k] == before[k]);
                    }
                }
            }
        }
        Ok(())
    }

    /// Checks the top-level statements in order: each must be a function, which is declared.
    #[verifier::spinoff_prover]
    fn check_top_level(&mut self, file: &File, global: &mut Scope, defined: &mut Vec<String>) -> (r: Result<(), AnalysisError>)
        requires
            old(self).wf(),
            old(global).wf(),
            old(global).parent is None,
        ensures
            final(self).wf(),
            final(global).wf(),
            final(global).parent is None,
            final(self).types_used == old(self).types_used,
            ({
                let (ts, m) = check_top_level(top_of(*old(self), old(global).symbols@, old(defined)@), file@);
                top_of(*final(self), final(global).symbols@, final(defined)@) == ts && match m {
                    Ok(_) => r is Ok,
                    Err(e) => r matches Err(x) && x@ == e,
                }
            }),
    {
        let ghost ts0 = top_of(*self, global.symbols@, defined@);
        let ghost fv = file@;
        proof {
            lemma_stmts_view(file.body@);
            assert(fv.subrange(0, fv.len() as int) =~= fv);
        }
        let mut i: usize = 0;
        while i < file.body.len()
            invariant
                self.wf(),
                global.wf(),
                global.parent is None,
                self.types_used == old(self).types_used,
                i <= file.body.len(),
                fv == file@,
                fv.len() == file.body.len(),
                forall|k: int| 0 <= k < file.body.len() ==> #[trigger] fv[k] == file.body@[k]@,
                ts0 == top_of(*old(self), old(global).symbols@, old(defined)@),
                check_top_level(ts0, fv) == check_top_level(
                    top_of(*self, global.symbols@, defined@),
                    fv.subrange(i as int, fv.len() as int),
                ),
            decreases file.body.len() - i,
        {
            proof {
                let rest = fv.subrange(i as int, fv.len() as int);
                assert(rest[0] == file.body@[i as int]@);
                assert(rest.subrange(1, rest.len() as int) =~= fv.subrange(i + 1, fv.len() as int));
            }
            match &file.body[i] {
                Statement::Func { name, return_type, params, body } => {
                    self.check_func(name, return_type, params, body.is_some(), global, defined)?;
                },
                _ => return Err(AnalysisError::OnlyFunctionsAtTopLevel),
            }
            i = i + 1;
        }
        Ok(())
    }
}


/// The types of a list with one more at the end.
proof fn lemma_type_set_push(s: Seq<Type>, t: Type)
    ensures
        type_set(s.push(t)) == type_set(s).insert(t@),
{
    let u = s.push(t);
    assert(u[s.len() as int] == t);
    assert forall|x: TypeV| type_set(s).contains(x) implies type_set(u).contains(x) by {
        let k = choose|k: int| 0 <= k < s.len() && s[k]@ == x;
        assert(u[k] == s[k]);
    }
    assert forall|x: TypeV| type_set(u).contains(x) implies type_set(s).insert(t@).contains(x) by {
        let k = choose|k: int| 0 <= k < u.len() && u[k]@ == x;
        if k < s.len() {
            assert(u[k] == s[k]);
        }
    }
    assert(type_set(u) =~= type_set(s).insert(t@));
}

/// Appends a copy of every value of a table.
fn push_values<K: View>(table: &Table<K, Type>, out: &mut Vec<Type>)
    requires
        table.wf(),
    ensures
        type_set(final(out)@) == type_set(old(out)@) + table@.values(),
{
    let ghost ps = table.pairs();
    proof {
        crate::table::lemma_map_of_values(ps);
    }
    let mut i: usize = 0;
    assert(type_set(out@) =~= type_set(old(out)@) + Set::new(
        |v: TypeV| exists|k: int| 0 <= k < 0 && ps[k].1 == v,
    ));
    while i < table.entries.len()
        invariant
            i <= table.entries.len(),
            ps == table.pairs(),
            type_set(out@) == type_set(old(out)@) + Set::new(
                |v: TypeV| exists|k: int| 0 <= k < i && ps[k].1 == v,
            ),
        decreases table.entries.len() - i,
    {
        let ghost before = out@;
        let t = table.entries[i].1.duplicate();
        proof {
            lemma_type_set_push(before, t);
            assert(ps[i as int].1 == t@);
            assert(Set::new(|v: TypeV| exists|k: int| 0 <= k < i + 1 && ps[k].1 == v) =~= Set::new(
                |v: TypeV| exists|k: int| 0 <= k < i && ps[k].1 == v,
            ).insert(t@));
        }
        out.push(t);
        i = i + 1;
    }
    assert(Set::new(|v: TypeV| exists|k: int| 0 <= k < i && ps[k].1 == v) =~= table@.values());
}

impl Analysis {
    /// Whether the used types hold `ty`.
    fn used_contains(&self, ty: &Type) -> (r: bool)
        ensures
            r == type_set(self.types_used@).contains(ty@),
    {
        let mut i: usize = 0;
        while i < self.types_used.len()
            invariant
                i <= self.types_used.len(),
                forall|k: int| 0 <= k < i ==> self.types_used@[k]@ != ty@,
            decreases self.types_used.len() - i,
        {
            if self.types_used[i].same_as(ty) {
                return true;
            }
            i = i + 1;
        }
        false
    }

    /// Records a type and, transitively, every type inside it.
    #[verifier::spinoff_prover]
    fn record_type(&mut self, ty: &Type)
        requires
            old(self).wf(),
            closed_under_parts(type_set(old(self).types_used@)),
        ensures
            final(self).wf(),
            closed_under_parts(type_set(final(self).types_used@)),
            type_set(final(self).types_used@) == type_set(old(self).types_used@) + parts_closure(set![ty@]),
            final(self).named_types == old(self).named_types,
            final(self).type_map == old(self).type_map,
            final(self).expr_types == old(self).expr_types,
            final(self).func_decls == old(self).func_decls,
        decreases ty,
    {
        let ghost s0 = type_set(self.types_used@);
        if self.used_contains(ty) {
            proof {
                lemma_closed_holds_parts(s0, set![ty@]);
                assert(s0 + parts_closure(set![ty@]) =~= s0);
            }
            return;
        }
        let ghost dp = direct_parts(ty@);
        match ty {
            Type::Func(f) => {
                proof {
                    assert(decreases_to!(ty => **f));
                    lemma_types_view(f.params@);
                    assert(dp[0] == f.return_type@);
                    assert(dp.take(1) =~= Seq::<TypeV>::empty().push(dp[0]));
                    Seq::<TypeV>::empty().lemma_push_to_set_commute(dp[0]);
                    assert(Seq::<TypeV>::empty().to_set() =~= Set::<TypeV>::empty());
                    assert(dp.take(1).to_set() =~= set![f.return_type@]);
                    lemma_closure_union(Set::empty(), set![f.return_type@]);
                    assert(s0 + parts_closure(set![f.return_type@]) =~= s0 + parts_closure(dp.take(1).to_set()));
                }
                self.record_type(&f.return_type);
                let mut i: usize = 0;
                #[verifier::loop_isolation(false)]
                while i < f.params.len()
                    invariant
                        i <= f.params.len(),
                        self.wf(),
                        closed_under_parts(type_set(self.types_used@)),
                        self.named_types == old(self).named_types,
                        self.type_map == old(self).type_map,
                        self.expr_types == old(self).expr_types,
                        self.func_decls == old(self).func_decls,
                        type_set(self.types_used@) == s0 + parts_closure(dp.take(i + 1).to_set()),
                    decreases f.params.len() - i,
                {
                    proof {
                        assert(decreases_to!(f.params => f.params@));
                        assert(decreases_to!(f.params@ => f.params@[i as int]));
                    }
                    self.record_type(&f.params[i]);
                    proof {
                        assert(dp[i + 1] == f.params@[i as int]@);
                        assert(dp.take(i + 2) =~= dp.take(i + 1).push(dp[i + 1]));
                        dp.take(i + 1).lemma_push_to_set_commute(dp[i + 1]);
                        assert(dp.take(i + 2).to_set() =~= dp.take(i + 1).to_set() + set![f.params@[i as int]@]);
                        lemma_closure_union(dp.take(i + 1).to_set(), set![f.params@[i as int]@]);
                        assert(type_set(self.types_used@) =~= s0 + parts_closure(dp.take(i + 2).to_set()));
                    }
                    i = i + 1;
                }
                assert(dp.take(i + 1) =~= dp);
            },
            Type::Ptr(inner) => {
                self.record_type(inner);
                assert(dp.to_set() =~= set![inner@]);
            },
            Type::Array(inner, _) => {
                self.record_type(inner);
                assert(dp.to_set() =~= set![inner@]);
            },
            Type::Slice(inner) => {
                self.record_type(inner);
                assert(dp.to_set() =~= set![inner@]);
            },
            _ => {
                assert(dp.to_set() =~= Set::<TypeV>::empty());
                assert(parts_closure(Set::<TypeV>::empty()) =~= Set::<TypeV>::empty());
                assert(type_set(self.types_used@) =~= s0 + parts_closure(dp.to_set()));
            },
        }
        proof {
            lemma_closure_of_one(ty@);
        }
        // The parts recorded above never include `ty` itself; checking again keeps the list
        // free of repeats without relying on that.
        if !self.used_contains(ty) {
            let ghost s1 = type_set(self.types_used@);
            let t = ty.duplicate();
            proof {
                lemma_type_set_push(self.types_used@, t);
            }
            self.types_used.push(t);
            proof {
                let s2 = type_set(self.types_used@);
                assert(s2 =~= s0 + parts_closure(set![ty@]));
                assert forall|u: TypeV, x: TypeV| s2.contains(u) && is_part(x, u) implies s2.contains(x) by {
                    if u == ty@ && x != ty@ {
                        lemma_part_unfold(x, ty@);
                        let k = choose|k: int| 0 <= k < dp.len() && is_part(x, #[trigger] dp[k]);
                        assert(dp.to_set().contains(dp[k]));
                    }
                }
            }
        } else {
            assert(type_set(self.types_used@) =~= s0 + parts_closure(set![ty@]));
        }
    }

    /// Records the types that code generation needs: those of the global names, of the
    /// expressions and of the source types, with everything inside them.
    fn collect_used_types(&mut self, global: &Scope)
        requires
            old(self).wf(),
            global.wf(),
            old(self).types_used@.len() == 0,
        ensures
            final(self).wf(),
            final(self).named_types == old(self).named_types,
            final(self).type_map == old(self).type_map,
            final(self).expr_types == old(self).expr_types,
            final(self).func_decls == old(self).func_decls,
            type_set(final(self).types_used@) == used_types(global.symbols@, old(self).state()),
    {
        let mut roots: Vec<Type> = Vec::new();
        assert(type_set(roots@) =~= Set::<TypeV>::empty());
        push_values(&global.symbols, &mut roots);
        push_values(&self.expr_types, &mut roots);
        push_values(&self.type_map, &mut roots);
        let ghost all = type_set(roots@);
        assert(all =~= global.symbols@.values() + self.expr_types@.values() + self.type_map@.values());
        assert(type_set(self.types_used@) =~= Set::<TypeV>::empty());
        assert(roots@.take(0) =~= Seq::<Type>::empty());
        assert(parts_closure(type_set(roots@.take(0))) =~= Set::<TypeV>::empty());
        let mut i: usize = 0;
        while i < roots.len()
            invariant
                i <= roots.len(),
                self.wf(),
                closed_under_parts(type_set(self.types_used@)),
                self.named_types == old(self).named_types,
                self.type_map == old(self).type_map,
                self.expr_types == old(self).expr_types,
                self.func_decls == old(self).func_decls,
                type_set(self.types_used@) == parts_closure(type_set(roots@.take(i as int))),
            decreases roots.len() - i,
        {
            self.record_type(&roots[i]);
            proof {
                assert(roots@.take(i + 1) =~= roots@.take(i as int).push(roots@[i as int]));
                lemma_type_set_push(roots@.take(i as int), roots@[i as int]);
                lemma_closure_union(type_set(roots@.take(i as int)), set![roots@[i as int]@]);
                assert(type_set(roots@.take(i as int)).insert(roots@[i as int]@) =~= type_set(roots@.take(i as int))
                    + set![roots@[i as int]@]);
            }
            i = i + 1;
        }
        assert(roots@.take(i as int) =~= roots@);
    }
}


impl Analysis {
    /// Checks a function body in a scope of its own, inside the global one, where the
    /// parameters are bound to their types.
    fn check_func_body(&mut self, func_type: FuncType, params: &Vec<FuncParam>, body: &BlockStmt, global: &Scope) -> (r: Result<(), Stop>)
        requires
            old(self).wf(),
            global.wf(),
            global.parent is None,
        ensures
            final(self).wf(),
            final(self).named_types == old(self).named_types,
            final(self).func_decls == old(self).func_decls,
            final(self).types_used == old(self).types_used,
            ({
                let (st, _, m) = check_block(
                    old(self).state(),
                    body_scope(global.symbols@, func_type@, params_view(params@)),
                    stmts_view(body@),
                );
                final(self).state() == st && same_outcome(r, m)
            }),
    {
        let ghost ft = func_type@;
        let ghost pv = params_view(params@);
        let FuncType { return_type, params: types } = func_type;
        proof {
            lemma_types_view(types@);
        }
        let mut scope = global.get_child_with(return_type);
        let n = if params.len() <= types.len() { params.len() } else { types.len() };
        let mut k: usize = 0;
        assert(scope.view().frames =~= seq![global.symbols@, params_frame(pv, ft.params, 0)]);
        while k < n
            invariant
                k <= n,
                n == crate::semantics::min_len(params.len() as nat, types.len() as nat),
                n <= params.len(),
                n <= types.len(),
                ft.params == types_view(types@),
                forall|j: int| 0 <= j < types.len() ==> #[trigger] ft.params[j] == types@[j]@,
                pv == params_view(params@),
                scope.wf(),
                scope.view() == (ScopeV {
                    frames: seq![global.symbols@, params_frame(pv, ft.params, k as nat)],
                    ret: ft.return_type,
                }),
            decreases n - k,
        {
            let t = types[k].duplicate();
            scope.add(&params[k].name, t);
            assert(scope.view().frames =~= seq![global.symbols@, params_frame(pv, ft.params, (k + 1) as nat)]);
            k = k + 1;
        }
        self.check_block(body, &mut scope)
    }

    /// Checks the bodies of the top-level functions in order. The errors of all bodies are
    /// reported together; a construct that the analysis does not handle stops it at once.
    #[verifier::spinoff_prover]
    fn check_func_bodies(&mut self, file: &File, global: &Scope) -> (r: Result<(), Stop>)
        requires
            old(self).wf(),
            global.wf(),
            global.parent is None,
        ensures
            final(self).wf(),
            final(self).named_types == old(self).named_types,
            final(self).func_decls == old(self).func_decls,
            final(self).types_used == old(self).types_used,
            ({
                let (st, m) = check_func_bodies(old(self).state(), global.symbols@, file@, Seq::empty());
                final(self).state() == st && match m {
                    Ok(errs) => if errs.len() == 0 {
                        r is Ok
                    } else {
                        r matches Err(Stop::Error(e)) && e@ == AErrV::Joined(errs)
                    },
                    Err(h) => r matches Err(x) && x@ == h,
                }
            }),
    {
        let ghost st0 = self.state();
        let ghost g = global.symbols@;
        let ghost fv = file@;
        proof {
            lemma_stmts_view(file.body@);
            assert(fv.subrange(0, fv.len() as int) =~= fv);
        }
        let mut errs: Vec<AnalysisError> = Vec::new();
        assert(errors_view(errs@) =~= Seq::<AErrV>::empty());
        let mut i: usize = 0;
        while i < file.body.len()
            invariant
                self.wf(),
                global.wf(),
                global.parent is None,
                g == global.symbols@,
                self.named_types == old(self).named_types,
                self.func_decls == old(self).func_decls,
                self.types_used == old(self).types_used,
                st0 == old(self).state(),
                i <= file.body.len(),
                fv == file@,
                fv.len() == file.body.len(),
                forall|k: int| 0 <= k < file.body.len() ==> #[trigger] fv[k] == file.body@[k]@,
                check_func_bodies(st0, g, fv, Seq::empty()) == check_func_bodies(
                    self.state(),
                    g,
                    fv.subrange(i as int, fv.len() as int),
                    errors_view(errs@),
                ),
            decreases file.body.len() - i,
        {
            proof {
                let rest = fv.subrange(i as int, fv.len() as int);
                assert(rest[0] == file.body@[i as int]@);
                assert(rest.subrange(1, rest.len() as int) =~= fv.subrange(i + 1, fv.len() as int));
            }
            match &file.body[i] {
                Statement::Func { name, params, body, .. } => match body {
                    None => {},
                    Some(stmts) => {
                        let func_type = match global.symbols.get(name) {
                            Some(Type::Func(f)) => f.duplicate_func(),
                            _ => return Err(Stop::Abort),
                        };
                        match self.check_func_body(func_type, params, stmts, global) {
                            Err(Stop::Abort) => return Err(Stop::Abort),
                            Err(Stop::Error(e)) => {
                                proof {
                                    lemma_errors_view_push(errs@, e);
                                }
                                errs.push(e);
                            },
                            Ok(()) => {},
                        }
                    },
                },
                _ => return Err(Stop::Abort),
            }
            i = i + 1;
        }
        match join_errs(errs) {
            Ok(()) => Ok(()),
            Err(e) => Err(Stop::Error(e)),
        }
    }
}

} // verus!
