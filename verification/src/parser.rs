use vstd::prelude::*;

use crate::ast::{AstTypeV, BlockStmt, ExprV, Expression, File, FuncParam, ParamV, Statement, StmtV, Type,
    exprs_view, lemma_stmts_view, params_view, stmts_view};
use crate::lexer::{LexError, Lexer, lex_error_message, lex_token, lemma_lex_progress, skip_spaces};
use crate::text::lit;
use crate::token::{Token, TokenV, token_text};

verus! {

/// How strongly an operator binds its operands.
#[derive(Debug, Clone, Copy, PartialEq, Eq, Structural, PartialOrd, Ord)]
pub enum BindingPower {
    Lowest,
    Assign,
    Equals,
    Sum,
    Product,
    Unary,
    Call,
}

/// The strength of a binding power as a number (the order of the variants).
pub open spec fn bp_rank(b: BindingPower) -> nat {
    match b {
        BindingPower::Lowest => 0,
        BindingPower::Assign => 1,
        BindingPower::Equals => 2,
        BindingPower::Sum => 3,
        BindingPower::Product => 4,
        BindingPower::Unary => 5,
        BindingPower::Call => 6,
    }
}

/// The binding power of a token in infix position.
pub open spec fn binding_power(t: TokenV) -> BindingPower {
    match t {
        TokenV::Equal | TokenV::NotEqual | TokenV::Lt | TokenV::Gt | TokenV::Lte | TokenV::Gte => BindingPower::Equals,
        TokenV::Plus | TokenV::Minus => BindingPower::Sum,
        TokenV::Asterisk | TokenV::Slash => BindingPower::Product,
        TokenV::Assign => BindingPower::Assign,
        TokenV::LParen => BindingPower::Call,
        _ => BindingPower::Lowest,
    }
}

/// The tokens that make a binary expression.
pub open spec fn is_binary_op(t: TokenV) -> bool {
    match t {
        TokenV::Equal | TokenV::NotEqual | TokenV::Lt | TokenV::Lte | TokenV::Gt | TokenV::Gte
        | TokenV::Plus | TokenV::Minus | TokenV::Asterisk | TokenV::Slash | TokenV::Assign => true,
        _ => false,
    }
}

/// The keywords that name a primitive type.
pub open spec fn is_type_keyword(t: TokenV) -> bool {
    match t {
        TokenV::I8 | TokenV::U8 | TokenV::I16 | TokenV::U16 | TokenV::I32 | TokenV::U32
        | TokenV::I64 | TokenV::U64 | TokenV::F32 | TokenV::F64 => true,
        _ => false,
    }
}

impl BindingPower {
    /// The binding power of a token in infix position.
    pub fn get(token: &Token) -> (r: BindingPower)
        ensures
            r == binding_power(token@),
    {
        match token {
            Token::Equal | Token::NotEqual | Token::Lt | Token::Gt | Token::Lte | Token::Gte => BindingPower::Equals,
            Token::Plus | Token::Minus => BindingPower::Sum,
            Token::Asterisk | Token::Slash => BindingPower::Product,
            Token::Assign => BindingPower::Assign,
            Token::LParen => BindingPower::Call,
            _ => BindingPower::Lowest,
        }
    }

    /// The strength as a number.
    pub fn rank(&self) -> (r: u8)
        ensures
            r == bp_rank(*self),
    {
        match self {
            BindingPower::Lowest => 0,
            BindingPower::Assign => 1,
            BindingPower::Equals => 2,
            BindingPower::Sum => 3,
            BindingPower::Product => 4,
            BindingPower::Unary => 5,
            BindingPower::Call => 6,
        }
    }
}

/// Why the source cannot be parsed.
#[derive(Debug)]
pub enum ParseError {
    /// The source cannot be split into tokens.
    Lex(LexError),
    /// A particular token was required.
    Expected { expected: Token, got: Token },
    /// An identifier (or a type name) was required.
    ExpectedIdent(Token),
    /// The token cannot start an expression.
    InvalidPrefix(Token),
}

/// The mathematical value of a parse error. `Stalled` is never produced: it stands where a
/// recursive rule would be applied again without any input having been read.
pub enum PErrV {
    Lex(LexError),
    Expected { expected: TokenV, got: TokenV },
    ExpectedIdent(TokenV),
    InvalidPrefix(TokenV),
    Stalled,
}

impl View for ParseError {
    type V = PErrV;

    open spec fn view(&self) -> PErrV {
        match self {
            ParseError::Lex(e) => PErrV::Lex(*e),
            ParseError::Expected { expected, got } => PErrV::Expected { expected: expected@, got: got@ },
            ParseError::ExpectedIdent(t) => PErrV::ExpectedIdent(t@),
            ParseError::InvalidPrefix(t) => PErrV::InvalidPrefix(t@),
        }
    }
}

/// The text that reports a parse error.
pub open spec fn parse_error_message(e: PErrV) -> Seq<char> {
    match e {
        PErrV::Lex(l) => lex_error_message(l),
        PErrV::Expected { expected, got } => "expected "@ + token_text(expected) + " but got "@ + token_text(got),
        PErrV::ExpectedIdent(t) => "expected identifier but got "@ + token_text(t),
        PErrV::InvalidPrefix(t) => "invalid prefix operator "@ + token_text(t),
        PErrV::Stalled => "no progress"@,
    }
}

impl ParseError {
    /// The text that reports the error.
    pub fn message(&self) -> (r: String)
        ensures
            r@ == parse_error_message(self@),
    {
        match self {
            ParseError::Lex(e) => e.message(),
            ParseError::Expected { expected, got } => {
                let mut r = lit("expected ");
                r.append(expected.display().as_str());
                r.append(" but got ");
                r.append(got.display().as_str());
                r
            },
            ParseError::ExpectedIdent(t) => {
                let mut r = lit("expected identifier but got ");
                r.append(t.display().as_str());
                r
            },
            ParseError::InvalidPrefix(t) => {
                let mut r = lit("invalid prefix operator ");
                r.append(t.display().as_str());
                r
            },
        }
    }
}

/// Where the parser stands: how many source bytes the lexer has read, the token that has been
/// read but not yet consumed, and the identifier number that the next identifier gets.
pub struct PState {
    pub pos: nat,
    pub peek: TokenV,
    pub next_id: nat,
}

/// A parser state that can occur: the position is within the source; the lookahead `Eof` only
/// comes at the end; identifier numbers stay below the position (each identifier took a byte).
pub open spec fn state_wf(src: Seq<u8>, s: PState) -> bool {
    &&& src.len() <= usize::MAX
    &&& s.pos <= src.len()
    &&& s.next_id + (if s.peek is Ident { 1nat } else { 0nat }) <= s.pos
    &&& s.peek is Eof ==> s.pos == src.len()
}

/// What remains to be read: the unread bytes, and one more for a lookahead that is not `Eof`.
pub open spec fn measure(src: Seq<u8>, s: PState) -> nat {
    (if s.pos <= src.len() { (src.len() - s.pos) as nat } else { 0nat }) + (if s.peek is Eof { 0nat } else { 1nat })
}

/// The state before anything is consumed: the first token is read from `pos`.
pub open spec fn p_start(src: Seq<u8>, pos: nat) -> Result<PState, PErrV> {
    match lex_token(src, pos) {
        Ok((t, p)) => Ok(PState { pos: p, peek: t, next_id: 0 }),
        Err(e) => Err(PErrV::Lex(e)),
    }
}

/// Consumes the lookahead token and reads the next one.
pub open spec fn p_next(src: Seq<u8>, s: PState) -> Result<(TokenV, PState), PErrV> {
    match lex_token(src, s.pos) {
        Ok((t, p)) => Ok((s.peek, PState { pos: p, peek: t, next_id: s.next_id })),
        Err(e) => Err(PErrV::Lex(e)),
    }
}

/// The state after an identifier number is handed out.
pub open spec fn take_id(s: PState) -> PState {
    PState { pos: s.pos, peek: s.peek, next_id: s.next_id + 1 }
}

/// Consumes the lookahead if it is `t`.
pub open spec fn p_expect(src: Seq<u8>, s: PState, t: TokenV) -> Result<PState, PErrV> {
    if s.peek == t {
        match p_next(src, s) {
            Ok((_, s1)) => Ok(s1),
            Err(e) => Err(e),
        }
    } else {
        Err(PErrV::Expected { expected: t, got: s.peek })
    }
}

/// Consumes an identifier.
pub open spec fn p_expect_ident(src: Seq<u8>, s: PState) -> Result<(Seq<char>, PState), PErrV> {
    match p_next(src, s) {
        Ok((TokenV::Ident(v), s1)) => Ok((v, s1)),
        Ok((t, _)) => Err(PErrV::ExpectedIdent(t)),
        Err(e) => Err(e),
    }
}

/// Consumes a type: an identifier, or a primitive type keyword.
pub open spec fn p_type(src: Seq<u8>, s: PState) -> Result<(AstTypeV, PState), PErrV> {
    match p_next(src, s) {
        Ok((t, s1)) => match t {
            TokenV::Ident(v) => Ok((AstTypeV::Named(v), s1)),
            _ => if is_type_keyword(t) {
                Ok((AstTypeV::Named(token_text(t)), s1))
            } else {
                Err(PErrV::ExpectedIdent(t))
            },
        },
        Err(e) => Err(e),
    }
}

/// Reading a token never goes back; consuming a lookahead other than `Eof` makes progress.
pub proof fn lemma_next_progress(src: Seq<u8>, s: PState)
    requires
        state_wf(src, s),
    ensures
        p_next(src, s) matches Ok((tok, s1)) ==> {
            &&& tok == s.peek
            &&& state_wf(src, s1)
            &&& s1.next_id == s.next_id
            &&& s.pos <= s1.pos
            &&& measure(src, s1) <= measure(src, s)
            &&& !(s.peek is Eof) ==> measure(src, s1) < measure(src, s)
            &&& s.peek is Ident ==> state_wf(src, take_id(s1))
        },
{
    lemma_lex_progress(src, s.pos);
    if s.peek is Eof {
        assert(skip_spaces(src, s.pos) == s.pos);
    }
}

/// Parses an expression whose operators bind more strongly than `bp`: a prefix (an identifier,
/// a number, a string, or `-`/`!` applied to an expression), then infix operators and calls.
pub open spec fn p_expr(src: Seq<u8>, s: PState, bp: nat) -> Result<(ExprV, PState), PErrV>
    decreases measure(src, s), 1nat,
{
    match p_next(src, s) {
        Err(e) => Err(e),
        Ok((tok, s1)) => match tok {
            TokenV::Ident(name) => {
                let s2 = take_id(s1);
                if measure(src, s2) < measure(src, s) {
                    p_infix(src, ExprV::Ident { value: name, id: s1.next_id as u64 }, s2, bp)
                } else {
                    Err(PErrV::Stalled)
                }
            },
            TokenV::Int(v) => if measure(src, s1) < measure(src, s) {
                p_infix(src, ExprV::Int { value: v }, s1, bp)
            } else {
                Err(PErrV::Stalled)
            },
            TokenV::Str(v) => if measure(src, s1) < measure(src, s) {
                p_infix(src, ExprV::Str { value: v }, s1, bp)
            } else {
                Err(PErrV::Stalled)
            },
            TokenV::Minus | TokenV::Bang => if measure(src, s1) < measure(src, s) {
                match p_expr(src, s1, bp_rank(BindingPower::Unary)) {
                    Err(e) => Err(e),
                    Ok((right, s2)) => if measure(src, s2) < measure(src, s) {
                        p_infix(src, ExprV::Unary { op: tok, right: Box::new(right) }, s2, bp)
                    } else {
                        Err(PErrV::Stalled)
                    },
                }
            } else {
                Err(PErrV::Stalled)
            },
            _ => Err(PErrV::InvalidPrefix(tok)),
        },
    }
}

/// Extends `left` with infix operators and calls as long as the lookahead binds more strongly than `bp`.
pub open spec fn p_infix(src: Seq<u8>, left: ExprV, s: PState, bp: nat) -> Result<(ExprV, PState), PErrV>
    decreases measure(src, s), 3nat,
{
    if bp < bp_rank(binding_power(s.peek)) {
        if is_binary_op(s.peek) {
            match p_binary(src, left, s) {
                Err(e) => Err(e),
                Ok((e, s2)) => if measure(src, s2) < measure(src, s) {
                    p_infix(src, e, s2, bp)
                } else {
                    Err(PErrV::Stalled)
                },
            }
        } else if s.peek is LParen {
            match p_call(src, left, s) {
                Err(e) => Err(e),
                Ok((e, s2)) => if measure(src, s2) < measure(src, s) {
                    p_infix(src, e, s2, bp)
                } else {
                    Err(PErrV::Stalled)
                },
            }
        } else {
            Ok((left, s))
        }
    } else {
        Ok((left, s))
    }
}

/// Consumes a binary operator and its right operand (which binds more strongly than the operator).
pub open spec fn p_binary(src: Seq<u8>, left: ExprV, s: PState) -> Result<(ExprV, PState), PErrV>
    decreases measure(src, s), 2nat,
{
    match p_next(src, s) {
        Err(e) => Err(e),
        Ok((op, s1)) => if measure(src, s1) < measure(src, s) {
            match p_expr(src, s1, bp_rank(binding_power(op))) {
                Err(e) => Err(e),
                Ok((right, s2)) => Ok((ExprV::Binary { op, left: Box::new(left), right: Box::new(right) }, s2)),
            }
        } else {
            Err(PErrV::Stalled)
        },
    }
}

/// Parses the arguments of a call of `left`.
pub open spec fn p_call(src: Seq<u8>, left: ExprV, s: PState) -> Result<(ExprV, PState), PErrV>
    decreases measure(src, s), 2nat,
{
    match p_call_args(src, s) {
        Err(e) => Err(e),
        Ok((args, s2)) => Ok((ExprV::Call { func: Box::new(left), args }, s2)),
    }
}

/// Consumes `(`, then nothing or expressions separated by commas, then `)`.
pub open spec fn p_call_args(src: Seq<u8>, s: PState) -> Result<(Seq<ExprV>, PState), PErrV>
    decreases measure(src, s), 1nat,
{
    match p_next(src, s) {
        Err(e) => Err(e),
        Ok((_, s1)) => if s1.peek is RParen {
            match p_next(src, s1) {
                Err(e) => Err(e),
                Ok((_, s2)) => Ok((Seq::empty(), s2)),
            }
        } else if measure(src, s1) < measure(src, s) {
            p_args_rest(src, Seq::empty(), s1)
        } else {
            Err(PErrV::Stalled)
        },
    }
}

/// Parses one more argument after `acc`, then a comma and more, or the closing `)`.
pub open spec fn p_args_rest(src: Seq<u8>, acc: Seq<ExprV>, s: PState) -> Result<(Seq<ExprV>, PState), PErrV>
    decreases measure(src, s), 2nat,
{
    match p_expr(src, s, 0) {
        Err(e) => Err(e),
        Ok((e, s2)) => {
            let acc2 = acc.push(e);
            if s2.peek is Comma {
                match p_next(src, s2) {
                    Err(e) => Err(e),
                    Ok((_, s3)) => if measure(src, s3) < measure(src, s) {
                        p_args_rest(src, acc2, s3)
                    } else {
                        Err(PErrV::Stalled)
                    },
                }
            } else {
                match p_expect(src, s2, TokenV::RParen) {
                    Err(e) => Err(e),
                    Ok(s3) => Ok((acc2, s3)),
                }
            }
        },
    }
}

pub proof fn lemma_exprs_view_push(v: Seq<Expression>, e: Expression)
    ensures
        exprs_view(v.push(e)) == exprs_view(v).push(e@),
{
    assert(v.push(e).subrange(0, v.len() as int) =~= v);
}

/// The `: type` of a `let`, which is required.
pub open spec fn p_let_type(src: Seq<u8>, s: PState) -> Result<(Option<AstTypeV>, PState), PErrV> {
    match p_expect(src, s, TokenV::Colon) {
        Err(e) => Err(e),
        Ok(s1) => match p_type(src, s1) {
            Err(e) => Err(e),
            Ok((t, s2)) => Ok((Some(t), s2)),
        },
    }
}

/// The optional `= value` of a `let`.
pub open spec fn p_let_value(src: Seq<u8>, s: PState) -> Result<(Option<ExprV>, PState), PErrV> {
    if s.peek is Assign {
        match p_next(src, s) {
            Err(e) => Err(e),
            Ok((_, s1)) => match p_expr(src, s1, 0) {
                Err(e) => Err(e),
                Ok((v, s2)) => Ok((Some(v), s2)),
            },
        }
    } else {
        Ok((None, s))
    }
}

/// `let name: type [= value]`
pub open spec fn p_let(src: Seq<u8>, s: PState) -> Result<(StmtV, PState), PErrV> {
    match p_next(src, s) {
        Err(e) => Err(e),
        Ok((_, s1)) => match p_expect_ident(src, s1) {
            Err(e) => Err(e),
            Ok((name, s2)) => match p_let_type(src, s2) {
                Err(e) => Err(e),
                Ok((ty, s3)) => match p_let_value(src, s3) {
                    Err(e) => Err(e),
                    Ok((value, s4)) => Ok((StmtV::Let { name, ty, value }, s4)),
                },
            },
        },
    }
}

/// `return value`
pub open spec fn p_return(src: Seq<u8>, s: PState) -> Result<(StmtV, PState), PErrV> {
    match p_next(src, s) {
        Err(e) => Err(e),
        Ok((_, s1)) => match p_expr(src, s1, 0) {
            Err(e) => Err(e),
            Ok((value, s2)) => Ok((StmtV::Return { value }, s2)),
        },
    }
}

/// An expression used as a statement.
pub open spec fn p_expr_stmt(src: Seq<u8>, s: PState) -> Result<(StmtV, PState), PErrV> {
    match p_expr(src, s, 0) {
        Err(e) => Err(e),
        Ok((value, s1)) => Ok((StmtV::Expr { value }, s1)),
    }
}

/// `name: type`
pub open spec fn p_param(src: Seq<u8>, s: PState) -> Result<(ParamV, PState), PErrV> {
    match p_expect_ident(src, s) {
        Err(e) => Err(e),
        Ok((name, s1)) => match p_expect(src, s1, TokenV::Colon) {
            Err(e) => Err(e),
            Ok(s2) => match p_type(src, s2) {
                Err(e) => Err(e),
                Ok((ty, s3)) => Ok((ParamV { name, ty }, s3)),
            },
        },
    }
}

/// One more parameter after `acc`, then a comma and more, or the closing `)`.
pub open spec fn p_params_rest(src: Seq<u8>, acc: Seq<ParamV>, s: PState) -> Result<(Seq<ParamV>, PState), PErrV>
    decreases measure(src, s),
{
    match p_param(src, s) {
        Err(e) => Err(e),
        Ok((p, s2)) => {
            let acc2 = acc.push(p);
            if s2.peek is Comma {
                match p_next(src, s2) {
                    Err(e) => Err(e),
                    Ok((_, s3)) => if measure(src, s3) < measure(src, s) {
                        p_params_rest(src, acc2, s3)
                    } else {
                        Err(PErrV::Stalled)
                    },
                }
            } else {
                match p_expect(src, s2, TokenV::RParen) {
                    Err(e) => Err(e),
                    Ok(s3) => Ok((acc2, s3)),
                }
            }
        },
    }
}

/// `(`, then nothing or parameters separated by commas, then `)`.
pub open spec fn p_params(src: Seq<u8>, s: PState) -> Result<(Seq<ParamV>, PState), PErrV> {
    match p_expect(src, s, TokenV::LParen) {
        Err(e) => Err(e),
        Ok(s1) => if s1.peek is RParen {
            match p_next(src, s1) {
                Err(e) => Err(e),
                Ok((_, s2)) => Ok((Seq::empty(), s2)),
            }
        } else {
            p_params_rest(src, Seq::empty(), s1)
        },
    }
}

/// The optional `-> type` of a function; without it the function returns nothing.
pub open spec fn p_return_type(src: Seq<u8>, s: PState) -> Result<(AstTypeV, PState), PErrV> {
    if s.peek is Arrow {
        match p_next(src, s) {
            Err(e) => Err(e),
            Ok((_, s1)) => p_type(src, s1),
        }
    } else {
        Ok((AstTypeV::Void, s))
    }
}

/// `fn name(params) [-> type] [{ body }]`
pub open spec fn p_func(src: Seq<u8>, s: PState) -> Result<(StmtV, PState), PErrV>
    decreases measure(src, s), 2nat,
{
    match p_next(src, s) {
        Err(e) => Err(e),
        Ok((_, s1)) => match p_expect_ident(src, s1) {
            Err(e) => Err(e),
            Ok((name, s2)) => match p_params(src, s2) {
                Err(e) => Err(e),
                Ok((params, s3)) => match p_return_type(src, s3) {
                    Err(e) => Err(e),
                    Ok((return_type, s4)) => if s4.peek is LBrace {
                        if measure(src, s4) < measure(src, s) {
                            match p_block(src, s4) {
                                Err(e) => Err(e),
                                Ok((body, s5)) => Ok((StmtV::Func { name, return_type, params, body: Some(body) }, s5)),
                            }
                        } else {
                            Err(PErrV::Stalled)
                        }
                    } else {
                        Ok((StmtV::Func { name, return_type, params, body: None }, s4))
                    },
                },
            },
        },
    }
}

/// `if cond { then } [else { else_then }]`
pub open spec fn p_if(src: Seq<u8>, s: PState) -> Result<(StmtV, PState), PErrV>
    decreases measure(src, s), 2nat,
{
    match p_next(src, s) {
        Err(e) => Err(e),
        Ok((_, s1)) => match p_expr(src, s1, 0) {
            Err(e) => Err(e),
            Ok((cond, s2)) => if measure(src, s2) < measure(src, s) {
                match p_block(src, s2) {
                    Err(e) => Err(e),
                    Ok((then, s3)) => if s3.peek is Else {
                        match p_next(src, s3) {
                            Err(e) => Err(e),
                            Ok((_, s4)) => if measure(src, s4) < measure(src, s) {
                                match p_block(src, s4) {
                                    Err(e) => Err(e),
                                    Ok((else_then, s5)) => Ok((StmtV::If { cond, then, else_then }, s5)),
                                }
                            } else {
                                Err(PErrV::Stalled)
                            },
                        }
                    } else {
                        Ok((StmtV::If { cond, then, else_then: Seq::empty() }, s3))
                    },
                }
            } else {
                Err(PErrV::Stalled)
            },
        },
    }
}

/// `{`, statements, `}`.
pub open spec fn p_block(src: Seq<u8>, s: PState) -> Result<(Seq<StmtV>, PState), PErrV>
    decreases measure(src, s), 1nat,
{
    match p_expect(src, s, TokenV::LBrace) {
        Err(e) => Err(e),
        Ok(s1) => if measure(src, s1) < measure(src, s) {
            p_block_rest(src, Seq::empty(), s1)
        } else {
            Err(PErrV::Stalled)
        },
    }
}

/// More statements after `acc` until `}` (or the end of the input, where `}` is then missing).
pub open spec fn p_block_rest(src: Seq<u8>, acc: Seq<StmtV>, s: PState) -> Result<(Seq<StmtV>, PState), PErrV>
    decreases measure(src, s), 4nat,
{
    if s.peek is Eof || s.peek is RBrace {
        match p_expect(src, s, TokenV::RBrace) {
            Err(e) => Err(e),
            Ok(s1) => Ok((acc, s1)),
        }
    } else {
        match p_stmt(src, s) {
            Err(e) => Err(e),
            Ok((st, s2)) => if measure(src, s2) < measure(src, s) {
                p_block_rest(src, acc.push(st), s2)
            } else {
                Err(PErrV::Stalled)
            },
        }
    }
}

/// A statement, chosen by its first token, and an optional `;` after it.
pub open spec fn p_stmt(src: Seq<u8>, s: PState) -> Result<(StmtV, PState), PErrV>
    decreases measure(src, s), 3nat,
{
    let r = if s.peek is Let {
        p_let(src, s)
    } else if s.peek is Return {
        p_return(src, s)
    } else if s.peek is If {
        p_if(src, s)
    } else if s.peek is Fn {
        p_func(src, s)
    } else {
        p_expr_stmt(src, s)
    };
    match r {
        Err(e) => Err(e),
        Ok((st, s2)) => if s2.peek is Semicolon {
            match p_next(src, s2) {
                Err(e) => Err(e),
                Ok((_, s3)) => Ok((st, s3)),
            }
        } else {
            Ok((st, s2))
        },
    }
}

/// More top-level statements after `acc`, until the end of the input.
pub open spec fn p_file_rest(src: Seq<u8>, acc: Seq<StmtV>, s: PState) -> Result<Seq<StmtV>, PErrV>
    decreases measure(src, s),
{
    if s.peek is Eof {
        Ok(acc)
    } else {
        match p_stmt(src, s) {
            Err(e) => Err(e),
            Ok((st, s2)) => if measure(src, s2) < measure(src, s) {
                p_file_rest(src, acc.push(st), s2)
            } else {
                Err(PErrV::Stalled)
            },
        }
    }
}

pub proof fn lemma_stmts_view_push(v: Seq<Statement>, st: Statement)
    ensures
        stmts_view(v.push(st)) == stmts_view(v).push(st@),
{
    assert(v.push(st).subrange(0, v.len() as int) =~= v);
}

pub proof fn lemma_params_view_push(v: Seq<FuncParam>, p: FuncParam)
    ensures
        params_view(v.push(p)) == params_view(v).push(ParamV { name: p.name@, ty: p.ty@ }),
{
    assert(params_view(v.push(p)) =~= params_view(v).push(ParamV { name: p.name@, ty: p.ty@ }));
}

/// A parser over the tokens of a source.
pub struct Parser {
    lexer: Lexer,
    peek_token: Token,
    next_id: u64,
}

impl Parser {
    /// The source being parsed.
    pub closed spec fn source(&self) -> Seq<u8> {
        self.lexer.source()
    }

    /// Where the parser stands.
    pub closed spec fn state(&self) -> PState {
        PState { pos: self.lexer.position(), peek: self.peek_token@, next_id: self.next_id as nat }
    }

    /// The parser stands in a state that can occur.
    pub closed spec fn wf(&self) -> bool {
        state_wf(self.source(), self.state())
    }

    /// A parser that has read the first token of the lexer's remaining input.
    pub fn new(mut lexer: Lexer) -> (r: Result<Parser, ParseError>)
        ensures
            match p_start(lexer.source(), lexer.position()) {
                Ok(s) => r matches Ok(p) && p.source() == lexer.source() && p.state() == s && p.wf(),
                Err(e) => r matches Err(x) && x@ == e,
            },
    {
        let ghost src = lexer.source();
        let ghost start = lexer.position();
        proof {
            use_type_invariant(&lexer);
        }
        match lexer.next_token() {
            Ok(t) => {
                proof {
                    lemma_lex_progress(src, start);
                }
                Ok(Parser { lexer, peek_token: t, next_id: 0 })
            },
            Err(e) => Err(ParseError::Lex(e)),
        }
    }

    /// Consumes the lookahead token, reading the next one.
    fn next_token(&mut self) -> (r: Result<Token, ParseError>)
        requires
            old(self).wf(),
        ensures
            final(self).source() == old(self).source(),
            final(self).wf(),
            match p_next(old(self).source(), old(self).state()) {
                Ok((t, s)) => r matches Ok(x) && x@ == t && final(self).state() == s,
                Err(e) => r matches Err(x) && x@ == e && final(self).state() == old(self).state(),
            },
            measure(old(self).source(), final(self).state()) <= measure(old(self).source(), old(self).state()),
            r is Ok && !(old(self).state().peek is Eof) ==> measure(old(self).source(), final(self).state())
                < measure(old(self).source(), old(self).state()),
    {
        proof {
            lemma_next_progress(self.source(), self.state());
        }
        match self.lexer.next_token() {
            Ok(t) => {
                let mut t = t;
                std::mem::swap(&mut self.peek_token, &mut t);
                Ok(t)
            },
            Err(e) => Err(ParseError::Lex(e)),
        }
    }

    /// Consumes the lookahead token if it is `token`; fails otherwise.
    pub fn expect_peek(&mut self, token: &Token) -> (r: Result<(), ParseError>)
        requires
            old(self).wf(),
        ensures
            final(self).source() == old(self).source(),
            final(self).wf(),
            match p_expect(old(self).source(), old(self).state(), token@) {
                Ok(s) => r is Ok && final(self).state() == s,
                Err(e) => r matches Err(x) && x@ == e,
            },
            r is Err ==> final(self).state() == old(self).state(),
            measure(old(self).source(), final(self).state()) <= measure(old(self).source(), old(self).state()),
            r is Ok && !(token@ is Eof) ==> measure(old(self).source(), final(self).state())
                < measure(old(self).source(), old(self).state()),
    {
        if self.peek_token.same_as(token) {
            self.next_token()?;
            Ok(())
        } else {
            Err(ParseError::Expected { expected: token.duplicate(), got: self.peek_token.duplicate() })
        }
    }

    /// Consumes an identifier and gives its name.
    fn expect_ident(&mut self) -> (r: Result<String, ParseError>)
        requires
            old(self).wf(),
        ensures
            final(self).source() == old(self).source(),
            match p_expect_ident(old(self).source(), old(self).state()) {
                Ok((v, s)) => r matches Ok(x) && x@ == v && final(self).state() == s && final(self).wf(),
                Err(e) => r matches Err(x) && x@ == e,
            },
            r is Ok ==> measure(old(self).source(), final(self).state()) < measure(old(self).source(), old(self).state()),
    {
        match self.next_token()? {
            Token::Ident(value) => Ok(value),
            token => Err(ParseError::ExpectedIdent(token)),
        }
    }

    /// Consumes a type: an identifier or a primitive type keyword.
    fn parse_type(&mut self) -> (r: Result<Type, ParseError>)
        requires
            old(self).wf(),
        ensures
            final(self).source() == old(self).source(),
            match p_type(old(self).source(), old(self).state()) {
                Ok((t, s)) => r matches Ok(x) && x@ == t && final(self).state() == s && final(self).wf(),
                Err(e) => r matches Err(x) && x@ == e,
            },
            r is Ok ==> measure(old(self).source(), final(self).state()) < measure(old(self).source(), old(self).state()),
    {
        let token = self.next_token()?;
        match token {
            Token::Ident(value) => Ok(Type::Named(value)),
            Token::I8 | Token::U8 | Token::I16 | Token::U16 | Token::I32 | Token::U32
            | Token::I64 | Token::U64 | Token::F32 | Token::F64 => Ok(Type::Named(token.display())),
            _ => Err(ParseError::ExpectedIdent(token)),
        }
    }

    /// Parses an expression whose operators bind more strongly than `bpow`.
    fn parse_expression(&mut self, bpow: BindingPower) -> (r: Result<Expression, ParseError>)
        requires
            old(self).wf(),
        ensures
            final(self).source() == old(self).source(),
            match p_expr(old(self).source(), old(self).state(), bp_rank(bpow)) {
                Ok((e, s)) => r matches Ok(x) && x@ == e && final(self).state() == s,
                Err(err) => r matches Err(x) && x@ == err,
            },
            r is Ok ==> final(self).wf() && measure(old(self).source(), final(self).state()) < measure(
                old(self).source(),
                old(self).state(),
            ),
        decreases measure(old(self).source(), old(self).state()), 1nat,
    {
        let ghost src = self.source();
        let ghost s0 = self.state();
        let ghost bp = bp_rank(bpow);
        proof {
            lemma_next_progress(src, s0);
        }
        let tok = self.next_token()?;
        let mut left = match tok {
            Token::Ident(name) => self.parse_ident(name),
            Token::Int(lit) => self.parse_int(lit),
            Token::String(lit) => self.parse_string(lit),
            Token::Minus => self.parse_unary_expression(Token::Minus)?,
            Token::Bang => self.parse_unary_expression(Token::Bang)?,
            token => return Err(ParseError::InvalidPrefix(token)),
        };
        while bpow.rank() < self.get_peek_binding_power().rank()
            invariant
                self.wf(),
                self.source() == src,
                src == old(self).source(),
                s0 == old(self).state(),
                bp == bp_rank(bpow),
                measure(src, self.state()) < measure(src, s0),
                p_expr(src, s0, bp) == p_infix(src, left@, self.state(), bp),
            decreases measure(src, self.state()),
        {
            left = match self.peek_token {
                Token::Equal | Token::NotEqual | Token::Lt | Token::Lte | Token::Gt | Token::Gte
                | Token::Plus | Token::Minus | Token::Asterisk | Token::Slash
                | Token::Assign => self.parse_binary_expression(left)?,
                Token::LParen => self.parse_call_expression(left)?,
                _ => return Ok(left),
            };
        }
        Ok(left)
    }

    /// An identifier expression with the next identifier number.
    fn parse_ident(&mut self, name: String) -> (r: Expression)
        requires
            state_wf(old(self).source(), take_id(old(self).state())),
        ensures
            final(self).source() == old(self).source(),
            final(self).state() == take_id(old(self).state()),
            r@ == (ExprV::Ident { value: name@, id: old(self).next_id }),
            final(self).wf(),
    {
        let id = self.next_id;
        self.next_id = id + 1;
        Expression::Ident { value: name, id }
    }

    /// An integer literal expression.
    fn parse_int(&mut self, lit: String) -> (r: Expression)
        ensures
            r@ == (ExprV::Int { value: lit@ }),
            *final(self) == *old(self),
    {
        Expression::Int { value: lit }
    }

    /// A string literal expression.
    fn parse_string(&mut self, lit: String) -> (r: Expression)
        ensures
            r@ == (ExprV::Str { value: lit@ }),
            *final(self) == *old(self),
    {
        Expression::String { value: lit }
    }

    /// Parses the operand of a prefix operator.
    fn parse_unary_expression(&mut self, op: Token) -> (r: Result<Expression, ParseError>)
        requires
            old(self).wf(),
        ensures
            final(self).source() == old(self).source(),
            match p_expr(old(self).source(), old(self).state(), bp_rank(BindingPower::Unary)) {
                Ok((e, s)) => r matches Ok(x) && x@ == (ExprV::Unary { op: op@, right: Box::new(e) })
                    && final(self).state() == s,
                Err(err) => r matches Err(x) && x@ == err,
            },
            r is Ok ==> final(self).wf() && measure(old(self).source(), final(self).state()) < measure(
                old(self).source(),
                old(self).state(),
            ),
        decreases measure(old(self).source(), old(self).state()), 2nat,
    {
        let right = self.parse_expression(BindingPower::Unary)?;
        Ok(Expression::Unary { op, right: Box::new(right) })
    }

    /// Consumes a binary operator and parses its right operand.
    fn parse_binary_expression(&mut self, left: Expression) -> (r: Result<Expression, ParseError>)
        requires
            old(self).wf(),
            is_binary_op(old(self).state().peek),
        ensures
            final(self).source() == old(self).source(),
            match p_binary(old(self).source(), left@, old(self).state()) {
                Ok((e, s)) => r matches Ok(x) && x@ == e && final(self).state() == s,
                Err(err) => r matches Err(x) && x@ == err,
            },
            r is Ok ==> final(self).wf() && measure(old(self).source(), final(self).state()) < measure(
                old(self).source(),
                old(self).state(),
            ),
        decreases measure(old(self).source(), old(self).state()), 2nat,
    {
        proof {
            lemma_next_progress(self.source(), self.state());
        }
        let op = self.next_token()?;
        let bpow = BindingPower::get(&op);
        let right = self.parse_expression(bpow)?;
        Ok(Expression::Binary { op, left: Box::new(left), right: Box::new(right) })
    }

    /// Parses the arguments of a call of `left`.
    fn parse_call_expression(&mut self, left: Expression) -> (r: Result<Expression, ParseError>)
        requires
            old(self).wf(),
            old(self).state().peek is LParen,
        ensures
            final(self).source() == old(self).source(),
            match p_call(old(self).source(), left@, old(self).state()) {
                Ok((e, s)) => r matches Ok(x) && x@ == e && final(self).state() == s,
                Err(err) => r matches Err(x) && x@ == err,
            },
            r is Ok ==> final(self).wf() && measure(old(self).source(), final(self).state()) < measure(
                old(self).source(),
                old(self).state(),
            ),
        decreases measure(old(self).source(), old(self).state()), 3nat,
    {
        let args = self.parse_call_arguments()?;
        Ok(Expression::Call { func: Box::new(left), args })
    }

    /// Consumes `(`, the arguments separated by commas, and `)`.
    fn parse_call_arguments(&mut self) -> (r: Result<Vec<Expression>, ParseError>)
        requires
            old(self).wf(),
            old(self).state().peek is LParen,
        ensures
            final(self).source() == old(self).source(),
            match p_call_args(old(self).source(), old(self).state()) {
                Ok((a, s)) => r matches Ok(x) && exprs_view(x@) == a && final(self).state() == s,
                Err(err) => r matches Err(x) && x@ == err,
            },
            r is Ok ==> final(self).wf() && measure(old(self).source(), final(self).state()) < measure(
                old(self).source(),
                old(self).state(),
            ),
        decreases measure(old(self).source(), old(self).state()), 2nat,
    {
        let ghost src = self.source();
        let ghost s0 = self.state();
        proof {
            lemma_next_progress(src, s0);
        }
        self.next_token()?;
        let mut args: Vec<Expression> = Vec::new();
        if let Token::RParen = self.peek_token {
            proof {
                lemma_next_progress(src, self.state());
            }
            self.next_token()?;
            assert(exprs_view(args@) =~= Seq::<ExprV>::empty());
            return Ok(args);
        }
        assert(exprs_view(args@) =~= Seq::<ExprV>::empty());
        loop
            invariant
                self.wf(),
                self.source() == src,
                src == old(self).source(),
                s0 == old(self).state(),
                measure(src, self.state()) < measure(src, s0),
                p_call_args(src, s0) == p_args_rest(src, exprs_view(args@), self.state()),
            decreases measure(src, self.state()),
        {
            let ghost s = self.state();
            let ghost acc = exprs_view(args@);
            let e = self.parse_expression(BindingPower::Lowest)?;
            proof {
                lemma_exprs_view_push(args@, e);
            }
            args.push(e);
            if let Token::Comma = self.peek_token {
                proof {
                    lemma_next_progress(src, self.state());
                }
                self.next_token()?;
            } else {
                proof {
                    lemma_next_progress(src, self.state());
                }
                self.expect_peek(&Token::RParen)?;
                return Ok(args);
            }
        }
    }

    /// Parses a statement, chosen by its first token, and an optional `;` after it.
    #[verifier::spinoff_prover]
    #[verifier::rlimit(40)]
    fn parse_statement(&mut self) -> (r: Result<Statement, ParseError>)
        requires
            old(self).wf(),
        ensures
            final(self).source() == old(self).source(),
            match p_stmt(old(self).source(), old(self).state()) {
                Ok((v, s)) => r matches Ok(x) && x@ == v && final(self).state() == s,
                Err(err) => r matches Err(x) && x@ == err,
            },
            r is Ok ==> final(self).wf() && measure(old(self).source(), final(self).state()) < measure(
                old(self).source(),
                old(self).state(),
            ),
        decreases measure(old(self).source(), old(self).state()), 3nat,
    {
        let stmt = match self.peek_token {
            Token::Let => self.parse_let_statement()?,
            Token::Return => self.parse_return_statement()?,
            Token::If => self.parse_if_statement()?,
            Token::Fn => self.parse_func_statement()?,
            _ => self.parse_expr_statement()?,
        };
        if let Token::Semicolon = self.peek_token {
            self.next_token()?;
        }
        Ok(stmt)
    }

    /// Parses `let name: type [= value]`.
    fn parse_let_statement(&mut self) -> (r: Result<Statement, ParseError>)
        requires
            old(self).wf(),
            old(self).state().peek is Let,
        ensures
            final(self).source() == old(self).source(),
            match p_let(old(self).source(), old(self).state()) {
                Ok((v, s)) => r matches Ok(x) && x@ == v && final(self).state() == s,
                Err(err) => r matches Err(x) && x@ == err,
            },
            r is Ok ==> final(self).wf() && measure(old(self).source(), final(self).state()) < measure(
                old(self).source(),
                old(self).state(),
            ),
    {
        self.next_token()?;
        let name = self.expect_ident()?;
        self.expect_peek(&Token::Colon)?;
        let ty = Some(self.parse_type()?);
        let value = if let Token::Assign = self.peek_token {
            self.next_token()?;
            Some(self.parse_expression(BindingPower::Lowest)?)
        } else {
            None
        };
        Ok(Statement::Let { name, ty, value })
    }

    /// Parses `return value`.
    fn parse_return_statement(&mut self) -> (r: Result<Statement, ParseError>)
        requires
            old(self).wf(),
            old(self).state().peek is Return,
        ensures
            final(self).source() == old(self).source(),
            match p_return(old(self).source(), old(self).state()) {
                Ok((v, s)) => r matches Ok(x) && x@ == v && final(self).state() == s,
                Err(err) => r matches Err(x) && x@ == err,
            },
            r is Ok ==> final(self).wf() && measure(old(self).source(), final(self).state()) < measure(
                old(self).source(),
                old(self).state(),
            ),
    {
        self.next_token()?;
        let value = self.parse_expression(BindingPower::Lowest)?;
        Ok(Statement::Return { value })
    }

    /// Parses `if cond { then } [else { else_then }]`.
    fn parse_if_statement(&mut self) -> (r: Result<Statement, ParseError>)
        requires
            old(self).wf(),
            old(self).state().peek is If,
        ensures
            final(self).source() == old(self).source(),
            match p_if(old(self).source(), old(self).state()) {
                Ok((v, s)) => r matches Ok(x) && x@ == v && final(self).state() == s,
                Err(err) => r matches Err(x) && x@ == err,
            },
            r is Ok ==> final(self).wf() && measure(old(self).source(), final(self).state()) < measure(
                old(self).source(),
                old(self).state(),
            ),
        decreases measure(old(self).source(), old(self).state()), 2nat,
    {
        self.next_token()?;
        let cond = self.parse_expression(BindingPower::Lowest)?;
        let then = self.parse_block_statement()?;
        let else_then = if let Token::Else = self.peek_token {
            self.next_token()?;
            self.parse_block_statement()?
        } else {
            Vec::new()
        };
        proof {
            lemma_stmts_view(then@);
            assert(stmts_view(Seq::<Statement>::empty()) =~= Seq::<StmtV>::empty());
        }
        Ok(Statement::If { cond, then, else_then })
    }

    /// Parses `{`, statements, `}`.
    fn parse_block_statement(&mut self) -> (r: Result<BlockStmt, ParseError>)
        requires
            old(self).wf(),
        ensures
            final(self).source() == old(self).source(),
            match p_block(old(self).source(), old(self).state()) {
                Ok((v, s)) => r matches Ok(x) && stmts_view(x@) == v && final(self).state() == s,
                Err(err) => r matches Err(x) && x@ == err,
            },
            r is Ok ==> final(self).wf() && measure(old(self).source(), final(self).state()) < measure(
                old(self).source(),
                old(self).state(),
            ),
        decreases measure(old(self).source(), old(self).state()), 1nat,
    {
        let ghost src = self.source();
        let ghost s0 = self.state();
        self.expect_peek(&Token::LBrace)?;
        let mut body: Vec<Statement> = Vec::new();
        assert(stmts_view(body@) =~= Seq::<StmtV>::empty());
        loop
            invariant
                self.wf(),
                self.source() == src,
                src == old(self).source(),
                s0 == old(self).state(),
                measure(src, self.state()) < measure(src, s0),
                p_block(src, s0) == p_block_rest(src, stmts_view(body@), self.state()),
            decreases measure(src, self.state()),
        {
            match self.peek_token {
                Token::Eof | Token::RBrace => {
                    self.expect_peek(&Token::RBrace)?;
                    return Ok(body);
                },
                _ => {
                    let st = self.parse_statement()?;
                    proof {
                        lemma_stmts_view_push(body@, st);
                    }
                    body.push(st);
                },
            }
        }
    }

    /// Parses `fn name(params) [-> type] [{ body }]`.
    fn parse_func_statement(&mut self) -> (r: Result<Statement, ParseError>)
        requires
            old(self).wf(),
            old(self).state().peek is Fn,
        ensures
            final(self).source() == old(self).source(),
            match p_func(old(self).source(), old(self).state()) {
                Ok((v, s)) => r matches Ok(x) && x@ == v && final(self).state() == s,
                Err(err) => r matches Err(x) && x@ == err,
            },
            r is Ok ==> final(self).wf() && measure(old(self).source(), final(self).state()) < measure(
                old(self).source(),
                old(self).state(),
            ),
        decreases measure(old(self).source(), old(self).state()), 2nat,
    {
        self.next_token()?;
        let name = self.expect_ident()?;
        let params = self.parse_func_params()?;
        let return_type = if let Token::Arrow = self.peek_token {
            self.next_token()?;
            self.parse_type()?
        } else {
            Type::Void
        };
        let body = if let Token::LBrace = self.peek_token {
            Some(self.parse_block_statement()?)
        } else {
            None
        };
        Ok(Statement::Func { name, return_type, params, body })
    }

    /// Parses `(`, parameters separated by commas, `)`.
    fn parse_func_params(&mut self) -> (r: Result<Vec<FuncParam>, ParseError>)
        requires
            old(self).wf(),
        ensures
            final(self).source() == old(self).source(),
            match p_params(old(self).source(), old(self).state()) {
                Ok((v, s)) => r matches Ok(x) && params_view(x@) == v && final(self).state() == s,
                Err(err) => r matches Err(x) && x@ == err,
            },
            r is Ok ==> final(self).wf() && measure(old(self).source(), final(self).state()) < measure(
                old(self).source(),
                old(self).state(),
            ),
    {
        let ghost src = self.source();
        let ghost s0 = self.state();
        self.expect_peek(&Token::LParen)?;
        let mut params: Vec<FuncParam> = Vec::new();
        if let Token::RParen = self.peek_token {
            self.next_token()?;
            assert(params_view(params@) =~= Seq::<ParamV>::empty());
            return Ok(params);
        }
        assert(params_view(params@) =~= Seq::<ParamV>::empty());
        loop
            invariant
                self.wf(),
                self.source() == src,
                src == old(self).source(),
                s0 == old(self).state(),
                measure(src, self.state()) < measure(src, s0),
                p_params(src, s0) == p_params_rest(src, params_view(params@), self.state()),
            decreases measure(src, self.state()),
        {
            let p = self.parse_func_param()?;
            proof {
                lemma_params_view_push(params@, p);
            }
            params.push(p);
            if let Token::Comma = self.peek_token {
                self.next_token()?;
            } else {
                self.expect_peek(&Token::RParen)?;
                return Ok(params);
            }
        }
    }

    /// Parses `name: type`.
    fn parse_func_param(&mut self) -> (r: Result<FuncParam, ParseError>)
        requires
            old(self).wf(),
        ensures
            final(self).source() == old(self).source(),
            match p_param(old(self).source(), old(self).state()) {
                Ok((v, s)) => r matches Ok(x) && x.name@ == v.name && x.ty@ == v.ty && final(self).state() == s,
                Err(err) => r matches Err(x) && x@ == err,
            },
            r is Ok ==> final(self).wf() && measure(old(self).source(), final(self).state()) < measure(
                old(self).source(),
                old(self).state(),
            ),
    {
        let name = self.expect_ident()?;
        self.expect_peek(&Token::Colon)?;
        let ty = self.parse_type()?;
        Ok(FuncParam { name, ty })
    }

    /// Parses an expression used as a statement.
    fn parse_expr_statement(&mut self) -> (r: Result<Statement, ParseError>)
        requires
            old(self).wf(),
        ensures
            final(self).source() == old(self).source(),
            match p_expr_stmt(old(self).source(), old(self).state()) {
                Ok((v, s)) => r matches Ok(x) && x@ == v && final(self).state() == s,
                Err(err) => r matches Err(x) && x@ == err,
            },
            r is Ok ==> final(self).wf() && measure(old(self).source(), final(self).state()) < measure(
                old(self).source(),
                old(self).state(),
            ),
    {
        let value = self.parse_expression(BindingPower::Lowest)?;
        Ok(Statement::Expr { value })
    }

    /// Parses the whole input into the statements of a file.
    #[verifier::rlimit(40)]
    #[verifier::spinoff_prover]
    pub fn parse_file(self) -> (r: Result<File, ParseError>)
        requires
            self.wf(),
        ensures
            match p_file_rest(self.source(), Seq::empty(), self.state()) {
                Ok(v) => r matches Ok(f) && f@ == v,
                Err(err) => r matches Err(x) && x@ == err,
            },
    {
        let ghost src = self.source();
        let ghost s0 = self.state();
        let mut parser = self;
        let mut body: Vec<Statement> = Vec::new();
        assert(stmts_view(body@) =~= Seq::<StmtV>::empty());
        loop
            invariant
                parser.wf(),
                parser.source() == src,
                src == self.source(),
                s0 == self.state(),
                p_file_rest(src, Seq::empty(), s0) == p_file_rest(src, stmts_view(body@), parser.state()),
            decreases measure(src, parser.state()),
        {
            match parser.peek_token {
                Token::Eof => {
                    return Ok(File { body });
                },
                _ => {
                    let st = parser.parse_statement()?;
                    proof {
                        lemma_stmts_view_push(body@, st);
                    }
                    body.push(st);
                },
            }
        }
    }

    /// The binding power of the lookahead token.
    fn get_peek_binding_power(&self) -> (r: BindingPower)
        ensures
            r == binding_power(self.state().peek),
    {
        BindingPower::get(&self.peek_token)
    }
}

} // verus!
