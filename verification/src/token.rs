use vstd::prelude::*;

use crate::text::{str_eq, lit};

verus! {

/// A lexical token of the Sierra language.
#[derive(Debug, Clone, PartialEq, Eq, Hash)]
pub enum Token {
    Eof,

    Ident(String),
    Int(String),
    String(String),

    Assign,
    Plus,
    Minus,
    Asterisk,
    Slash,
    Bang,
    Equal,
    NotEqual,
    Lt,
    Gt,
    Lte,
    Gte,
    Ampersand,

    Comma,
    Colon,
    Semicolon,
    Arrow,

    LParen,
    RParen,
    LBrace,
    RBrace,

    Let,
    Fn,
    If,
    Else,
    Return,

    I8,
    U8,
    I16,
    U16,
    I32,
    U32,
    I64,
    U64,
    F32,
    F64,
}

/// The mathematical value of a token: its kind, and the characters of its payload.
pub enum TokenV {
    Eof,
    Ident(Seq<char>),
    Int(Seq<char>),
    Str(Seq<char>),
    Assign,
    Plus,
    Minus,
    Asterisk,
    Slash,
    Bang,
    Equal,
    NotEqual,
    Lt,
    Gt,
    Lte,
    Gte,
    Ampersand,
    Comma,
    Colon,
    Semicolon,
    Arrow,
    LParen,
    RParen,
    LBrace,
    RBrace,
    Let,
    Fn,
    If,
    Else,
    Return,
    I8,
    U8,
    I16,
    U16,
    I32,
    U32,
    I64,
    U64,
    F32,
    F64,
}

impl View for Token {
    type V = TokenV;

    open spec fn view(&self) -> TokenV {
        match self {
            Token::Eof => TokenV::Eof,
            Token::Ident(s) => TokenV::Ident(s@),
            Token::Int(s) => TokenV::Int(s@),
            Token::String(s) => TokenV::Str(s@),
            Token::Assign => TokenV::Assign,
            Token::Plus => TokenV::Plus,
            Token::Minus => TokenV::Minus,
            Token::Asterisk => TokenV::Asterisk,
            Token::Slash => TokenV::Slash,
            Token::Bang => TokenV::Bang,
            Token::Equal => TokenV::Equal,
            Token::NotEqual => TokenV::NotEqual,
            Token::Lt => TokenV::Lt,
            Token::Gt => TokenV::Gt,
            Token::Lte => TokenV::Lte,
            Token::Gte => TokenV::Gte,
            Token::Ampersand => TokenV::Ampersand,
            Token::Comma => TokenV::Comma,
            Token::Colon => TokenV::Colon,
            Token::Semicolon => TokenV::Semicolon,
            Token::Arrow => TokenV::Arrow,
            Token::LParen => TokenV::LParen,
            Token::RParen => TokenV::RParen,
            Token::LBrace => TokenV::LBrace,
            Token::RBrace => TokenV::RBrace,
            Token::Let => TokenV::Let,
            Token::Fn => TokenV::Fn,
            Token::If => TokenV::If,
            Token::Else => TokenV::Else,
            Token::Return => TokenV::Return,
            Token::I8 => TokenV::I8,
            Token::U8 => TokenV::U8,
            Token::I16 => TokenV::I16,
            Token::U16 => TokenV::U16,
            Token::I32 => TokenV::I32,
            Token::U32 => TokenV::U32,
            Token::I64 => TokenV::I64,
            Token::U64 => TokenV::U64,
            Token::F32 => TokenV::F32,
            Token::F64 => TokenV::F64,
        }
    }
}

/// The token that a word (a keyword, a type name or an identifier) stands for.
pub open spec fn symbol_token(s: Seq<char>) -> TokenV {
    if s == "let"@ {
        TokenV::Let
    } else if s == "fn"@ {
        TokenV::Fn
    } else if s == "if"@ {
        TokenV::If
    } else if s == "else"@ {
        TokenV::Else
    } else if s == "return"@ {
        TokenV::Return
    } else if s == "i8"@ {
        TokenV::I8
    } else if s == "u8"@ {
        TokenV::U8
    } else if s == "i16"@ {
        TokenV::I16
    } else if s == "u16"@ {
        TokenV::U16
    } else if s == "i32"@ {
        TokenV::I32
    } else if s == "u32"@ {
        TokenV::U32
    } else if s == "i64"@ {
        TokenV::I64
    } else if s == "u64"@ {
        TokenV::U64
    } else if s == "f32"@ {
        TokenV::F32
    } else if s == "f64"@ {
        TokenV::F64
    } else {
        TokenV::Ident(s)
    }
}

/// How a token is written in source text.
pub open spec fn token_text(t: TokenV) -> Seq<char> {
    match t {
        TokenV::Eof => "<eof>"@,
        TokenV::Ident(name) => name,
        TokenV::Int(lit) => lit,
        TokenV::Str(lit) => "\""@ + lit + "\""@,
        TokenV::Assign => "="@,
        TokenV::Plus => "+"@,
        TokenV::Minus => "-"@,
        TokenV::Asterisk => "*"@,
        TokenV::Slash => "/"@,
        TokenV::Bang => "!"@,
        TokenV::Equal => "=="@,
        TokenV::NotEqual => "!="@,
        TokenV::Lt => "<"@,
        TokenV::Gt => ">"@,
        TokenV::Lte => "<="@,
        TokenV::Gte => ">="@,
        TokenV::Ampersand => "&"@,
        TokenV::Comma => ","@,
        TokenV::Colon => ":"@,
        TokenV::Semicolon => ";"@,
        TokenV::Arrow => "->"@,
        TokenV::LParen => "("@,
        TokenV::RParen => ")"@,
        TokenV::LBrace => "{"@,
        TokenV::RBrace => "}"@,
        TokenV::Let => "let"@,
        TokenV::Fn => "fn"@,
        TokenV::If => "if"@,
        TokenV::Else => "else"@,
        TokenV::Return => "return"@,
        TokenV::I8 => "i8"@,
        TokenV::U8 => "u8"@,
        TokenV::I16 => "i16"@,
        TokenV::U16 => "u16"@,
        TokenV::I32 => "i32"@,
        TokenV::U32 => "u32"@,
        TokenV::I64 => "i64"@,
        TokenV::U64 => "u64"@,
        TokenV::F32 => "f32"@,
        TokenV::F64 => "f64"@,
    }
}

/// Writing the token for a word gives back the word.
pub proof fn lemma_symbol_text_roundtrip(s: Seq<char>)
    ensures
        token_text(symbol_token(s)) == s,
{
}

/// Whether a token is a keyword or a type name (the words that are not identifiers).
pub open spec fn is_keyword(t: TokenV) -> bool {
    match t {
        TokenV::Let | TokenV::Fn | TokenV::If | TokenV::Else | TokenV::Return | TokenV::I8 | TokenV::U8
        | TokenV::I16 | TokenV::U16 | TokenV::I32 | TokenV::U32 | TokenV::I64 | TokenV::U64 | TokenV::F32
        | TokenV::F64 => true,
        _ => false,
    }
}

/// Reading the text of a keyword gives back the keyword.
pub proof fn lemma_keyword_roundtrip(t: TokenV)
    requires
        is_keyword(t),
    ensures
        symbol_token(token_text(t)) == t,
{
    reveal_strlit("let");
    reveal_strlit("fn");
    reveal_strlit("if");
    reveal_strlit("else");
    reveal_strlit("return");
    reveal_strlit("i8");
    reveal_strlit("u8");
    reveal_strlit("i16");
    reveal_strlit("u16");
    reveal_strlit("i32");
    reveal_strlit("u32");
    reveal_strlit("i64");
    reveal_strlit("u64");
    reveal_strlit("f32");
    reveal_strlit("f64");
    assert("let"@.len() == 3 && "let"@[0] == 'l' && "let"@[1] == 'e');
    assert("fn"@.len() == 2 && "fn"@[0] == 'f' && "fn"@[1] == 'n');
    assert("if"@.len() == 2 && "if"@[0] == 'i' && "if"@[1] == 'f');
    assert("else"@.len() == 4 && "else"@[0] == 'e' && "else"@[1] == 'l');
    assert("return"@.len() == 6 && "return"@[0] == 'r' && "return"@[1] == 'e');
    assert("i8"@.len() == 2 && "i8"@[0] == 'i' && "i8"@[1] == '8');
    assert("u8"@.len() == 2 && "u8"@[0] == 'u' && "u8"@[1] == '8');
    assert("i16"@.len() == 3 && "i16"@[0] == 'i' && "i16"@[1] == '1');
    assert("u16"@.len() == 3 && "u16"@[0] == 'u' && "u16"@[1] == '1');
    assert("i32"@.len() == 3 && "i32"@[0] == 'i' && "i32"@[1] == '3');
    assert("u32"@.len() == 3 && "u32"@[0] == 'u' && "u32"@[1] == '3');
    assert("i64"@.len() == 3 && "i64"@[0] == 'i' && "i64"@[1] == '6');
    assert("u64"@.len() == 3 && "u64"@[0] == 'u' && "u64"@[1] == '6');
    assert("f32"@.len() == 3 && "f32"@[0] == 'f' && "f32"@[1] == '3');
    assert("f64"@.len() == 3 && "f64"@[0] == 'f' && "f64"@[1] == '6');
}

impl Token {
    /// The token for a word: its keyword or type-name token, or else an identifier.
    pub fn from_symbol(symbol: &str) -> (t: Token)
        ensures
            t@ == symbol_token(symbol@),
    {
        if str_eq(symbol, "let") {
            Token::Let
        } else if str_eq(symbol, "fn") {
            Token::Fn
        } else if str_eq(symbol, "if") {
            Token::If
        } else if str_eq(symbol, "else") {
            Token::Else
        } else if str_eq(symbol, "return") {
            Token::Return
        } else if str_eq(symbol, "i8") {
            Token::I8
        } else if str_eq(symbol, "u8") {
            Token::U8
        } else if str_eq(symbol, "i16") {
            Token::I16
        } else if str_eq(symbol, "u16") {
            Token::U16
        } else if str_eq(symbol, "i32") {
            Token::I32
        } else if str_eq(symbol, "u32") {
            Token::U32
        } else if str_eq(symbol, "i64") {
            Token::I64
        } else if str_eq(symbol, "u64") {
            Token::U64
        } else if str_eq(symbol, "f32") {
            Token::F32
        } else if str_eq(symbol, "f64") {
            Token::F64
        } else {
            Token::Ident(symbol.to_owned())
        }
    }

    /// The source text of the token (what `Display` prints for it).
    pub fn display(&self) -> (r: String)
        ensures
            r@ == token_text(self@),
    {
        match self {
            Token::Eof => lit("<eof>"),
            Token::Ident(name) => name.clone(),
            Token::Int(l) => l.clone(),
            Token::String(l) => {
                let mut r = lit("\"");
                r.append(l.as_str());
                r.append("\"");
                r
            },
            Token::Assign => lit("="),
            Token::Plus => lit("+"),
            Token::Minus => lit("-"),
            Token::Asterisk => lit("*"),
            Token::Slash => lit("/"),
            Token::Bang => lit("!"),
            Token::Equal => lit("=="),
            Token::NotEqual => lit("!="),
            Token::Lt => lit("<"),
            Token::Gt => lit(">"),
            Token::Lte => lit("<="),
            Token::Gte => lit(">="),
            Token::Ampersand => lit("&"),
            Token::Comma => lit(","),
            Token::Colon => lit(":"),
            Token::Semicolon => lit(";"),
            Token::Arrow => lit("->"),
            Token::LParen => lit("("),
            Token::RParen => lit(")"),
            Token::LBrace => lit("{"),
            Token::RBrace => lit("}"),
            Token::Let => lit("let"),
            Token::Fn => lit("fn"),
            Token::If => lit("if"),
            Token::Else => lit("else"),
            Token::Return => lit("return"),
            Token::I8 => lit("i8"),
            Token::U8 => lit("u8"),
            Token::I16 => lit("i16"),
            Token::U16 => lit("u16"),
            Token::I32 => lit("i32"),
            Token::U32 => lit("u32"),
            Token::I64 => lit("i64"),
            Token::U64 => lit("u64"),
            Token::F32 => lit("f32"),
            Token::F64 => lit("f64"),
        }
    }

    /// A copy of the token.
    pub fn duplicate(&self) -> (r: Token)
        ensures
            r@ == self@,
    {
        match self {
            Token::Ident(s) => Token::Ident(s.clone()),
            Token::Int(s) => Token::Int(s.clone()),
            Token::String(s) => Token::String(s.clone()),
            Token::Eof => Token::Eof,
            Token::Assign => Token::Assign,
            Token::Plus => Token::Plus,
            Token::Minus => Token::Minus,
            Token::Asterisk => Token::Asterisk,
            Token::Slash => Token::Slash,
            Token::Bang => Token::Bang,
            Token::Equal => Token::Equal,
            Token::NotEqual => Token::NotEqual,
            Token::Lt => Token::Lt,
            Token::Gt => Token::Gt,
            Token::Lte => Token::Lte,
            Token::Gte => Token::Gte,
            Token::Ampersand => Token::Ampersand,
            Token::Comma => Token::Comma,
            Token::Colon => Token::Colon,
            Token::Semicolon => Token::Semicolon,
            Token::Arrow => Token::Arrow,
            Token::LParen => Token::LParen,
            Token::RParen => Token::RParen,
            Token::LBrace => Token::LBrace,
            Token::RBrace => Token::RBrace,
            Token::Let => Token::Let,
            Token::Fn => Token::Fn,
            Token::If => Token::If,
            Token::Else => Token::Else,
            Token::Return => Token::Return,
            Token::I8 => Token::I8,
            Token::U8 => Token::U8,
            Token::I16 => Token::I16,
            Token::U16 => Token::U16,
            Token::I32 => Token::I32,
            Token::U32 => Token::U32,
            Token::I64 => Token::I64,
            Token::U64 => Token::U64,
            Token::F32 => Token::F32,
            Token::F64 => Token::F64,
        }
    }

    /// Whether two tokens are the same token (same kind and same payload).
    pub fn same_as(&self, other: &Token) -> (r: bool)
        ensures
            r == (self@ == other@),
    {
        match (self, other) {
            (Token::Ident(a), Token::Ident(b)) => *a == *b,
            (Token::Int(a), Token::Int(b)) => *a == *b,
            (Token::String(a), Token::String(b)) => *a == *b,
            (Token::Ident(_), _) | (Token::Int(_), _) | (Token::String(_), _) => false,
            (_, Token::Ident(_)) | (_, Token::Int(_)) | (_, Token::String(_)) => false,
            _ => self.kind_index() == other.kind_index(),
        }
    }

    /// The position of the token's variant in the declaration (payloads ignored).
    pub fn kind_index(&self) -> (r: u8)
        ensures
            r == token_kind(self@),
    {
        match self {
            Token::Eof => 0,
            Token::Ident(_) => 1,
            Token::Int(_) => 2,
            Token::String(_) => 3,
            Token::Assign => 4,
            Token::Plus => 5,
            Token::Minus => 6,
            Token::Asterisk => 7,
            Token::Slash => 8,
            Token::Bang => 9,
            Token::Equal => 10,
            Token::NotEqual => 11,
            Token::Lt => 12,
            Token::Gt => 13,
            Token::Lte => 14,
            Token::Gte => 15,
            Token::Ampersand => 16,
            Token::Comma => 17,
            Token::Colon => 18,
            Token::Semicolon => 19,
            Token::Arrow => 20,
            Token::LParen => 21,
            Token::RParen => 22,
            Token::LBrace => 23,
            Token::RBrace => 24,
            Token::Let => 25,
            Token::Fn => 26,
            Token::If => 27,
            Token::Else => 28,
            Token::Return => 29,
            Token::I8 => 30,
            Token::U8 => 31,
            Token::I16 => 32,
            Token::U16 => 33,
            Token::I32 => 34,
            Token::U32 => 35,
            Token::I64 => 36,
            Token::U64 => 37,
            Token::F32 => 38,
            Token::F64 => 39,
        }
    }
}

/// The position of a token's variant in the declaration.
pub open spec fn token_kind(t: TokenV) -> u8 {
    match t {
        TokenV::Eof => 0,
        TokenV::Ident(_) => 1,
        TokenV::Int(_) => 2,
        TokenV::Str(_) => 3,
        TokenV::Assign => 4,
        TokenV::Plus => 5,
        TokenV::Minus => 6,
        TokenV::Asterisk => 7,
        TokenV::Slash => 8,
        TokenV::Bang => 9,
        TokenV::Equal => 10,
        TokenV::NotEqual => 11,
        TokenV::Lt => 12,
        TokenV::Gt => 13,
        TokenV::Lte => 14,
        TokenV::Gte => 15,
        TokenV::Ampersand => 16,
        TokenV::Comma => 17,
        TokenV::Colon => 18,
        TokenV::Semicolon => 19,
        TokenV::Arrow => 20,
        TokenV::LParen => 21,
        TokenV::RParen => 22,
        TokenV::LBrace => 23,
        TokenV::RBrace => 24,
        TokenV::Let => 25,
        TokenV::Fn => 26,
        TokenV::If => 27,
        TokenV::Else => 28,
        TokenV::Return => 29,
        TokenV::I8 => 30,
        TokenV::U8 => 31,
        TokenV::I16 => 32,
        TokenV::U16 => 33,
        TokenV::I32 => 34,
        TokenV::U32 => 35,
        TokenV::I64 => 36,
        TokenV::U64 => 37,
        TokenV::F32 => 38,
        TokenV::F64 => 39,
    }
}

} // verus!
