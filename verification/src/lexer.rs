use vstd::prelude::*;
use vstd::utf8::{valid_utf8, decode_utf8};

use crate::text::{lit, push_char, utf8_string};
use crate::token::{Token, TokenV, symbol_token};

verus! {

/// A byte that separates tokens: space, tab, line feed or carriage return.
pub open spec fn is_space(b: u8) -> bool {
    b == 32 || b == 9 || b == 10 || b == 13
}

/// A byte that can start a word: a letter or an underscore.
pub open spec fn is_word_start(b: u8) -> bool {
    (65 <= b <= 90) || (97 <= b <= 122) || b == 95
}

/// A decimal digit.
pub open spec fn is_digit(b: u8) -> bool {
    48 <= b <= 57
}

/// A byte that can continue a word: a letter, a digit or an underscore.
pub open spec fn is_word_byte(b: u8) -> bool {
    is_word_start(b) || is_digit(b)
}

/// The first position at or after `pos` that does not hold a space.
pub open spec fn skip_spaces(input: Seq<u8>, pos: nat) -> nat
    decreases input.len() - pos,
{
    if pos < input.len() && is_space(input[pos as int]) {
        skip_spaces(input, pos + 1)
    } else {
        pos
    }
}

/// The first position at or after `pos` that does not hold a word byte.
pub open spec fn word_end(input: Seq<u8>, pos: nat) -> nat
    decreases input.len() - pos,
{
    if pos < input.len() && is_word_byte(input[pos as int]) {
        word_end(input, pos + 1)
    } else {
        pos
    }
}

/// The first position at or after `pos` that does not hold a digit.
pub open spec fn digits_end(input: Seq<u8>, pos: nat) -> nat
    decreases input.len() - pos,
{
    if pos < input.len() && is_digit(input[pos as int]) {
        digits_end(input, pos + 1)
    } else {
        pos
    }
}

/// The first position at or after `pos` that holds a double quote, if any.
pub open spec fn quote_at_or_after(input: Seq<u8>, pos: nat) -> Option<nat>
    decreases input.len() - pos,
{
    if pos >= input.len() {
        None
    } else if input[pos as int] == 34 {
        Some(pos)
    } else {
        quote_at_or_after(input, pos + 1)
    }
}

/// Bytes read as characters one for one (used for words and numbers, which are ASCII).
pub open spec fn ascii_chars(s: Seq<u8>) -> Seq<char> {
    Seq::new(s.len(), |i: int| s[i] as char)
}

/// Why the input cannot be split into tokens.
#[derive(Debug, Clone, Copy, PartialEq, Eq)]
pub enum LexError {
    /// A byte that starts no token.
    UnexpectedChar(u8),
    /// A string literal without its closing quote.
    UnterminatedString,
    /// A string literal whose bytes are not UTF-8.
    InvalidUtf8,
}

/// The token whose operator text starts at `p` (the byte there is not a space, a word
/// byte, a digit or a quote), and the position after it.
pub open spec fn operator_token(input: Seq<u8>, p: nat) -> Result<(TokenV, nat), LexError>
    recommends
        p < input.len(),
{
    let c = input[p as int];
    let next_is = |b: u8| p + 1 < input.len() && input[p + 1int] == b;
    if c == 61 {
        if next_is(61) { Ok((TokenV::Equal, p + 2)) } else { Ok((TokenV::Assign, p + 1)) }
    } else if c == 33 {
        if next_is(61) { Ok((TokenV::NotEqual, p + 2)) } else { Ok((TokenV::Bang, p + 1)) }
    } else if c == 60 {
        if next_is(61) { Ok((TokenV::Lte, p + 2)) } else { Ok((TokenV::Lt, p + 1)) }
    } else if c == 62 {
        if next_is(61) { Ok((TokenV::Gte, p + 2)) } else { Ok((TokenV::Gt, p + 1)) }
    } else if c == 45 {
        if next_is(62) { Ok((TokenV::Arrow, p + 2)) } else { Ok((TokenV::Minus, p + 1)) }
    } else if c == 43 {
        Ok((TokenV::Plus, p + 1))
    } else if c == 42 {
        Ok((TokenV::Asterisk, p + 1))
    } else if c == 47 {
        Ok((TokenV::Slash, p + 1))
    } else if c == 38 {
        Ok((TokenV::Ampersand, p + 1))
    } else if c == 44 {
        Ok((TokenV::Comma, p + 1))
    } else if c == 58 {
        Ok((TokenV::Colon, p + 1))
    } else if c == 59 {
        Ok((TokenV::Semicolon, p + 1))
    } else if c == 40 {
        Ok((TokenV::LParen, p + 1))
    } else if c == 41 {
        Ok((TokenV::RParen, p + 1))
    } else if c == 123 {
        Ok((TokenV::LBrace, p + 1))
    } else if c == 125 {
        Ok((TokenV::RBrace, p + 1))
    } else {
        Err(LexError::UnexpectedChar(c))
    }
}

/// The token that starts at or after `pos` (after spaces), and the position after it.
/// At the end of the input the token is `Eof`, again and again.
pub open spec fn lex_token(input: Seq<u8>, pos: nat) -> Result<(TokenV, nat), LexError> {
    let p = skip_spaces(input, pos);
    if p >= input.len() {
        Ok((TokenV::Eof, p))
    } else {
        let c = input[p as int];
        if is_word_start(c) {
            let e = word_end(input, p + 1);
            Ok((symbol_token(ascii_chars(input.subrange(p as int, e as int))), e))
        } else if is_digit(c) {
            let e = digits_end(input, p + 1);
            Ok((TokenV::Int(ascii_chars(input.subrange(p as int, e as int))), e))
        } else if c == 34 {
            match quote_at_or_after(input, p + 1) {
                None => Err(LexError::UnterminatedString),
                Some(q) => {
                    let body = input.subrange(p + 1int, q as int);
                    if valid_utf8(body) {
                        Ok((TokenV::Str(decode_utf8(body)), q + 1))
                    } else {
                        Err(LexError::InvalidUtf8)
                    }
                },
            }
        } else {
            operator_token(input, p)
        }
    }
}

pub proof fn lemma_skip_spaces(input: Seq<u8>, pos: nat)
    requires
        pos <= input.len(),
    ensures
        pos <= skip_spaces(input, pos) <= input.len(),
    decreases input.len() - pos,
{
    if pos < input.len() && is_space(input[pos as int]) {
        lemma_skip_spaces(input, pos + 1);
    }
}

pub proof fn lemma_word_end(input: Seq<u8>, pos: nat)
    requires
        pos <= input.len(),
    ensures
        pos <= word_end(input, pos) <= input.len(),
    decreases input.len() - pos,
{
    if pos < input.len() && is_word_byte(input[pos as int]) {
        lemma_word_end(input, pos + 1);
    }
}

pub proof fn lemma_digits_end(input: Seq<u8>, pos: nat)
    requires
        pos <= input.len(),
    ensures
        pos <= digits_end(input, pos) <= input.len(),
    decreases input.len() - pos,
{
    if pos < input.len() && is_digit(input[pos as int]) {
        lemma_digits_end(input, pos + 1);
    }
}

pub proof fn lemma_quote(input: Seq<u8>, pos: nat)
    requires
        pos <= input.len(),
    ensures
        quote_at_or_after(input, pos) matches Some(q) ==> pos <= q < input.len(),
    decreases input.len() - pos,
{
    if pos < input.len() && input[pos as int] != 34 {
        lemma_quote(input, pos + 1);
    }
}

/// Lexing never moves backwards nor past the end; every token but `Eof` takes at least one byte.
pub proof fn lemma_lex_progress(input: Seq<u8>, pos: nat)
    requires
        pos <= input.len(),
    ensures
        lex_token(input, pos) matches Ok((t, p)) ==> {
            &&& pos <= p <= input.len()
            &&& t != TokenV::Eof ==> pos < p
            &&& t == TokenV::Eof ==> p == input.len()
        },
{
    lemma_skip_spaces(input, pos);
    let p = skip_spaces(input, pos);
    if p < input.len() {
        lemma_word_end(input, p + 1);
        lemma_digits_end(input, p + 1);
        lemma_quote(input, p + 1);
        let c = input[p as int];
        if is_word_start(c) {
            let e = word_end(input, p + 1);
            let w = ascii_chars(input.subrange(p as int, e as int));
            assert(w.len() >= 1);
            assert(symbol_token(w) != TokenV::Eof);
        }
    }
}

/// Splits source bytes into tokens, one at a time.
pub struct Lexer {
    input: Vec<u8>,
    pos: usize,
}

impl Lexer {
    /// The source bytes.
    pub closed spec fn source(&self) -> Seq<u8> {
        self.input@
    }

    /// How many bytes have been read.
    pub closed spec fn position(&self) -> nat {
        self.pos as nat
    }

    /// The reading position is within the source.
    #[verifier::type_invariant]
    pub closed spec fn inv(&self) -> bool {
        self.pos <= self.input@.len() <= usize::MAX
    }

    /// A lexer at the start of `input`.
    pub fn new(input: Vec<u8>) -> (r: Lexer)
        ensures
            r.source() == input@,
            r.position() == 0,
    {
        let _ = input.len();
        Lexer { input, pos: 0 }
    }

    /// Reads the next token; at the end of the input, `Eof` (every time).
    pub fn next_token(&mut self) -> (r: Result<Token, LexError>)
        ensures
            final(self).position() <= final(self).source().len() <= usize::MAX,
            final(self).source() == old(self).source(),
            match lex_token(old(self).source(), old(self).position()) {
                Ok((t, p)) => r matches Ok(tok) && tok@ == t && final(self).position() == p,
                Err(e) => r == Err::<Token, LexError>(e) && final(self).position() == old(self).position(),
            },
    {
        proof {
            use_type_invariant(&*self);
        }
        let ghost src = self.input@;
        let ghost start = self.pos as nat;
        let len = self.input.len();
        let mut p = self.pos;
        while p < len && is_space_byte(self.input[p])
            invariant
                start <= p <= len,
                len == self.input.len(),
                src == self.input@,
                skip_spaces(src, start) == skip_spaces(src, p as nat),
            decreases len - p,
        {
            p = p + 1;
        }
        proof {
            lemma_lex_progress(src, start);
        }
        if p >= len {
            self.pos = p;
            return Ok(Token::Eof);
        }
        let c = self.input[p];
        if is_word_start_byte(c) {
            let mut e = p + 1;
            while e < len && is_word_byte_exec(self.input[e])
                invariant
                    p < e <= len,
                    len == self.input.len(),
                    word_end(src, (p + 1) as nat) == word_end(src, e as nat),
                    src == self.input@,
                decreases len - e,
            {
                e = e + 1;
            }
            let word = ascii_text(&self.input, p, e);
            self.pos = e;
            Ok(Token::from_symbol(word.as_str()))
        } else if is_digit_byte(c) {
            let mut e = p + 1;
            while e < len && is_digit_byte(self.input[e])
                invariant
                    p < e <= len,
                    len == self.input.len(),
                    digits_end(src, (p + 1) as nat) == digits_end(src, e as nat),
                    src == self.input@,
                decreases len - e,
            {
                e = e + 1;
            }
            let number = ascii_text(&self.input, p, e);
            self.pos = e;
            Ok(Token::Int(number))
        } else if c == 34 {
            let mut q = p + 1;
            while q < len && self.input[q] != 34
                invariant
                    p < q <= len,
                    len == self.input.len(),
                    quote_at_or_after(src, (p + 1) as nat) == quote_at_or_after(src, q as nat),
                    src == self.input@,
                decreases len - q,
            {
                q = q + 1;
            }
            if q >= len {
                return Err(LexError::UnterminatedString);
            }
            let mut body: Vec<u8> = Vec::new();
            let mut k = p + 1;
            while k < q
                invariant
                    p < k <= q < len,
                    len == self.input.len(),
                    src == self.input@,
                    body@ == src.subrange(p + 1, k as int),
                decreases q - k,
            {
                body.push(self.input[k]);
                k = k + 1;
            }
            match utf8_string(body) {
                None => Err(LexError::InvalidUtf8),
                Some(s) => {
                    self.pos = q + 1;
                    Ok(Token::String(s))
                },
            }
        } else {
            let next = if p + 1 < len { self.input[p + 1] } else { 0 };
            let (tok, width): (Token, usize) = if c == 61 {
                if next == 61 { (Token::Equal, 2) } else { (Token::Assign, 1) }
            } else if c == 33 {
                if next == 61 { (Token::NotEqual, 2) } else { (Token::Bang, 1) }
            } else if c == 60 {
                if next == 61 { (Token::Lte, 2) } else { (Token::Lt, 1) }
            } else if c == 62 {
                if next == 61 { (Token::Gte, 2) } else { (Token::Gt, 1) }
            } else if c == 45 {
                if next == 62 { (Token::Arrow, 2) } else { (Token::Minus, 1) }
            } else if c == 43 {
                (Token::Plus, 1)
            } else if c == 42 {
                (Token::Asterisk, 1)
            } else if c == 47 {
                (Token::Slash, 1)
            } else if c == 38 {
                (Token::Ampersand, 1)
            } else if c == 44 {
                (Token::Comma, 1)
            } else if c == 58 {
                (Token::Colon, 1)
            } else if c == 59 {
                (Token::Semicolon, 1)
            } else if c == 40 {
                (Token::LParen, 1)
            } else if c == 41 {
                (Token::RParen, 1)
            } else if c == 123 {
                (Token::LBrace, 1)
            } else if c == 125 {
                (Token::RBrace, 1)
            } else {
                return Err(LexError::UnexpectedChar(c));
            };
            self.pos = p + width;
            Ok(tok)
        }
    }
}

fn is_space_byte(b: u8) -> (r: bool)
    ensures
        r == is_space(b),
{
    b == 32 || b == 9 || b == 10 || b == 13
}

fn is_word_start_byte(b: u8) -> (r: bool)
    ensures
        r == is_word_start(b),
{
    (65 <= b && b <= 90) || (97 <= b && b <= 122) || b == 95
}

fn is_digit_byte(b: u8) -> (r: bool)
    ensures
        r == is_digit(b),
{
    48 <= b && b <= 57
}

fn is_word_byte_exec(b: u8) -> (r: bool)
    ensures
        r == is_word_byte(b),
{
    is_word_start_byte(b) || is_digit_byte(b)
}

/// The bytes `input[from..to]` read as characters one for one.
fn ascii_text(input: &Vec<u8>, from: usize, to: usize) -> (r: String)
    requires
        from <= to <= input.len(),
    ensures
        r@ == ascii_chars(input@.subrange(from as int, to as int)),
{
    let mut r = String::new();
    let mut k = from;
    while k < to
        invariant
            from <= k <= to <= input.len(),
            r@ =~= ascii_chars(input@.subrange(from as int, k as int)),
        decreases to - k,
    {
        push_char(&mut r, input[k] as char);
        k = k + 1;
    }
    r
}

impl LexError {
    /// The text that reports the error.
    pub fn message(&self) -> (r: String)
        ensures
            r@ == lex_error_message(*self),
    {
        match self {
            LexError::UnexpectedChar(c) => {
                let mut r = lit("unexpected character ");
                push_char(&mut r, *c as char);
                r
            },
            LexError::UnterminatedString => lit("unterminated string literal"),
            LexError::InvalidUtf8 => lit("string literal is not valid utf-8"),
        }
    }
}

/// The text that reports a lexing error.
pub open spec fn lex_error_message(e: LexError) -> Seq<char> {
    match e {
        LexError::UnexpectedChar(c) => "unexpected character "@.push(c as char),
        LexError::UnterminatedString => "unterminated string literal"@,
        LexError::InvalidUtf8 => "string literal is not valid utf-8"@,
    }
}

} // verus!
