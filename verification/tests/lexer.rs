use sierra::lexer::{LexError, Lexer};
use sierra::token::Token;

fn tokens(input: &[u8]) -> Result<Vec<Token>, LexError> {
    let mut lexer = Lexer::new(input.to_vec());
    let mut out = Vec::new();
    loop {
        let t = lexer.next_token()?;
        let done = t == Token::Eof;
        out.push(t);
        if done {
            return Ok(out);
        }
    }
}

#[test]
fn words_numbers_and_punctuation() {
    assert_eq!(
        tokens(b"let x: i32 = 10;").unwrap(),
        vec![Token::Let, Token::Ident("x".to_string()), Token::Colon, Token::I32, Token::Assign, Token::Int("10".to_string()), Token::Semicolon, Token::Eof]
    );
    assert_eq!(
        tokens(b"fn _f1(a) -> u64 { return a; }").unwrap(),
        vec![
            Token::Fn,
            Token::Ident("_f1".to_string()),
            Token::LParen,
            Token::Ident("a".to_string()),
            Token::RParen,
            Token::Arrow,
            Token::U64,
            Token::LBrace,
            Token::Return,
            Token::Ident("a".to_string()),
            Token::Semicolon,
            Token::RBrace,
            Token::Eof
        ]
    );
}

#[test]
fn operators_take_the_longest_match() {
    assert_eq!(
        tokens(b"= == ! != < <= > >= + - -> * / & , : ;").unwrap(),
        vec![
            Token::Assign, Token::Equal, Token::Bang, Token::NotEqual, Token::Lt, Token::Lte, Token::Gt, Token::Gte, Token::Plus, Token::Minus, Token::Arrow, Token::Asterisk, Token::Slash, Token::Ampersand, Token::Comma, Token::Colon,
            Token::Semicolon, Token::Eof
        ]
    );
    assert_eq!(tokens(b"a<=b").unwrap(), vec![Token::Ident("a".to_string()), Token::Lte, Token::Ident("b".to_string()), Token::Eof]);
}

#[test]
fn strings_hold_their_text() {
    assert_eq!(
        tokens("\"salut, țară\"".as_bytes()).unwrap(),
        vec![Token::String("salut, țară".to_string()), Token::Eof]
    );
    assert_eq!(tokens(b"\"\"").unwrap(), vec![Token::String(String::new()), Token::Eof]);
}

#[test]
fn end_of_input_repeats() {
    let mut lexer = Lexer::new(b"  \n\t ".to_vec());
    assert_eq!(lexer.next_token().unwrap(), Token::Eof);
    assert_eq!(lexer.next_token().unwrap(), Token::Eof);
}

#[test]
fn lexing_errors() {
    assert_eq!(tokens(b"let @"), Err(LexError::UnexpectedChar(b'@')));
    assert_eq!(tokens(b"\"open"), Err(LexError::UnterminatedString));
    assert_eq!(tokens(b"\"\xff\""), Err(LexError::InvalidUtf8));
    assert_eq!(LexError::UnexpectedChar(b'#').message(), "unexpected character #");
    assert_eq!(LexError::UnterminatedString.message(), "unterminated string literal");
    assert_eq!(LexError::InvalidUtf8.message(), "string literal is not valid utf-8");
}

#[test]
fn keywords_and_names() {
    assert_eq!(Token::from_symbol("let"), Token::Let);
    assert_eq!(Token::from_symbol("fn"), Token::Fn);
    assert_eq!(Token::from_symbol("if"), Token::If);
    assert_eq!(Token::from_symbol("else"), Token::Else);
    assert_eq!(Token::from_symbol("return"), Token::Return);
    assert_eq!(Token::from_symbol("f64"), Token::F64);
    assert_eq!(Token::from_symbol("i16"), Token::I16);
    assert_eq!(Token::from_symbol("lets"), Token::Ident("lets".to_string()));
    assert_eq!(Token::from_symbol("bool"), Token::Ident("bool".to_string()));
}

#[test]
fn token_text_round_trip() {
    for word in ["let", "fn", "if", "else", "return", "i8", "u8", "i16", "u16", "i32", "u32", "i64", "u64", "f32", "f64", "main"] {
        assert_eq!(Token::from_symbol(word).display(), word);
    }
    assert_eq!(Token::String("hi".to_string()).display(), "\"hi\"");
    assert_eq!(Token::Eof.display(), "<eof>");
    assert_eq!(Token::Arrow.display(), "->");
    assert_eq!(Token::NotEqual.display(), "!=");
}

#[test]
fn keyword_text_reads_back_as_the_keyword() {
    let keywords = [
        Token::Let,
        Token::Fn,
        Token::If,
        Token::Else,
        Token::Return,
        Token::I8,
        Token::U8,
        Token::I16,
        Token::U16,
        Token::I32,
        Token::U32,
        Token::I64,
        Token::U64,
        Token::F32,
        Token::F64,
    ];
    for k in keywords {
        assert_eq!(Token::from_symbol(&k.display()), k);
    }
}
