use vstd::prelude::*;

verus! {

/// One lexical unit of source text.
///
/// Keywords, literal-carrying variants, fixed symbols, brackets, and the
/// end-of-input sentinel. Tokens are immutable and compared structurally.
#[derive(Debug)]
pub enum Token {
    Fn,
    Let,
    Return,
    Mut,
    Ident(String),
    Int(i32),
    Plus,
    Minus,
    Star,
    Slash,
    Equal,
    Colon,
    Arrow,
    Semicolon,
    LParen,
    RParen,
    LBrace,
    RBrace,
    Eof,
}

/// The mathematical model of a token: identifier text is a sequence of
/// characters rather than a `String`.
pub enum TokenV {
    Fn,
    Let,
    Return,
    Mut,
    Ident(Seq<char>),
    Int(i32),
    Plus,
    Minus,
    Star,
    Slash,
    Equal,
    Colon,
    Arrow,
    Semicolon,
    LParen,
    RParen,
    LBrace,
    RBrace,
    Eof,
}

impl View for Token {
    type V = TokenV;

    open spec fn view(&self) -> TokenV {
        match self {
            Token::Fn => TokenV::Fn,
            Token::Let => TokenV::Let,
            Token::Return => TokenV::Return,
            Token::Mut => TokenV::Mut,
            Token::Ident(s) => TokenV::Ident(s@),
            Token::Int(n) => TokenV::Int(*n),
            Token::Plus => TokenV::Plus,
            Token::Minus => TokenV::Minus,
            Token::Star => TokenV::Star,
            Token::Slash => TokenV::Slash,
            Token::Equal => TokenV::Equal,
            Token::Colon => TokenV::Colon,
            Token::Arrow => TokenV::Arrow,
            Token::Semicolon => TokenV::Semicolon,
            Token::LParen => TokenV::LParen,
            Token::RParen => TokenV::RParen,
            Token::LBrace => TokenV::LBrace,
            Token::RBrace => TokenV::RBrace,
            Token::Eof => TokenV::Eof,
        }
    }
}

impl Token {
    /// A structural copy of the token; identifier text is duplicated.
    pub fn dup(&self) -> (t: Token)
        ensures
            t@ == self@,
    {
        match self {
            Token::Fn => Token::Fn,
            Token::Let => Token::Let,
            Token::Return => Token::Return,
            Token::Mut => Token::Mut,
            Token::Ident(s) => Token::Ident(s.clone()),
            Token::Int(n) => Token::Int(*n),
            Token::Plus => Token::Plus,
            Token::Minus => Token::Minus,
            Token::Star => Token::Star,
            Token::Slash => Token::Slash,
            Token::Equal => Token::Equal,
            Token::Colon => Token::Colon,
            Token::Arrow => Token::Arrow,
            Token::Semicolon => Token::Semicolon,
            Token::LParen => Token::LParen,
            Token::RParen => Token::RParen,
            Token::LBrace => Token::LBrace,
            Token::RBrace => Token::RBrace,
            Token::Eof => Token::Eof,
        }
    }
}

impl PartialEq for Token {
    fn eq(&self, other: &Token) -> bool {
        match (self, other) {
            (Token::Fn, Token::Fn) => true,
            (Token::Let, Token::Let) => true,
            (Token::Return, Token::Return) => true,
            (Token::Mut, Token::Mut) => true,
            (Token::Ident(a), Token::Ident(b)) => *a == *b,
            (Token::Int(a), Token::Int(b)) => *a == *b,
            (Token::Plus, Token::Plus) => true,
            (Token::Minus, Token::Minus) => true,
            (Token::Star, Token::Star) => true,
            (Token::Slash, Token::Slash) => true,
            (Token::Equal, Token::Equal) => true,
            (Token::Colon, Token::Colon) => true,
            (Token::Arrow, Token::Arrow) => true,
            (Token::Semicolon, Token::Semicolon) => true,
            (Token::LParen, Token::LParen) => true,
            (Token::RParen, Token::RParen) => true,
            (Token::LBrace, Token::LBrace) => true,
            (Token::RBrace, Token::RBrace) => true,
            (Token::Eof, Token::Eof) => true,
            _ => false,
        }
    }
}

impl vstd::std_specs::cmp::PartialEqSpecImpl for Token {
    open spec fn obeys_eq_spec() -> bool {
        true
    }

    open spec fn eq_spec(&self, other: &Token) -> bool {
        self@ == other@
    }
}

} // verus!
