use rilo::lexer::{tokenize, LexError, Lexer};
use rilo::token::Token;

/// Test simple 'let' statement
#[test]
fn test_let_statement() {
    let mut lexer = Lexer::new("let x = 42;");
    assert_eq!(lexer.next_token().unwrap(), Token::Let);
    assert_eq!(lexer.next_token().unwrap(), Token::Ident("x".to_string()));
    assert_eq!(lexer.next_token().unwrap(), Token::Equal);
    assert_eq!(lexer.next_token().unwrap(), Token::Int(42));
    assert_eq!(lexer.next_token().unwrap(), Token::Semicolon);
    assert_eq!(lexer.next_token().unwrap(), Token::Eof);
}

/// Test function signature and symbols
#[test]
fn test_fn_signature() {
    let mut lexer = Lexer::new("fn main() -> int {}");
    assert_eq!(lexer.next_token().unwrap(), Token::Fn);
    assert_eq!(lexer.next_token().unwrap(), Token::Ident("main".to_string()));
    assert_eq!(lexer.next_token().unwrap(), Token::LParen);
    assert_eq!(lexer.next_token().unwrap(), Token::RParen);
    assert_eq!(lexer.next_token().unwrap(), Token::Arrow);
    assert_eq!(lexer.next_token().unwrap(), Token::Ident("int".to_string()));
    assert_eq!(lexer.next_token().unwrap(), Token::LBrace);
    assert_eq!(lexer.next_token().unwrap(), Token::RBrace);
    assert_eq!(lexer.next_token().unwrap(), Token::Eof);
}

/// Test math operators
#[test]
fn test_arithmetic_operators() {
    let mut lexer = Lexer::new("+ - * /");
    assert_eq!(lexer.next_token().unwrap(), Token::Plus);
    assert_eq!(lexer.next_token().unwrap(), Token::Minus);
    assert_eq!(lexer.next_token().unwrap(), Token::Star);
    assert_eq!(lexer.next_token().unwrap(), Token::Slash);
    assert_eq!(lexer.next_token().unwrap(), Token::Eof);
}

/// Test '->' vs '-' tokens
#[test]
fn test_arrow_and_minus() {
    let mut lexer = Lexer::new("-> -");
    assert_eq!(lexer.next_token().unwrap(), Token::Arrow);
    assert_eq!(lexer.next_token().unwrap(), Token::Minus);
    assert_eq!(lexer.next_token().unwrap(), Token::Eof);
}

/// Test that 'letx' is not a keyword
#[test]
fn test_keyword_prefix_identifier() {
    let mut lexer = Lexer::new("letx");
    assert_eq!(lexer.next_token().unwrap(), Token::Ident("letx".to_string()));
    assert_eq!(lexer.next_token().unwrap(), Token::Eof);
}

/// Test identifier with underscore and numbers
#[test]
fn test_identifier_with_underscore() {
    let mut lexer = Lexer::new("foo_bar123");
    assert_eq!(lexer.next_token().unwrap(), Token::Ident("foo_bar123".to_string()));
    assert_eq!(lexer.next_token().unwrap(), Token::Eof);
}

/// Test empty input
#[test]
fn test_empty_input() {
    let mut lexer = Lexer::new("");
    assert_eq!(lexer.next_token().unwrap(), Token::Eof);
}

/// Test code with newlines
#[test]
fn test_multiline_code() {
    let mut lexer = Lexer::new("let a = 1;\nreturn a;");
    assert_eq!(lexer.next_token().unwrap(), Token::Let);
    assert_eq!(lexer.next_token().unwrap(), Token::Ident("a".to_string()));
    assert_eq!(lexer.next_token().unwrap(), Token::Equal);
    assert_eq!(lexer.next_token().unwrap(), Token::Int(1));
    assert_eq!(lexer.next_token().unwrap(), Token::Semicolon);
    assert_eq!(lexer.next_token().unwrap(), Token::Return);
    assert_eq!(lexer.next_token().unwrap(), Token::Ident("a".to_string()));
    assert_eq!(lexer.next_token().unwrap(), Token::Semicolon);
    assert_eq!(lexer.next_token().unwrap(), Token::Eof);
}

/// Test multiple integers in a row
#[test]
fn test_multiple_integers() {
    let mut lexer = Lexer::new("1 23 456");
    assert_eq!(lexer.next_token().unwrap(), Token::Int(1));
    assert_eq!(lexer.next_token().unwrap(), Token::Int(23));
    assert_eq!(lexer.next_token().unwrap(), Token::Int(456));
    assert_eq!(lexer.next_token().unwrap(), Token::Eof);
}

/// Test unknown characters are skipped
#[test]
fn test_unknown_characters() {
    let mut lexer = Lexer::new("@#$");
    assert_eq!(lexer.next_token().unwrap(), Token::Eof);
}

/// White space mixed with unrecognized symbols yields the sentinel on the
/// first call, and the scanner keeps yielding it afterwards.
#[test]
fn test_trivia_only_input() {
    let mut lexer = Lexer::new(" \t @ # $ \n ~ ");
    assert_eq!(lexer.next_token().unwrap(), Token::Eof);
    assert_eq!(lexer.next_token().unwrap(), Token::Eof);
}

/// Maximal munch on adjacent digit runs separated by a space.
#[test]
fn test_maximal_munch_numbers() {
    let mut lexer = Lexer::new("123 45");
    assert_eq!(lexer.next_token().unwrap(), Token::Int(123));
    assert_eq!(lexer.next_token().unwrap(), Token::Int(45));
    assert_eq!(lexer.next_token().unwrap(), Token::Eof);
}

/// '- >' with a space is a minus, then the unrecognized '>' is skipped.
#[test]
fn test_minus_space_gt() {
    let mut lexer = Lexer::new("- >");
    assert_eq!(lexer.next_token().unwrap(), Token::Minus);
    assert_eq!(lexer.next_token().unwrap(), Token::Eof);
}

/// All four keywords, including 'mut', lex as keyword tokens.
#[test]
fn test_keywords() {
    let mut lexer = Lexer::new("fn let return mut");
    assert_eq!(lexer.next_token().unwrap(), Token::Fn);
    assert_eq!(lexer.next_token().unwrap(), Token::Let);
    assert_eq!(lexer.next_token().unwrap(), Token::Return);
    assert_eq!(lexer.next_token().unwrap(), Token::Mut);
    assert_eq!(lexer.next_token().unwrap(), Token::Eof);
}

/// The largest 32-bit value lexes; one past it is the overflow error.
#[test]
fn test_integer_overflow_boundary() {
    let mut lexer = Lexer::new("2147483647");
    assert_eq!(lexer.next_token().unwrap(), Token::Int(2147483647));
    assert_eq!(lexer.next_token().unwrap(), Token::Eof);

    let mut lexer = Lexer::new("2147483648");
    assert_eq!(lexer.next_token(), Err(LexError::IntegerOverflow));

    let mut lexer = Lexer::new("99999999999999999999");
    assert_eq!(lexer.next_token(), Err(LexError::IntegerOverflow));
}

/// tokenize buffers every token and ends with exactly one sentinel.
#[test]
fn test_tokenize_appends_sentinel() {
    let toks = tokenize("let x").unwrap();
    assert_eq!(
        toks,
        vec![Token::Let, Token::Ident("x".to_string()), Token::Eof]
    );
}

/// tokenize surfaces the overflow error.
#[test]
fn test_tokenize_overflow() {
    assert_eq!(tokenize("let x = 4294967296;"), Err(LexError::IntegerOverflow));
}
