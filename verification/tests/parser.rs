use rilo::ast::{BinaryOp, Expr, Stmt};
use rilo::lexer::Lexer;
use rilo::parser::{ParseError, Parser};
use rilo::token::Token;

#[test]
fn test_empty_function() {
    let src = "fn main() -> int {}";
    let mut lexer = Lexer::new(src);
    let tokens = collect_tokens(&mut lexer);
    let mut parser = Parser::new(tokens);
    let funcs = parser.parse().unwrap();

    assert_eq!(funcs.len(), 1);
    assert_eq!(funcs[0].name, "main");
    assert_eq!(funcs[0].body.len(), 0);
}

#[test]
fn test_let_stmt() {
    let src = "fn main() -> int { let x = 5; }";
    let mut lexer = Lexer::new(src);
    let tokens = collect_tokens(&mut lexer);
    let mut parser = Parser::new(tokens);
    let funcs = parser.parse().unwrap();

    if let Stmt::Let { name, value } = &funcs[0].body[0] {
        assert_eq!(name, "x");
        assert!(matches!(value, Expr::Int(5)));
    } else {
        panic!("Expected let statement");
    }
}

#[test]
fn test_return_stmt() {
    let src = "fn main() -> int { return 1; }";
    let mut lexer = Lexer::new(src);
    let tokens = collect_tokens(&mut lexer);
    let mut parser = Parser::new(tokens);
    let funcs = parser.parse().unwrap();

    if let Stmt::Return(expr) = &funcs[0].body[0] {
        assert!(matches!(expr, Expr::Int(1)));
    } else {
        panic!("Expected return statement");
    }
}

#[test]
fn test_return_binary_expr() {
    let src = "fn main() -> int { return x + 1; }";
    let mut lexer = Lexer::new(src);
    let tokens = collect_tokens(&mut lexer);
    let mut parser = Parser::new(tokens);
    let funcs = parser.parse().unwrap();

    if let Stmt::Return(Expr::Binary { left, op, right }) = &funcs[0].body[0] {
        assert!(matches!(**left, Expr::Var(ref name) if name == "x"));
        assert_eq!(*op, BinaryOp::Add);
        assert!(matches!(**right, Expr::Int(1)));
    } else {
        panic!("Expected binary return");
    }
}

#[test]
fn test_multiple_stmts() {
    let src = "fn main() -> int { let x = 5; return x; }";
    let mut lexer = Lexer::new(src);
    let tokens = collect_tokens(&mut lexer);
    let mut parser = Parser::new(tokens);
    let funcs = parser.parse().unwrap();

    assert_eq!(funcs[0].body.len(), 2);
}

#[test]
fn test_sub_expr() {
    let src = "fn main() -> int { return x - 2; }";
    let mut lexer = Lexer::new(src);
    let tokens = collect_tokens(&mut lexer);
    let mut parser = Parser::new(tokens);
    let funcs = parser.parse().unwrap();

    if let Stmt::Return(Expr::Binary { op, .. }) = &funcs[0].body[0] {
        assert_eq!(*op, BinaryOp::Sub);
    } else {
        panic!("Expected subtraction");
    }
}

#[test]
fn test_nested_binary_expr() {
    let src = "fn main() -> int { return x + 2 * 3; }";
    let mut lexer = Lexer::new(src);
    let tokens = collect_tokens(&mut lexer);
    let mut parser = Parser::new(tokens);
    let funcs = parser.parse().unwrap();

    // All operators share one precedence and combine strictly left-to-right,
    // so this is ((x + 2) * 3): the outer node is the multiplication.
    if let Stmt::Return(Expr::Binary { left, op, right }) = &funcs[0].body[0] {
        assert_eq!(*op, BinaryOp::Mul);
        assert!(matches!(**right, Expr::Int(3)));
        if let Expr::Binary { left: il, op: iop, right: ir } = &**left {
            assert!(matches!(**il, Expr::Var(ref name) if name == "x"));
            assert_eq!(*iop, BinaryOp::Add);
            assert!(matches!(**ir, Expr::Int(2)));
        } else {
            panic!("Expected binary add expr");
        }
    } else {
        panic!("Expected binary add expr");
    }
}

#[test]
fn test_variable_expr() {
    let src = "fn main() -> int { return x; }";
    let mut lexer = Lexer::new(src);
    let tokens = collect_tokens(&mut lexer);
    let mut parser = Parser::new(tokens);
    let funcs = parser.parse().unwrap();

    if let Stmt::Return(Expr::Var(name)) = &funcs[0].body[0] {
        assert_eq!(name, "x");
    } else {
        panic!("Expected variable return");
    }
}

#[test]
fn test_multiple_functions() {
    let src = r#"
        fn a() -> int { return 1; }
        fn b() -> int { return 2; }
    "#;

    let mut lexer = Lexer::new(src);
    let tokens = collect_tokens(&mut lexer);
    let mut parser = Parser::new(tokens);
    let funcs = parser.parse().unwrap();

    assert_eq!(funcs.len(), 2);
    assert_eq!(funcs[0].name, "a");
    assert_eq!(funcs[1].name, "b");
}

#[test]
fn test_parse_failure() {
    let src = "fn main() -> int { let = 5; }"; // invalid syntax (missing identifier)

    let mut lexer = Lexer::new(src);
    let tokens = collect_tokens(&mut lexer);

    let mut parser = Parser::new(tokens);
    let result = parser.parse();
    assert!(result.is_err(), "Parser should fail on invalid syntax");
    assert!(matches!(result, Err(ParseError::ExpectedIdent { .. })));
}

/// 'mut' is lexed as a keyword but the grammar has no production for it, so
/// this exact input must fail to parse, not succeed with 'x' marked mutable.
#[test]
fn test_let_mut_fails() {
    let src = "fn main() -> int { let mut x = 42; let y = x + 3; return y; }";
    let mut lexer = Lexer::new(src);
    let tokens = collect_tokens(&mut lexer);
    let mut parser = Parser::new(tokens);
    let result = parser.parse();
    assert!(matches!(result, Err(ParseError::ExpectedIdent { actual: Token::Mut })));
}

/// A statement may only start with 'let' or 'return'.
#[test]
fn test_unexpected_statement_token() {
    let src = "fn main() -> int { 5; }";
    let mut lexer = Lexer::new(src);
    let tokens = collect_tokens(&mut lexer);
    let mut parser = Parser::new(tokens);
    let result = parser.parse();
    assert!(matches!(result, Err(ParseError::UnexpectedStmt { actual: Token::Int(5) })));
}

/// A primary expression may only be an integer or a variable.
#[test]
fn test_unexpected_primary_token() {
    let src = "fn main() -> int { return ; }";
    let mut lexer = Lexer::new(src);
    let tokens = collect_tokens(&mut lexer);
    let mut parser = Parser::new(tokens);
    let result = parser.parse();
    assert!(matches!(result, Err(ParseError::UnexpectedPrimary { actual: Token::Semicolon })));
}

/// A required token out of place names both the expected and actual token.
#[test]
fn test_expected_token_mismatch() {
    let src = "fn main() -> int ( }";
    let mut lexer = Lexer::new(src);
    let tokens = collect_tokens(&mut lexer);
    let mut parser = Parser::new(tokens);
    let result = parser.parse();
    assert!(matches!(
        result,
        Err(ParseError::Expected { expected: Token::LBrace, actual: Token::LParen })
    ));
}

/// Lexing then parsing a grammar-shaped text never fails past the final
/// function, and the function count equals the number of 'fn' declarations.
#[test]
fn test_round_trip_function_count() {
    let src = "fn a() -> int { let x = 1; return x; } \
               fn b() -> unit { return 2 + 3 - 4; } \
               fn c() -> int {}";
    let mut lexer = Lexer::new(src);
    let tokens = collect_tokens(&mut lexer);
    let mut parser = Parser::new(tokens);
    let funcs = parser.parse().unwrap();
    assert_eq!(funcs.len(), 3);
    assert_eq!(funcs[0].name, "a");
    assert_eq!(funcs[1].name, "b");
    assert_eq!(funcs[2].name, "c");
}

fn collect_tokens(lexer: &mut Lexer) -> Vec<Token> {
    let mut tokens = Vec::new();
    loop {
        let tok = lexer.next_token().unwrap();
        if tok == Token::Eof {
            break;
        }
        tokens.push(tok);
    }
    tokens
}
