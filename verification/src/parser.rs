use vstd::prelude::*;

use crate::ast::{fns_view, stmts_view, BinaryOp, Expr, ExprV, Function, FunctionV, Stmt, StmtV};
use crate::lexer::tokens_view;
use crate::token::{Token, TokenV};

verus! {

/// How parsing fails: a grammatical mismatch is fatal to the entire parse.
/// Each variant records the offending token (and, for `Expected`, the token
/// the grammar required in its place).
#[derive(Debug)]
pub enum ParseError {
    Expected { expected: Token, actual: Token },
    ExpectedIdent { actual: Token },
    UnexpectedStmt { actual: Token },
    UnexpectedPrimary { actual: Token },
}

/// The mathematical model of a parse error.
pub enum ParseErrorV {
    Expected { expected: TokenV, actual: TokenV },
    ExpectedIdent { actual: TokenV },
    UnexpectedStmt { actual: TokenV },
    UnexpectedPrimary { actual: TokenV },
}

impl View for ParseError {
    type V = ParseErrorV;

    open spec fn view(&self) -> ParseErrorV {
        match self {
            ParseError::Expected { expected, actual } => ParseErrorV::Expected {
                expected: expected@,
                actual: actual@,
            },
            ParseError::ExpectedIdent { actual } => ParseErrorV::ExpectedIdent { actual: actual@ },
            ParseError::UnexpectedStmt { actual } => ParseErrorV::UnexpectedStmt {
                actual: actual@,
            },
            ParseError::UnexpectedPrimary { actual } => ParseErrorV::UnexpectedPrimary {
                actual: actual@,
            },
        }
    }
}

/// The token at the cursor; the end-of-input sentinel once the sequence is
/// exhausted.
pub open spec fn spec_peek(s: Seq<TokenV>) -> TokenV {
    if s.len() == 0 {
        TokenV::Eof
    } else {
        s[0]
    }
}

/// The sequence after consuming one token; exhausted input stays exhausted.
pub open spec fn spec_adv(s: Seq<TokenV>) -> Seq<TokenV> {
    if s.len() == 0 {
        s
    } else {
        s.skip(1)
    }
}

/// Consuming one required token: the rest on a match, the error naming both
/// tokens otherwise.
pub open spec fn spec_expect(s: Seq<TokenV>, t: TokenV) -> Result<Seq<TokenV>, ParseErrorV> {
    if spec_peek(s) == t {
        Ok(spec_adv(s))
    } else {
        Err(ParseErrorV::Expected { expected: t, actual: spec_peek(s) })
    }
}

/// Consuming one identifier token, yielding its text.
pub open spec fn spec_expect_ident(s: Seq<TokenV>) -> Result<
    (Seq<char>, Seq<TokenV>),
    ParseErrorV,
> {
    match spec_peek(s) {
        TokenV::Ident(name) => Ok((name, spec_adv(s))),
        other => Err(ParseErrorV::ExpectedIdent { actual: other }),
    }
}

/// Consuming one binary operator if the cursor is at one.
pub open spec fn spec_match_binary_op(s: Seq<TokenV>) -> Option<(BinaryOp, Seq<TokenV>)> {
    match spec_peek(s) {
        TokenV::Plus => Some((BinaryOp::Add, spec_adv(s))),
        TokenV::Minus => Some((BinaryOp::Sub, spec_adv(s))),
        TokenV::Star => Some((BinaryOp::Mul, spec_adv(s))),
        TokenV::Slash => Some((BinaryOp::Div, spec_adv(s))),
        _ => None,
    }
}

/// A primary expression: an integer literal or a variable reference.
pub open spec fn spec_parse_primary(s: Seq<TokenV>) -> Result<(ExprV, Seq<TokenV>), ParseErrorV> {
    match spec_peek(s) {
        TokenV::Int(n) => Ok((ExprV::Int(n), spec_adv(s))),
        TokenV::Ident(name) => Ok((ExprV::Var(name), spec_adv(s))),
        other => Err(ParseErrorV::UnexpectedPrimary { actual: other }),
    }
}

/// The operator tail of an expression: as long as a binary operator follows,
/// it and the next primary combine with the tree built so far. All four
/// operators share one precedence, so the tree grows strictly to the left.
pub open spec fn spec_parse_expr_rest(left: ExprV, s: Seq<TokenV>) -> Result<
    (ExprV, Seq<TokenV>),
    ParseErrorV,
>
    decreases s.len(),
{
    match spec_match_binary_op(s) {
        None => Ok((left, s)),
        Some((op, s1)) => match spec_parse_primary(s1) {
            Err(e) => Err(e),
            Ok((right, s2)) => spec_parse_expr_rest(
                ExprV::Binary { left: Box::new(left), op, right: Box::new(right) },
                s2,
            ),
        },
    }
}

/// A full expression: a primary followed by its operator tail.
pub open spec fn spec_parse_expr(s: Seq<TokenV>) -> Result<(ExprV, Seq<TokenV>), ParseErrorV> {
    match spec_parse_primary(s) {
        Err(e) => Err(e),
        Ok((left, s1)) => spec_parse_expr_rest(left, s1),
    }
}

/// One statement: a `let` binding or a `return`, each ending in a semicolon.
pub open spec fn spec_parse_stmt(s: Seq<TokenV>) -> Result<(StmtV, Seq<TokenV>), ParseErrorV> {
    match spec_peek(s) {
        TokenV::Let => (match spec_expect_ident(spec_adv(s)) {
            Err(e) => Err(e),
            Ok((name, s1)) => match spec_expect(s1, TokenV::Equal) {
                Err(e) => Err(e),
                Ok(s2) => match spec_parse_expr(s2) {
                    Err(e) => Err(e),
                    Ok((value, s3)) => match spec_expect(s3, TokenV::Semicolon) {
                        Err(e) => Err(e),
                        Ok(s4) => Ok((StmtV::Let { name, value }, s4)),
                    },
                },
            },
        }),
        TokenV::Return => (match spec_parse_expr(spec_adv(s)) {
            Err(e) => Err(e),
            Ok((value, s1)) => match spec_expect(s1, TokenV::Semicolon) {
                Err(e) => Err(e),
                Ok(s2) => Ok((StmtV::Return(value), s2)),
            },
        }),
        other => Err(ParseErrorV::UnexpectedStmt { actual: other }),
    }
}

pub proof fn lemma_parse_expr_rest_len(left: ExprV, s: Seq<TokenV>)
    ensures
        spec_parse_expr_rest(left, s) matches Ok(p) ==> p.1.len() <= s.len(),
    decreases s.len(),
{
    match spec_match_binary_op(s) {
        None => {},
        Some((op, s1)) => match spec_parse_primary(s1) {
            Err(e) => {},
            Ok((right, s2)) => {
                lemma_parse_expr_rest_len(
                    ExprV::Binary { left: Box::new(left), op, right: Box::new(right) },
                    s2,
                );
            },
        },
    }
}

pub proof fn lemma_parse_expr_len(s: Seq<TokenV>)
    ensures
        spec_parse_expr(s) matches Ok(p) ==> p.1.len() < s.len(),
{
    match spec_parse_primary(s) {
        Err(e) => {},
        Ok((left, s1)) => {
            lemma_parse_expr_rest_len(left, s1);
        },
    }
}

pub proof fn lemma_parse_stmt_len(s: Seq<TokenV>)
    ensures
        spec_parse_stmt(s) matches Ok(p) ==> p.1.len() < s.len(),
{
    if spec_peek(s) == TokenV::Let {
        match spec_expect_ident(spec_adv(s)) {
            Err(e) => {},
            Ok((name, s1)) => {
                lemma_parse_expr_len(s1);
                match spec_expect(s1, TokenV::Equal) {
                    Err(e) => {},
                    Ok(s2) => {
                        lemma_parse_expr_len(s2);
                    },
                }
            },
        }
    } else if spec_peek(s) == TokenV::Return {
        lemma_parse_expr_len(spec_adv(s));
    }
}

/// The statements of a function body, up to (not including) the closing
/// brace at the cursor.
pub open spec fn spec_parse_stmts(s: Seq<TokenV>) -> Result<
    (Seq<StmtV>, Seq<TokenV>),
    ParseErrorV,
>
    decreases s.len(),
    via spec_parse_stmts_decreases
{
    if spec_peek(s) == TokenV::RBrace {
        Ok((Seq::empty(), s))
    } else {
        match spec_parse_stmt(s) {
            Err(e) => Err(e),
            Ok((st, s1)) => match spec_parse_stmts(s1) {
                Err(e) => Err(e),
                Ok((sts, s2)) => Ok((seq![st] + sts, s2)),
            },
        }
    }
}

#[via_fn]
proof fn spec_parse_stmts_decreases(s: Seq<TokenV>) {
    lemma_parse_stmt_len(s);
}

pub proof fn lemma_parse_stmts_len(s: Seq<TokenV>)
    ensures
        spec_parse_stmts(s) matches Ok(p) ==> p.1.len() <= s.len(),
    decreases s.len(),
{
    if spec_peek(s) != TokenV::RBrace {
        lemma_parse_stmt_len(s);
        match spec_parse_stmt(s) {
            Err(e) => {},
            Ok((st, s1)) => {
                lemma_parse_stmts_len(s1);
            },
        }
    }
}

/// One function definition: `fn`, name, an empty parameter list, the arrow,
/// a return-type identifier (validated and discarded), and a braced body.
pub open spec fn spec_parse_function(s: Seq<TokenV>) -> Result<
    (FunctionV, Seq<TokenV>),
    ParseErrorV,
> {
    match spec_expect(s, TokenV::Fn) {
        Err(e) => Err(e),
        Ok(s1) => match spec_expect_ident(s1) {
            Err(e) => Err(e),
            Ok((name, s2)) => match spec_expect(s2, TokenV::LParen) {
                Err(e) => Err(e),
                Ok(s3) => match spec_expect(s3, TokenV::RParen) {
                    Err(e) => Err(e),
                    Ok(s4) => match spec_expect(s4, TokenV::Arrow) {
                        Err(e) => Err(e),
                        Ok(s5) => match spec_expect_ident(s5) {
                            Err(e) => Err(e),
                            Ok((ret_ty, s6)) => match spec_expect(s6, TokenV::LBrace) {
                                Err(e) => Err(e),
                                Ok(s7) => match spec_parse_stmts(s7) {
                                    Err(e) => Err(e),
                                    Ok((body, s8)) => match spec_expect(s8, TokenV::RBrace) {
                                        Err(e) => Err(e),
                                        Ok(s9) => Ok((FunctionV { name, body }, s9)),
                                    },
                                },
                            },
                        },
                    },
                },
            },
        },
    }
}

pub proof fn lemma_parse_function_len(s: Seq<TokenV>)
    ensures
        spec_parse_function(s) matches Ok(p) ==> p.1.len() < s.len(),
{
    match spec_expect(s, TokenV::Fn) {
        Err(e) => {},
        Ok(s1) => match spec_expect_ident(s1) {
            Err(e) => {},
            Ok((name, s2)) => match spec_expect(s2, TokenV::LParen) {
                Err(e) => {},
                Ok(s3) => match spec_expect(s3, TokenV::RParen) {
                    Err(e) => {},
                    Ok(s4) => match spec_expect(s4, TokenV::Arrow) {
                        Err(e) => {},
                        Ok(s5) => match spec_expect_ident(s5) {
                            Err(e) => {},
                            Ok((ret_ty, s6)) => match spec_expect(s6, TokenV::LBrace) {
                                Err(e) => {},
                                Ok(s7) => {
                                    lemma_parse_stmts_len(s7);
                                },
                            },
                        },
                    },
                },
            },
        },
    }
}

/// A whole program: function definitions until the cursor is at the
/// end-of-input sentinel.
pub open spec fn spec_parse_program(s: Seq<TokenV>) -> Result<Seq<FunctionV>, ParseErrorV>
    decreases s.len(),
    via spec_parse_program_decreases
{
    if spec_peek(s) == TokenV::Eof {
        Ok(Seq::empty())
    } else {
        match spec_parse_function(s) {
            Err(e) => Err(e),
            Ok((f, s1)) => match spec_parse_program(s1) {
                Err(e) => Err(e),
                Ok(fs) => Ok(seq![f] + fs),
            },
        }
    }
}

#[via_fn]
proof fn spec_parse_program_decreases(s: Seq<TokenV>) {
    lemma_parse_function_len(s);
}

/// The parser: a cursor over an already-materialized token sequence,
/// consuming it with one token of lookahead and no backtracking.
pub struct Parser {
    tokens: Vec<Token>,
    pos: usize,
}

impl Parser {
    /// The cursor lies within the buffered sequence.
    pub closed spec fn wf(self) -> bool {
        self.pos <= self.tokens.len()
    }

    /// The token views not yet consumed.
    pub closed spec fn rem(self) -> Seq<TokenV> {
        tokens_view(self.tokens@).skip(self.pos as int)
    }

    /// Wraps a fully materialized token sequence with the cursor at its
    /// first token.
    pub fn new(tokens: Vec<Token>) -> (p: Parser)
        ensures
            p.wf(),
            p.rem() == tokens_view(tokens@),
    {
        let p = Parser { tokens, pos: 0 };
        proof {
            assert(p.rem() =~= tokens_view(p.tokens@));
        }
        p
    }

    /// The token at the cursor, without consuming it; the sentinel once the
    /// cursor is past the end.
    fn peek(&self) -> (t: Token)
        requires
            self.wf(),
        ensures
            t@ == spec_peek(self.rem()),
    {
        if self.pos < self.tokens.len() {
            proof {
                assert(self.rem()[0] == self.tokens@[self.pos as int]@);
            }
            self.tokens[self.pos].dup()
        } else {
            Token::Eof
        }
    }

    /// The token at the cursor, consuming it; reads of the sentinel once the
    /// cursor is past the end move it no further.
    fn advance(&mut self) -> (t: Token)
        requires
            old(self).wf(),
        ensures
            final(self).wf(),
            t@ == spec_peek(old(self).rem()),
            final(self).rem() == spec_adv(old(self).rem()),
    {
        let t = self.peek();
        if self.pos < self.tokens.len() {
            proof {
                assert(tokens_view(self.tokens@).skip(self.pos as int).skip(1) =~= tokens_view(
                    self.tokens@,
                ).skip(self.pos as int + 1));
            }
            self.pos = self.pos + 1;
        }
        t
    }

    /// Consumes one token and requires structural equality with `expected`.
    fn expect(&mut self, expected: Token) -> (r: Result<(), ParseError>)
        requires
            old(self).wf(),
        ensures
            final(self).wf(),
            (match r {
                Ok(_) => spec_expect(old(self).rem(), expected@) == Ok::<Seq<TokenV>, ParseErrorV>(
                    final(self).rem(),
                ),
                Err(e) => spec_expect(old(self).rem(), expected@) == Err::<
                    Seq<TokenV>,
                    ParseErrorV,
                >(e@),
            }),
    {
        let t = self.advance();
        if t == expected {
            Ok(())
        } else {
            Err(ParseError::Expected { expected, actual: t })
        }
    }

    /// Consumes one token and requires it to carry an identifier, returning
    /// the carried name.
    fn expect_ident(&mut self) -> (r: Result<String, ParseError>)
        requires
            old(self).wf(),
        ensures
            final(self).wf(),
            (match r {
                Ok(name) => spec_expect_ident(old(self).rem()) == Ok::<
                    (Seq<char>, Seq<TokenV>),
                    ParseErrorV,
                >((name@, final(self).rem())),
                Err(e) => spec_expect_ident(old(self).rem()) == Err::<
                    (Seq<char>, Seq<TokenV>),
                    ParseErrorV,
                >(e@),
            }),
    {
        match self.advance() {
            Token::Ident(name) => Ok(name),
            other => Err(ParseError::ExpectedIdent { actual: other }),
        }
    }

    /// Consumes a binary-operator token if one is at the cursor.
    fn match_binary_op(&mut self) -> (r: Option<BinaryOp>)
        requires
            old(self).wf(),
        ensures
            final(self).wf(),
            (match r {
                Some(op) => spec_match_binary_op(old(self).rem()) == Some::<
                    (BinaryOp, Seq<TokenV>),
                >((op, final(self).rem())),
                None => spec_match_binary_op(old(self).rem()) is None && *final(self) == *old(
                    self,
                ),
            }),
    {
        let t = self.peek();
        match t {
            Token::Plus => {
                let _ = self.advance();
                Some(BinaryOp::Add)
            },
            Token::Minus => {
                let _ = self.advance();
                Some(BinaryOp::Sub)
            },
            Token::Star => {
                let _ = self.advance();
                Some(BinaryOp::Mul)
            },
            Token::Slash => {
                let _ = self.advance();
                Some(BinaryOp::Div)
            },
            _ => None,
        }
    }

    /// Parses a primary expression: an integer literal or a variable.
    fn parse_primary(&mut self) -> (r: Result<Expr, ParseError>)
        requires
            old(self).wf(),
        ensures
            final(self).wf(),
            (match r {
                Ok(e) => spec_parse_primary(old(self).rem()) == Ok::<
                    (ExprV, Seq<TokenV>),
                    ParseErrorV,
                >((e@, final(self).rem())),
                Err(er) => spec_parse_primary(old(self).rem()) == Err::<
                    (ExprV, Seq<TokenV>),
                    ParseErrorV,
                >(er@),
            }),
    {
        match self.advance() {
            Token::Int(n) => Ok(Expr::Int(n)),
            Token::Ident(name) => Ok(Expr::Var(name)),
            other => Err(ParseError::UnexpectedPrimary { actual: other }),
        }
    }

    /// Parses an expression: a primary and then, operator by operator, its
    /// flat left-associative tail.
    #[verifier::loop_isolation(false)]
    fn parse_expr(&mut self) -> (r: Result<Expr, ParseError>)
        requires
            old(self).wf(),
        ensures
            final(self).wf(),
            (match r {
                Ok(e) => spec_parse_expr(old(self).rem()) == Ok::<
                    (ExprV, Seq<TokenV>),
                    ParseErrorV,
                >((e@, final(self).rem())),
                Err(er) => spec_parse_expr(old(self).rem()) == Err::<
                    (ExprV, Seq<TokenV>),
                    ParseErrorV,
                >(er@),
            }),
    {
        let mut left = match self.parse_primary() {
            Ok(e) => e,
            Err(e) => {
                return Err(e);
            },
        };
        loop
            invariant
                self.wf(),
                spec_parse_expr(old(self).rem()) == spec_parse_expr_rest(left@, self.rem()),
            decreases self.rem().len(),
        {
            match self.match_binary_op() {
                None => {
                    return Ok(left);
                },
                Some(op) => {
                    let right = match self.parse_primary() {
                        Ok(e) => e,
                        Err(e) => {
                            return Err(e);
                        },
                    };
                    left = Expr::Binary { left: Box::new(left), op, right: Box::new(right) };
                },
            }
        }
    }

    /// Parses one statement.
    fn parse_stmt(&mut self) -> (r: Result<Stmt, ParseError>)
        requires
            old(self).wf(),
        ensures
            final(self).wf(),
            (match r {
                Ok(st) => spec_parse_stmt(old(self).rem()) == Ok::<
                    (StmtV, Seq<TokenV>),
                    ParseErrorV,
                >((st@, final(self).rem())),
                Err(er) => spec_parse_stmt(old(self).rem()) == Err::<
                    (StmtV, Seq<TokenV>),
                    ParseErrorV,
                >(er@),
            }),
    {
        let t = self.peek();
        match t {
            Token::Let => {
                let _ = self.advance();
                let name = match self.expect_ident() {
                    Ok(n) => n,
                    Err(e) => {
                        return Err(e);
                    },
                };
                match self.expect(Token::Equal) {
                    Ok(_) => {},
                    Err(e) => {
                        return Err(e);
                    },
                };
                let value = match self.parse_expr() {
                    Ok(v) => v,
                    Err(e) => {
                        return Err(e);
                    },
                };
                match self.expect(Token::Semicolon) {
                    Ok(_) => {},
                    Err(e) => {
                        return Err(e);
                    },
                };
                Ok(Stmt::Let { name, value })
            },
            Token::Return => {
                let _ = self.advance();
                let value = match self.parse_expr() {
                    Ok(v) => v,
                    Err(e) => {
                        return Err(e);
                    },
                };
                match self.expect(Token::Semicolon) {
                    Ok(_) => {},
                    Err(e) => {
                        return Err(e);
                    },
                };
                Ok(Stmt::Return(value))
            },
            other => Err(ParseError::UnexpectedStmt { actual: other }),
        }
    }

    /// Whether the cursor is at the closing brace of a function body.
    fn at_rbrace(&self) -> (b: bool)
        requires
            self.wf(),
        ensures
            b == (spec_peek(self.rem()) == TokenV::RBrace),
    {
        let t = self.peek();
        match t {
            Token::RBrace => true,
            _ => false,
        }
    }

    /// Whether the cursor is at the end-of-input sentinel.
    fn at_eof(&self) -> (b: bool)
        requires
            self.wf(),
        ensures
            b == (spec_peek(self.rem()) == TokenV::Eof),
    {
        let t = self.peek();
        match t {
            Token::Eof => true,
            _ => false,
        }
    }

    /// Parses one function definition: signature, then statements until the
    /// closing brace.
    #[verifier::loop_isolation(false)]
    fn parse_function(&mut self) -> (r: Result<Function, ParseError>)
        requires
            old(self).wf(),
        ensures
            final(self).wf(),
            (match r {
                Ok(f) => spec_parse_function(old(self).rem()) == Ok::<
                    (FunctionV, Seq<TokenV>),
                    ParseErrorV,
                >((f@, final(self).rem())),
                Err(er) => spec_parse_function(old(self).rem()) == Err::<
                    (FunctionV, Seq<TokenV>),
                    ParseErrorV,
                >(er@),
            }),
    {
        match self.expect(Token::Fn) {
            Ok(_) => {},
            Err(e) => {
                return Err(e);
            },
        };
        let name = match self.expect_ident() {
            Ok(n) => n,
            Err(e) => {
                return Err(e);
            },
        };
        match self.expect(Token::LParen) {
            Ok(_) => {},
            Err(e) => {
                return Err(e);
            },
        };
        match self.expect(Token::RParen) {
            Ok(_) => {},
            Err(e) => {
                return Err(e);
            },
        };
        match self.expect(Token::Arrow) {
            Ok(_) => {},
            Err(e) => {
                return Err(e);
            },
        };
        // The return-type annotation: an identifier is required but not kept.
        match self.expect_ident() {
            Ok(_) => {},
            Err(e) => {
                return Err(e);
            },
        };
        match self.expect(Token::LBrace) {
            Ok(_) => {},
            Err(e) => {
                return Err(e);
            },
        };
        let ghost s_body = self.rem();
        let mut body: Vec<Stmt> = Vec::new();
        proof {
            assert(stmts_view(body@) =~= Seq::<StmtV>::empty());
            if spec_parse_stmts(s_body) is Ok {
                assert(stmts_view(body@) + spec_parse_stmts(s_body)->Ok_0.0 =~= spec_parse_stmts(
                    s_body,
                )->Ok_0.0);
            }
        }
        while !self.at_rbrace()
            invariant
                self.wf(),
                (match spec_parse_stmts(self.rem()) {
                    Ok(p) => spec_parse_stmts(s_body) matches Ok(q) && q.0 == stmts_view(body@)
                        + p.0 && q.1 == p.1,
                    Err(e) => spec_parse_stmts(s_body) == Err::<
                        (Seq<StmtV>, Seq<TokenV>),
                        ParseErrorV,
                    >(e),
                }),
            decreases self.rem().len(),
        {
            let ghost pre = self.rem();
            let ghost pre_body = body@;
            let st = match self.parse_stmt() {
                Ok(st) => st,
                Err(e) => {
                    return Err(e);
                },
            };
            proof {
                lemma_parse_stmt_len(pre);
            }
            let ghost stv = st@;
            body.push(st);
            proof {
                assert(stmts_view(body@) =~= stmts_view(pre_body) + seq![stv]);
                if spec_parse_stmts(self.rem()) is Ok {
                    let tail = spec_parse_stmts(self.rem())->Ok_0.0;
                    assert(stmts_view(pre_body) + (seq![stv] + tail) =~= stmts_view(body@) + tail);
                }
            }
        }
        proof {
            assert(spec_parse_stmts(self.rem()) == Ok::<(Seq<StmtV>, Seq<TokenV>), ParseErrorV>((
                Seq::<StmtV>::empty(),
                self.rem(),
            )));
            assert(stmts_view(body@) + Seq::<StmtV>::empty() =~= stmts_view(body@));
        }
        match self.expect(Token::RBrace) {
            Ok(_) => {},
            Err(e) => {
                return Err(e);
            },
        };
        Ok(Function { name, body })
    }

    /// Parses the whole program: functions until the end-of-input sentinel
    /// is at the cursor, or the first grammatical mismatch.
    #[verifier::loop_isolation(false)]
    pub fn parse(&mut self) -> (r: Result<Vec<Function>, ParseError>)
        requires
            old(self).wf(),
        ensures
            final(self).wf(),
            (match r {
                Ok(fns) => spec_parse_program(old(self).rem()) == Ok::<
                    Seq<FunctionV>,
                    ParseErrorV,
                >(fns_view(fns@)),
                Err(er) => spec_parse_program(old(self).rem()) == Err::<
                    Seq<FunctionV>,
                    ParseErrorV,
                >(er@),
            }),
    {
        let mut functions: Vec<Function> = Vec::new();
        proof {
            assert(fns_view(functions@) =~= Seq::<FunctionV>::empty());
            if spec_parse_program(old(self).rem()) is Ok {
                assert(fns_view(functions@) + spec_parse_program(old(self).rem())->Ok_0
                    =~= spec_parse_program(old(self).rem())->Ok_0);
            }
        }
        while !self.at_eof()
            invariant
                self.wf(),
                (match spec_parse_program(self.rem()) {
                    Ok(fs) => spec_parse_program(old(self).rem()) == Ok::<
                        Seq<FunctionV>,
                        ParseErrorV,
                    >(fns_view(functions@) + fs),
                    Err(e) => spec_parse_program(old(self).rem()) == Err::<
                        Seq<FunctionV>,
                        ParseErrorV,
                    >(e),
                }),
            decreases self.rem().len(),
        {
            let ghost pre = self.rem();
            let ghost pre_fns = functions@;
            let f = match self.parse_function() {
                Ok(f) => f,
                Err(e) => {
                    return Err(e);
                },
            };
            proof {
                lemma_parse_function_len(pre);
            }
            let ghost fv = f@;
            functions.push(f);
            proof {
                assert(fns_view(functions@) =~= fns_view(pre_fns) + seq![fv]);
                if spec_parse_program(self.rem()) is Ok {
                    let tail = spec_parse_program(self.rem())->Ok_0;
                    assert(fns_view(pre_fns) + (seq![fv] + tail) =~= fns_view(functions@) + tail);
                }
            }
        }
        proof {
            assert(fns_view(functions@) + Seq::<FunctionV>::empty() =~= fns_view(functions@));
        }
        Ok(functions)
    }
}

} // verus!
