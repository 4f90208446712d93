use vstd::prelude::*;

use crate::ast::{BinaryOp, ExprV, FunctionV, StmtV};
use crate::lexer::{
    digits_val, is_digit, is_ident_char, is_ident_start, keyword_or_ident,
    lemma_digit_run_len_exact, lemma_ident_run_len_exact, spec_next_token, spec_tokenize, LexError,
};
use crate::parser::{
    spec_adv, spec_match_binary_op, spec_parse_expr, spec_parse_expr_rest, spec_parse_function,
    spec_parse_primary, spec_parse_program, spec_parse_stmt, spec_parse_stmts, spec_peek,
    ParseErrorV,
};
use crate::token::TokenV;

verus! {

/// The token spelling of a binary operator.
pub open spec fn op_token(op: BinaryOp) -> TokenV {
    match op {
        BinaryOp::Add => TokenV::Plus,
        BinaryOp::Sub => TokenV::Minus,
        BinaryOp::Mul => TokenV::Star,
        BinaryOp::Div => TokenV::Slash,
    }
}

/// An expression that is an integer literal or a variable reference.
pub open spec fn is_primary(e: ExprV) -> bool {
    e matches ExprV::Int(_) || e matches ExprV::Var(_)
}

/// An expression shaped as the grammar produces them: binaries grow only
/// down the left spine, every right operand is a primary.
pub open spec fn expr_left_linear(e: ExprV) -> bool
    decreases e,
{
    match e {
        ExprV::Binary { left, op, right } => expr_left_linear(*left) && is_primary(*right),
        _ => true,
    }
}

/// A statement whose expression is grammar-shaped.
pub open spec fn stmt_left_linear(st: StmtV) -> bool {
    match st {
        StmtV::Let { name, value } => expr_left_linear(value),
        StmtV::Return(value) => expr_left_linear(value),
    }
}

/// A function whose statements are all grammar-shaped.
pub open spec fn fn_left_linear(f: FunctionV) -> bool {
    forall|i: int| 0 <= i < f.body.len() ==> stmt_left_linear(#[trigger] f.body[i])
}

/// A program whose functions are all grammar-shaped.
pub open spec fn program_left_linear(fs: Seq<FunctionV>) -> bool {
    forall|i: int| 0 <= i < fs.len() ==> fn_left_linear(#[trigger] fs[i])
}

/// The token rendering of an expression.
pub open spec fn render_expr(e: ExprV) -> Seq<TokenV>
    decreases e,
{
    match e {
        ExprV::Int(n) => seq![TokenV::Int(n)],
        ExprV::Var(name) => seq![TokenV::Ident(name)],
        ExprV::Binary { left, op, right } => render_expr(*left) + seq![op_token(op)]
            + render_expr(*right),
    }
}

/// The token rendering of a statement.
pub open spec fn render_stmt(st: StmtV) -> Seq<TokenV> {
    match st {
        StmtV::Let { name, value } => seq![TokenV::Let, TokenV::Ident(name), TokenV::Equal]
            + render_expr(value) + seq![TokenV::Semicolon],
        StmtV::Return(value) => seq![TokenV::Return] + render_expr(value) + seq![
            TokenV::Semicolon,
        ],
    }
}

/// The token rendering of a statement sequence.
pub open spec fn render_stmts(sts: Seq<StmtV>) -> Seq<TokenV>
    decreases sts.len(),
{
    if sts.len() == 0 {
        Seq::empty()
    } else {
        render_stmt(sts[0]) + render_stmts(sts.skip(1))
    }
}

/// The token rendering of a function definition, annotated with the
/// return-type identifier `ret_ty`, which the parser validates and discards.
pub open spec fn render_function_with(f: FunctionV, ret_ty: Seq<char>) -> Seq<TokenV> {
    seq![
        TokenV::Fn,
        TokenV::Ident(f.name),
        TokenV::LParen,
        TokenV::RParen,
        TokenV::Arrow,
        TokenV::Ident(ret_ty),
        TokenV::LBrace,
    ] + render_stmts(f.body) + seq![TokenV::RBrace]
}

/// The canonical token rendering of a function definition: the function's own
/// name stands in for the discarded return-type annotation.
pub open spec fn render_function(f: FunctionV) -> Seq<TokenV> {
    render_function_with(f, f.name)
}

/// The token rendering of a whole program, without the trailing sentinel,
/// with one return-type identifier per function.
pub open spec fn render_program_with(fs: Seq<FunctionV>, tys: Seq<Seq<char>>) -> Seq<TokenV>
    decreases fs.len(),
{
    if fs.len() == 0 {
        Seq::empty()
    } else {
        render_function_with(fs[0], tys[0]) + render_program_with(fs.skip(1), tys.skip(1))
    }
}

/// The canonical token rendering of a whole program, without the trailing
/// sentinel.
pub open spec fn render_program(fs: Seq<FunctionV>) -> Seq<TokenV>
    decreases fs.len(),
{
    if fs.len() == 0 {
        Seq::empty()
    } else {
        render_function(fs[0]) + render_program(fs.skip(1))
    }
}

/// The leftmost leaf of an expression's left spine.
pub open spec fn leftmost(e: ExprV) -> ExprV
    decreases e,
{
    match e {
        ExprV::Binary { left, op, right } => leftmost(*left),
        _ => e,
    }
}

/// The tokens of an expression after its leftmost leaf.
pub open spec fn render_tail(e: ExprV) -> Seq<TokenV>
    decreases e,
{
    match e {
        ExprV::Binary { left, op, right } => render_tail(*left) + seq![op_token(op)]
            + render_expr(*right),
        _ => Seq::empty(),
    }
}

/// The expression with its leftmost leaf replaced by `acc`.
pub open spec fn subst_leftmost(e: ExprV, acc: ExprV) -> ExprV
    decreases e,
{
    match e {
        ExprV::Binary { left, op, right } => ExprV::Binary {
            left: Box::new(subst_leftmost(*left, acc)),
            op,
            right,
        },
        _ => acc,
    }
}

proof fn lemma_cons_step(t: TokenV, tail: Seq<TokenV>)
    ensures
        spec_peek(seq![t] + tail) == t,
        spec_adv(seq![t] + tail) == tail,
{
    assert((seq![t] + tail).skip(1) =~= tail);
}

proof fn lemma_leftmost_primary(e: ExprV)
    ensures
        is_primary(leftmost(e)),
        render_expr(e) == render_expr(leftmost(e)) + render_tail(e),
        subst_leftmost(e, leftmost(e)) == e,
    decreases e,
{
    match e {
        ExprV::Binary { left, op, right } => {
            lemma_leftmost_primary(*left);
            assert(render_expr(e) =~= (render_expr(leftmost(e)) + render_tail(*left)) + seq![
                op_token(op),
            ] + render_expr(*right));
            assert(render_expr(leftmost(e)) + render_tail(e) =~= (render_expr(leftmost(e))
                + render_tail(*left)) + seq![op_token(op)] + render_expr(*right));
        },
        _ => {
            assert(render_expr(e) =~= render_expr(leftmost(e)) + render_tail(e));
        },
    }
}

proof fn lemma_parse_primary_render(p: ExprV, rest: Seq<TokenV>)
    requires
        is_primary(p),
    ensures
        spec_parse_primary(render_expr(p) + rest) == Ok::<(ExprV, Seq<TokenV>), ParseErrorV>(
            (p, rest),
        ),
{
    match p {
        ExprV::Int(n) => {
            lemma_cons_step(TokenV::Int(n), rest);
        },
        ExprV::Var(name) => {
            lemma_cons_step(TokenV::Ident(name), rest);
        },
        _ => {},
    }
}

proof fn lemma_parse_tail(e: ExprV, acc: ExprV, rest: Seq<TokenV>)
    requires
        expr_left_linear(e),
    ensures
        spec_parse_expr_rest(acc, render_tail(e) + rest) == spec_parse_expr_rest(
            subst_leftmost(e, acc),
            rest,
        ),
    decreases e,
{
    match e {
        ExprV::Binary { left, op, right } => {
            let rest1 = seq![op_token(op)] + (render_expr(*right) + rest);
            assert(render_tail(e) + rest =~= render_tail(*left) + rest1);
            lemma_parse_tail(*left, acc, rest1);
            let mid = subst_leftmost(*left, acc);
            lemma_cons_step(op_token(op), render_expr(*right) + rest);
            assert(spec_match_binary_op(rest1) == Some((op, render_expr(*right) + rest)));
            lemma_parse_primary_render(*right, rest);
            assert(spec_parse_expr_rest(mid, rest1) == spec_parse_expr_rest(
                ExprV::Binary { left: Box::new(mid), op, right: Box::new(*right) },
                rest,
            ));
            assert(subst_leftmost(e, acc) == ExprV::Binary { left: Box::new(mid), op, right });
        },
        _ => {
            assert(render_tail(e) + rest =~= rest);
        },
    }
}

/// Parsing the rendering of a grammar-shaped expression, followed by tokens
/// that start with no operator, yields exactly that expression.
pub proof fn lemma_parse_expr_render(e: ExprV, rest: Seq<TokenV>)
    requires
        expr_left_linear(e),
        spec_match_binary_op(rest) is None,
    ensures
        spec_parse_expr(render_expr(e) + rest) == Ok::<(ExprV, Seq<TokenV>), ParseErrorV>(
            (e, rest),
        ),
{
    lemma_leftmost_primary(e);
    assert(render_expr(e) + rest =~= render_expr(leftmost(e)) + (render_tail(e) + rest));
    lemma_parse_primary_render(leftmost(e), render_tail(e) + rest);
    lemma_parse_tail(e, leftmost(e), rest);
}

/// Parsing the rendering of a grammar-shaped statement yields exactly that
/// statement.
pub proof fn lemma_parse_stmt_render(st: StmtV, rest: Seq<TokenV>)
    requires
        stmt_left_linear(st),
    ensures
        spec_parse_stmt(render_stmt(st) + rest) == Ok::<(StmtV, Seq<TokenV>), ParseErrorV>(
            (st, rest),
        ),
{
    match st {
        StmtV::Let { name, value } => {
            let s4 = seq![TokenV::Semicolon] + rest;
            let s3 = render_expr(value) + s4;
            let s2 = seq![TokenV::Equal] + s3;
            let s1 = seq![TokenV::Ident(name)] + s2;
            let s0 = seq![TokenV::Let] + s1;
            assert(render_stmt(st) + rest =~= s0);
            lemma_cons_step(TokenV::Let, s1);
            lemma_cons_step(TokenV::Ident(name), s2);
            lemma_cons_step(TokenV::Equal, s3);
            lemma_cons_step(TokenV::Semicolon, rest);
            lemma_parse_expr_render(value, s4);
        },
        StmtV::Return(value) => {
            let s2 = seq![TokenV::Semicolon] + rest;
            let s1 = render_expr(value) + s2;
            let s0 = seq![TokenV::Return] + s1;
            assert(render_stmt(st) + rest =~= s0);
            lemma_cons_step(TokenV::Return, s1);
            lemma_cons_step(TokenV::Semicolon, rest);
            lemma_parse_expr_render(value, s2);
        },
    }
}

/// Parsing the rendering of grammar-shaped statements, up to a closing
/// brace, yields exactly those statements.
pub proof fn lemma_parse_stmts_render(sts: Seq<StmtV>, rest: Seq<TokenV>)
    requires
        forall|i: int| 0 <= i < sts.len() ==> stmt_left_linear(#[trigger] sts[i]),
        spec_peek(rest) == TokenV::RBrace,
    ensures
        spec_parse_stmts(render_stmts(sts) + rest) == Ok::<(Seq<StmtV>, Seq<TokenV>), ParseErrorV>(
            (sts, rest),
        ),
    decreases sts.len(),
{
    if sts.len() == 0 {
        assert(render_stmts(sts) + rest =~= rest);
        assert(sts =~= Seq::<StmtV>::empty());
    } else {
        let tail = render_stmts(sts.skip(1)) + rest;
        assert(render_stmts(sts) + rest =~= render_stmt(sts[0]) + tail);
        lemma_parse_stmt_render(sts[0], tail);
        lemma_parse_stmts_render(sts.skip(1), rest);
        assert(seq![sts[0]] + sts.skip(1) =~= sts);
    }
}

/// Parsing the rendering of a grammar-shaped function, under any return-type
/// identifier, yields exactly that function.
pub proof fn lemma_parse_function_render_with(f: FunctionV, ret_ty: Seq<char>, rest: Seq<TokenV>)
    requires
        fn_left_linear(f),
    ensures
        spec_parse_function(render_function_with(f, ret_ty) + rest) == Ok::<
            (FunctionV, Seq<TokenV>),
            ParseErrorV,
        >((f, rest)),
{
    let s8 = seq![TokenV::RBrace] + rest;
    let s7 = render_stmts(f.body) + s8;
    let s6 = seq![TokenV::LBrace] + s7;
    let s5 = seq![TokenV::Ident(ret_ty)] + s6;
    let s4 = seq![TokenV::Arrow] + s5;
    let s3 = seq![TokenV::RParen] + s4;
    let s2 = seq![TokenV::LParen] + s3;
    let s1 = seq![TokenV::Ident(f.name)] + s2;
    let s0 = seq![TokenV::Fn] + s1;
    assert(render_function_with(f, ret_ty) + rest =~= s0);
    lemma_cons_step(TokenV::Fn, s1);
    lemma_cons_step(TokenV::Ident(f.name), s2);
    lemma_cons_step(TokenV::LParen, s3);
    lemma_cons_step(TokenV::RParen, s4);
    lemma_cons_step(TokenV::Arrow, s5);
    lemma_cons_step(TokenV::Ident(ret_ty), s6);
    lemma_cons_step(TokenV::LBrace, s7);
    lemma_cons_step(TokenV::RBrace, rest);
    lemma_parse_stmts_render(f.body, s8);
    assert(FunctionV { name: f.name, body: f.body } == f);
}

/// Parsing the canonical rendering of a grammar-shaped function yields
/// exactly that function.
pub proof fn lemma_parse_function_render(f: FunctionV, rest: Seq<TokenV>)
    requires
        fn_left_linear(f),
    ensures
        spec_parse_function(render_function(f) + rest) == Ok::<
            (FunctionV, Seq<TokenV>),
            ParseErrorV,
        >((f, rest)),
{
    lemma_parse_function_render_with(f, f.name, rest);
}

/// Law: round trip at the token level, under arbitrary return-type
/// annotations. A token sequence shaped by the grammar — one identifier of
/// `tys` annotating each function, every expression grown down the left spine
/// as flat parsing builds them — parses back, past every function, to exactly
/// the rendered program.
pub proof fn lemma_program_round_trip_with(fs: Seq<FunctionV>, tys: Seq<Seq<char>>)
    requires
        program_left_linear(fs),
        tys.len() == fs.len(),
    ensures
        spec_parse_program(render_program_with(fs, tys) + seq![TokenV::Eof]) == Ok::<
            Seq<FunctionV>,
            ParseErrorV,
        >(fs),
    decreases fs.len(),
{
    let eof = seq![TokenV::Eof];
    if fs.len() == 0 {
        assert(render_program_with(fs, tys) + eof =~= eof);
        assert(fs =~= Seq::<FunctionV>::empty());
    } else {
        let tail = render_program_with(fs.skip(1), tys.skip(1)) + eof;
        assert(render_program_with(fs, tys) + eof =~= render_function_with(fs[0], tys[0]) + tail);
        lemma_parse_function_render_with(fs[0], tys[0], tail);
        lemma_program_round_trip_with(fs.skip(1), tys.skip(1));
        assert(seq![fs[0]] + fs.skip(1) =~= fs);
    }
}

/// The character of one decimal digit value.
pub open spec fn digit_char(d: int) -> char {
    if d == 0 {
        '0'
    } else if d == 1 {
        '1'
    } else if d == 2 {
        '2'
    } else if d == 3 {
        '3'
    } else if d == 4 {
        '4'
    } else if d == 5 {
        '5'
    } else if d == 6 {
        '6'
    } else if d == 7 {
        '7'
    } else if d == 8 {
        '8'
    } else {
        '9'
    }
}

/// The decimal digits of a positive value, most significant first.
pub open spec fn digits_of(n: int) -> Seq<char>
    decreases n,
    via digits_of_decreases
{
    if n <= 0 {
        Seq::empty()
    } else if n < 10 {
        seq![digit_char(n)]
    } else {
        digits_of(n / 10).push(digit_char(n % 10))
    }
}

#[via_fn]
proof fn digits_of_decreases(n: int) {
    if n >= 10 {
        assert(0 <= n / 10 < n) by (nonlinear_arith)
            requires
                n >= 10,
        ;
    }
}

/// The source spelling of an integer literal value.
pub open spec fn int_text(n: int) -> Seq<char> {
    if n == 0 {
        seq!['0']
    } else {
        digits_of(n)
    }
}

proof fn lemma_digits_of(n: int)
    requires
        n >= 1,
    ensures
        digits_of(n).len() >= 1,
        forall|i: int| 0 <= i < digits_of(n).len() ==> is_digit(#[trigger] digits_of(n)[i]),
        digits_val(digits_of(n)) == n,
    decreases n,
{
    assert(digits_val(Seq::<char>::empty()) == 0);
    if n < 10 {
        assert(digits_of(n).drop_last() =~= Seq::<char>::empty());
        assert(digits_of(n).last() == digit_char(n));
        assert(digit_char(n) as u32 - 0x30 == n);
    } else {
        assert(0 <= n % 10 < 10 && n / 10 >= 1 && n == (n / 10) * 10 + n % 10) by (nonlinear_arith)
            requires
                n >= 10,
        ;
        lemma_digits_of(n / 10);
        let w = digits_of(n);
        assert(w.drop_last() =~= digits_of(n / 10));
        assert(w.last() == digit_char(n % 10));
        assert(digit_char(n % 10) as u32 - 0x30 == n % 10);
        assert(digits_val(w) == digits_val(w.drop_last()) * 10 + (w.last() as u32 - 0x30));
        assert forall|i: int| 0 <= i < w.len() implies is_digit(w[i]) by {
            if i < w.len() - 1 {
                assert(w[i] == digits_of(n / 10)[i]);
            }
        }
    }
}

proof fn lemma_int_text(n: int)
    requires
        0 <= n,
    ensures
        int_text(n).len() >= 1,
        forall|i: int| 0 <= i < int_text(n).len() ==> is_digit(#[trigger] int_text(n)[i]),
        digits_val(int_text(n)) == n,
{
    if n == 0 {
        assert(digits_val(Seq::<char>::empty()) == 0);
        assert(int_text(0).drop_last() =~= Seq::<char>::empty());
        assert(int_text(0).last() == '0');
    } else {
        lemma_digits_of(n);
    }
}

/// An identifier the scanner would read back as this identifier: a nonempty
/// identifier run, starting with a letter or underscore, that is none of the
/// keyword spellings.
pub open spec fn ident_spellable(name: Seq<char>) -> bool {
    &&& name.len() > 0
    &&& forall|i: int| 0 <= i < name.len() ==> is_ident_char(#[trigger] name[i])
    &&& is_ident_start(name[0])
    &&& keyword_or_ident(name) == TokenV::Ident(name)
}

/// A token the text renderer can spell: identifiers must be readable back,
/// integer literals carry no sign, and the sentinel has no spelling.
pub open spec fn spellable(t: TokenV) -> bool {
    match t {
        TokenV::Ident(name) => ident_spellable(name),
        TokenV::Int(n) => n >= 0,
        TokenV::Eof => false,
        _ => true,
    }
}

/// The source spelling of a token.
pub open spec fn token_text(t: TokenV) -> Seq<char> {
    match t {
        TokenV::Fn => seq!['f', 'n'],
        TokenV::Let => seq!['l', 'e', 't'],
        TokenV::Return => seq!['r', 'e', 't', 'u', 'r', 'n'],
        TokenV::Mut => seq!['m', 'u', 't'],
        TokenV::Ident(name) => name,
        TokenV::Int(n) => int_text(n as int),
        TokenV::Plus => seq!['+'],
        TokenV::Minus => seq!['-'],
        TokenV::Star => seq!['*'],
        TokenV::Slash => seq!['/'],
        TokenV::Equal => seq!['='],
        TokenV::Colon => seq![':'],
        TokenV::Arrow => seq!['-', '>'],
        TokenV::Semicolon => seq![';'],
        TokenV::LParen => seq!['('],
        TokenV::RParen => seq![')'],
        TokenV::LBrace => seq!['{'],
        TokenV::RBrace => seq!['}'],
        TokenV::Eof => Seq::empty(),
    }
}

/// The source text of a token sequence: each spelling followed by one blank.
pub open spec fn render_text(ts: Seq<TokenV>) -> Seq<char>
    decreases ts.len(),
{
    if ts.len() == 0 {
        Seq::empty()
    } else {
        token_text(ts[0]) + seq![' '] + render_text(ts.skip(1))
    }
}

proof fn lemma_scan_ident_run(w: Seq<char>, rest: Seq<char>)
    requires
        w.len() > 0,
        forall|i: int| 0 <= i < w.len() ==> is_ident_char(#[trigger] w[i]),
        is_ident_start(w[0]),
    ensures
        spec_next_token(w + seq![' '] + rest) == (
            Ok::<TokenV, LexError>(keyword_or_ident(w)),
            seq![' '] + rest,
        ),
{
    let s = w + seq![' '] + rest;
    let k = w.len() as int;
    assert(s[0] == w[0]);
    assert forall|j: int| 0 <= j < k implies is_ident_char(s[j]) by {
        assert(s[j] == w[j]);
    }
    assert(s[k] == ' ');
    lemma_ident_run_len_exact(s, k);
    assert(s.take(k) =~= w);
    assert(s.skip(k) =~= seq![' '] + rest);
}

proof fn lemma_scan_one(t: TokenV, rest: Seq<char>)
    requires
        spellable(t),
    ensures
        spec_next_token(token_text(t) + seq![' '] + rest) == (
            Ok::<TokenV, LexError>(t),
            seq![' '] + rest,
        ),
{
    let s = token_text(t) + seq![' '] + rest;
    let sp = seq![' '] + rest;
    match t {
        TokenV::Int(n) => {
            lemma_int_text(n as int);
            let w = int_text(n as int);
            let k = w.len() as int;
            assert(s[0] == w[0]);
            assert forall|j: int| 0 <= j < k implies is_digit(s[j]) by {
                assert(s[j] == w[j]);
            }
            assert(s[k] == ' ');
            lemma_digit_run_len_exact(s, k);
            assert(s.take(k) =~= w);
            assert(s.skip(k) =~= sp);
        },
        TokenV::Ident(name) => {
            lemma_scan_ident_run(name, rest);
        },
        TokenV::Fn => {
            lemma_scan_ident_run(token_text(t), rest);
        },
        TokenV::Let => {
            lemma_scan_ident_run(token_text(t), rest);
        },
        TokenV::Return => {
            lemma_scan_ident_run(token_text(t), rest);
        },
        TokenV::Mut => {
            lemma_scan_ident_run(token_text(t), rest);
        },
        TokenV::Arrow => {
            assert(s[0] == '-' && s[1] == '>');
            assert(s.skip(2) =~= sp);
        },
        TokenV::Minus => {
            assert(s[0] == '-' && s[1] == ' ');
            assert(s.skip(1) =~= sp);
        },
        _ => {
            assert(s[0] == token_text(t)[0]);
            assert(s.skip(1) =~= sp);
        },
    }
}

proof fn lemma_skip_blank(r: Seq<char>)
    ensures
        spec_tokenize(seq![' '] + r) == spec_tokenize(r),
{
    assert((seq![' '] + r).skip(1) =~= r);
}

/// Law: the source text of any sequence of spellable tokens scans back to
/// exactly those tokens, followed by the sentinel, with no lexical error.
pub proof fn lemma_tokenize_render_text(ts: Seq<TokenV>)
    requires
        forall|i: int| 0 <= i < ts.len() ==> spellable(#[trigger] ts[i]),
    ensures
        spec_tokenize(render_text(ts)) == Ok::<Seq<TokenV>, LexError>(ts + seq![TokenV::Eof]),
    decreases ts.len(),
{
    if ts.len() == 0 {
        assert(render_text(ts) =~= Seq::<char>::empty());
        assert(ts + seq![TokenV::Eof] =~= seq![TokenV::Eof]);
    } else {
        let rest_text = render_text(ts.skip(1));
        lemma_scan_one(ts[0], rest_text);
        assert forall|i: int| 0 <= i < ts.skip(1).len() implies spellable(#[trigger] ts.skip(1)[i]) by {
            assert(ts.skip(1)[i] == ts[i + 1]);
        }
        lemma_tokenize_render_text(ts.skip(1));
        lemma_skip_blank(rest_text);
        assert(ts[0] != TokenV::Eof);
        assert(seq![ts[0]] + (ts.skip(1) + seq![TokenV::Eof]) =~= ts + seq![TokenV::Eof]);
    }
}

/// An expression whose literals and names the text renderer can spell.
pub open spec fn expr_spellable(e: ExprV) -> bool
    decreases e,
{
    match e {
        ExprV::Int(n) => n >= 0,
        ExprV::Var(name) => ident_spellable(name),
        ExprV::Binary { left, op, right } => expr_spellable(*left) && expr_spellable(*right),
    }
}

/// A statement whose names and literals are spellable.
pub open spec fn stmt_spellable(st: StmtV) -> bool {
    match st {
        StmtV::Let { name, value } => ident_spellable(name) && expr_spellable(value),
        StmtV::Return(value) => expr_spellable(value),
    }
}

/// A function whose name, and whose statements throughout, are spellable.
pub open spec fn fn_spellable(f: FunctionV) -> bool {
    ident_spellable(f.name) && forall|i: int|
        0 <= i < f.body.len() ==> stmt_spellable(#[trigger] f.body[i])
}

/// A program all of whose functions are spellable.
pub open spec fn program_spellable(fs: Seq<FunctionV>) -> bool {
    forall|i: int| 0 <= i < fs.len() ==> fn_spellable(#[trigger] fs[i])
}

spec fn all_spellable(ts: Seq<TokenV>) -> bool {
    forall|i: int| 0 <= i < ts.len() ==> spellable(#[trigger] ts[i])
}

proof fn lemma_all_spellable_concat(a: Seq<TokenV>, b: Seq<TokenV>)
    requires
        all_spellable(a),
        all_spellable(b),
    ensures
        all_spellable(a + b),
{
    assert forall|i: int| 0 <= i < (a + b).len() implies spellable(#[trigger] (a + b)[i]) by {
        if i < a.len() {
            assert((a + b)[i] == a[i]);
        } else {
            assert((a + b)[i] == b[i - a.len()]);
        }
    }
}

proof fn lemma_singleton_spellable(t: TokenV)
    requires
        spellable(t),
    ensures
        all_spellable(seq![t]),
{
    assert forall|i: int| 0 <= i < seq![t].len() implies spellable(#[trigger] seq![t][i]) by {
        assert(seq![t][i] == t);
    }
}

proof fn lemma_render_expr_spellable(e: ExprV)
    requires
        expr_spellable(e),
    ensures
        all_spellable(render_expr(e)),
    decreases e,
{
    match e {
        ExprV::Binary { left, op, right } => {
            lemma_render_expr_spellable(*left);
            lemma_render_expr_spellable(*right);
            lemma_singleton_spellable(op_token(op));
            lemma_all_spellable_concat(render_expr(*left), seq![op_token(op)]);
            lemma_all_spellable_concat(render_expr(*left) + seq![op_token(op)], render_expr(*right));
        },
        ExprV::Int(n) => {
            lemma_singleton_spellable(TokenV::Int(n));
        },
        ExprV::Var(name) => {
            lemma_singleton_spellable(TokenV::Ident(name));
        },
    }
}

proof fn lemma_render_stmt_spellable(st: StmtV)
    requires
        stmt_spellable(st),
    ensures
        all_spellable(render_stmt(st)),
{
    match st {
        StmtV::Let { name, value } => {
            let head = seq![TokenV::Let, TokenV::Ident(name), TokenV::Equal];
            assert forall|i: int| 0 <= i < head.len() implies spellable(#[trigger] head[i]) by {
                if i == 0 {
                    assert(head[i] == TokenV::Let);
                } else if i == 1 {
                    assert(head[i] == TokenV::Ident(name));
                } else {
                    assert(head[i] == TokenV::Equal);
                }
            }
            lemma_render_expr_spellable(value);
            lemma_singleton_spellable(TokenV::Semicolon);
            lemma_all_spellable_concat(head, render_expr(value));
            lemma_all_spellable_concat(head + render_expr(value), seq![TokenV::Semicolon]);
        },
        StmtV::Return(value) => {
            lemma_singleton_spellable(TokenV::Return);
            lemma_render_expr_spellable(value);
            lemma_singleton_spellable(TokenV::Semicolon);
            lemma_all_spellable_concat(seq![TokenV::Return], render_expr(value));
            lemma_all_spellable_concat(seq![TokenV::Return] + render_expr(value), seq![
                TokenV::Semicolon,
            ]);
        },
    }
}

proof fn lemma_render_stmts_spellable(sts: Seq<StmtV>)
    requires
        forall|i: int| 0 <= i < sts.len() ==> stmt_spellable(#[trigger] sts[i]),
    ensures
        all_spellable(render_stmts(sts)),
    decreases sts.len(),
{
    if sts.len() == 0 {
    } else {
        lemma_render_stmt_spellable(sts[0]);
        assert forall|i: int|
            0 <= i < sts.skip(1).len() implies stmt_spellable(#[trigger] sts.skip(1)[i]) by {
            assert(sts.skip(1)[i] == sts[i + 1]);
        }
        lemma_render_stmts_spellable(sts.skip(1));
        lemma_all_spellable_concat(render_stmt(sts[0]), render_stmts(sts.skip(1)));
    }
}

proof fn lemma_render_function_spellable_with(f: FunctionV, ret_ty: Seq<char>)
    requires
        fn_spellable(f),
        ident_spellable(ret_ty),
    ensures
        all_spellable(render_function_with(f, ret_ty)),
{
    let head = seq![
        TokenV::Fn,
        TokenV::Ident(f.name),
        TokenV::LParen,
        TokenV::RParen,
        TokenV::Arrow,
        TokenV::Ident(ret_ty),
        TokenV::LBrace,
    ];
    assert forall|i: int| 0 <= i < head.len() implies spellable(#[trigger] head[i]) by {
        if i == 1 {
            assert(head[i] == TokenV::Ident(f.name));
        } else if i == 5 {
            assert(head[i] == TokenV::Ident(ret_ty));
        } else if i == 0 {
            assert(head[i] == TokenV::Fn);
        } else if i == 2 {
            assert(head[i] == TokenV::LParen);
        } else if i == 3 {
            assert(head[i] == TokenV::RParen);
        } else if i == 4 {
            assert(head[i] == TokenV::Arrow);
        } else {
            assert(head[i] == TokenV::LBrace);
        }
    }
    lemma_render_stmts_spellable(f.body);
    lemma_singleton_spellable(TokenV::RBrace);
    lemma_all_spellable_concat(head, render_stmts(f.body));
    lemma_all_spellable_concat(head + render_stmts(f.body), seq![TokenV::RBrace]);
}

proof fn lemma_render_function_spellable(f: FunctionV)
    requires
        fn_spellable(f),
    ensures
        all_spellable(render_function(f)),
{
    lemma_render_function_spellable_with(f, f.name);
}

proof fn lemma_render_program_spellable_with(fs: Seq<FunctionV>, tys: Seq<Seq<char>>)
    requires
        program_spellable(fs),
        tys.len() == fs.len(),
        forall|i: int| 0 <= i < tys.len() ==> ident_spellable(#[trigger] tys[i]),
    ensures
        all_spellable(render_program_with(fs, tys)),
    decreases fs.len(),
{
    if fs.len() == 0 {
    } else {
        lemma_render_function_spellable_with(fs[0], tys[0]);
        assert forall|i: int|
            0 <= i < fs.skip(1).len() implies fn_spellable(#[trigger] fs.skip(1)[i]) by {
            assert(fs.skip(1)[i] == fs[i + 1]);
        }
        assert forall|i: int|
            0 <= i < tys.skip(1).len() implies ident_spellable(#[trigger] tys.skip(1)[i]) by {
            assert(tys.skip(1)[i] == tys[i + 1]);
        }
        lemma_render_program_spellable_with(fs.skip(1), tys.skip(1));
        lemma_all_spellable_concat(
            render_function_with(fs[0], tys[0]),
            render_program_with(fs.skip(1), tys.skip(1)),
        );
    }
}

proof fn lemma_render_program_spellable(fs: Seq<FunctionV>)
    requires
        program_spellable(fs),
    ensures
        all_spellable(render_program(fs)),
    decreases fs.len(),
{
    if fs.len() == 0 {
    } else {
        lemma_render_function_spellable(fs[0]);
        assert forall|i: int|
            0 <= i < fs.skip(1).len() implies fn_spellable(#[trigger] fs.skip(1)[i]) by {
            assert(fs.skip(1)[i] == fs[i + 1]);
        }
        lemma_render_program_spellable(fs.skip(1));
        lemma_all_spellable_concat(render_function(fs[0]), render_program(fs.skip(1)));
    }
}

/// Law: round trip. A program text shaped by the grammar — rendered function
/// by function, every expression grown down the left spine exactly as flat
/// parsing builds them — parses back, past every function, to exactly itself;
/// in particular the parsed function count equals the number of `fn`
/// declarations rendered.
pub proof fn lemma_program_round_trip(fs: Seq<FunctionV>)
    requires
        program_left_linear(fs),
    ensures
        spec_parse_program(render_program(fs) + seq![TokenV::Eof]) == Ok::<
            Seq<FunctionV>,
            ParseErrorV,
        >(fs),
    decreases fs.len(),
{
    let eof = seq![TokenV::Eof];
    if fs.len() == 0 {
        assert(render_program(fs) + eof =~= eof);
        assert(fs =~= Seq::<FunctionV>::empty());
    } else {
        let tail = render_program(fs.skip(1)) + eof;
        assert(render_program(fs) + eof =~= render_function(fs[0]) + tail);
        lemma_parse_function_render(fs[0], tail);
        lemma_program_round_trip(fs.skip(1));
        assert(seq![fs[0]] + fs.skip(1) =~= fs);
    }
}

/// Law: round trip through both stages. The source text of a grammar-shaped,
/// spellable program scans with no lexical error to exactly its token
/// rendering plus the sentinel, and parsing those tokens yields back exactly
/// the program's functions — never failing past the final one, with the
/// function count equal to the number of `fn` declarations in the text.
pub proof fn lemma_text_round_trip(fs: Seq<FunctionV>)
    requires
        program_left_linear(fs),
        program_spellable(fs),
    ensures
        spec_tokenize(render_text(render_program(fs))) == Ok::<Seq<TokenV>, LexError>(
            render_program(fs) + seq![TokenV::Eof],
        ),
        spec_parse_program(render_program(fs) + seq![TokenV::Eof]) == Ok::<
            Seq<FunctionV>,
            ParseErrorV,
        >(fs),
{
    lemma_render_program_spellable(fs);
    lemma_tokenize_render_text(render_program(fs));
    lemma_program_round_trip(fs);
}

/// Law: round trip through both stages, under arbitrary return-type
/// annotations. The source text of a grammar-shaped, spellable program, each
/// function annotated with any spellable identifier of `tys`, scans with no
/// lexical error to exactly its token rendering plus the sentinel, and
/// parsing those tokens yields back exactly the program's functions.
pub proof fn lemma_text_round_trip_with(fs: Seq<FunctionV>, tys: Seq<Seq<char>>)
    requires
        program_left_linear(fs),
        program_spellable(fs),
        tys.len() == fs.len(),
        forall|i: int| 0 <= i < tys.len() ==> ident_spellable(#[trigger] tys[i]),
    ensures
        spec_tokenize(render_text(render_program_with(fs, tys))) == Ok::<Seq<TokenV>, LexError>(
            render_program_with(fs, tys) + seq![TokenV::Eof],
        ),
        spec_parse_program(render_program_with(fs, tys) + seq![TokenV::Eof]) == Ok::<
            Seq<FunctionV>,
            ParseErrorV,
        >(fs),
{
    lemma_render_program_spellable_with(fs, tys);
    lemma_tokenize_render_text(render_program_with(fs, tys));
    lemma_program_round_trip_with(fs, tys);
}

} // verus!
