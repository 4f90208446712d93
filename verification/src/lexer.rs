use vstd::prelude::*;
use vstd::string::StrSliceExecFns;

use crate::token::{Token, TokenV};

verus! {

/// A character with the Unicode white-space property, as the scanner
/// classifies inter-token blanks.
pub open spec fn is_space(c: char) -> bool {
    let u = c as u32;
    u == 0x09 || u == 0x0A || u == 0x0B || u == 0x0C || u == 0x0D || u == 0x20 || u == 0x85
        || u == 0xA0 || u == 0x1680 || (0x2000 <= u && u <= 0x200A) || u == 0x2028 || u == 0x2029
        || u == 0x202F || u == 0x205F || u == 0x3000
}

/// An ASCII decimal digit.
pub open spec fn is_digit(c: char) -> bool {
    let u = c as u32;
    0x30 <= u && u <= 0x39
}

/// A character that may begin an identifier: an ASCII letter or underscore.
pub open spec fn is_ident_start(c: char) -> bool {
    let u = c as u32;
    (0x41 <= u && u <= 0x5A) || (0x61 <= u && u <= 0x7A) || u == 0x5F
}

/// A character that may continue an identifier: ASCII alphanumeric or
/// underscore.
pub open spec fn is_ident_char(c: char) -> bool {
    is_ident_start(c) || is_digit(c)
}

/// A character on which some token begins. Everything that is neither this
/// nor white space is silently discarded by the scanner.
pub open spec fn is_token_start(c: char) -> bool {
    c == '+' || c == '-' || c == '*' || c == '/' || c == '=' || c == ':' || c == ';' || c == '('
        || c == ')' || c == '{' || c == '}' || is_digit(c) || is_ident_start(c)
}

/// How the scanner fails: a digit run whose value exceeds the 32-bit signed
/// range is a fatal lexical error.
#[derive(Debug, Clone, Copy, PartialEq, Eq, Structural)]
pub enum LexError {
    IntegerOverflow,
}

/// Length of the maximal digit run at the head of `s`.
pub open spec fn digit_run_len(s: Seq<char>) -> nat
    decreases s.len(),
{
    if s.len() == 0 || !is_digit(s[0]) {
        0
    } else {
        (1 + digit_run_len(s.skip(1))) as nat
    }
}

/// Length of the maximal identifier run at the head of `s`.
pub open spec fn ident_run_len(s: Seq<char>) -> nat
    decreases s.len(),
{
    if s.len() == 0 || !is_ident_char(s[0]) {
        0
    } else {
        (1 + ident_run_len(s.skip(1))) as nat
    }
}

/// The integer denoted by a run of decimal digits, most significant first.
pub open spec fn digits_val(s: Seq<char>) -> int
    decreases s.len(),
{
    if s.len() == 0 {
        0
    } else {
        digits_val(s.drop_last()) * 10 + (s.last() as u32 - 0x30)
    }
}

/// Keyword classification of an identifier run: exact, case-sensitive match
/// against the keyword set; any other text is a plain identifier.
pub open spec fn keyword_or_ident(w: Seq<char>) -> TokenV {
    if w == seq!['f', 'n'] {
        TokenV::Fn
    } else if w == seq!['l', 'e', 't'] {
        TokenV::Let
    } else if w == seq!['r', 'e', 't', 'u', 'r', 'n'] {
        TokenV::Return
    } else if w == seq!['m', 'u', 't'] {
        TokenV::Mut
    } else {
        TokenV::Ident(w)
    }
}

/// What one scanning step yields on the remaining characters `s`: the token
/// (or the overflow error) and the characters left after it. White space and
/// unrecognized characters are skipped; an exhausted input yields the
/// end-of-input sentinel and stays exhausted.
pub open spec fn spec_next_token(s: Seq<char>) -> (Result<TokenV, LexError>, Seq<char>)
    decreases s.len(),
{
    if s.len() == 0 {
        (Ok(TokenV::Eof), s)
    } else if is_space(s[0]) {
        spec_next_token(s.skip(1))
    } else if s[0] == '+' {
        (Ok(TokenV::Plus), s.skip(1))
    } else if s[0] == '-' {
        if s.len() >= 2 && s[1] == '>' {
            (Ok(TokenV::Arrow), s.skip(2))
        } else {
            (Ok(TokenV::Minus), s.skip(1))
        }
    } else if s[0] == '*' {
        (Ok(TokenV::Star), s.skip(1))
    } else if s[0] == '/' {
        (Ok(TokenV::Slash), s.skip(1))
    } else if s[0] == '=' {
        (Ok(TokenV::Equal), s.skip(1))
    } else if s[0] == ':' {
        (Ok(TokenV::Colon), s.skip(1))
    } else if s[0] == ';' {
        (Ok(TokenV::Semicolon), s.skip(1))
    } else if s[0] == '(' {
        (Ok(TokenV::LParen), s.skip(1))
    } else if s[0] == ')' {
        (Ok(TokenV::RParen), s.skip(1))
    } else if s[0] == '{' {
        (Ok(TokenV::LBrace), s.skip(1))
    } else if s[0] == '}' {
        (Ok(TokenV::RBrace), s.skip(1))
    } else if is_digit(s[0]) {
        let n = digit_run_len(s) as int;
        if digits_val(s.take(n)) <= i32::MAX {
            (Ok(TokenV::Int(digits_val(s.take(n)) as i32)), s.skip(n))
        } else {
            (Err(LexError::IntegerOverflow), s.skip(n))
        }
    } else if is_ident_start(s[0]) {
        let n = ident_run_len(s) as int;
        (Ok(keyword_or_ident(s.take(n))), s.skip(n))
    } else {
        spec_next_token(s.skip(1))
    }
}

/// The token view of a scanning result.
pub open spec fn token_res_view(r: Result<Token, LexError>) -> Result<TokenV, LexError> {
    match r {
        Ok(t) => Ok(t@),
        Err(e) => Err(e),
    }
}

/// The token views of a buffered token sequence.
pub open spec fn tokens_view(ts: Seq<Token>) -> Seq<TokenV> {
    ts.map_values(|t: Token| t@)
}

pub proof fn lemma_digit_run_len(s: Seq<char>)
    ensures
        digit_run_len(s) <= s.len(),
        forall|i: int| 0 <= i < digit_run_len(s) ==> is_digit(s[i]),
        digit_run_len(s) < s.len() ==> !is_digit(s[digit_run_len(s) as int]),
    decreases s.len(),
{
    if s.len() == 0 || !is_digit(s[0]) {
    } else {
        lemma_digit_run_len(s.skip(1));
        assert forall|i: int| 0 <= i < digit_run_len(s) implies is_digit(s[i]) by {
            if i >= 1 {
                assert(s.skip(1)[i - 1] == s[i]);
            }
        }
        if digit_run_len(s) < s.len() {
            assert(s.skip(1)[digit_run_len(s) as int - 1] == s[digit_run_len(s) as int]);
        }
    }
}

pub proof fn lemma_digit_run_len_exact(s: Seq<char>, k: int)
    requires
        0 <= k <= s.len(),
        forall|j: int| 0 <= j < k ==> is_digit(s[j]),
        k == s.len() || !is_digit(s[k]),
    ensures
        digit_run_len(s) == k,
    decreases s.len(),
{
    if k == 0 {
    } else {
        assert(is_digit(s[0]));
        assert forall|j: int| 0 <= j < k - 1 implies is_digit(s.skip(1)[j]) by {
            assert(s.skip(1)[j] == s[j + 1]);
        }
        if k < s.len() {
            assert(s.skip(1)[k - 1] == s[k]);
        }
        lemma_digit_run_len_exact(s.skip(1), k - 1);
    }
}

pub proof fn lemma_ident_run_len(s: Seq<char>)
    ensures
        ident_run_len(s) <= s.len(),
        forall|i: int| 0 <= i < ident_run_len(s) ==> is_ident_char(s[i]),
        ident_run_len(s) < s.len() ==> !is_ident_char(s[ident_run_len(s) as int]),
    decreases s.len(),
{
    if s.len() == 0 || !is_ident_char(s[0]) {
    } else {
        lemma_ident_run_len(s.skip(1));
        assert forall|i: int| 0 <= i < ident_run_len(s) implies is_ident_char(s[i]) by {
            if i >= 1 {
                assert(s.skip(1)[i - 1] == s[i]);
            }
        }
        if ident_run_len(s) < s.len() {
            assert(s.skip(1)[ident_run_len(s) as int - 1] == s[ident_run_len(s) as int]);
        }
    }
}

pub proof fn lemma_ident_run_len_exact(s: Seq<char>, k: int)
    requires
        0 <= k <= s.len(),
        forall|j: int| 0 <= j < k ==> is_ident_char(s[j]),
        k == s.len() || !is_ident_char(s[k]),
    ensures
        ident_run_len(s) == k,
    decreases s.len(),
{
    if k == 0 {
    } else {
        assert(is_ident_char(s[0]));
        assert forall|j: int| 0 <= j < k - 1 implies is_ident_char(s.skip(1)[j]) by {
            assert(s.skip(1)[j] == s[j + 1]);
        }
        if k < s.len() {
            assert(s.skip(1)[k - 1] == s[k]);
        }
        lemma_ident_run_len_exact(s.skip(1), k - 1);
    }
}

pub proof fn lemma_digits_val_nonneg(s: Seq<char>)
    requires
        forall|i: int| 0 <= i < s.len() ==> is_digit(s[i]),
    ensures
        digits_val(s) >= 0,
    decreases s.len(),
{
    if s.len() > 0 {
        assert forall|i: int| 0 <= i < s.drop_last().len() implies is_digit(s.drop_last()[i]) by {
            assert(s.drop_last()[i] == s[i]);
        }
        lemma_digits_val_nonneg(s.drop_last());
    }
}

/// A token other than the sentinel consumes at least one character; the
/// sentinel leaves nothing behind.
pub proof fn lemma_next_token_consumes(s: Seq<char>)
    ensures
        spec_next_token(s).1.len() <= s.len(),
        spec_next_token(s).0 != Ok::<TokenV, LexError>(TokenV::Eof) ==> spec_next_token(s).1.len()
            < s.len(),
        spec_next_token(s).0 == Ok::<TokenV, LexError>(TokenV::Eof) ==> spec_next_token(s).1.len()
            == 0,
    decreases s.len(),
{
    if s.len() == 0 {
    } else if is_space(s[0]) || !is_token_start(s[0]) {
        lemma_next_token_consumes(s.skip(1));
    } else if is_digit(s[0]) {
        lemma_digit_run_len(s);
    } else if is_ident_start(s[0]) {
        lemma_ident_run_len(s);
    }
}

/// Law: the sentinel is idempotent at end of stream. Once a scanning step
/// yields the end-of-input sentinel, every later step yields it again, and
/// never an error.
pub proof fn lemma_eof_idempotent(s: Seq<char>)
    requires
        spec_next_token(s).0 == Ok::<TokenV, LexError>(TokenV::Eof),
    ensures
        spec_next_token(spec_next_token(s).1) == (
            Ok::<TokenV, LexError>(TokenV::Eof),
            spec_next_token(s).1,
        ),
{
    lemma_next_token_consumes(s);
}

/// Law: on input consisting solely of white space and unrecognized symbols,
/// the very first scanning step yields the end-of-input sentinel, consumes
/// everything, and never errors.
pub proof fn lemma_trivia_scans_to_eof(s: Seq<char>)
    requires
        forall|i: int| 0 <= i < s.len() ==> is_space(s[i]) || !is_token_start(s[i]),
    ensures
        spec_next_token(s) == (Ok::<TokenV, LexError>(TokenV::Eof), Seq::<char>::empty()),
    decreases s.len(),
{
    if s.len() == 0 {
        assert(s =~= Seq::<char>::empty());
    } else {
        assert(is_space(s[0]) || !is_token_start(s[0]));
        assert forall|i: int|
            0 <= i < s.skip(1).len() implies is_space(s.skip(1)[i]) || !is_token_start(
            s.skip(1)[i],
        ) by {
            assert(s.skip(1)[i] == s[i + 1]);
        }
        lemma_trivia_scans_to_eof(s.skip(1));
    }
}

/// Law: maximal munch for integer literals. The token covers the longest
/// digit run at the head of the input (no shorter prefix), and its value is
/// that of the whole run when it fits the 32-bit signed range; otherwise the
/// run is the overflow error.
pub proof fn lemma_number_maximal_munch(s: Seq<char>)
    requires
        s.len() > 0,
        is_digit(s[0]),
    ensures
        ({
            let n = digit_run_len(s) as int;
            &&& 1 <= n <= s.len()
            &&& (forall|i: int| 0 <= i < n ==> is_digit(s[i]))
            &&& (n < s.len() ==> !is_digit(s[n]))
            &&& spec_next_token(s).1 == s.skip(n)
            &&& (digits_val(s.take(n)) <= i32::MAX ==> spec_next_token(s).0 == Ok::<
                TokenV,
                LexError,
            >(TokenV::Int(digits_val(s.take(n)) as i32)))
            &&& (digits_val(s.take(n)) > i32::MAX ==> spec_next_token(s).0 == Err::<
                TokenV,
                LexError,
            >(LexError::IntegerOverflow))
        }),
{
    lemma_digit_run_len(s);
}

/// Law: maximal munch for identifier runs. The token covers the longest
/// identifier run at the head of the input, classified against the keyword
/// set only as that exact, whole text.
pub proof fn lemma_ident_maximal_munch(s: Seq<char>)
    requires
        s.len() > 0,
        is_ident_start(s[0]),
    ensures
        ({
            let n = ident_run_len(s) as int;
            &&& 1 <= n <= s.len()
            &&& (forall|i: int| 0 <= i < n ==> is_ident_char(s[i]))
            &&& (n < s.len() ==> !is_ident_char(s[n]))
            &&& spec_next_token(s) == (
                Ok::<TokenV, LexError>(keyword_or_ident(s.take(n))),
                s.skip(n),
            )
        }),
{
    lemma_ident_run_len(s);
}

/// The scanner: a cursor over source text that produces one token at a time
/// and returns the end-of-input sentinel forever once the text is exhausted.
pub struct Lexer<'a> {
    src: &'a str,
    pos: usize,
    len: usize,
}

impl<'a> View for Lexer<'a> {
    type V = Seq<char>;

    /// The characters not yet consumed.
    closed spec fn view(&self) -> Seq<char> {
        self.src@.skip(self.pos as int)
    }
}

impl<'a> Lexer<'a> {
    /// The cursor lies within the text and the cached length is the
    /// character count of the whole text.
    pub closed spec fn wf(self) -> bool {
        self.pos <= self.len && self.len == self.src@.len()
    }

    /// Constructs a scanner positioned at the first character. Any text,
    /// including empty, is accepted.
    pub fn new(source: &'a str) -> (lex: Lexer<'a>)
        ensures
            lex.wf(),
            lex@ == source@,
    {
        let n = source.unicode_len();
        let lex = Lexer { src: source, pos: 0, len: n };
        proof {
            assert(lex@ =~= source@);
        }
        lex
    }

    /// Returns the next token and advances past it, or reports the sole
    /// lexical error, an out-of-range integer literal. Behaves exactly as
    /// [`spec_next_token`] on the remaining characters.
    #[verifier::loop_isolation(false)]
    pub fn next_token(&mut self) -> (r: Result<Token, LexError>)
        requires
            old(self).wf(),
        ensures
            final(self).wf(),
            (token_res_view(r), final(self)@) == spec_next_token(old(self)@),
    {
        loop
            invariant
                self.wf(),
                self.src == old(self).src,
                spec_next_token(old(self)@) == spec_next_token(self@),
            decreases self@.len(),
        {
            self.skip_whitespace();
            if self.pos == self.len {
                proof {
                    assert(self@ =~= Seq::<char>::empty());
                }
                return Ok(Token::Eof);
            }
            let ghost s = self@;
            let c = self.src.get_char(self.pos);
            proof {
                assert(s[0] == c);
            }
            if is_digit_char(c) {
                return self.read_number();
            }
            if is_ident_start_char(c) {
                return self.read_ident();
            }
            if c == '-' {
                if self.pos + 1 < self.len && self.src.get_char(self.pos + 1) == '>' {
                    proof {
                        assert(s[1] == self.src@[self.pos as int + 1]);
                        assert(self.src@.skip(self.pos as int).skip(2) =~= self.src@.skip(
                            self.pos as int + 2,
                        ));
                    }
                    self.pos = self.pos + 2;
                    return Ok(Token::Arrow);
                }
                proof {
                    assert(self.src@.skip(self.pos as int).skip(1) =~= self.src@.skip(
                        self.pos as int + 1,
                    ));
                }
                self.pos = self.pos + 1;
                return Ok(Token::Minus);
            }
            proof {
                assert(self.src@.skip(self.pos as int).skip(1) =~= self.src@.skip(
                    self.pos as int + 1,
                ));
            }
            if c == '+' {
                self.pos = self.pos + 1;
                return Ok(Token::Plus);
            }
            if c == '*' {
                self.pos = self.pos + 1;
                return Ok(Token::Star);
            }
            if c == '/' {
                self.pos = self.pos + 1;
                return Ok(Token::Slash);
            }
            if c == '=' {
                self.pos = self.pos + 1;
                return Ok(Token::Equal);
            }
            if c == ':' {
                self.pos = self.pos + 1;
                return Ok(Token::Colon);
            }
            if c == ';' {
                self.pos = self.pos + 1;
                return Ok(Token::Semicolon);
            }
            if c == '(' {
                self.pos = self.pos + 1;
                return Ok(Token::LParen);
            }
            if c == ')' {
                self.pos = self.pos + 1;
                return Ok(Token::RParen);
            }
            if c == '{' {
                self.pos = self.pos + 1;
                return Ok(Token::LBrace);
            }
            if c == '}' {
                self.pos = self.pos + 1;
                return Ok(Token::RBrace);
            }
            // Unrecognized character: discard it and scan on.
            self.pos = self.pos + 1;
        }
    }

    /// Advances past leading white space.
    #[verifier::loop_isolation(false)]
    fn skip_whitespace(&mut self)
        requires
            old(self).wf(),
        ensures
            final(self).wf(),
            final(self).src == old(self).src,
            spec_next_token(old(self)@) == spec_next_token(final(self)@),
            final(self)@.len() <= old(self)@.len(),
            final(self)@.len() == 0 || !is_space(final(self)@[0]),
            forall|i: int|
                0 <= i < old(self)@.len() - final(self)@.len() ==> is_space(old(self)@[i]),
    {
        while self.pos < self.len && is_space_char(self.src.get_char(self.pos))
            invariant
                self.wf(),
                self.src == old(self).src,
                old(self).pos <= self.pos,
                spec_next_token(old(self)@) == spec_next_token(self@),
                self@.len() <= old(self)@.len(),
                forall|i: int| 0 <= i < self.pos - old(self).pos ==> is_space(old(self)@[i]),
            decreases self.len - self.pos,
        {
            proof {
                assert(self@[0] == self.src@[self.pos as int]);
                assert(old(self)@[self.pos - old(self).pos] == self.src@[self.pos as int]);
                assert(self.src@.skip(self.pos as int).skip(1) =~= self.src@.skip(
                    self.pos as int + 1,
                ));
            }
            self.pos = self.pos + 1;
        }
        proof {
            if self@.len() > 0 {
                assert(self@[0] == self.src@[self.pos as int]);
            }
        }
    }

    /// Consumes the maximal run of ASCII digits and parses it as a 32-bit
    /// signed integer; a run whose value exceeds that range is consumed and
    /// reported as the overflow error.
    #[verifier::loop_isolation(false)]
    fn read_number(&mut self) -> (r: Result<Token, LexError>)
        requires
            old(self).wf(),
            old(self)@.len() > 0,
            is_digit(old(self)@[0]),
        ensures
            final(self).wf(),
            final(self).src == old(self).src,
            (token_res_view(r), final(self)@) == spec_next_token(old(self)@),
    {
        let ghost s = old(self)@;
        let start = self.pos;
        let mut val: u32 = 0;
        let mut over = false;
        while self.pos < self.len && is_digit_char(self.src.get_char(self.pos))
            invariant
                self.wf(),
                self.src == old(self).src,
                start <= self.pos,
                forall|j: int| 0 <= j < self.pos - start ==> is_digit(s[j]),
                !over ==> digits_val(s.take(self.pos - start)) == val && val <= i32::MAX as u32,
                over ==> digits_val(s.take(self.pos - start)) > i32::MAX,
            decreases self.len - self.pos,
        {
            let ghost k = self.pos - start;
            let c = self.src.get_char(self.pos);
            proof {
                assert(s[k] == c);
            }
            let d: u32 = c as u32 - 0x30;
            proof {
                assert(s.take(k + 1).drop_last() =~= s.take(k));
                assert(s.take(k + 1).last() == s[k]);
                assert(digits_val(s.take(k + 1)) == digits_val(s.take(k)) * 10 + d);
                if over {
                    assert forall|i: int| 0 <= i < s.take(k).len() implies is_digit(
                        s.take(k)[i],
                    ) by {
                        assert(s.take(k)[i] == s[i]);
                    }
                    lemma_digits_val_nonneg(s.take(k));
                }
            }
            if over {
            } else {
                let w: u64 = val as u64 * 10 + d as u64;
                if w > 0x7fff_ffff {
                    over = true;
                } else {
                    val = w as u32;
                }
            }
            self.pos = self.pos + 1;
        }
        proof {
            if self.pos < self.len {
                assert(s[self.pos - start] == self.src@[self.pos as int]);
            }
            lemma_digit_run_len_exact(s, self.pos - start);
            assert(self@ =~= s.skip(self.pos - start));
        }
        if over {
            Err(LexError::IntegerOverflow)
        } else {
            Ok(Token::Int(val as i32))
        }
    }

    /// Consumes the maximal run of identifier characters and classifies the
    /// text against the keyword set.
    #[verifier::loop_isolation(false)]
    fn read_ident(&mut self) -> (r: Result<Token, LexError>)
        requires
            old(self).wf(),
            old(self)@.len() > 0,
            is_ident_start(old(self)@[0]),
        ensures
            final(self).wf(),
            final(self).src == old(self).src,
            (token_res_view(r), final(self)@) == spec_next_token(old(self)@),
    {
        let ghost s = old(self)@;
        let start = self.pos;
        while self.pos < self.len && is_ident_char_exec(self.src.get_char(self.pos))
            invariant
                self.wf(),
                self.src == old(self).src,
                start <= self.pos,
                forall|j: int| 0 <= j < self.pos - start ==> is_ident_char(s[j]),
            decreases self.len - self.pos,
        {
            proof {
                assert(s[self.pos - start] == self.src@[self.pos as int]);
            }
            self.pos = self.pos + 1;
        }
        let n = self.pos - start;
        let ghost w = s.take(n as int);
        proof {
            if self.pos < self.len {
                assert(s[self.pos - start] == self.src@[self.pos as int]);
            }
            lemma_ident_run_len_exact(s, n as int);
            assert(self@ =~= s.skip(n as int));
            assert forall|j: int| 0 <= j < n implies w[j] == self.src@[start + j] by {
                assert(w[j] == s[j]);
            }
        }
        if n == 2 && self.src.get_char(start) == 'f' && self.src.get_char(start + 1) == 'n' {
            proof {
                assert(w =~= seq!['f', 'n']);
            }
            return Ok(Token::Fn);
        }
        if n == 3 && self.src.get_char(start) == 'l' && self.src.get_char(start + 1) == 'e'
            && self.src.get_char(start + 2) == 't' {
            proof {
                assert(w =~= seq!['l', 'e', 't']);
            }
            return Ok(Token::Let);
        }
        if n == 3 && self.src.get_char(start) == 'm' && self.src.get_char(start + 1) == 'u'
            && self.src.get_char(start + 2) == 't' {
            proof {
                assert(w =~= seq!['m', 'u', 't']);
            }
            return Ok(Token::Mut);
        }
        if n == 6 && self.src.get_char(start) == 'r' && self.src.get_char(start + 1) == 'e'
            && self.src.get_char(start + 2) == 't' && self.src.get_char(start + 3) == 'u'
            && self.src.get_char(start + 4) == 'r' && self.src.get_char(start + 5) == 'n' {
            proof {
                assert(w =~= seq!['r', 'e', 't', 'u', 'r', 'n']);
            }
            return Ok(Token::Return);
        }
        proof {
            if w == seq!['f', 'n'] {
                assert(w.len() == 2 && w[0] == 'f' && w[1] == 'n');
            }
            if w == seq!['l', 'e', 't'] {
                assert(w.len() == 3 && w[0] == 'l' && w[1] == 'e' && w[2] == 't');
            }
            if w == seq!['m', 'u', 't'] {
                assert(w.len() == 3 && w[0] == 'm' && w[1] == 'u' && w[2] == 't');
            }
            if w == seq!['r', 'e', 't', 'u', 'r', 'n'] {
                assert(w.len() == 6 && w[0] == 'r' && w[1] == 'e' && w[2] == 't' && w[3] == 'u'
                    && w[4] == 'r' && w[5] == 'n');
            }
            assert(self.src@.subrange(start as int, self.pos as int) =~= w);
        }
        let text = self.src.substring_char(start, self.pos).to_owned();
        Ok(Token::Ident(text))
    }
}

/// The characters classified by [`is_space`].
fn is_space_char(c: char) -> (r: bool)
    ensures
        r == is_space(c),
{
    let u: u32 = c as u32;
    u == 0x09 || u == 0x0A || u == 0x0B || u == 0x0C || u == 0x0D || u == 0x20 || u == 0x85
        || u == 0xA0 || u == 0x1680 || (0x2000 <= u && u <= 0x200A) || u == 0x2028 || u == 0x2029
        || u == 0x202F || u == 0x205F || u == 0x3000
}

/// The characters classified by [`is_digit`].
fn is_digit_char(c: char) -> (r: bool)
    ensures
        r == is_digit(c),
{
    let u: u32 = c as u32;
    0x30 <= u && u <= 0x39
}

/// The characters classified by [`is_ident_start`].
fn is_ident_start_char(c: char) -> (r: bool)
    ensures
        r == is_ident_start(c),
{
    let u: u32 = c as u32;
    (0x41 <= u && u <= 0x5A) || (0x61 <= u && u <= 0x7A) || u == 0x5F
}

/// The characters classified by [`is_ident_char`].
fn is_ident_char_exec(c: char) -> (r: bool)
    ensures
        r == is_ident_char(c),
{
    is_ident_start_char(c) || is_digit_char(c)
}

/// The full token sequence of a text, ending in exactly one end-of-input
/// sentinel, or the first lexical error.
pub open spec fn spec_tokenize(s: Seq<char>) -> Result<Seq<TokenV>, LexError>
    decreases s.len(),
    via spec_tokenize_decreases
{
    match spec_next_token(s) {
        (Err(e), _) => Err(e),
        (Ok(t), rest) => if t == TokenV::Eof {
            Ok(seq![TokenV::Eof])
        } else {
            match spec_tokenize(rest) {
                Err(e) => Err(e),
                Ok(ts) => Ok(seq![t] + ts),
            }
        },
    }
}

#[via_fn]
proof fn spec_tokenize_decreases(s: Seq<char>) {
    lemma_next_token_consumes(s);
}

/// Exhausts a scanner over `source`, buffering every token including the
/// terminating sentinel, or reports the first lexical error.
#[verifier::loop_isolation(false)]
pub fn tokenize(source: &str) -> (r: Result<Vec<Token>, LexError>)
    ensures
        (match r {
            Ok(toks) => spec_tokenize(source@) == Ok::<Seq<TokenV>, LexError>(tokens_view(toks@)),
            Err(e) => spec_tokenize(source@) == Err::<Seq<TokenV>, LexError>(e),
        }),
{
    let mut lexer = Lexer::new(source);
    let mut toks: Vec<Token> = Vec::new();
    proof {
        if spec_tokenize(source@) is Ok {
            assert(tokens_view(toks@) + spec_tokenize(source@)->Ok_0 =~= spec_tokenize(
                source@,
            )->Ok_0);
        }
    }
    loop
        invariant
            lexer.wf(),
            (match spec_tokenize(lexer@) {
                Ok(ts) => spec_tokenize(source@) == Ok::<Seq<TokenV>, LexError>(
                    tokens_view(toks@) + ts,
                ),
                Err(e) => spec_tokenize(source@) == Err::<Seq<TokenV>, LexError>(e),
            }),
        decreases lexer@.len(),
    {
        let ghost pre = lexer@;
        let ghost pre_toks = toks@;
        let t = match lexer.next_token() {
            Ok(t) => t,
            Err(e) => {
                return Err(e);
            },
        };
        proof {
            lemma_next_token_consumes(pre);
        }
        let is_eof = match &t {
            Token::Eof => true,
            _ => false,
        };
        let ghost tv = t@;
        toks.push(t);
        proof {
            assert(tokens_view(toks@) =~= tokens_view(pre_toks) + seq![tv]);
        }
        if is_eof {
            proof {
                assert(spec_tokenize(pre) == Ok::<Seq<TokenV>, LexError>(seq![TokenV::Eof]));
                assert(tokens_view(pre_toks) + seq![TokenV::Eof] =~= tokens_view(toks@));
            }
            return Ok(toks);
        }
        proof {
            assert(tv != TokenV::Eof);
            if spec_tokenize(lexer@) is Ok {
                let ts = spec_tokenize(lexer@)->Ok_0;
                assert(spec_tokenize(pre) == Ok::<Seq<TokenV>, LexError>(seq![tv] + ts));
                assert(tokens_view(pre_toks) + (seq![tv] + ts) =~= tokens_view(toks@) + ts);
            }
        }
    }
}

} // verus!
