//! The token grammar of the language, as mathematical functions over the characters of a source.
//!
//! A position `p` is an index into the characters; reading one token starts at `p` and ends at a
//! later position, giving either a token, nothing (blanks and comments), or an error.

use vstd::prelude::*;
use crate::text::{
    alphabetic, alphanumeric, spec_is_ascii_digit, spec_is_ascii_hexdigit,
    spec_is_octal_digit, spec_hex_value, spec_is_whitespace,
};
use crate::token::{TokenKind, SpecToken, SpecLiteral, SpecNumber};
use crate::scanner_error::{SpecLexError, LexErrorKind};

verus! {

/// What reading from one position gives.
pub enum Step {
    /// A token.
    Emit(SpecToken),
    /// Nothing: a blank, a comment or a repeated line break.
    Skip,
    /// A lexical error.
    Fail(SpecLexError),
    /// An octal escape above `\377`, on which reading stops without a result.
    Abort,
}

/// The outcome of reading a whole source.
pub enum LexOut {
    Tokens(Seq<SpecToken>),
    Errors(Seq<SpecLexError>),
    Aborted,
}

pub open spec fn mk_tok(kind: TokenKind, lexeme: Seq<char>, literal: Option<SpecLiteral>, start: int, end: int) -> SpecToken {
    SpecToken { kind, lexeme, literal, start, end }
}

pub open spec fn mk_err(kind: LexErrorKind, start: int, end: int) -> SpecLexError {
    SpecLexError { kind, start, end }
}

// ---------------------------------------------------------------- words

/// Characters that continue a word.
pub open spec fn is_word_char(c: char) -> bool {
    alphanumeric(c) || c == '_'
}

/// The end of the run of word characters that starts at `i`.
pub open spec fn word_end(s: Seq<char>, i: int) -> int
    decreases s.len() - i,
{
    if 0 <= i < s.len() && is_word_char(s[i]) {
        word_end(s, i + 1)
    } else {
        i
    }
}

/// The reserved words other than the literals, with their kinds.
pub open spec fn keyword_kind(w: Seq<char>) -> Option<TokenKind> {
    if w == "função"@ {
        Some(TokenKind::Function)
    } else if w == "não"@ {
        Some(TokenKind::Not)
    } else if w == "é"@ {
        Some(TokenKind::Equals)
    } else if w == "seja"@ {
        Some(TokenKind::Let)
    } else if w == "se"@ {
        Some(TokenKind::If)
    } else if w == "então"@ {
        Some(TokenKind::Then)
    } else if w == "retorna"@ {
        Some(TokenKind::Return)
    } else if w == "senão"@ {
        Some(TokenKind::Else)
    } else if w == "fim"@ {
        Some(TokenKind::BlockEnd)
    } else if w == "ou"@ {
        Some(TokenKind::Or)
    } else if w == "e"@ {
        Some(TokenKind::And)
    } else if w == "até"@ {
        Some(TokenKind::Until)
    } else if w == "para"@ {
        Some(TokenKind::ForOrBreak)
    } else if w == "cada"@ {
        Some(TokenKind::Each)
    } else if w == "em"@ {
        Some(TokenKind::In)
    } else if w == "tem"@ {
        Some(TokenKind::Has)
    } else if w == "enquanto"@ {
        Some(TokenKind::While)
    } else if w == "faça"@ {
        Some(TokenKind::Do)
    } else if w == "continua"@ {
        Some(TokenKind::Continue)
    } else {
        None
    }
}

/// The token a word stands for: a literal, a reserved word, or an identifier.
pub open spec fn word_token(w: Seq<char>, start: int, end: int) -> SpecToken {
    if w == "verdadeiro"@ {
        mk_tok(TokenKind::True, w, Some(SpecLiteral::Boolean(true)), start, end)
    } else if w == "falso"@ {
        mk_tok(TokenKind::False, w, Some(SpecLiteral::Boolean(false)), start, end)
    } else if w == "Nada"@ {
        mk_tok(TokenKind::Nil, w, Some(SpecLiteral::Nil), start, end)
    } else if keyword_kind(w) is Some {
        mk_tok(keyword_kind(w)->0, w, None, start, end)
    } else {
        mk_tok(TokenKind::Identifier, w, Some(SpecLiteral::Str(w)), start, end)
    }
}

// ---------------------------------------------------------------- comments

/// The position of the first line break at or after `i`, or the end of the source.
pub open spec fn line_end(s: Seq<char>, i: int) -> int
    decreases s.len() - i,
{
    if 0 <= i < s.len() && s[i] != '\n' {
        line_end(s, i + 1)
    } else {
        i
    }
}

/// Tries to read the characters of `e` from `j`: past the end of the source a character is
/// skipped without reading; a different character stops the match. Gives whether it matched and
/// where reading stopped.
pub open spec fn match_seq(s: Seq<char>, j: int, e: Seq<char>) -> (bool, int)
    decreases e.len(),
{
    if e.len() == 0 {
        (true, j)
    } else if 0 <= j < s.len() {
        if s[j] != e[0] {
            (false, j)
        } else {
            match_seq(s, j + 1, e.drop_first())
        }
    } else {
        match_seq(s, j, e.drop_first())
    }
}

/// Matching moves forward and stays within the source.
pub proof fn lemma_match_seq(s: Seq<char>, j: int, e: Seq<char>)
    requires
        0 <= j <= s.len(),
    ensures
        j <= match_seq(s, j, e).1 <= s.len(),
    decreases e.len(),
{
    if e.len() > 0 {
        if j < s.len() {
            if s[j] == e[0] {
                lemma_match_seq(s, j + 1, e.drop_first());
            }
        } else {
            lemma_match_seq(s, j, e.drop_first());
        }
    }
}

/// Where a block comment whose next unread character is at `i` ends: each round reads one
/// character and then tries to read `*/`.
pub open spec fn block_comment_end(s: Seq<char>, i: int) -> int
    decreases s.len() - i,
{
    if 0 <= i < s.len() {
        let (m, j) = match_seq(s, i + 1, "*/"@);
        proof { lemma_match_seq(s, i + 1, "*/"@); }
        if m {
            j
        } else {
            block_comment_end(s, j)
        }
    } else {
        i
    }
}

// ---------------------------------------------------------------- numbers

/// The radix a prefix letter announces, or 0.
pub open spec fn radix_of(c: char) -> u32 {
    if c == 'b' || c == 'B' {
        2
    } else if c == 'o' || c == 'O' {
        8
    } else if c == 'x' || c == 'X' {
        16
    } else {
        0
    }
}

/// The digits of a radix.
pub open spec fn is_radix_digit(r: u32, c: char) -> bool {
    if r == 2 {
        c == '0' || c == '1'
    } else if r == 8 {
        spec_is_octal_digit(c)
    } else {
        spec_is_ascii_hexdigit(c)
    }
}

/// The end of the run of digits and underscores of radix `r` that starts at `i`.
pub open spec fn radix_end(s: Seq<char>, i: int, r: u32) -> int
    decreases s.len() - i,
{
    if 0 <= i < s.len() && (s[i] == '_' || is_radix_digit(r, s[i])) {
        radix_end(s, i + 1, r)
    } else {
        i
    }
}

/// The characters of `t` other than underscores.
pub open spec fn strip_underscores(t: Seq<char>) -> Seq<char> {
    t.filter(|c: char| c != '_')
}

/// Reads the rest of a decimal literal from `i`: digits and underscores, one `.` before any
/// exponent, one exponent with an optional sign. Gives whether it ended well and where; it ends
/// badly on an alphabetic character, at that character.
pub open spec fn decimal_end(s: Seq<char>, i: int, dot: bool, exp: bool) -> (bool, int)
    decreases s.len() - i,
{
    if 0 <= i < s.len() {
        let c = s[i];
        if c == '_' || spec_is_ascii_digit(c) {
            decimal_end(s, i + 1, dot, exp)
        } else if c == '.' && !dot && !exp {
            decimal_end(s, i + 1, true, exp)
        } else if (c == 'e' || c == 'E') && !exp {
            if i + 1 < s.len() && (s[i + 1] == '+' || s[i + 1] == '-') {
                decimal_end(s, i + 2, dot, true)
            } else {
                decimal_end(s, i + 1, dot, true)
            }
        } else if alphabetic(c) {
            (false, i)
        } else {
            (true, i)
        }
    } else {
        (true, i)
    }
}

/// Reading a number literal whose first digit is at `p`.
pub open spec fn number_step(s: Seq<char>, p: int) -> (Step, int) {
    let q = p + 1;
    if s[p] == '0' && q < s.len() && radix_of(s[q]) != 0 {
        let r = radix_of(s[q]);
        let e = radix_end(s, q + 1, r);
        let digits = strip_underscores(s.subrange(q + 1, e));
        if digits.len() == 0 {
            (Step::Fail(mk_err(LexErrorKind::UnexpectedChar(s[q]), p, e)), e)
        } else {
            (
                Step::Emit(
                    mk_tok(
                        TokenKind::Number,
                        seq![s[p], s[q]] + digits,
                        Some(SpecLiteral::Number(SpecNumber::Radix(r, digits))),
                        p,
                        e,
                    ),
                ),
                e,
            )
        }
    } else {
        let (ok, e) = decimal_end(s, q, false, false);
        if !ok {
            (Step::Fail(mk_err(LexErrorKind::UnexpectedChar(s[e]), p, e)), e)
        } else {
            let raw = s.subrange(p, e);
            (
                Step::Emit(
                    mk_tok(
                        TokenKind::Number,
                        raw,
                        Some(SpecLiteral::Number(SpecNumber::Decimal(strip_underscores(raw)))),
                        p,
                        e,
                    ),
                ),
                e,
            )
        }
    }
}

// ---------------------------------------------------------------- strings

/// The character a one-letter escape stands for.
pub open spec fn simple_escape(e: char) -> Option<char> {
    if e == '0' {
        Some('\0')
    } else if e == 'a' {
        Some('\u{7}')
    } else if e == 'b' {
        Some('\u{8}')
    } else if e == 'e' {
        Some('\u{1b}')
    } else if e == 'f' {
        Some('\u{c}')
    } else if e == 'n' {
        Some('\n')
    } else if e == 'r' {
        Some('\r')
    } else if e == 't' {
        Some('\t')
    } else if e == 'v' {
        Some('\u{b}')
    } else if e == '\\' {
        Some('\\')
    } else if e == '\'' {
        Some('\'')
    } else if e == '"' {
        Some('"')
    } else {
        None
    }
}

/// Reading `n` digits of base `base` (16 or 8) from `j`, starting from the value `acc`.
pub enum DigitRun {
    /// The value read, and the position after the digits.
    Read(int, int),
    /// The region of the digit that could not be read.
    Bad(int, int),
}

pub open spec fn is_base_digit(base: int, c: char) -> bool {
    if base == 16 {
        spec_is_ascii_hexdigit(c)
    } else {
        spec_is_octal_digit(c)
    }
}

pub open spec fn digit_run(s: Seq<char>, j: int, n: nat, base: int, acc: int) -> DigitRun
    decreases n,
{
    if n == 0 {
        DigitRun::Read(acc, j)
    } else if j >= s.len() {
        DigitRun::Bad(j, j)
    } else if !is_base_digit(base, s[j]) {
        DigitRun::Bad(j, j + 1)
    } else {
        digit_run(s, j + 1, (n - 1) as nat, base, acc * base + spec_hex_value(s[j]))
    }
}

/// The outcome of reading the body of a string literal.
pub enum StrOut {
    /// The characters of the string, where its closing quote ends, and where its token starts.
    Done(Seq<char>, int, int),
    Fail(SpecLexError),
    Abort,
}

/// The outcome of reading an escape.
pub enum EscRead {
    /// The character it stands for, and the position after it.
    Char(char, int),
    Fail(SpecLexError),
    Abort,
}

/// Reads what follows the escape letter `e`, from `j`: nothing for one-letter escapes, two hex
/// digits for `x`, four for `u`, eight for `U`, two octal digits after an octal digit `1`-`7`.
pub open spec fn escape_read(s: Seq<char>, j: int, e: char) -> EscRead {
    if simple_escape(e) is Some {
        EscRead::Char(simple_escape(e)->0, j)
    } else if e == 'x' || e == 'u' || e == 'U' {
        let n: nat = if e == 'x' { 2 } else if e == 'u' { 4 } else { 8 };
        match digit_run(s, j, n, 16, 0) {
            DigitRun::Bad(a, b) => EscRead::Fail(mk_err(LexErrorKind::InvalidHexEscape, a, b)),
            DigitRun::Read(code, k) => {
                if e == 'x' || (0 <= code <= 0xD7FF || 0xE000 <= code <= 0x10FFFF) {
                    EscRead::Char(code as char, k)
                } else {
                    EscRead::Fail(mk_err(LexErrorKind::InvalidUnicodeEscape, k, k))
                }
            },
        }
    } else if '1' <= e && e <= '7' {
        match digit_run(s, j, 2, 8, e as int - '0' as int) {
            DigitRun::Bad(a, b) => EscRead::Fail(mk_err(LexErrorKind::InvalidOctalEscape, a, b)),
            DigitRun::Read(code, k) => {
                if code > 255 {
                    EscRead::Abort
                } else {
                    EscRead::Char(code as char, k)
                }
            },
        }
    } else {
        EscRead::Fail(mk_err(LexErrorKind::UnknownEscape(e), j, j))
    }
}

/// Reads the body of a string literal from `i`, with the characters read so far in `acc` and
/// the token's start in `st` (each escape moves that start past it).
pub open spec fn string_body(s: Seq<char>, i: int, acc: Seq<char>, st: int) -> StrOut
    decreases s.len() - i,
{
    if i < 0 || i >= s.len() {
        StrOut::Fail(mk_err(LexErrorKind::UnexpectedStringEol, st, i))
    } else {
        let c = s[i];
        if c == '"' {
            StrOut::Done(acc, i + 1, st)
        } else if c == '\n' {
            StrOut::Fail(mk_err(LexErrorKind::UnexpectedStringEol, st, i))
        } else if c == '\\' {
            if i + 1 >= s.len() {
                StrOut::Fail(mk_err(LexErrorKind::UnexpectedStringEol, st, i + 1))
            } else {
                proof { lemma_escape_read(s, i + 2, s[i + 1]); }
                match escape_read(s, i + 2, s[i + 1]) {
                    EscRead::Char(ch, k) => string_body(s, k, acc.push(ch), k),
                    EscRead::Fail(err) => StrOut::Fail(err),
                    EscRead::Abort => StrOut::Abort,
                }
            }
        } else {
            string_body(s, i + 1, acc.push(c), st)
        }
    }
}

/// An escape read from `j` ends within the source, no earlier than `j`.
pub proof fn lemma_escape_read(s: Seq<char>, j: int, e: char)
    requires
        0 <= j <= s.len(),
    ensures
        escape_read(s, j, e) matches EscRead::Char(_, k) ==> j <= k <= s.len(),
        escape_read(s, j, e) matches EscRead::Fail(err) ==> j <= err.end <= s.len(),
{
    if e == 'x' || e == 'u' || e == 'U' {
        let n: nat = if e == 'x' { 2 } else if e == 'u' { 4 } else { 8 };
        lemma_digit_run(s, j, n, 16, 0);
    } else if '1' <= e && e <= '7' {
        lemma_digit_run(s, j, 2, 8, e as int - '0' as int);
    }
}

/// Reading `n > 0` digits from `j` either ends at `j + n`, within the source, or fails at a
/// digit between `j` and `j + n`.
pub proof fn lemma_digit_run(s: Seq<char>, j: int, n: nat, base: int, acc: int)
    requires
        0 <= j <= s.len(),
    ensures
        digit_run(s, j, n, base, acc) matches DigitRun::Read(_, k) ==> k == j + n && k <= s.len()
            || n == 0,
        digit_run(s, j, n, base, acc) matches DigitRun::Bad(a, b) ==> j <= a <= b <= s.len()
            && a < j + n,
    decreases n,
{
    if n > 0 && j < s.len() && is_base_digit(base, s[j]) {
        lemma_digit_run(s, j + 1, (n - 1) as nat, base, acc * base + spec_hex_value(s[j]));
    }
}

// ---------------------------------------------------------------- one token

/// The kind of the last token read so far.
pub open spec fn last_kind(toks: Seq<SpecToken>) -> Option<TokenKind> {
    if toks.len() == 0 {
        None
    } else {
        Some(toks.last().kind)
    }
}

/// A token of one or two characters, read from `p` to `end`.
pub open spec fn punct(kind: TokenKind, lexeme: Seq<char>, p: int, end: int) -> (Step, int) {
    (Step::Emit(mk_tok(kind, lexeme, None, p, end)), end)
}

/// Reading from `p` (which must lie within `s`), after a token of kind `prev`: what is read
/// and where reading goes on.
#[verifier::opaque]
pub open spec fn lex_step(s: Seq<char>, p: int, prev: Option<TokenKind>) -> (Step, int) {
    let c = s[p];
    let q = p + 1;
    let next_is = |d: char| q < s.len() && s[q] == d;
    if c == '\n' {
        if prev is Some && prev->0 != TokenKind::Newline {
            punct(TokenKind::Newline, "\n"@, p, q)
        } else {
            (Step::Skip, q)
        }
    } else if spec_is_whitespace(c) {
        (Step::Skip, q)
    } else if c == '(' {
        punct(TokenKind::LeftParen, "("@, p, q)
    } else if c == ')' {
        punct(TokenKind::RightParen, ")"@, p, q)
    } else if c == '[' {
        punct(TokenKind::LeftBracket, "["@, p, q)
    } else if c == ']' {
        punct(TokenKind::RightBracket, "]"@, p, q)
    } else if c == '{' {
        punct(TokenKind::LeftBrace, "{"@, p, q)
    } else if c == '}' {
        punct(TokenKind::RightBrace, "}"@, p, q)
    } else if c == ':' {
        punct(TokenKind::Colon, ":"@, p, q)
    } else if c == '+' {
        punct(TokenKind::Plus, "+"@, p, q)
    } else if c == '-' {
        if next_is('>') {
            punct(TokenKind::Arrow, "->"@, p, q + 1)
        } else {
            punct(TokenKind::Minus, "-"@, p, q)
        }
    } else if c == '*' {
        punct(TokenKind::Star, "*"@, p, q)
    } else if c == '^' {
        punct(TokenKind::Caret, "^"@, p, q)
    } else if c == '%' {
        punct(TokenKind::Percent, "%"@, p, q)
    } else if c == '=' {
        punct(TokenKind::EqualSign, "="@, p, q)
    } else if c == '"' {
        match string_body(s, q, Seq::empty(), p) {
            StrOut::Done(body, e, st) => (
                Step::Emit(mk_tok(TokenKind::String, body, Some(SpecLiteral::Str(body)), st, e)),
                e,
            ),
            StrOut::Fail(err) => (Step::Fail(err), err.end),
            StrOut::Abort => (Step::Abort, q),
        }
    } else if c == ',' {
        punct(TokenKind::Comma, ","@, p, q)
    } else if c == '.' {
        punct(TokenKind::Dot, "."@, p, q)
    } else if c == '>' {
        if next_is('=') {
            punct(TokenKind::GreaterOrEqual, ">"@, p, q + 1)
        } else {
            punct(TokenKind::Greater, ">"@, p, q)
        }
    } else if c == '<' {
        if next_is('=') {
            punct(TokenKind::LessOrEqual, "<"@, p, q + 1)
        } else {
            punct(TokenKind::Less, "<"@, p, q)
        }
    } else if spec_is_ascii_digit(c) {
        number_step(s, p)
    } else if alphabetic(c) || c == '_' {
        let e = word_end(s, q);
        (Step::Emit(word_token(s.subrange(p, e), p, e)), e)
    } else if c == '/' {
        if next_is('/') {
            (Step::Skip, line_end(s, q))
        } else if next_is('*') {
            (Step::Skip, block_comment_end(s, q))
        } else {
            punct(TokenKind::Slash, "/"@, p, q)
        }
    } else {
        (Step::Fail(mk_err(LexErrorKind::UnexpectedChar(c), p, q)), q)
    }
}

/// Reading the rest of `s` from `p`, with the tokens and errors so far, and whether the last
/// thing read was an error (an error right after another one is not reported).
pub open spec fn lex_from(
    s: Seq<char>,
    p: int,
    toks: Seq<SpecToken>,
    errs: Seq<SpecLexError>,
    had_error: bool,
) -> LexOut
    decreases s.len() - p,
{
    if p < 0 || p >= s.len() {
        let all = toks.push(mk_tok(TokenKind::Eof, "EOF"@, None, s.len() as int, s.len() as int));
        if errs.len() == 0 {
            LexOut::Tokens(all)
        } else {
            LexOut::Errors(errs)
        }
    } else {
        let (step, q) = lex_step(s, p, last_kind(toks));
        proof { lemma_step_advances(s, p, last_kind(toks)); }
        match step {
            Step::Emit(t) => lex_from(s, q, toks.push(t), errs, false),
            Step::Fail(e) => if had_error {
                lex_from(s, q, toks, errs, true)
            } else {
                lex_from(s, q, toks, errs.push(e), true)
            },
            Step::Skip => lex_from(s, q, toks, errs, had_error),
            Step::Abort => LexOut::Aborted,
        }
    }
}

/// Reading a whole source.
pub open spec fn lex(s: Seq<char>) -> LexOut {
    lex_from(s, 0, Seq::empty(), Seq::empty(), false)
}

// ---------------------------------------------------------------- progress

pub proof fn lemma_word_end(s: Seq<char>, i: int)
    requires
        0 <= i <= s.len(),
    ensures
        i <= word_end(s, i) <= s.len(),
    decreases s.len() - i,
{
    if i < s.len() && is_word_char(s[i]) {
        lemma_word_end(s, i + 1);
    }
}

pub proof fn lemma_line_end(s: Seq<char>, i: int)
    requires
        0 <= i <= s.len(),
    ensures
        i <= line_end(s, i) <= s.len(),
    decreases s.len() - i,
{
    if i < s.len() && s[i] != '\n' {
        lemma_line_end(s, i + 1);
    }
}

pub proof fn lemma_block_comment_end(s: Seq<char>, i: int)
    requires
        0 <= i <= s.len(),
    ensures
        i <= block_comment_end(s, i) <= s.len(),
    decreases s.len() - i,
{
    if i < s.len() {
        let (m, j) = match_seq(s, i + 1, "*/"@);
        lemma_match_seq(s, i + 1, "*/"@);
        if !m {
            lemma_block_comment_end(s, j);
        }
    }
}

pub proof fn lemma_radix_end(s: Seq<char>, i: int, r: u32)
    requires
        0 <= i <= s.len(),
    ensures
        i <= radix_end(s, i, r) <= s.len(),
    decreases s.len() - i,
{
    if i < s.len() && (s[i] == '_' || is_radix_digit(r, s[i])) {
        lemma_radix_end(s, i + 1, r);
    }
}

pub proof fn lemma_decimal_end(s: Seq<char>, i: int, dot: bool, exp: bool)
    requires
        0 <= i <= s.len(),
    ensures
        i <= decimal_end(s, i, dot, exp).1 <= s.len(),
        !decimal_end(s, i, dot, exp).0 ==> decimal_end(s, i, dot, exp).1 < s.len(),
    decreases s.len() - i,
{
    if i < s.len() {
        let c = s[i];
        if c == '_' || spec_is_ascii_digit(c) {
            lemma_decimal_end(s, i + 1, dot, exp);
        } else if c == '.' && !dot && !exp {
            lemma_decimal_end(s, i + 1, true, exp);
        } else if (c == 'e' || c == 'E') && !exp {
            if i + 1 < s.len() && (s[i + 1] == '+' || s[i + 1] == '-') {
                lemma_decimal_end(s, i + 2, dot, true);
            } else {
                lemma_decimal_end(s, i + 1, dot, true);
            }
        }
    }
}

pub proof fn lemma_string_body(s: Seq<char>, i: int, acc: Seq<char>, st: int)
    requires
        0 <= i <= s.len(),
    ensures
        string_body(s, i, acc, st) matches StrOut::Done(_, e, _) ==> i < e <= s.len(),
        string_body(s, i, acc, st) matches StrOut::Done(_, e, st2) ==> (st <= i ==> st <= st2 < e),
        string_body(s, i, acc, st) matches StrOut::Fail(err) ==> i <= err.end <= s.len(),
    decreases s.len() - i,
{
    if i < s.len() {
        let c = s[i];
        if c == '\\' {
            if i + 1 < s.len() {
                lemma_escape_read(s, i + 2, s[i + 1]);
                match escape_read(s, i + 2, s[i + 1]) {
                    EscRead::Char(ch, k) => lemma_string_body(s, k, acc.push(ch), k),
                    _ => {},
                }
            }
        } else if c != '"' && c != '\n' {
            lemma_string_body(s, i + 1, acc.push(c), st);
        }
    }
}

/// Reading from a position within the source always moves forward and stays within it.
pub proof fn lemma_step_advances(s: Seq<char>, p: int, prev: Option<TokenKind>)
    requires
        0 <= p < s.len(),
    ensures
        p < lex_step(s, p, prev).1 <= s.len(),
{
    reveal(lex_step);
    let c = s[p];
    let q = p + 1;
    if c == '"' {
        lemma_string_body(s, q, Seq::empty(), p);
    } else if spec_is_ascii_digit(c) {
        if s[p] == '0' && q < s.len() && radix_of(s[q]) != 0 {
            lemma_radix_end(s, q + 1, radix_of(s[q]));
        } else {
            lemma_decimal_end(s, q, false, false);
        }
    } else if alphabetic(c) || c == '_' {
        lemma_word_end(s, q);
    } else if c == '/' {
        lemma_line_end(s, q);
        lemma_block_comment_end(s, q);
    }
}

} // verus!
