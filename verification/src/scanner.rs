//! The scanner: turns the characters of a source into tokens.

use vstd::prelude::*;
use crate::source::IdentifiedSource;
use crate::source_iter::SourceIter;
use crate::token::{Token, TokenKind, Literal, NumberLiteral, SpecToken, SpecLiteral};
use crate::scanner_error::{LexicalError, SpecLexError, LexErrorKind};
use crate::text::{is_whitespace, is_alphabetic, is_alphanumeric, is_ascii_digit, is_ascii_hexdigit, is_octal_digit, hex_value, char_from_byte, chars_of, char_from_u32, push_char, spec_is_ascii_hexdigit, spec_is_octal_digit, spec_hex_value, spec_is_ascii_digit};
use crate::lexer_laws::{token_stream_shape, lex_output_shape};
use crate::lexer_spec::{Step, LexOut, StrOut, EscRead, DigitRun, lex_step, lex_from, last_kind, word_end, word_token, line_end, match_seq, block_comment_end, radix_of, radix_end, strip_underscores, decimal_end, number_step, escape_read, string_body, digit_run, mk_tok, mk_err, lemma_step_advances, lemma_match_seq, lemma_escape_read};

verus! {

/// Reads the tokens of one source.
pub struct Scanner {
    source: SourceIter,
}

/// The models of a list of tokens.
pub open spec fn token_views(v: Seq<Token>) -> Seq<SpecToken> {
    v.map_values(|t: Token| t@)
}

/// The models of a list of errors.
pub open spec fn error_views(v: Seq<LexicalError>) -> Seq<SpecLexError> {
    v.map_values(|e: LexicalError| e@)
}

/// What a call that reads one token gives, against what the grammar says it reads.
pub open spec fn step_matches(step: Step, r: Option<Result<Option<Token>, LexicalError>>) -> bool {
    match step {
        Step::Emit(t) => r matches Some(Ok(Some(tok))) && tok@ == t,
        Step::Skip => r matches Some(Ok(None)),
        Step::Fail(e) => r matches Some(Err(err)) && err@ == e,
        Step::Abort => r is None,
    }
}

/// What reading a whole source gives, against what the grammar says.
pub open spec fn outcome_matches(out: LexOut, r: Option<Result<Vec<Token>, Vec<LexicalError>>>) -> bool {
    match out {
        LexOut::Tokens(ts) => r matches Some(Ok(v)) && token_views(v@) == ts,
        LexOut::Errors(es) => r matches Some(Err(v)) && error_views(v@) == es,
        LexOut::Aborted => r is None,
    }
}

/// Sixteen to the power `k`.
pub open spec fn pow16(k: nat) -> int
    decreases k,
{
    if k == 0 {
        1
    } else {
        16 * pow16((k - 1) as nat)
    }
}

/// Up to eight hexadecimal digits fit in 32 bits.
proof fn lemma_pow16_bound(k: nat)
    requires
        k <= 8,
    ensures
        1 <= pow16(k) <= 0x1_0000_0000,
{
    reveal_with_fuel(pow16, 9);
    if k == 0 {
    } else if k == 1 {
    } else if k == 2 {
    } else if k == 3 {
    } else if k == 4 {
    } else if k == 5 {
    } else if k == 6 {
    } else if k == 7 {
    } else {
        assert(k == 8);
    }
}

/// The strip of underscores grows by the next character unless it is one.
proof fn lemma_strip_push(s: Seq<char>, a: int, i: int)
    requires
        0 <= a <= i < s.len(),
    ensures
        strip_underscores(s.subrange(a, i + 1)) == if s[i] == '_' {
            strip_underscores(s.subrange(a, i))
        } else {
            strip_underscores(s.subrange(a, i)).push(s[i])
        },
{
    let t = s.subrange(a, i + 1);
    assert(t.drop_last() =~= s.subrange(a, i));
    assert(t.last() == s[i]);
    reveal(Seq::filter);
}

impl Scanner {
    /// The characters of the source.
    pub closed spec fn text(&self) -> Seq<char> {
        self.source.text()
    }

    /// How many characters have been read.
    pub closed spec fn pos(&self) -> int {
        self.source.pos()
    }

    /// The source being read.
    pub closed spec fn id(&self) -> IdentifiedSource {
        self.source.id()
    }

    /// Between tokens: nothing is pending.
    pub closed spec fn wf(&self) -> bool {
        self.source.wf() && self.source.start() == self.source.pos()
    }

    /// A scanner at the beginning of `source`.
    pub fn new(source: &str, source_id: IdentifiedSource) -> (r: Scanner)
        ensures
            r.wf(),
            r.text() == source@,
            r.pos() == 0,
            r.id() == source_id,
    {
        Scanner { source: SourceIter::new(source, source_id) }
    }

    /// Reads the rest of a word whose first character has been read.
    fn consume_identifier(&mut self, first: char) -> (r: Token)
        requires
            old(self).source.wf(),
            1 <= old(self).source.pos(),
            old(self).source.start() == old(self).source.pos() - 1,
            old(self).source.text()[old(self).source.pos() - 1] == first,
        ensures
            final(self).source.wf(),
            final(self).source.text() == old(self).source.text(),
            final(self).source.id() == old(self).source.id(),
            final(self).source.pos() == word_end(old(self).source.text(), old(self).source.pos()),
            final(self).source.start() == final(self).source.pos(),
            r@ == word_token(
                old(self).source.text().subrange(old(self).source.start(), final(self).source.pos()),
                old(self).source.start(),
                final(self).source.pos(),
            ),
            r.span.source == old(self).source.id(),
            r.span.label is None,
    {
        let ghost s = self.source.text();
        let ghost p = self.source.start();
        let mut identifier = String::new();
        push_char(&mut identifier, first);
        assert(identifier@ =~= s.subrange(p, p + 1));
        loop
            invariant
                self.source.wf(),
                self.source.text() == s,
                self.source.id() == old(self).source.id(),
                self.source.start() == p,
                p < self.source.pos() <= s.len(),
                identifier@ == s.subrange(p, self.source.pos()),
                word_end(s, self.source.pos()) == word_end(s, p + 1),
            ensures
                word_end(s, self.source.pos()) == self.source.pos(),
            decreases s.len() - self.source.pos(),
        {
            match self.source.peek() {
                Some(pk) => {
                    let peeked = *pk;
                    if is_alphanumeric(peeked) || peeked == '_' {
                        let ghost i = self.source.pos();
                        push_char(&mut identifier, peeked);
                        self.source.next();
                        assert(s.subrange(p, i + 1) =~= s.subrange(p, i).push(s[i]));
                    } else {
                        assert(word_end(s, self.source.pos()) == self.source.pos());
                        break;
                    }
                },
                None => {
                    assert(word_end(s, self.source.pos()) == self.source.pos());
                    break;
                },
            }
        }
        let ghost e = self.source.pos();
        let ghost w = s.subrange(p, e);
        if identifier == String::from_str("verdadeiro") {
            self.source.consume_token_with_literal(TokenKind::True, identifier, Literal::Boolean(true))
        } else if identifier == String::from_str("falso") {
            self.source.consume_token_with_literal(TokenKind::False, identifier, Literal::Boolean(false))
        } else if identifier == String::from_str("Nada") {
            self.source.consume_token_with_literal(TokenKind::Nil, identifier, Literal::Nil)
        } else if identifier == String::from_str("função") {
            self.source.consume_token(TokenKind::Function, "função")
        } else if identifier == String::from_str("não") {
            self.source.consume_token(TokenKind::Not, "não")
        } else if identifier == String::from_str("é") {
            self.source.consume_token(TokenKind::Equals, "é")
        } else if identifier == String::from_str("seja") {
            self.source.consume_token(TokenKind::Let, "seja")
        } else if identifier == String::from_str("se") {
            self.source.consume_token(TokenKind::If, "se")
        } else if identifier == String::from_str("então") {
            self.source.consume_token(TokenKind::Then, "então")
        } else if identifier == String::from_str("retorna") {
            self.source.consume_token(TokenKind::Return, "retorna")
        } else if identifier == String::from_str("senão") {
            self.source.consume_token(TokenKind::Else, "senão")
        } else if identifier == String::from_str("fim") {
            self.source.consume_token(TokenKind::BlockEnd, "fim")
        } else if identifier == String::from_str("ou") {
            self.source.consume_token(TokenKind::Or, "ou")
        } else if identifier == String::from_str("e") {
            self.source.consume_token(TokenKind::And, "e")
        } else if identifier == String::from_str("até") {
            self.source.consume_token(TokenKind::Until, "até")
        } else if identifier == String::from_str("para") {
            self.source.consume_token(TokenKind::ForOrBreak, "para")
        } else if identifier == String::from_str("cada") {
            self.source.consume_token(TokenKind::Each, "cada")
        } else if identifier == String::from_str("em") {
            self.source.consume_token(TokenKind::In, "em")
        } else if identifier == String::from_str("tem") {
            self.source.consume_token(TokenKind::Has, "tem")
        } else if identifier == String::from_str("enquanto") {
            self.source.consume_token(TokenKind::While, "enquanto")
        } else if identifier == String::from_str("faça") {
            self.source.consume_token(TokenKind::Do, "faça")
        } else if identifier == String::from_str("continua") {
            self.source.consume_token(TokenKind::Continue, "continua")
        } else {
            let lexeme = identifier.clone();
            self.source.consume_token_with_literal(
                TokenKind::Identifier,
                lexeme,
                Literal::String(identifier),
            )
        }
    }

    /// Skips a line comment up to, not including, the line break.
    fn consume_comment(&mut self)
        requires
            old(self).source.wf(),
        ensures
            final(self).source.wf(),
            final(self).source.text() == old(self).source.text(),
            final(self).source.id() == old(self).source.id(),
            final(self).source.pos() == line_end(old(self).source.text(), old(self).source.pos()),
            final(self).source.start() == final(self).source.pos(),
    {
        let ghost s = self.source.text();
        let ghost i0 = self.source.pos();
        loop
            invariant
                self.source.wf(),
                self.source.text() == s,
                self.source.id() == old(self).source.id(),
                i0 <= self.source.pos() <= s.len(),
                line_end(s, self.source.pos()) == line_end(s, i0),
            ensures
                line_end(s, self.source.pos()) == self.source.pos(),
            decreases s.len() - self.source.pos(),
        {
            match self.source.peek() {
                Some(pk) => {
                    let peeked = *pk;
                    if peeked == '\n' {
                        assert(line_end(s, self.source.pos()) == self.source.pos());
                        break;
                    }
                    self.source.next();
                },
                None => {
                    assert(line_end(s, self.source.pos()) == self.source.pos());
                    break;
                },
            }
        }
        self.source.ignore_char();
    }

    /// Reads the characters of `expected` as long as they are the next ones; past the end of
    /// the source a character is skipped.
    fn peek_match(&mut self, expected: &str) -> (r: bool)
        requires
            old(self).source.wf(),
        ensures
            final(self).source.wf(),
            final(self).source.text() == old(self).source.text(),
            final(self).source.id() == old(self).source.id(),
            final(self).source.start() == old(self).source.start(),
            (r, final(self).source.pos()) == match_seq(
                old(self).source.text(),
                old(self).source.pos(),
                expected@,
            ),
    {
        let ghost s = self.source.text();
        let exp = chars_of(expected);
        let ghost target = match_seq(s, self.source.pos(), exp@);
        let mut k: usize = 0;
        assert(exp@.skip(0) =~= exp@);
        while k < exp.len()
            invariant
                self.source.wf(),
                self.source.text() == s,
                self.source.id() == old(self).source.id(),
                self.source.start() == old(self).source.start(),
                k <= exp.len(),
                s == old(self).source.text(),
                exp@ == expected@,
                target == match_seq(s, old(self).source.pos(), expected@),
                match_seq(s, self.source.pos(), exp@.skip(k as int)) == target,
            decreases exp.len() - k,
        {
            let c = exp[k];
            let ghost rest = exp@.skip(k as int);
            assert(rest[0] == c);
            assert(rest.drop_first() =~= exp@.skip(k + 1));
            match self.source.peek() {
                Some(pk) => {
                    let peeked = *pk;
                    if peeked != c {
                        return false;
                    }
                    self.source.next();
                },
                None => {},
            }
            k = k + 1;
        }
        assert(exp@.skip(exp@.len() as int) =~= Seq::<char>::empty());
        true
    }

    /// Skips a block comment: reads a character, then tries to read `*/`, until that matches
    /// or the source ends.
    fn consume_multiline_comment(&mut self)
        requires
            old(self).source.wf(),
        ensures
            final(self).source.wf(),
            final(self).source.text() == old(self).source.text(),
            final(self).source.id() == old(self).source.id(),
            final(self).source.pos() == block_comment_end(
                old(self).source.text(),
                old(self).source.pos(),
            ),
            final(self).source.start() == final(self).source.pos(),
    {
        let ghost s = self.source.text();
        let ghost i0 = self.source.pos();
        loop
            invariant_except_break
                block_comment_end(s, self.source.pos()) == block_comment_end(s, i0),
            invariant
                self.source.wf(),
                self.source.text() == s,
                self.source.id() == old(self).source.id(),
                i0 <= self.source.pos() <= s.len(),
            ensures
                self.source.pos() == block_comment_end(s, i0),
            decreases s.len() - self.source.pos(),
        {
            let ghost i = self.source.pos();
            match self.source.next() {
                Some(_) => {
                    proof { lemma_match_seq(s, i + 1, "*/"@); }
                    if self.peek_match("*/") {
                        break;
                    }
                },
                None => {
                    break;
                },
            }
        }
        self.source.ignore_char();
    }

    /// Reads a hexadecimal digit of an escape; the next token starts after it.
    fn read_hex_digit(&mut self) -> (r: Result<char, LexicalError>)
        requires
            old(self).source.wf(),
            old(self).source.start() == old(self).source.pos(),
        ensures
            r matches Err(e) ==> e.spec_span().source == old(self).source.id() && e.spec_span().label is None,
            final(self).source.wf(),
            final(self).source.text() == old(self).source.text(),
            final(self).source.id() == old(self).source.id(),
            final(self).source.start() == final(self).source.pos(),
            ({
                let s = old(self).source.text();
                let j = old(self).source.pos();
                &&& (j < s.len() && spec_is_ascii_hexdigit(s[j])) ==> r == Ok::<char, LexicalError>(s[j])
                    && final(self).source.pos() == j + 1
                &&& (j < s.len() && !spec_is_ascii_hexdigit(s[j])) ==> (r matches Err(e) && e@ == mk_err(
                    LexErrorKind::InvalidHexEscape,
                    j,
                    j + 1,
                ) && final(self).source.pos() == j + 1)
                &&& j >= s.len() ==> (r matches Err(e) && e@ == mk_err(
                    LexErrorKind::InvalidHexEscape,
                    j,
                    j,
                ) && final(self).source.pos() == j)
            }),
    {
        let c = self.source.next();
        let span = self.source.consume_span();
        match c {
            Some(h) => {
                if is_ascii_hexdigit(h) {
                    Ok(h)
                } else {
                    Err(LexicalError::InvalidHexEscape { span })
                }
            },
            None => Err(LexicalError::InvalidHexEscape { span }),
        }
    }

    /// Reads an octal digit of an escape; the next token starts after it.
    fn read_octal_digit(&mut self) -> (r: Result<char, LexicalError>)
        requires
            old(self).source.wf(),
            old(self).source.start() == old(self).source.pos(),
        ensures
            r matches Err(e) ==> e.spec_span().source == old(self).source.id() && e.spec_span().label is None,
            final(self).source.wf(),
            final(self).source.text() == old(self).source.text(),
            final(self).source.id() == old(self).source.id(),
            final(self).source.start() == final(self).source.pos(),
            ({
                let s = old(self).source.text();
                let j = old(self).source.pos();
                &&& (j < s.len() && spec_is_octal_digit(s[j])) ==> r == Ok::<char, LexicalError>(s[j])
                    && final(self).source.pos() == j + 1
                &&& (j < s.len() && !spec_is_octal_digit(s[j])) ==> (r matches Err(e) && e@ == mk_err(
                    LexErrorKind::InvalidOctalEscape,
                    j,
                    j + 1,
                ) && final(self).source.pos() == j + 1)
                &&& j >= s.len() ==> (r matches Err(e) && e@ == mk_err(
                    LexErrorKind::InvalidOctalEscape,
                    j,
                    j,
                ) && final(self).source.pos() == j)
            }),
    {
        let c = self.source.next();
        let span = self.source.consume_span();
        match c {
            Some(d) => {
                if is_octal_digit(d) {
                    Ok(d)
                } else {
                    Err(LexicalError::InvalidOctalEscape { span })
                }
            },
            None => Err(LexicalError::InvalidOctalEscape { span }),
        }
    }

    /// Reads `n` hexadecimal digits of an escape and gives their value.
    fn read_n_hex(&mut self, n: usize) -> (r: Result<u32, LexicalError>)
        requires
            old(self).source.wf(),
            old(self).source.start() == old(self).source.pos(),
            n <= 8,
        ensures
            r matches Err(e) ==> e.spec_span().source == old(self).source.id() && e.spec_span().label is None,
            final(self).source.wf(),
            final(self).source.text() == old(self).source.text(),
            final(self).source.id() == old(self).source.id(),
            final(self).source.start() == final(self).source.pos(),
            match digit_run(old(self).source.text(), old(self).source.pos(), n as nat, 16, 0) {
                DigitRun::Read(v, k) => r matches Ok(code) && code as int == v
                    && final(self).source.pos() == k,
                DigitRun::Bad(a, b) => r matches Err(e) && e@ == mk_err(
                    LexErrorKind::InvalidHexEscape,
                    a,
                    b,
                ) && final(self).source.pos() == b,
            },
    {
        let ghost s = self.source.text();
        let ghost j0 = self.source.pos();
        let ghost target = digit_run(s, j0, n as nat, 16, 0);
        let mut acc: u64 = 0;
        let mut k: usize = 0;
        proof { lemma_pow16_bound(0); }
        while k < n
            invariant
                self.source.wf(),
                self.source.text() == s,
                self.source.id() == old(self).source.id(),
                self.source.start() == self.source.pos(),
                s == old(self).source.text(),
                target == digit_run(s, j0, n as nat, 16, 0),
                j0 == old(self).source.pos(),
                k <= n <= 8,
                acc < pow16(k as nat),
                digit_run(s, self.source.pos(), (n - k) as nat, 16, acc as int) == target,
            decreases n - k,
        {
            let ghost j = self.source.pos();
            proof { lemma_pow16_bound(k as nat); }
            let d = self.read_hex_digit();
            match d {
                Ok(h) => {
                    let v = hex_value(h);
                    assert(digit_run(s, j, (n - k) as nat, 16, acc as int) == digit_run(
                        s,
                        j + 1,
                        (n - k - 1) as nat,
                        16,
                        acc * 16 + spec_hex_value(s[j]),
                    ));
                    acc = acc * 16 + v as u64;
                    k = k + 1;
                },
                Err(e) => {
                    proof {
                        if j >= s.len() {
                            assert(digit_run(s, j, (n - k) as nat, 16, acc as int) == DigitRun::Bad(
                                j,
                                j,
                            ));
                        } else {
                            assert(digit_run(s, j, (n - k) as nat, 16, acc as int) == DigitRun::Bad(
                                j,
                                j + 1,
                            ));
                        }
                    }
                    return Err(e);
                },
            }
        }
        proof { lemma_pow16_bound(n as nat); }
        Ok(acc as u32)
    }

    /// Reads what follows the escape letter `esc` and gives the character the escape stands
    /// for; `None` where the octal value exceeds a byte.
    fn resolve_escape(&mut self, esc: char) -> (r: Option<Result<char, LexicalError>>)
        requires
            old(self).source.wf(),
            old(self).source.start() == old(self).source.pos(),
        ensures
            r matches Some(Err(e)) ==> e.spec_span().source == old(self).source.id() && e.spec_span().label is None,
            final(self).source.text() == old(self).source.text(),
            final(self).source.id() == old(self).source.id(),
            match escape_read(old(self).source.text(), old(self).source.pos(), esc) {
                EscRead::Char(ch, k) => r == Some(Ok::<char, LexicalError>(ch))
                    && final(self).source.pos() == k && final(self).source.wf()
                    && final(self).source.start() == k,
                EscRead::Fail(err) => r matches Some(Err(e)) && e@ == err && final(self).source.wf()
                    && final(self).source.pos() == err.end && final(self).source.start()
                    == err.end,
                EscRead::Abort => r is None,
            },
    {
        let ghost s = self.source.text();
        let ghost j = self.source.pos();
        if esc == '0' {
            Some(Ok('\0'))
        } else if esc == 'a' {
            Some(Ok('\u{7}'))
        } else if esc == 'b' {
            Some(Ok('\u{8}'))
        } else if esc == 'e' {
            Some(Ok('\u{1b}'))
        } else if esc == 'f' {
            Some(Ok('\u{c}'))
        } else if esc == 'n' {
            Some(Ok('\n'))
        } else if esc == 'r' {
            Some(Ok('\r'))
        } else if esc == 't' {
            Some(Ok('\t'))
        } else if esc == 'v' {
            Some(Ok('\u{b}'))
        } else if esc == '\\' {
            Some(Ok('\\'))
        } else if esc == '\'' {
            Some(Ok('\''))
        } else if esc == '"' {
            Some(Ok('"'))
        } else if esc == 'x' {
            let hi = match self.read_hex_digit() {
                Ok(h) => h,
                Err(e) => return Some(Err(e)),
            };
            assert(digit_run(s, j, 2, 16, 0) == digit_run(s, j + 1, 1, 16, spec_hex_value(s[j])));
            let lo = match self.read_hex_digit() {
                Ok(l) => l,
                Err(e) => return Some(Err(e)),
            };
            assert(digit_run(s, j + 1, 1, 16, spec_hex_value(s[j])) == digit_run(
                s,
                j + 2,
                0,
                16,
                spec_hex_value(s[j]) * 16 + spec_hex_value(s[j + 1]),
            ));
            let v = hex_value(hi) * 16 + hex_value(lo);
            let c = char_from_byte(v as u8);
            assert(c == (v as int) as char);
            Some(Ok(c))
        } else if esc == 'u' || esc == 'U' {
            let n: usize = if esc == 'u' { 4 } else { 8 };
            let code = match self.read_n_hex(n) {
                Ok(code) => code,
                Err(e) => return Some(Err(e)),
            };
            match char_from_u32(code) {
                Some(c) => Some(Ok(c)),
                None => Some(Err(LexicalError::InvalidUnicodeEscape { span: self.source.consume_span() })),
            }
        } else if '1' <= esc && esc <= '7' {
            let ghost d0 = esc as int - '0' as int;
            let d2 = match self.read_octal_digit() {
                Ok(d) => d,
                Err(e) => return Some(Err(e)),
            };
            assert(digit_run(s, j, 2, 8, d0) == digit_run(s, j + 1, 1, 8, d0 * 8 + spec_hex_value(s[j])));
            let d3 = match self.read_octal_digit() {
                Ok(d) => d,
                Err(e) => return Some(Err(e)),
            };
            assert(digit_run(s, j + 1, 1, 8, d0 * 8 + spec_hex_value(s[j])) == digit_run(
                s,
                j + 2,
                0,
                8,
                (d0 * 8 + spec_hex_value(s[j])) * 8 + spec_hex_value(s[j + 1]),
            ));
            let v = ((esc as u32) - ('0' as u32)) * 64 + ((d2 as u32) - ('0' as u32)) * 8 + ((d3 as u32)
                - ('0' as u32));
            if v > 255 {
                None
            } else {
                Some(Ok(char_from_byte(v as u8)))
            }
        } else {
            Some(Err(LexicalError::UnknownEscape { span: self.source.consume_span(), found: esc }))
        }
    }

    /// Reads a string literal whose opening quote has been read.
    ///
    /// The span of the text read so far is taken, and a new one begun, at every backslash: the
    /// error for a missing escape character is built before the character is read, whether or
    /// not it is needed. So a literal with escapes gets the span that starts just after its last
    /// escape (in `"a\x41\t"` that is the closing quote alone, columns 8 to 9), and an unknown
    /// escape reports the empty span at that point (in `"ab\q"`, 5 to 5); a literal without
    /// escapes spans from its opening quote to its closing one.
    fn consume_string(&mut self) -> (r: Option<Result<Token, LexicalError>>)
        requires
            old(self).source.wf(),
            1 <= old(self).source.pos(),
            old(self).source.start() == old(self).source.pos() - 1,
        ensures
            r matches Some(Err(e)) ==> e.spec_span().source == old(self).source.id() && e.spec_span().label is None,
            final(self).source.text() == old(self).source.text(),
            final(self).source.id() == old(self).source.id(),
            match string_body(
                old(self).source.text(),
                old(self).source.pos(),
                Seq::empty(),
                old(self).source.start(),
            ) {
                StrOut::Done(body, e, st) => r matches Some(Ok(t)) && t@ == mk_tok(
                    TokenKind::String,
                    body,
                    Some(SpecLiteral::Str(body)),
                    st,
                    e,
                ) && t.span.source == old(self).source.id() && t.span.label is None && final(self).source.wf()
                    && final(self).source.pos() == e && final(self).source.start() == e,
                StrOut::Fail(err) => r matches Some(Err(e)) && e@ == err && final(self).source.wf()
                    && final(self).source.pos() == err.end && final(self).source.start()
                    == err.end,
                StrOut::Abort => r is None,
            },
    {
        let ghost s = self.source.text();
        let ghost target = string_body(s, self.source.pos(), Seq::empty(), self.source.start());
        let mut buf = String::new();
        loop
            invariant
                self.source.wf(),
                self.source.text() == s,
                s == old(self).source.text(),
                self.source.id() == old(self).source.id(),
                target == string_body(
                    old(self).source.text(),
                    old(self).source.pos(),
                    Seq::empty(),
                    old(self).source.start(),
                ),
                string_body(s, self.source.pos(), buf@, self.source.start()) == target,
            decreases s.len() - self.source.pos(),
        {
            let ghost i = self.source.pos();
            let ghost st = self.source.start();
            let ch = match self.source.peek() {
                Some(pk) => *pk,
                None => {
                    return Some(Err(LexicalError::UnexpectedStringEol { span: self.source.consume_span() }));
                },
            };
            if ch == '"' {
                self.source.next();
                let literal = buf.clone();
                proof {
                    assert(literal@ == buf@);
                }
                let lexeme = buf;
                return Some(Ok(self.source.consume_token_with_literal(TokenKind::String, lexeme, Literal::String(literal))));
            } else if ch == '\n' {
                return Some(Err(LexicalError::UnexpectedStringEol { span: self.source.consume_span() }));
            } else if ch == '\\' {
                self.source.next();
                let esc = self.source.next();
                let span = self.source.consume_span();
                let esc = match esc {
                    Some(e) => e,
                    None => {
                        return Some(Err(LexicalError::UnexpectedStringEol { span }));
                    },
                };
                proof { lemma_escape_read(s, i + 2, esc); }
                match self.resolve_escape(esc) {
                    Some(Ok(c)) => {
                        push_char(&mut buf, c);
                    },
                    Some(Err(e)) => {
                        return Some(Err(e));
                    },
                    None => {
                        return None;
                    },
                }
            } else {
                push_char(&mut buf, ch);
                self.source.next();
            }
        }
    }

    /// Reads a number literal whose first digit has been read.
    fn consume_number(&mut self, first: char) -> (r: Result<Token, LexicalError>)
        requires
            old(self).source.wf(),
            1 <= old(self).source.pos(),
            old(self).source.start() == old(self).source.pos() - 1,
            old(self).source.text()[old(self).source.pos() - 1] == first,
            spec_is_ascii_digit(first),
        ensures
            r matches Err(e) ==> e.spec_span().source == old(self).source.id() && e.spec_span().label is None,
            final(self).source.wf(),
            final(self).source.text() == old(self).source.text(),
            final(self).source.id() == old(self).source.id(),
            final(self).source.start() == final(self).source.pos(),
            ({
                let (step, q) = number_step(old(self).source.text(), old(self).source.start());
                &&& final(self).source.pos() == q
                &&& match step {
                    Step::Emit(t) => r matches Ok(tok) && tok@ == t && tok.span.source
                        == old(self).source.id() && tok.span.label is None,
                    Step::Fail(e) => r matches Err(err) && err@ == e,
                    _ => false,
                }
            }),
    {
        let ghost s = self.source.text();
        let ghost p = self.source.start();
        let mut raw = String::new();
        push_char(&mut raw, first);
        if first == '0' {
            let next_opt = match self.source.peek() {
                Some(pk) => Some(*pk),
                None => None,
            };
            if let Some(next) = next_opt {
                let radix: u32 = if next == 'b' || next == 'B' {
                    2
                } else if next == 'o' || next == 'O' {
                    8
                } else if next == 'x' || next == 'X' {
                    16
                } else {
                    0
                };
                if radix != 0 {
                    let ghost q = p + 1;
                    self.source.next();
                    push_char(&mut raw, next);
                    assert(raw@ =~= seq![s[p], s[q]]);
                    let mut digits = String::new();
                    let mut count: usize = 0;
                    assert(s.subrange(q + 1, q + 1) =~= Seq::<char>::empty());
                    assert(strip_underscores(Seq::<char>::empty()) =~= Seq::<char>::empty()) by {
                        reveal(Seq::filter);
                    }
                    loop
                        invariant
                            self.source.wf(),
                            self.source.text() == s,
                            s == old(self).source.text(),
                            self.source.id() == old(self).source.id(),
                            self.source.start() == p,
                            p == old(self).source.start(),
                            q == p + 1,
                            q < s.len(),
                            radix == radix_of(s[q]),
                            radix != 0,
                            q + 1 <= self.source.pos() <= s.len(),
                            radix_end(s, self.source.pos(), radix) == radix_end(s, q + 1, radix),
                            digits@ == strip_underscores(s.subrange(q + 1, self.source.pos())),
                            count == digits@.len(),
                            count <= self.source.pos() - (q + 1),
                            raw@ == seq![s[p], s[q]] + digits@,
                        ensures
                            radix_end(s, self.source.pos(), radix) == self.source.pos(),
                        decreases s.len() - self.source.pos(),
                    {
                        let ghost i = self.source.pos();
                        let ch = match self.source.peek() {
                            Some(pk) => *pk,
                            None => {
                                break;
                            },
                        };
                        proof { lemma_strip_push(s, q + 1, i); }
                        if ch == '_' {
                            self.source.next();
                        } else {
                            let valid = if radix == 2 {
                                ch == '0' || ch == '1'
                            } else if radix == 8 {
                                is_octal_digit(ch)
                            } else {
                                is_ascii_hexdigit(ch)
                            };
                            if valid {
                                push_char(&mut digits, ch);
                                push_char(&mut raw, ch);
                                count = count + 1;
                                self.source.next();
                            } else {
                                break;
                            }
                        }
                    }
                    if count == 0 {
                        return Err(LexicalError::UnexpectedChar { character: next, span: self.source.consume_span() });
                    }
                    return Ok(self.source.consume_token_with_literal(
                        TokenKind::Number,
                        raw,
                        Literal::Number(NumberLiteral::Radix(radix, digits)),
                    ));
                }
            }
        }
        let mut matched_dot = false;
        let mut matched_exp = false;
        let mut cleaned = String::new();
        push_char(&mut cleaned, first);
        proof {
            lemma_strip_push(s, p, p);
            assert(s.subrange(p, p) =~= Seq::<char>::empty());
            assert(strip_underscores(Seq::<char>::empty()) =~= Seq::<char>::empty()) by {
                reveal(Seq::filter);
            }
            assert(raw@ =~= s.subrange(p, p + 1));
        }
        loop
            invariant
                self.source.wf(),
                self.source.text() == s,
                s == old(self).source.text(),
                self.source.id() == old(self).source.id(),
                self.source.start() == p,
                p == old(self).source.start(),
                p + 1 <= self.source.pos() <= s.len(),
                spec_is_ascii_digit(first),
                !(s[p] == '0' && p + 1 < s.len() && radix_of(s[p + 1]) != 0),
                s[p] == first,
                decimal_end(s, self.source.pos(), matched_dot, matched_exp) == decimal_end(s, p + 1, false, false),
                raw@ == s.subrange(p, self.source.pos()),
                cleaned@ == strip_underscores(raw@),
            ensures
                decimal_end(s, self.source.pos(), matched_dot, matched_exp) == (true, self.source.pos() as int),
            decreases s.len() - self.source.pos(),
        {
            let ghost i = self.source.pos();
            let ch = match self.source.peek() {
                Some(pk) => *pk,
                None => {
                    break;
                },
            };
            proof { lemma_strip_push(s, p, i); }
            if ch == '_' || is_ascii_digit(ch) {
                push_char(&mut raw, ch);
                if ch != '_' {
                    push_char(&mut cleaned, ch);
                }
                self.source.next();
                assert(raw@ =~= s.subrange(p, i + 1));
            } else if ch == '.' && !matched_dot && !matched_exp {
                matched_dot = true;
                push_char(&mut raw, ch);
                push_char(&mut cleaned, ch);
                self.source.next();
                assert(raw@ =~= s.subrange(p, i + 1));
            } else if (ch == 'e' || ch == 'E') && !matched_exp {
                matched_exp = true;
                push_char(&mut raw, ch);
                push_char(&mut cleaned, ch);
                self.source.next();
                assert(raw@ =~= s.subrange(p, i + 1));
                let sign = match self.source.peek() {
                    Some(pk) => *pk,
                    None => ' ',
                };
                if self.source.peek().is_some() && (sign == '+' || sign == '-') {
                    proof { lemma_strip_push(s, p, i + 1); }
                    push_char(&mut raw, sign);
                    push_char(&mut cleaned, sign);
                    self.source.next();
                    assert(raw@ =~= s.subrange(p, i + 2));
                }
            } else if is_alphabetic(ch) {
                assert(decimal_end(s, i, matched_dot, matched_exp) == (false, i));
                return Err(LexicalError::UnexpectedChar { character: ch, span: self.source.consume_span() });
            } else {
                break;
            }
        }
        let literal = Literal::Number(NumberLiteral::Decimal(cleaned));
        Ok(self.source.consume_token_with_literal(TokenKind::Number, raw, literal))
    }

    /// Reads the token that starts with `c`, which has just been read; `previous` is the last
    /// token read before. `None` where reading stops without a result.
    fn consume_token(&mut self, c: char, previous: Option<&Token>) -> (r: Option<
        Result<Option<Token>, LexicalError>,
    >)
        requires
            old(self).source.wf(),
            1 <= old(self).source.pos(),
            old(self).source.start() == old(self).source.pos() - 1,
            old(self).source.text()[old(self).source.pos() - 1] == c,
        ensures
            r matches Some(Err(e)) ==> e.spec_span().source == old(self).source.id() && e.spec_span().label is None,
            final(self).source.text() == old(self).source.text(),
            final(self).source.id() == old(self).source.id(),
            ({
                let prev_kind = match previous {
                    Some(t) => Some(t.kind),
                    None => None,
                };
                let (step, q) = lex_step(old(self).source.text(), old(self).source.start(), prev_kind);
                &&& step_matches(step, r)
                &&& !(step is Abort) ==> final(self).source.wf() && final(self).source.pos() == q
                    && final(self).source.start() == q
                &&& r matches Some(Ok(Some(t))) ==> t.span.source == old(self).source.id() && t.span.label is None
            }),
    {
        proof {
            reveal(lex_step);
        }
        let ghost s = self.source.text();
        let ghost p = self.source.start();
        let next_is = |d: char| -> (b: bool)
            requires
                self.source.wf(),
            ensures
                b == (self.source.pos() < self.source.text().len()
                    && self.source.text()[self.source.pos()] == d),
            {
                match self.source.peek() {
                    Some(pk) => *pk == d,
                    None => false,
                }
            };
        if c == '\n' {
            match previous {
                Some(token) => {
                    if token.kind != TokenKind::Newline {
                        return Some(Ok(Some(self.source.consume_token(TokenKind::Newline, "\n"))));
                    }
                },
                None => {},
            }
            self.source.ignore_char();
            Some(Ok(None))
        } else if is_whitespace(c) {
            self.source.ignore_char();
            Some(Ok(None))
        } else if c == '(' {
            Some(Ok(Some(self.source.consume_token(TokenKind::LeftParen, "("))))
        } else if c == ')' {
            Some(Ok(Some(self.source.consume_token(TokenKind::RightParen, ")"))))
        } else if c == '[' {
            Some(Ok(Some(self.source.consume_token(TokenKind::LeftBracket, "["))))
        } else if c == ']' {
            Some(Ok(Some(self.source.consume_token(TokenKind::RightBracket, "]"))))
        } else if c == '{' {
            Some(Ok(Some(self.source.consume_token(TokenKind::LeftBrace, "{"))))
        } else if c == '}' {
            Some(Ok(Some(self.source.consume_token(TokenKind::RightBrace, "}"))))
        } else if c == ':' {
            Some(Ok(Some(self.source.consume_token(TokenKind::Colon, ":"))))
        } else if c == '+' {
            Some(Ok(Some(self.source.consume_token(TokenKind::Plus, "+"))))
        } else if c == '-' {
            if next_is('>') {
                self.source.next();
                Some(Ok(Some(self.source.consume_token(TokenKind::Arrow, "->"))))
            } else {
                Some(Ok(Some(self.source.consume_token(TokenKind::Minus, "-"))))
            }
        } else if c == '*' {
            Some(Ok(Some(self.source.consume_token(TokenKind::Star, "*"))))
        } else if c == '^' {
            Some(Ok(Some(self.source.consume_token(TokenKind::Caret, "^"))))
        } else if c == '%' {
            Some(Ok(Some(self.source.consume_token(TokenKind::Percent, "%"))))
        } else if c == '=' {
            Some(Ok(Some(self.source.consume_token(TokenKind::EqualSign, "="))))
        } else if c == '"' {
            match self.consume_string() {
                Some(Ok(t)) => Some(Ok(Some(t))),
                Some(Err(e)) => Some(Err(e)),
                None => None,
            }
        } else if c == ',' {
            Some(Ok(Some(self.source.consume_token(TokenKind::Comma, ","))))
        } else if c == '.' {
            Some(Ok(Some(self.source.consume_token(TokenKind::Dot, "."))))
        } else if c == '>' {
            if next_is('=') {
                self.source.next();
                Some(Ok(Some(self.source.consume_token(TokenKind::GreaterOrEqual, ">"))))
            } else {
                Some(Ok(Some(self.source.consume_token(TokenKind::Greater, ">"))))
            }
        } else if c == '<' {
            if next_is('=') {
                self.source.next();
                Some(Ok(Some(self.source.consume_token(TokenKind::LessOrEqual, "<"))))
            } else {
                Some(Ok(Some(self.source.consume_token(TokenKind::Less, "<"))))
            }
        } else if is_ascii_digit(c) {
            match self.consume_number(c) {
                Ok(t) => Some(Ok(Some(t))),
                Err(e) => Some(Err(e)),
            }
        } else if is_alphabetic(c) || c == '_' {
            Some(Ok(Some(self.consume_identifier(c))))
        } else if c == '/' {
            if next_is('/') {
                self.consume_comment();
                Some(Ok(None))
            } else if next_is('*') {
                self.consume_multiline_comment();
                Some(Ok(None))
            } else {
                Some(Ok(Some(self.source.consume_token(TokenKind::Slash, "/"))))
            }
        } else {
            Some(Err(LexicalError::UnexpectedChar { character: c, span: self.source.consume_span() }))
        }
    }

    /// Reads the rest of the source: the tokens, ending with the end-of-input token, or the
    /// errors, an error right after another one left out. `None` where an octal escape above
    /// `\377` stops reading.
    pub fn try_scan(&mut self) -> (r: Option<Result<Vec<Token>, Vec<LexicalError>>>)
        requires
            old(self).wf(),
        ensures
            r matches Some(Err(es)) ==> forall|i: int| 0 <= i < es.len() ==> (#[trigger] es@[i]).spec_span().source
                == old(self).id() && es@[i].spec_span().label is None,
            final(self).text() == old(self).text(),
            final(self).id() == old(self).id(),
            outcome_matches(lex_from(old(self).text(), old(self).pos(), Seq::empty(), Seq::empty(), false), r),
            r is Some ==> final(self).wf() && final(self).pos() == old(self).text().len(),
            r matches Some(Ok(v)) ==> forall|i: int| 0 <= i < v.len() ==> (#[trigger] v@[i]).span.source == old(self).id() && v@[i].span.label is None,
    {
        let ghost s = self.source.text();
        let ghost target = lex_from(s, self.source.pos(), Seq::empty(), Seq::empty(), false);
        let mut tokens: Vec<Token> = Vec::new();
        let mut errors: Vec<LexicalError> = Vec::new();
        let mut had_error = false;
        assert(token_views(tokens@) =~= Seq::<SpecToken>::empty());
        assert(error_views(errors@) =~= Seq::<SpecLexError>::empty());
        loop
            invariant
                self.source.wf(),
                self.source.start() == self.source.pos(),
                self.source.text() == s,
                s == old(self).text(),
                self.source.id() == old(self).id(),
                target == lex_from(s, old(self).pos(), Seq::empty(), Seq::empty(), false),
                lex_from(s, self.source.pos(), token_views(tokens@), error_views(errors@), had_error) == target,
                forall|i: int| 0 <= i < tokens.len() ==> (#[trigger] tokens@[i]).span.source == old(self).id() && tokens@[i].span.label is None,
                forall|i: int| 0 <= i < errors.len() ==> (#[trigger] errors@[i]).spec_span().source == old(self).id() && errors@[i].spec_span().label is None,
            ensures
                self.source.pos() == s.len(),
            decreases s.len() - self.source.pos(),
        {
            let ghost p = self.source.pos();
            let c = match self.source.next() {
                Some(c) => c,
                None => {
                    break;
                },
            };
            let ghost views = token_views(tokens@);
            let previous = if tokens.len() > 0 {
                Some(&tokens[tokens.len() - 1])
            } else {
                None
            };
            proof {
                lemma_step_advances(s, p, last_kind(views));
                if tokens.len() > 0 {
                    assert(views.last() == tokens@.last()@);
                }
            }
            let token = self.consume_token(c, previous);
            match token {
                Some(Ok(Some(value))) => {
                    had_error = false;
                    tokens.push(value);
                    assert(token_views(tokens@) =~= views.push(value@));
                },
                Some(Err(err)) => {
                    if !had_error {
                        had_error = true;
                        let ghost ev = error_views(errors@);
                        errors.push(err);
                        assert(error_views(errors@) =~= ev.push(err@));
                    }
                },
                Some(Ok(None)) => {},
                None => {
                    return None;
                },
            }
        }
        let eof = self.source.consume_eof();
        let ghost views = token_views(tokens@);
        tokens.push(eof);
        assert(token_views(tokens@) =~= views.push(eof@));
        if errors.len() == 0 {
            Some(Ok(tokens))
        } else {
            Some(Err(errors))
        }
    }

    /// Reads the rest of the source: the tokens, ending with the end-of-input token, or the
    /// errors, an error right after another one left out.
    pub fn scan(&mut self) -> (r: Result<Vec<Token>, Vec<LexicalError>>)
        requires
            old(self).wf(),
            !(lex_from(old(self).text(), old(self).pos(), Seq::empty(), Seq::empty(), false) is Aborted),
        ensures
            r matches Err(es) ==> forall|i: int| 0 <= i < es.len() ==> (#[trigger] es@[i]).spec_span().source
                == old(self).id() && es@[i].spec_span().label is None,
            final(self).wf(),
            final(self).text() == old(self).text(),
            final(self).id() == old(self).id(),
            final(self).pos() == old(self).text().len(),
            outcome_matches(lex_from(old(self).text(), old(self).pos(), Seq::empty(), Seq::empty(), false), Some(r)),
            r matches Ok(v) ==> forall|i: int| 0 <= i < v.len() ==> (#[trigger] v@[i]).span.source == old(self).id() && v@[i].span.label is None,
            r matches Ok(v) ==> token_stream_shape(token_views(v@), old(self).text().len() as int),
            r matches Err(es) ==> es.len() > 0,
    {
        proof {
            lex_output_shape(self.text(), self.pos());
        }
        match self.try_scan() {
            Some(r) => r,
            None => {
                proof { assert(false); }
                Err(Vec::new())
            },
        }
    }
}

} // verus!
