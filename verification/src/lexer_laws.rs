//! What holds of every token stream the scanner produces.

use vstd::prelude::*;
use crate::token::{TokenKind, SpecToken, SpecLiteral};
use crate::text::{spec_is_ascii_hexdigit, spec_hex_value, spec_is_control, spec_is_whitespace};
use crate::value::{escape_seq, escape_char, hex_digit_upper};
use crate::lexer_spec::{Step, LexOut, StrOut, lex_step, lex_from, lex, last_kind, number_step, string_body, word_token, word_end, mk_tok, lemma_step_advances, lemma_string_body, lemma_word_end, EscRead, escape_read, simple_escape, digit_run};

verus! {

/// Whether a token carries the value its kind calls for: an identifier its name, a literal its
/// value.
pub open spec fn literal_ok(t: SpecToken) -> bool {
    match t.kind {
        TokenKind::Identifier => t.literal matches Some(SpecLiteral::Str(_)),
        TokenKind::Number | TokenKind::True | TokenKind::False | TokenKind::String | TokenKind::Nil => t.literal is Some,
        _ => true,
    }
}

/// The shape of a complete token stream over a source of `n` characters: it ends with the one
/// end-of-input token, at `n`; regions lie within the source, in order, without overlap; and a
/// line-break token never comes first nor right after another one.
#[verifier::opaque]
pub open spec fn token_stream_shape(ts: Seq<SpecToken>, n: int) -> bool {
    &&& ts.len() >= 1
    &&& ts.last().kind == TokenKind::Eof
    &&& ts.last().start == n
    &&& ts.last().end == n
    &&& forall|i: int| 0 <= i < ts.len() - 1 ==> (#[trigger] ts[i]).kind != TokenKind::Eof
    &&& forall|i: int| 0 <= i < ts.len() ==> 0 <= (#[trigger] ts[i]).start <= ts[i].end <= n
    &&& forall|i: int, j: int|
        0 <= i < j < ts.len() ==> (#[trigger] ts[i]).end <= (#[trigger] ts[j]).start
    &&& ts[0].kind != TokenKind::Newline
    &&& forall|i: int, j: int|
        0 <= i && j == i + 1 && j < ts.len() ==> !((#[trigger] ts[i]).kind == TokenKind::Newline
            && (#[trigger] ts[j]).kind == TokenKind::Newline)
    &&& forall|i: int| 0 <= i < ts.len() ==> literal_ok(#[trigger] ts[i])
}

/// The tokens read before position `p`.
#[verifier::opaque]
pub open spec fn stream_ok(toks: Seq<SpecToken>, p: int) -> bool {
    &&& forall|i: int| 0 <= i < toks.len() ==> (#[trigger] toks[i]).kind != TokenKind::Eof
    &&& forall|i: int| 0 <= i < toks.len() ==> 0 <= (#[trigger] toks[i]).start <= toks[i].end <= p
    &&& forall|i: int, j: int|
        0 <= i < j < toks.len() ==> (#[trigger] toks[i]).end <= (#[trigger] toks[j]).start
    &&& toks.len() > 0 ==> toks[0].kind != TokenKind::Newline
    &&& forall|i: int, j: int|
        0 <= i && j == i + 1 && j < toks.len() ==> !((#[trigger] toks[i]).kind == TokenKind::Newline
            && (#[trigger] toks[j]).kind == TokenKind::Newline)
    &&& forall|i: int| 0 <= i < toks.len() ==> literal_ok(#[trigger] toks[i])
}

/// A word token is never the end of input nor a line break.
proof fn lemma_word_token(w: Seq<char>, a: int, b: int)
    ensures
        word_token(w, a, b).kind != TokenKind::Eof,
        word_token(w, a, b).kind != TokenKind::Newline,
        literal_ok(word_token(w, a, b)),
        word_token(w, a, b).start == a,
        word_token(w, a, b).end == b,
{
}

/// A token read at `p` lies between `p` and where reading goes on, is not the end of input,
/// and is a line break only after a token that is not one.
pub open spec fn emit_ok(s: Seq<char>, p: int, prev: Option<TokenKind>) -> bool {
    lex_step(s, p, prev).0 matches Step::Emit(t) ==> {
        &&& p <= t.start <= t.end
        &&& t.end == lex_step(s, p, prev).1
        &&& t.kind != TokenKind::Eof
        &&& t.kind == TokenKind::Newline ==> prev is Some && prev->0 != TokenKind::Newline
        &&& literal_ok(t)
    }
}

/// A number token read at `p` ends where reading goes on.
proof fn lemma_number_step(s: Seq<char>, p: int)
    requires
        0 <= p < s.len(),
    ensures
        number_step(s, p).0 matches Step::Emit(t) ==> t.start == p && t.end == number_step(s, p).1
            && t.kind == TokenKind::Number && p < t.end && t.literal is Some,
{
    let q = p + 1;
    if s[p] == '0' && q < s.len() && crate::lexer_spec::radix_of(s[q]) != 0 {
        crate::lexer_spec::lemma_radix_end(s, q + 1, crate::lexer_spec::radix_of(s[q]));
    } else {
        crate::lexer_spec::lemma_decimal_end(s, q, false, false);
    }
}

/// A token read at `p` lies between `p` and where reading goes on; it is never the end of
/// input; it is a line break only right after a token that is not one.
#[verifier::rlimit(50)]
proof fn lemma_step_emit(s: Seq<char>, p: int, prev: Option<TokenKind>)
    requires
        0 <= p < s.len(),
    ensures
        emit_ok(s, p, prev),
{
    reveal(lex_step);
    let c = s[p];
    let q = p + 1;
    if c == '"' {
        lemma_string_body(s, q, Seq::empty(), p);
        match string_body(s, q, Seq::empty(), p) {
            StrOut::Done(body, e, st) => {
                assert(p <= st < e);
                assert(lex_step(s, p, prev) == (
                    Step::Emit(mk_tok(TokenKind::String, body, Some(crate::token::SpecLiteral::Str(body)), st, e)),
                    e,
                ));
            },
            _ => {},
        }
        assert(emit_ok(s, p, prev));
    } else if crate::text::spec_is_ascii_digit(c) {
        lemma_number_step(s, p);
        assert(emit_ok(s, p, prev));
    } else if crate::text::alphabetic(c) || c == '_' {
        lemma_word_end(s, q);
        lemma_word_token(s.subrange(p, word_end(s, q)), p, word_end(s, q));
        assert(emit_ok(s, p, prev));
    } else {
        assert(emit_ok(s, p, prev));
    }
}

/// Adding a token read at `p`, ending at `q`, keeps the stream well shaped.
proof fn lemma_stream_push(toks: Seq<SpecToken>, p: int, t: SpecToken, q: int)
    requires
        stream_ok(toks, p),
        0 <= p <= t.start <= t.end,
        t.end == q,
        t.kind != TokenKind::Eof,
        t.kind == TokenKind::Newline ==> last_kind(toks) is Some && last_kind(toks)->0
            != TokenKind::Newline,
        literal_ok(t),
    ensures
        stream_ok(toks.push(t), q),
{
    reveal(stream_ok);
    let nt = toks.push(t);
    assert forall|i: int, j: int| 0 <= i && j == i + 1 && j < nt.len() implies !((#[trigger] nt[i]).kind
        == TokenKind::Newline && (#[trigger] nt[j]).kind == TokenKind::Newline) by {
        assert(nt[i] == toks[i]);
        if j < toks.len() {
            assert(nt[j] == toks[j]);
        } else {
            assert(toks.last() == toks[i]);
        }
    }
    if toks.len() == 0 {
        assert(last_kind(toks) is None);
    } else {
        assert(nt[0] == toks[0]);
    }
    assert forall|i: int, j: int| 0 <= i < j < nt.len() implies (#[trigger] nt[i]).end <= (#[trigger] nt[j]).start by {
        if j == toks.len() {
            assert(nt[i] == toks[i]);
        } else {
            assert(nt[i] == toks[i]);
            assert(nt[j] == toks[j]);
        }
    }
    assert forall|i: int| 0 <= i < nt.len() implies 0 <= (#[trigger] nt[i]).start <= nt[i].end <= q by {
        if i < toks.len() {
            assert(nt[i] == toks[i]);
        }
    }
    assert forall|i: int| 0 <= i < nt.len() implies (#[trigger] nt[i]).kind != TokenKind::Eof by {
        if i < toks.len() {
            assert(nt[i] == toks[i]);
        }
    }
    assert forall|i: int| 0 <= i < nt.len() implies literal_ok(#[trigger] nt[i]) by {
        if i < toks.len() {
            assert(nt[i] == toks[i]);
        }
    }
}

/// Skipping forward keeps the stream well shaped.
proof fn lemma_stream_skip(toks: Seq<SpecToken>, p: int, q: int)
    requires
        stream_ok(toks, p),
        p <= q,
    ensures
        stream_ok(toks, q),
{
    reveal(stream_ok);
}

/// Closing the stream with the end-of-input token gives a complete stream.
proof fn lemma_stream_finish(toks: Seq<SpecToken>, n: int)
    requires
        stream_ok(toks, n),
        0 <= n,
    ensures
        token_stream_shape(toks.push(mk_tok(TokenKind::Eof, "EOF"@, None, n, n)), n),
{
    reveal(stream_ok);
    reveal(token_stream_shape);
    let all = toks.push(mk_tok(TokenKind::Eof, "EOF"@, None, n, n));
    assert forall|i: int, j: int| 0 <= i && j == i + 1 && j < all.len() implies !((#[trigger] all[i]).kind
        == TokenKind::Newline && (#[trigger] all[j]).kind == TokenKind::Newline) by {
        assert(all[i] == toks[i]);
        if j < toks.len() {
            assert(all[j] == toks[j]);
        }
    }
    if toks.len() > 0 {
        assert(all[0] == toks[0]);
    }
    assert forall|i: int, j: int| 0 <= i < j < all.len() implies (#[trigger] all[i]).end <= (#[trigger] all[j]).start by {
        assert(all[i] == toks[i]);
        if j < toks.len() {
            assert(all[j] == toks[j]);
        }
    }
    assert forall|i: int| 0 <= i < all.len() implies 0 <= (#[trigger] all[i]).start <= all[i].end <= n by {
        if i < toks.len() {
            assert(all[i] == toks[i]);
        }
    }
    assert forall|i: int| 0 <= i < all.len() - 1 implies (#[trigger] all[i]).kind != TokenKind::Eof by {
        assert(all[i] == toks[i]);
    }
    assert forall|i: int| 0 <= i < all.len() implies literal_ok(#[trigger] all[i]) by {
        if i < toks.len() {
            assert(all[i] == toks[i]);
        }
    }
}

proof fn lemma_lex_from(s: Seq<char>, p: int, toks: Seq<SpecToken>, errs: Seq<crate::scanner_error::SpecLexError>, had: bool)
    requires
        0 <= p <= s.len(),
        stream_ok(toks, p),
    ensures
        lex_from(s, p, toks, errs, had) matches LexOut::Tokens(ts) ==> token_stream_shape(ts, s.len() as int),
        lex_from(s, p, toks, errs, had) matches LexOut::Errors(es) ==> es.len() > 0,
    decreases s.len() - p,
{
    if p < s.len() {
        let (step, q) = lex_step(s, p, last_kind(toks));
        lemma_step_advances(s, p, last_kind(toks));
        lemma_step_emit(s, p, last_kind(toks));
        match step {
            Step::Emit(t) => {
                lemma_stream_push(toks, p, t, q);
                lemma_lex_from(s, q, toks.push(t), errs, false);
            },
            Step::Fail(e) => {
                lemma_stream_skip(toks, p, q);
                if had {
                    lemma_lex_from(s, q, toks, errs, true);
                } else {
                    lemma_lex_from(s, q, toks, errs.push(e), true);
                }
            },
            Step::Skip => {
                lemma_stream_skip(toks, p, q);
                lemma_lex_from(s, q, toks, errs, had);
            },
            Step::Abort => {},
        }
    } else {
        lemma_stream_finish(toks, s.len() as int);
    }
}

/// Every token stream read from a source, from any position on, has the shape of
/// `token_stream_shape`, and reading that fails reports at least one error.
pub proof fn lex_output_shape(s: Seq<char>, p: int)
    requires
        0 <= p <= s.len(),
    ensures
        lex_from(s, p, Seq::empty(), Seq::empty(), false) matches LexOut::Tokens(ts)
            ==> token_stream_shape(ts, s.len() as int),
        lex_from(s, p, Seq::empty(), Seq::empty(), false) matches LexOut::Errors(es) ==> es.len()
            > 0,
{
    assert(stream_ok(Seq::empty(), p)) by {
        reveal(stream_ok);
    }
    lemma_lex_from(s, p, Seq::empty(), Seq::empty(), false);
}

} // verus!

verus! {

/// Escaping a text splits at its first character.
proof fn lemma_escape_seq_front(t: Seq<char>)
    requires
        t.len() > 0,
    ensures
        escape_seq(t) == escape_char(t[0]) + escape_seq(t.drop_first()),
    decreases t.len(),
{
    if t.len() == 1 {
        assert(t.drop_first() =~= Seq::<char>::empty());
        assert(t.drop_last() =~= Seq::<char>::empty());
        assert(escape_seq(t) =~= escape_char(t[0]) + escape_seq(t.drop_first()));
    } else {
        lemma_escape_seq_front(t.drop_last());
        assert(t.drop_last().drop_first() =~= t.drop_first().drop_last());
        assert(t.drop_last()[0] == t[0]);
        assert(t.drop_first().last() == t.last());
        assert(escape_seq(t) =~= escape_char(t[0]) + escape_seq(t.drop_first()));
    }
}

/// Control characters have codes up to 0x9F.
proof fn lemma_control_range(c: char)
    requires
        spec_is_control(c),
    ensures
        0 <= c as int <= 0x9f,
{
    assert(0 <= c as u32);
}

/// Reading the uppercase hexadecimal digits of a byte gives the byte back.
proof fn lemma_hex_digit_upper(n: int)
    requires
        0 <= n < 16,
    ensures
        spec_is_ascii_hexdigit(hex_digit_upper(n)),
        spec_hex_value(hex_digit_upper(n)) == n,
{
}

/// Reading the escaped form of `t` followed by a closing quote gives `t` back, whatever came
/// before.
proof fn lemma_read_escaped(s: Seq<char>, i: int, t: Seq<char>, acc: Seq<char>, st: int)
    requires
        0 <= st <= i,
        i + escape_seq(t).len() < s.len(),
        s.subrange(i, i + escape_seq(t).len()) == escape_seq(t),
        s[i + escape_seq(t).len()] == '"',
    ensures
        string_body(s, i, acc, st) matches StrOut::Done(b, e, _) && b == acc + t && e == i
            + escape_seq(t).len() + 1,
    decreases t.len(),
{
    if t.len() == 0 {
        assert(acc + t =~= acc);
    } else {
        let c = t[0];
        let rest = t.drop_first();
        lemma_escape_seq_front(t);
        let k = escape_char(c).len() as int;
        let e = escape_seq(t);
        assert forall|m: int| 0 <= m < k implies s[i + m] == escape_char(c)[m] by {
            assert(s.subrange(i, i + e.len())[m] == e[m]);
        }
        assert(s.subrange(i + k, i + k + escape_seq(rest).len()) =~= escape_seq(rest)) by {
            assert forall|m: int| 0 <= m < escape_seq(rest).len() implies s.subrange(i + k, i + k + escape_seq(rest).len())[m] == escape_seq(rest)[m] by {
                assert(s.subrange(i, i + e.len())[k + m] == e[k + m]);
            }
        }
        assert(acc.push(c) + rest =~= acc + t);
        if c == '\0' || c == '\u{7}' || c == '\u{8}' || c == '\u{c}' || c == '\u{b}' || c == '\u{1b}'
            || c == '\r' || c == '\n' || c == '\t' || c == '\\' || c == '"' || c == '\'' {
            assert(k == 2);
            assert(s[i] == '\\');
            assert(simple_escape(s[i + 1]) == Some(c));
            assert(escape_read(s, i + 2, s[i + 1]) == EscRead::Char(c, i + 2));
            assert(string_body(s, i, acc, st) == string_body(s, i + 2, acc.push(c), i + 2));
            lemma_read_escaped(s, i + 2, rest, acc.push(c), i + 2);
        } else if spec_is_control(c) {
            assert(k == 4);
            assert(c as int <= 0x9f);
            let hi = c as int / 16;
            let lo = c as int % 16;
            let ci = c as int;
            lemma_control_range(c);
            assert(0 <= hi < 16 && 0 <= lo < 16 && hi * 16 + lo == ci) by (nonlinear_arith)
                requires
                    0 <= ci <= 0x9f,
                    hi == ci / 16,
                    lo == ci % 16,
            ;
            lemma_hex_digit_upper(hi);
            lemma_hex_digit_upper(lo);
            assert(s[i] == '\\');
            assert(s[i + 1] == 'x');
            assert(s[i + 2] == hex_digit_upper(hi));
            assert(s[i + 3] == hex_digit_upper(lo));
            assert(digit_run(s, i + 2, 2, 16, 0) == digit_run(s, i + 3, 1, 16, hi));
            assert(digit_run(s, i + 3, 1, 16, hi) == digit_run(s, i + 4, 0, 16, hi * 16 + lo));
            assert(hi * 16 + lo == c as int);
            assert(((c as int) as char) == c);
            assert(escape_read(s, i + 2, 'x') == EscRead::Char(c, i + 4));
            assert(string_body(s, i, acc, st) == string_body(s, i + 4, acc.push(c), i + 4));
            lemma_read_escaped(s, i + 4, rest, acc.push(c), i + 4);
        } else {
            assert(escape_char(c) =~= seq![c]);
            assert(k == 1);
            assert(s[i + 0] == escape_char(c)[0]);
            assert(s[i] == c);
            assert(string_body(s, i, acc, st) == string_body(s, i + 1, acc.push(c), st));
            lemma_read_escaped(s, i + 1, rest, acc.push(c), st);
        }
    }
}

/// A text written with `escape_special_chars` between two quotes reads back as one string token
/// holding exactly that text, followed by the end of input.
pub proof fn escape_round_trip(t: Seq<char>)
    ensures
        ({
            let src = seq!['"'] + escape_seq(t) + seq!['"'];
            lex(src) matches LexOut::Tokens(ts) && ts.len() == 2 && ts[0].kind == TokenKind::String
                && ts[0].lexeme == t && ts[0].literal == Some(SpecLiteral::Str(t)) && ts[1].kind
                == TokenKind::Eof
        }),
{
    let src = seq!['"'] + escape_seq(t) + seq!['"'];
    let n = escape_seq(t).len() as int;
    assert(src.subrange(1, 1 + n) =~= escape_seq(t));
    assert(src[1 + n] == '"');
    lemma_read_escaped(src, 1, t, Seq::empty(), 0);
    assert(Seq::<char>::empty() + t =~= t);
    reveal(lex_step);
    assert(!spec_is_whitespace('"'));
    match string_body(src, 1, Seq::empty(), 0) {
        StrOut::Done(b, e, st) => {
            let tok = mk_tok(TokenKind::String, b, Some(SpecLiteral::Str(b)), st, e);
            assert(lex_step(src, 0, None) == (Step::Emit(tok), e));
            assert(e == src.len());
            assert(lex(src) == lex_from(src, e, seq![tok], Seq::empty(), false));
        },
        _ => {},
    }
}

} // verus!
