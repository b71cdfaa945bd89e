//! Tokens produced by the scanner.

use vstd::prelude::*;
use crate::span::SourceSpan;
use crate::text::{chars_of, hex_value, is_ascii_hexdigit, spec_hex_value, spec_is_ascii_hexdigit};

verus! {

/// The kinds of tokens of the language.
#[derive(Debug, Clone, Copy, PartialEq, Eq, Structural)]
pub enum TokenKind {
    Number,
    String,
    True,
    False,
    Nil,
    Equals,
    Not,
    Or,
    And,
    Greater,
    GreaterOrEqual,
    Less,
    LessOrEqual,
    Let,
    If,
    Function,
    Then,
    Else,
    Return,
    BlockEnd,
    While,
    Do,
    Continue,
    Identifier,
    EqualSign,
    Until,
    ForOrBreak,
    Each,
    In,
    Has,
    Colon,
    Plus,
    Minus,
    Star,
    Slash,
    Percent,
    Caret,
    LeftParen,
    RightParen,
    LeftBracket,
    RightBracket,
    LeftBrace,
    RightBrace,
    Comma,
    Dot,
    Arrow,
    Newline,
    Eof,
}

/// The text of a number literal, kept as written so that its value can be computed
/// where floating point is available.
#[derive(Debug, Clone, PartialEq)]
pub enum NumberLiteral {
    /// A decimal literal with its underscores removed: digits, at most one `.`, and an
    /// optional exponent (`e` or `E`, an optional sign, digits).
    Decimal(String),
    /// A literal written with a `0b`, `0o` or `0x` prefix: the radix and its digits.
    Radix(u32, String),
}

/// The value a token carries.
#[derive(Debug, Clone, PartialEq)]
pub enum Literal {
    Number(NumberLiteral),
    String(String),
    Boolean(bool),
    Nil,
}

/// The spelling of the boolean `true`.
pub const TRUE_LITERAL: &'static str = "verdadeiro";
/// The spelling of the boolean `false`.
pub const FALSE_LITERAL: &'static str = "falso";
/// The spelling of the absent value.
pub const NIL_LITERAL: &'static str = "Nada";
/// How positive infinity is shown.
pub const POSITIVE_INFINITY_LITERAL: &'static str = "infinito";
/// How negative infinity is shown.
pub const NEGATIVE_INFINITY_LITERAL: &'static str = "-infinito";
/// How a value that is not a number is shown.
pub const NAN_LITERAL: &'static str = "NaN";

/// The mathematical model of a number literal.
#[verifier::ext_equal]
pub enum SpecNumber {
    Decimal(Seq<char>),
    Radix(u32, Seq<char>),
}

/// The mathematical model of a literal.
#[verifier::ext_equal]
pub enum SpecLiteral {
    Number(SpecNumber),
    Str(Seq<char>),
    Boolean(bool),
    Nil,
}

/// The mathematical model of a token: its kind, text, value and region.
#[verifier::ext_equal]
pub struct SpecToken {
    pub kind: TokenKind,
    pub lexeme: Seq<char>,
    pub literal: Option<SpecLiteral>,
    pub start: int,
    pub end: int,
}

impl View for NumberLiteral {
    type V = SpecNumber;

    open spec fn view(&self) -> SpecNumber {
        match self {
            NumberLiteral::Decimal(s) => SpecNumber::Decimal(s@),
            NumberLiteral::Radix(r, s) => SpecNumber::Radix(*r, s@),
        }
    }
}

impl View for Literal {
    type V = SpecLiteral;

    open spec fn view(&self) -> SpecLiteral {
        match self {
            Literal::Number(n) => SpecLiteral::Number(n@),
            Literal::String(s) => SpecLiteral::Str(s@),
            Literal::Boolean(b) => SpecLiteral::Boolean(*b),
            Literal::Nil => SpecLiteral::Nil,
        }
    }
}

/// A token: its kind, the text it was read from, the value it carries and where it stands.
#[derive(Debug, Clone, PartialEq)]
pub struct Token {
    pub kind: TokenKind,
    pub lexeme: String,
    pub literal: Option<Literal>,
    pub span: SourceSpan,
}

/// The model of an optional literal.
pub open spec fn literal_view(l: Option<Literal>) -> Option<SpecLiteral> {
    match l {
        Some(v) => Some(v@),
        None => None,
    }
}

impl View for Token {
    type V = SpecToken;

    open spec fn view(&self) -> SpecToken {
        SpecToken {
            kind: self.kind,
            lexeme: self.lexeme@,
            literal: literal_view(self.literal),
            start: self.span.start as int,
            end: self.span.end as int,
        }
    }
}

/// Whether every character of `s` is a digit of base `radix` (at most 16).
pub open spec fn radix_digits(s: Seq<char>, radix: u32) -> bool {
    forall|i: int| 0 <= i < s.len() ==> spec_is_ascii_hexdigit(#[trigger] s[i]) && spec_hex_value(s[i]) < radix
}

/// The number that the digits `s` write in base `radix`, the most significant first.
pub open spec fn digits_value(s: Seq<char>, radix: u32) -> int
    decreases s.len(),
{
    if s.len() == 0 {
        0
    } else {
        digits_value(s.drop_last(), radix) * radix + spec_hex_value(s.last())
    }
}

/// The value of digits is at least that of every prefix of them times the base for each
/// digit past the prefix; in particular, where a prefix and its next digit overflow, so does
/// the whole.
pub proof fn lemma_digits_value_grows(s: Seq<char>, radix: u32, i: int)
    requires
        0 <= i < s.len(),
        1 <= radix <= 16,
        radix_digits(s, radix),
    ensures
        digits_value(s.take(i), radix) * radix + spec_hex_value(s[i]) <= digits_value(s, radix),
        digits_value(s.take(i), radix) * radix <= digits_value(s, radix),
    decreases s.len(),
{
    assert(s.take(i + 1).drop_last() =~= s.take(i));
    lemma_digits_value_prefix(s, radix, i + 1);
}

/// The value of a prefix of digits is at most that of all of them.
proof fn lemma_digits_value_prefix(s: Seq<char>, radix: u32, k: int)
    requires
        0 <= k <= s.len(),
        1 <= radix <= 16,
        radix_digits(s, radix),
    ensures
        digits_value(s.take(k), radix) <= digits_value(s, radix),
        0 <= digits_value(s.take(k), radix),
    decreases s.len() - k,
{
    if k == s.len() {
        assert(s.take(k) =~= s);
        lemma_digits_value_nonneg(s, radix);
    } else {
        lemma_digits_value_prefix(s, radix, k + 1);
        assert(s.take(k + 1).drop_last() =~= s.take(k));
        assert(s.take(k + 1).last() == s[k]);
        lemma_digits_value_nonneg(s.take(k), radix);
        let v = digits_value(s.take(k), radix);
        assert(v <= v * radix) by (nonlinear_arith)
            requires v >= 0, radix >= 1;
    }
}

/// The value of digits is never negative.
proof fn lemma_digits_value_nonneg(s: Seq<char>, radix: u32)
    requires
        radix_digits(s, radix),
    ensures
        0 <= digits_value(s, radix),
    decreases s.len(),
{
    if s.len() > 0 {
        assert(radix_digits(s.drop_last(), radix)) by {
            assert forall|i: int| 0 <= i < s.drop_last().len() implies spec_is_ascii_hexdigit(#[trigger] s.drop_last()[i])
                && spec_hex_value(s.drop_last()[i]) < radix by {
                assert(s.drop_last()[i] == s[i]);
            }
        }
        lemma_digits_value_nonneg(s.drop_last(), radix);
        let v = digits_value(s.drop_last(), radix);
        assert(0 <= v * radix) by (nonlinear_arith)
            requires v >= 0;
        assert(spec_is_ascii_hexdigit(s[s.len() - 1]));
    }
}

impl NumberLiteral {
    /// The value of a literal written in base 2, 8 or 16: the number its digits write, where
    /// it fits in 64 bits and every character is a digit of its base; `None` for a decimal
    /// literal, or where the digits do not fit.
    pub fn radix_value(&self) -> (r: Option<u64>)
        ensures
            match *self {
                NumberLiteral::Radix(radix, s) => {
                    if radix <= 16 && radix_digits(s@, radix) && digits_value(s@, radix) <= u64::MAX {
                        r == Some(digits_value(s@, radix) as u64)
                    } else {
                        r is None
                    }
                },
                NumberLiteral::Decimal(_) => r is None,
            },
    {
        match self {
            NumberLiteral::Decimal(_) => None,
            NumberLiteral::Radix(radix, s) => {
                let radix = *radix;
                if radix > 16 {
                    return None;
                }
                let chars = chars_of(s.as_str());
                let mut value: u64 = 0;
                let mut i: usize = 0;
                while i < chars.len()
                    invariant
                        *self == NumberLiteral::Radix(radix, *s),
                        radix <= 16,
                        chars@ == s@,
                        i <= chars.len(),
                        radix_digits(chars@.take(i as int), radix),
                        value == digits_value(chars@.take(i as int), radix),
                    decreases chars.len() - i,
                {
                    let c = chars[i];
                    proof {
                        assert(chars@.take(i + 1).drop_last() =~= chars@.take(i as int));
                        assert(chars@.take(i + 1).last() == c);
                    }
                    if !is_ascii_hexdigit(c) {
                        assert(!radix_digits(s@, radix)) by {
                            assert(s@[i as int] == c);
                        }
                        return None;
                    }
                    let d = hex_value(c);
                    if d >= radix {
                        assert(!radix_digits(s@, radix)) by {
                            assert(s@[i as int] == c);
                        }
                        return None;
                    }
                    let shifted = match value.checked_mul(radix as u64) {
                        Some(v) => v,
                        None => {
                            proof {
                                if radix_digits(chars@, radix) {
                                    lemma_digits_value_grows(chars@, radix, i as int);
                                }
                            }
                            return None;
                        },
                    };
                    let next = match shifted.checked_add(d as u64) {
                        Some(v) => v,
                        None => {
                            proof {
                                if radix_digits(chars@, radix) {
                                    lemma_digits_value_grows(chars@, radix, i as int);
                                }
                            }
                            return None;
                        },
                    };
                    value = next;
                    i = i + 1;
                    assert(radix_digits(chars@.take(i as int), radix)) by {
                        assert forall|j: int| 0 <= j < i implies spec_is_ascii_hexdigit(#[trigger] chars@.take(i as int)[j])
                            && spec_hex_value(chars@.take(i as int)[j]) < radix by {
                            if j < i - 1 {
                                assert(chars@.take(i as int)[j] == chars@.take(i - 1)[j]);
                            }
                        }
                    }
                }
                assert(chars@.take(chars.len() as int) =~= chars@);
                Some(value)
            },
        }
    }

    /// An equal copy of the literal.
    pub fn duplicate(&self) -> (r: NumberLiteral)
        ensures
            r == *self,
    {
        match self {
            NumberLiteral::Decimal(s) => NumberLiteral::Decimal(s.clone()),
            NumberLiteral::Radix(radix, s) => NumberLiteral::Radix(*radix, s.clone()),
        }
    }
}

impl Literal {
    /// An equal copy of the literal.
    pub fn duplicate(&self) -> (r: Literal)
        ensures
            r == *self,
    {
        match self {
            Literal::Number(n) => Literal::Number(n.duplicate()),
            Literal::String(s) => Literal::String(s.clone()),
            Literal::Boolean(b) => Literal::Boolean(*b),
            Literal::Nil => Literal::Nil,
        }
    }
}

impl Token {
    /// An equal copy of the token.
    pub fn clone_ref(&self) -> (r: Token)
        ensures
            r == *self,
    {
        let literal = match &self.literal {
            Some(l) => Some(l.duplicate()),
            None => None,
        };
        Token { kind: self.kind, lexeme: self.lexeme.clone(), literal, span: self.span.duplicate() }
    }

    /// A token made of its parts.
    pub fn new(kind: TokenKind, lexeme: String, literal: Option<Literal>, span: SourceSpan) -> (r:
        Token)
        ensures
            r.kind == kind,
            r.lexeme == lexeme,
            r.literal == literal,
            r.span == span,
    {
        Token { kind, lexeme, literal, span }
    }

    /// The end-of-input token: kind `Eof`, text `EOF`, no value.
    pub fn eoi(span: SourceSpan) -> (r: Token)
        ensures
            r.kind == TokenKind::Eof,
            r.lexeme@ == "EOF"@,
            r.literal is None,
            r.span == span,
    {
        Token::new(TokenKind::Eof, String::from_str("EOF"), None, span)
    }
}

} // verus!
