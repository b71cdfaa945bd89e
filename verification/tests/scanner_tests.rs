use tenda::scanner::Scanner;
use tenda::source::IdentifiedSource;
use tenda::token::{Literal, NumberLiteral, TokenKind};
use tenda::scanner_error::LexicalError;

fn kinds(src: &str) -> Vec<TokenKind> {
    let mut s = Scanner::new(src, IdentifiedSource::dummy());
    s.scan().expect("scan ok").iter().map(|t| t.kind).collect()
}

#[test]
fn scans_let_statement() {
    assert_eq!(
        kinds("seja x = 1 + 2"),
        vec![
            TokenKind::Let,
            TokenKind::Identifier,
            TokenKind::EqualSign,
            TokenKind::Number,
            TokenKind::Plus,
            TokenKind::Number,
            TokenKind::Eof
        ]
    );
}

#[test]
fn collapses_newlines() {
    assert_eq!(
        kinds("\n\na\n\n\nb\n"),
        vec![
            TokenKind::Identifier,
            TokenKind::Newline,
            TokenKind::Identifier,
            TokenKind::Newline,
            TokenKind::Eof
        ]
    );
}

#[test]
fn string_escapes() {
    let mut s = Scanner::new("\"a\\tb\\x41\\u00e9\\101\"", IdentifiedSource::dummy());
    let toks = s.scan().unwrap();
    assert_eq!(toks[0].kind, TokenKind::String);
    assert_eq!(toks[0].literal, Some(Literal::String("a\tbAéA".to_string())));
}

#[test]
fn radix_numbers() {
    let mut s = Scanner::new("0x1_F 0b101 12_3.5e-2", IdentifiedSource::dummy());
    let toks = s.scan().unwrap();
    assert_eq!(toks[0].literal, Some(Literal::Number(NumberLiteral::Radix(16, "1F".to_string()))));
    assert_eq!(toks[0].lexeme, "0x1F");
    assert_eq!(toks[1].literal, Some(Literal::Number(NumberLiteral::Radix(2, "101".to_string()))));
    assert_eq!(toks[2].literal, Some(Literal::Number(NumberLiteral::Decimal("123.5e-2".to_string()))));
    assert_eq!(toks[2].lexeme, "12_3.5e-2");
}

#[test]
fn unexpected_char_error() {
    let mut s = Scanner::new("a $ b", IdentifiedSource::dummy());
    match s.scan() {
        Err(errs) => {
            assert_eq!(errs.len(), 1);
            match &errs[0] {
                LexicalError::UnexpectedChar { character, span } => {
                    assert_eq!(*character, '$');
                    assert_eq!((span.start, span.end), (2, 3));
                }
                _ => panic!("wrong error"),
            }
        }
        Ok(_) => panic!("expected error"),
    }
}

fn first_error(src: &str) -> LexicalError {
    let mut s = Scanner::new(src, IdentifiedSource::dummy());
    match s.scan() {
        Err(errs) => errs[0].clone(),
        Ok(_) => panic!("expected an error"),
    }
}

#[test]
fn string_errors() {
    assert!(matches!(first_error("\"abc"), LexicalError::UnexpectedStringEol { .. }));
    assert!(matches!(first_error("\"ab\ncd\""), LexicalError::UnexpectedStringEol { .. }));
    assert!(matches!(first_error("\"\\xZ1\""), LexicalError::InvalidHexEscape { .. }));
    assert!(matches!(first_error("\"\\uD800\""), LexicalError::InvalidUnicodeEscape { .. }));
    assert!(matches!(first_error("\"\\18\""), LexicalError::InvalidOctalEscape { .. }));
    match first_error("\"\\q\"") {
        LexicalError::UnknownEscape { found, .. } => assert_eq!(found, 'q'),
        _ => panic!("expected an unknown escape"),
    }
}

#[test]
fn number_errors() {
    match first_error("0x") {
        LexicalError::UnexpectedChar { character, .. } => assert_eq!(character, 'x'),
        _ => panic!("expected an unexpected character"),
    }
}

#[test]
fn octal_escape_above_a_byte_stops_scanning() {
    let mut s = Scanner::new("\"\\777\"", IdentifiedSource::dummy());
    assert!(s.try_scan().is_none());
    let mut t = Scanner::new("\"\\101\"", IdentifiedSource::dummy());
    assert!(t.try_scan().is_some());
}

#[test]
fn keywords_literals_and_comments() {
    assert_eq!(
        kinds("se verdadeiro então Nada senão falso fim // comentário"),
        vec![
            TokenKind::If,
            TokenKind::True,
            TokenKind::Then,
            TokenKind::Nil,
            TokenKind::Else,
            TokenKind::False,
            TokenKind::BlockEnd,
            TokenKind::Eof
        ]
    );
    assert_eq!(
        kinds("a >= b <= c -> d"),
        vec![
            TokenKind::Identifier,
            TokenKind::GreaterOrEqual,
            TokenKind::Identifier,
            TokenKind::LessOrEqual,
            TokenKind::Identifier,
            TokenKind::Arrow,
            TokenKind::Identifier,
            TokenKind::Eof
        ]
    );
}

#[test]
fn string_span_starts_after_last_escape() {
    let mut s = Scanner::new("\"a\\x41\\t\"", IdentifiedSource::dummy());
    let toks = s.scan().unwrap();
    assert_eq!(toks[0].literal, Some(Literal::String("aA\t".to_string())));
    assert_eq!((toks[0].span.start, toks[0].span.end), (8, 9));
    let mut plain = Scanner::new("\"abc\"", IdentifiedSource::dummy());
    let toks = plain.scan().unwrap();
    assert_eq!((toks[0].span.start, toks[0].span.end), (0, 5));
}

#[test]
fn unknown_escape_span_is_empty() {
    let mut s = Scanner::new("\"ab\\q\"", IdentifiedSource::dummy());
    match s.scan() {
        Err(errs) => match &errs[0] {
            LexicalError::UnknownEscape { span, found } => {
                assert_eq!(*found, 'q');
                assert_eq!((span.start, span.end), (5, 5));
            }
            other => panic!("unexpected error {:?}", other),
        },
        Ok(_) => panic!("expected an error"),
    }
}

#[test]
fn radix_literal_values() {
    let mut s = Scanner::new("0x1_F 0b101 0o17 1.5 0xFFFF_FFFF_FFFF_FFFF 0x1_0000_0000_0000_0000", IdentifiedSource::dummy());
    let toks = s.scan().unwrap();
    let value = |i: usize| match &toks[i].literal {
        Some(Literal::Number(n)) => n.radix_value(),
        _ => panic!("expected a number"),
    };
    assert_eq!(value(0), Some(31));
    assert_eq!(value(1), Some(5));
    assert_eq!(value(2), Some(15));
    assert_eq!(value(3), None);
    assert_eq!(value(4), Some(u64::MAX));
    assert_eq!(value(5), None);
    assert_eq!(NumberLiteral::Radix(2, "102".to_string()).radix_value(), None);
}

#[test]
fn whitespace_class_agrees_with_std() {
    for code in 0u32..0x11_0000 {
        if let Some(c) = char::from_u32(code) {
            assert_eq!(tenda::text::is_whitespace(c), c.is_whitespace(), "at {:x}", code);
        }
    }
}
