use peekmore::PeekMore;
use tenda::scanner::Scanner;
use tenda::source::IdentifiedSource;
use tenda::token::{Token, TokenKind};
use tenda::token_iter::{NewlineGuard, TokenIterator};

fn tokens(src: &str) -> Vec<Token> {
    let mut s = Scanner::new(src, IdentifiedSource::dummy());
    s.scan().expect("scan ok")
}

#[test]
fn peek_and_next_walk_the_tokens() {
    let mut it = TokenIterator::from_tokens(tokens("a + b"));
    assert_eq!(it.peek().map(|t| t.kind), Some(TokenKind::Identifier));
    assert_eq!(it.next().map(|t| t.lexeme.clone()), Some("a".to_string()));
    assert_eq!(it.next().map(|t| t.kind), Some(TokenKind::Plus));
    assert_eq!(it.next().map(|t| t.kind), Some(TokenKind::Identifier));
    assert_eq!(it.next().map(|t| t.kind), Some(TokenKind::Eof));
    assert!(it.next().is_none());
    assert!(it.peek().is_none());
    assert_eq!(it.last_token().kind, TokenKind::Eof);
}

#[test]
fn newlines_are_skipped_while_guarded() {
    let mut it = TokenIterator::from_tokens(tokens("a\nb"));
    assert_eq!(it.next().map(|t| t.kind), Some(TokenKind::Identifier));
    assert_eq!(it.peek().map(|t| t.kind), Some(TokenKind::Newline));
    let guard = it.set_ignoring_newline();
    assert_eq!(it.peek().map(|t| t.kind), Some(TokenKind::Identifier));
    it.release(guard);
    assert_eq!(it.next().map(|t| t.lexeme.clone()), Some("b".to_string()));
}

#[test]
fn halt_stops_skipping_until_released() {
    let mut it = TokenIterator::from_tokens(tokens("a\n\nb"));
    let outer = it.set_ignoring_newline();
    let halt = it.halt_ignoring_newline();
    it.next();
    assert!(it.is_next_token(TokenKind::Newline));
    it.release(halt);
    assert!(it.is_next_token(TokenKind::Identifier));
    it.release(outer);
}

#[test]
fn consume_one_of_takes_a_matching_token() {
    let mut it = TokenIterator::from_tokens(tokens("+ 1"));
    assert!(it.consume_one_of(&[TokenKind::Minus, TokenKind::Star]).is_none());
    let t = it.consume_one_of(&[TokenKind::Minus, TokenKind::Plus]).expect("plus");
    assert_eq!(t.kind, TokenKind::Plus);
    assert_eq!(it.peek().map(|t| t.kind), Some(TokenKind::Number));
}

#[test]
fn consume_sequence_takes_the_skipped_newlines_too() {
    let mut it = TokenIterator::from_tokens(tokens("para\ncada x"));
    assert!(it.consume_sequence(&[TokenKind::ForOrBreak, TokenKind::Each]).is_none());
    let guard = it.set_ignoring_newline();
    assert!(it.check_sequence(&[TokenKind::ForOrBreak, TokenKind::Each]));
    let v = it.consume_sequence(&[TokenKind::ForOrBreak, TokenKind::Each]).expect("sequence");
    assert_eq!(
        v.iter().map(|t| t.kind).collect::<Vec<_>>(),
        vec![TokenKind::ForOrBreak, TokenKind::Newline, TokenKind::Each]
    );
    it.release(guard);
    assert_eq!(it.peek().map(|t| t.kind), Some(TokenKind::Identifier));
}

#[test]
fn end_of_input_checks() {
    let mut it = TokenIterator::from_tokens(tokens("a\n"));
    assert!(it.is_next_valid());
    assert!(!it.is_next_eof());
    it.next();
    assert!(it.is_next_eof());
    assert!(it.is_next_valid());
    let guard = it.set_ignoring_newline();
    assert!(!it.is_next_valid());
    it.release(guard);
}

#[test]
fn advance_while_skips_the_given_kinds() {
    let mut it = TokenIterator::from_tokens(tokens("a\n\nb"));
    it.next();
    assert_eq!(it.peek().map(|t| t.kind), Some(TokenKind::Newline));
    it.advance_while(&[TokenKind::Newline]);
    assert_eq!(it.peek().map(|t| t.kind), Some(TokenKind::Identifier));
}

#[test]
fn newline_guard_moves_the_counter() {
    let mut counter: isize = 0;
    let g1 = NewlineGuard::new(&mut counter, None);
    assert_eq!(counter, 1);
    let g2 = NewlineGuard::new(&mut counter, Some(-1));
    assert_eq!(counter, 0);
    g2.release(&mut counter);
    assert_eq!(counter, 1);
    g1.release(&mut counter);
    assert_eq!(counter, 0);
}

#[test]
fn walks_the_tokens_as_a_peekmore_iterator_does() {
    let toks = tokens("seja x = [1, 2]\nx");
    let mut reference = toks.iter().peekmore();
    let mut it = TokenIterator::from_tokens(toks.clone());
    loop {
        assert_eq!(reference.peek().map(|t| t.kind), it.peek().map(|t| t.kind));
        let expected = reference.next().map(|t| t.kind);
        assert_eq!(expected, it.next().map(|t| t.kind));
        if expected.is_none() {
            break;
        }
    }
}
