//! A cursor over the characters of a source that remembers where the current token started.

use vstd::prelude::*;
use crate::source::IdentifiedSource;
use crate::span::SourceSpan;
use crate::token::{Token, TokenKind, Literal};
use crate::lexer_spec::mk_tok;
use crate::text::chars_of;

verus! {

/// The characters of a source, the position of the next one, and where the current token
/// started.
pub struct SourceIter {
    chars: Vec<char>,
    source_id: IdentifiedSource,
    start_position: usize,
    end_position: usize,
}

impl SourceIter {
    /// The characters of the source.
    pub closed spec fn text(&self) -> Seq<char> {
        self.chars@
    }

    /// Where the current token started.
    pub closed spec fn start(&self) -> int {
        self.start_position as int
    }

    /// The position of the next character (the number of characters read).
    pub closed spec fn pos(&self) -> int {
        self.end_position as int
    }

    /// The source being read.
    pub closed spec fn id(&self) -> IdentifiedSource {
        self.source_id
    }

    /// The start lies at or before the position, which lies within the source.
    pub open spec fn wf(&self) -> bool {
        0 <= self.start() <= self.pos() <= self.text().len() <= usize::MAX
    }

    /// A cursor at the beginning of `input`.
    pub fn new(input: &str, source_id: IdentifiedSource) -> (r: SourceIter)
        ensures
            r.wf(),
            r.text() == input@,
            r.start() == 0,
            r.pos() == 0,
            r.id() == source_id,
    {
        let chars = chars_of(input);
        assert(chars@.len() == chars.len());
        SourceIter { chars, source_id, start_position: 0, end_position: 0 }
    }

    /// Reads the next character, if there is one.
    pub fn next(&mut self) -> (r: Option<char>)
        requires
            old(self).wf(),
        ensures
            final(self).wf(),
            final(self).text() == old(self).text(),
            final(self).id() == old(self).id(),
            final(self).start() == old(self).start(),
            old(self).pos() < old(self).text().len() ==> r == Some(old(self).text()[old(self).pos()])
                && final(self).pos() == old(self).pos() + 1,
            old(self).pos() >= old(self).text().len() ==> r is None && final(self).pos()
                == old(self).pos(),
    {
        if self.end_position < self.chars.len() {
            let c = self.chars[self.end_position];
            self.end_position = self.end_position + 1;
            Some(c)
        } else {
            None
        }
    }

    /// The next character, without reading it.
    pub fn peek(&self) -> (r: Option<&char>)
        requires
            self.wf(),
        ensures
            r is Some <==> self.pos() < self.text().len(),
            r matches Some(c) ==> *c == self.text()[self.pos()],
    {
        if self.end_position < self.chars.len() {
            Some(&self.chars[self.end_position])
        } else {
            None
        }
    }

    /// The region from the current token's start to the position; the next token starts here.
    pub fn consume_span(&mut self) -> (r: SourceSpan)
        requires
            old(self).wf(),
        ensures
            final(self).wf(),
            final(self).text() == old(self).text(),
            final(self).id() == old(self).id(),
            final(self).pos() == old(self).pos(),
            final(self).start() == old(self).pos(),
            r.start == old(self).start(),
            r.end == old(self).pos(),
            r.source == old(self).id(),
            r.label is None,
    {
        let span = SourceSpan::new(self.start_position, self.end_position, self.source_id);
        self.start_position = self.end_position;
        span
    }

    /// Drops what was read since the current token's start.
    pub fn ignore_char(&mut self)
        requires
            old(self).wf(),
        ensures
            final(self).wf(),
            final(self).text() == old(self).text(),
            final(self).id() == old(self).id(),
            final(self).pos() == old(self).pos(),
            final(self).start() == old(self).pos(),
    {
        self.start_position = self.end_position;
    }

    /// A token without a value over the region read since the current token's start.
    pub fn consume_token(&mut self, kind: TokenKind, lexeme: &str) -> (r: Token)
        requires
            old(self).wf(),
        ensures
            final(self).wf(),
            final(self).text() == old(self).text(),
            final(self).id() == old(self).id(),
            final(self).pos() == old(self).pos(),
            final(self).start() == old(self).pos(),
            r@ == mk_tok(kind, lexeme@, None, old(self).start(), old(self).pos()),
            r.span.source == old(self).id(),
            r.span.label is None,
    {
        Token::new(kind, String::from_str(lexeme), None, self.consume_span())
    }

    /// A token with a value over the region read since the current token's start.
    pub fn consume_token_with_literal(&mut self, kind: TokenKind, lexeme: String, literal: Literal) -> (r:
        Token)
        requires
            old(self).wf(),
        ensures
            final(self).wf(),
            final(self).text() == old(self).text(),
            final(self).id() == old(self).id(),
            final(self).pos() == old(self).pos(),
            final(self).start() == old(self).pos(),
            r@ == mk_tok(kind, lexeme@, Some(literal@), old(self).start(), old(self).pos()),
            r.span.source == old(self).id(),
            r.span.label is None,
    {
        Token::new(kind, lexeme, Some(literal), self.consume_span())
    }

    /// The end-of-input token over the region read since the current token's start.
    pub fn consume_eof(&mut self) -> (r: Token)
        requires
            old(self).wf(),
        ensures
            final(self).wf(),
            final(self).text() == old(self).text(),
            final(self).id() == old(self).id(),
            final(self).pos() == old(self).pos(),
            final(self).start() == old(self).pos(),
            r@ == mk_tok(TokenKind::Eof, "EOF"@, None, old(self).start(), old(self).pos()),
            r.span.source == old(self).id(),
            r.span.label is None,
    {
        Token::eoi(self.consume_span())
    }
}

} // verus!
