//! Regions of a source text.

use vstd::prelude::*;
use crate::source::IdentifiedSource;
use vstd::utf8::is_char_boundary;
use crate::text_builtins::{byte_range, utf8_bytes};

verus! {

/// A region `[start, end)` of a source text, with an optional label. The scanner counts the
/// positions of the regions it makes in characters; `Span::extract` reads them as byte positions.
#[derive(Debug, Clone, PartialEq)]
pub struct SourceSpan {
    pub start: usize,
    pub end: usize,
    pub source: IdentifiedSource,
    pub label: Option<String>,
}

impl SourceSpan {
    /// An unlabelled region.
    pub fn new(start: usize, end: usize, source: IdentifiedSource) -> (r: SourceSpan)
        ensures
            r.start == start,
            r.end == end,
            r.source == source,
            r.label is None,
    {
        SourceSpan { start, end, source, label: None }
    }

    /// The same region, labelled.
    pub fn with_label(self, label: String) -> (r: SourceSpan)
        ensures
            r.start == self.start,
            r.end == self.end,
            r.source == self.source,
            r.label == Some(label),
    {
        let mut s = self;
        s.label = Some(label);
        s
    }

    /// Where the region starts.
    pub fn start(&self) -> (r: usize)
        ensures
            r == self.start,
    {
        self.start
    }

    /// Where the region ends (exclusive).
    pub fn end(&self) -> (r: usize)
        ensures
            r == self.end,
    {
        self.end
    }

    /// An equal copy of the region.
    pub fn duplicate(&self) -> (r: SourceSpan)
        ensures
            r == *self,
    {
        let label = match &self.label {
            Some(l) => Some(l.clone()),
            None => None,
        };
        SourceSpan { start: self.start, end: self.end, source: self.source, label }
    }

    /// The source the region belongs to.
    pub fn source(&self) -> (r: IdentifiedSource)
        ensures
            r == self.source,
    {
        self.source
    }
}

/// A region of a source text together with the line and column where it starts.
#[derive(Debug, Clone, Copy, PartialEq, Eq)]
pub struct TokenSpan {
    pub start: usize,
    pub end: usize,
    pub line: usize,
    pub col: usize,
}

impl TokenSpan {
    /// A region with its position.
    pub fn new(start: usize, end: usize, line: usize, col: usize) -> (r: TokenSpan)
        ensures
            r == (TokenSpan { start, end, line, col }),
    {
        TokenSpan { start, end, line, col }
    }
}

/// A region of a source text.
pub trait Span {
    /// Where the region starts.
    spec fn first(&self) -> usize;

    /// Where the region ends (exclusive).
    spec fn last(&self) -> usize;

    /// Where the region starts.
    fn start(&self) -> (r: usize)
        ensures
            r == self.first(),
    ;

    /// Where the region ends (exclusive).
    fn end(&self) -> (r: usize)
        ensures
            r == self.last(),
    ;

    /// The source the region belongs to.
    fn source(&self) -> IdentifiedSource;

    /// The text of `source` between the byte positions where the region starts and ends,
    /// which must lie on character boundaries.
    fn extract(&self, source: &str) -> (r: String)
        requires
            self.first() <= self.last() <= utf8_bytes(source@).len(),
            is_char_boundary(utf8_bytes(source@), self.first() as int),
            is_char_boundary(utf8_bytes(source@), self.last() as int),
        ensures
            utf8_bytes(r@) == utf8_bytes(source@).subrange(self.first() as int, self.last() as int),
    ;
}

impl Span for SourceSpan {
    open spec fn first(&self) -> usize {
        self.start
    }

    open spec fn last(&self) -> usize {
        self.end
    }

    fn start(&self) -> (r: usize) {
        self.start
    }

    fn end(&self) -> (r: usize) {
        self.end
    }

    fn source(&self) -> (r: IdentifiedSource)
        ensures
            r == self.source,
    {
        self.source
    }

    fn extract(&self, source: &str) -> (r: String) {
        byte_range(source, self.start, self.end)
    }
}

} // verus!
