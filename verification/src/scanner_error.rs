//! Errors the scanner reports.

use vstd::prelude::*;
use crate::span::SourceSpan;

verus! {

/// A lexical error with the region it concerns.
#[derive(Debug, Clone, PartialEq)]
pub enum LexicalError {
    LeadingZeroNumberLiterals { span: SourceSpan },
    UnexpectedStringEol { span: SourceSpan },
    UnexpectedChar { character: char, span: SourceSpan },
    UnexpectedEoi { span: SourceSpan },
    InvalidHexEscape { span: SourceSpan },
    InvalidOctalEscape { span: SourceSpan },
    InvalidUnicodeEscape { span: SourceSpan },
    UnknownEscape { span: SourceSpan, found: char },
}

/// The kind of a lexical error, with the character it names where it names one.
#[derive(PartialEq, Eq, Structural)]
pub enum LexErrorKind {
    LeadingZeroNumberLiterals,
    UnexpectedStringEol,
    UnexpectedChar(char),
    UnexpectedEoi,
    InvalidHexEscape,
    InvalidOctalEscape,
    InvalidUnicodeEscape,
    UnknownEscape(char),
}

/// The mathematical model of a lexical error: its kind and region.
#[verifier::ext_equal]
pub struct SpecLexError {
    pub kind: LexErrorKind,
    pub start: int,
    pub end: int,
}

impl LexicalError {
    /// The region of the error.
    pub open spec fn spec_span(&self) -> SourceSpan {
        match self {
            LexicalError::LeadingZeroNumberLiterals { span } => *span,
            LexicalError::UnexpectedStringEol { span } => *span,
            LexicalError::UnexpectedChar { span, .. } => *span,
            LexicalError::UnexpectedEoi { span } => *span,
            LexicalError::InvalidHexEscape { span } => *span,
            LexicalError::InvalidOctalEscape { span } => *span,
            LexicalError::InvalidUnicodeEscape { span } => *span,
            LexicalError::UnknownEscape { span, .. } => *span,
        }
    }

    /// The kind of the error.
    pub open spec fn spec_kind(&self) -> LexErrorKind {
        match self {
            LexicalError::LeadingZeroNumberLiterals { .. } => LexErrorKind::LeadingZeroNumberLiterals,
            LexicalError::UnexpectedStringEol { .. } => LexErrorKind::UnexpectedStringEol,
            LexicalError::UnexpectedChar { character, .. } => LexErrorKind::UnexpectedChar(*character),
            LexicalError::UnexpectedEoi { .. } => LexErrorKind::UnexpectedEoi,
            LexicalError::InvalidHexEscape { .. } => LexErrorKind::InvalidHexEscape,
            LexicalError::InvalidOctalEscape { .. } => LexErrorKind::InvalidOctalEscape,
            LexicalError::InvalidUnicodeEscape { .. } => LexErrorKind::InvalidUnicodeEscape,
            LexicalError::UnknownEscape { found, .. } => LexErrorKind::UnknownEscape(*found),
        }
    }

    /// The region of the error.
    pub fn span(&self) -> (r: &SourceSpan)
        ensures
            *r == self.spec_span(),
    {
        match self {
            LexicalError::LeadingZeroNumberLiterals { span } => span,
            LexicalError::UnexpectedStringEol { span } => span,
            LexicalError::UnexpectedChar { span, .. } => span,
            LexicalError::UnexpectedEoi { span } => span,
            LexicalError::InvalidHexEscape { span } => span,
            LexicalError::InvalidOctalEscape { span } => span,
            LexicalError::InvalidUnicodeEscape { span } => span,
            LexicalError::UnknownEscape { span, .. } => span,
        }
    }
}

impl View for LexicalError {
    type V = SpecLexError;

    open spec fn view(&self) -> SpecLexError {
        SpecLexError {
            kind: self.spec_kind(),
            start: self.spec_span().start as int,
            end: self.spec_span().end as int,
        }
    }
}

} // verus!
