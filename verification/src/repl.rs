//! Whether an interactive input is complete, or the reader should ask for more lines.

use vstd::prelude::*;
use crate::parser::{is_parsable, parsable, literal_fits, Parser, ParserError, kinds_of, simple_program, open_block_program, closed_loop_program};
use crate::scanner::{Scanner, token_views, error_views};
use crate::scanner_error::{LexicalError, LexErrorKind};
use crate::source::IdentifiedSource;
use crate::token::{Token, TokenKind, SpecToken};
use crate::lexer_spec::{LexOut, lex_from};
use crate::lexer_laws::{token_stream_shape, lex_output_shape, literal_ok};

verus! {

/// Whether an input can be run as it is, or needs more lines.
#[derive(Debug, Clone, Copy, PartialEq, Eq, Structural)]
pub enum InputStatus {
    Complete,
    Incomplete,
}

/// Whether one of the lexical errors is the end of the input.
pub fn any_lexical_eoi(errors: &Vec<LexicalError>) -> (r: bool)
    ensures
        r == exists|i: int| 0 <= i < errors@.len() && (#[trigger] errors@[i]) is UnexpectedEoi,
{
    let mut i: usize = 0;
    while i < errors.len()
        invariant
            i <= errors.len(),
            forall|j: int| 0 <= j < i ==> !((#[trigger] errors@[j]) is UnexpectedEoi),
        decreases errors.len() - i,
    {
        if let LexicalError::UnexpectedEoi { .. } = &errors[i] {
            return true;
        }
        i = i + 1;
    }
    false
}

/// Whether one of the syntax errors is the end of the input.
pub fn any_syntax_eoi(errors: &Vec<ParserError>) -> (r: bool)
    ensures
        r == exists|i: int| 0 <= i < errors@.len() && (#[trigger] errors@[i]) is UnexpectedEoi,
{
    let mut i: usize = 0;
    while i < errors.len()
        invariant
            i <= errors.len(),
            forall|j: int| 0 <= j < i ==> !((#[trigger] errors@[j]) is UnexpectedEoi),
        decreases errors.len() - i,
    {
        if let ParserError::UnexpectedEoi { .. } = &errors[i] {
            return true;
        }
        i = i + 1;
    }
    false
}

/// The tokens of a complete scan are a list the parser takes, unless there are too many of
/// them.
pub proof fn scanned_tokens_parsable(v: Seq<Token>, n: int)
    requires
        token_stream_shape(token_views(v), n),
        v.len() <= isize::MAX / 2,
    ensures
        parsable(v),
{
    reveal(token_stream_shape);
    let ts = token_views(v);
    assert(v.last()@ == ts.last());
    assert forall|i: int| 0 <= i < v.len() - 1 implies (#[trigger] v[i]).kind != TokenKind::Eof by {
        assert(ts[i] == v[i]@);
    }
    assert forall|i: int| 0 <= i < v.len() implies literal_fits(#[trigger] v[i]) by {
        assert(ts[i] == v[i]@);
        assert(literal_ok(ts[i]));
    }
}

/// Whether `input` is complete: it is incomplete where scanning or parsing it stops at the end
/// of the input, and complete otherwise (with other errors too: running it reports them).
/// `None` where scanning stops at an octal escape above `\\377`, or there are more tokens than
/// the parser takes.
/// A program of simple lines (see `simple_program`), or one that starts with a closed loop of
/// them (`closed_loop_program`), is complete; a block opened and not closed is incomplete.
pub fn validate_input(input: &str) -> (r: Option<InputStatus>)
    ensures
        ({
            let out = lex_from(input@, 0, Seq::empty(), Seq::empty(), false);
            &&& out is Aborted ==> r is None
            &&& out matches LexOut::Errors(es) ==> r == Some(
                if exists|i: int| 0 <= i < es.len() && (#[trigger] es[i]).kind == LexErrorKind::UnexpectedEoi {
                    InputStatus::Incomplete
                } else {
                    InputStatus::Complete
                },
            )
            &&& out matches LexOut::Tokens(ts) ==> (r is Some <==> ts.len() <= isize::MAX / 2)
            &&& out matches LexOut::Tokens(ts) ==> {
                let ks = ts.map_values(|t: SpecToken| t.kind);
                &&& ts.len() <= isize::MAX / 2 && simple_program(ks, 0) ==> r == Some(InputStatus::Complete)
                &&& ts.len() <= isize::MAX / 2 && open_block_program(ks, 0) ==> r == Some(InputStatus::Incomplete)
                &&& ts.len() <= isize::MAX / 2 && closed_loop_program(ks, 0) ==> r == Some(InputStatus::Complete)
            }
        }),
{
    proof {
        lex_output_shape(input@, 0);
    }
    let mut scanner = Scanner::new(input, IdentifiedSource::dummy());
    match scanner.try_scan() {
        None => None,
        Some(Err(errors)) => {
            proof {
                let es = error_views(errors@);
                assert forall|i: int| 0 <= i < errors@.len() implies ((#[trigger] errors@[i]) is UnexpectedEoi
                    <==> es[i].kind == LexErrorKind::UnexpectedEoi) by {
                    assert(es[i] == errors@[i]@);
                }
                if exists|i: int| 0 <= i < es.len() && (#[trigger] es[i]).kind == LexErrorKind::UnexpectedEoi {
                    let i = choose|i: int| 0 <= i < es.len() && (#[trigger] es[i]).kind == LexErrorKind::UnexpectedEoi;
                    assert(errors@[i] is UnexpectedEoi);
                }
            }
            if any_lexical_eoi(&errors) {
                Some(InputStatus::Incomplete)
            } else {
                Some(InputStatus::Complete)
            }
        },
        Some(Ok(tokens)) => {
            proof {
                if tokens@.len() <= isize::MAX / 2 {
                    scanned_tokens_parsable(tokens@, input@.len() as int);
                }
                assert(token_views(tokens@).len() == tokens@.len());
                assert(token_views(tokens@).map_values(|t: SpecToken| t.kind) =~= kinds_of(tokens@));
            }
            if !is_parsable(&tokens) {
                return None;
            }
            let mut parser = Parser::new(tokens, IdentifiedSource::dummy());
            match parser.parse() {
                Ok(_) => Some(InputStatus::Complete),
                Err(errors) => {
                    if any_syntax_eoi(&errors) {
                        Some(InputStatus::Incomplete)
                    } else {
                        Some(InputStatus::Complete)
                    }
                },
            }
        },
    }
}

} // verus!
