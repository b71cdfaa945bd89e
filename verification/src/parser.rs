//! The parser: from the tokens of a program to its syntax tree.
//!
//! A recursive descent over the token list. Newlines end statements, except inside
//! expressions, where the parser skips them (and stops skipping them again inside the blocks
//! of anonymous functions).

use vstd::prelude::*;
use crate::ast::{self, Ast, Stmt, Expr, Decl, binary_operator_of, unary_operator_of, BinaryOperator, UnaryOperator, FunctionParam};
use crate::annotate::{annotate_ast_with_var_captures, annotated_stmt, annotated_expr, lemma_annotated_stmts_shaped, lemma_annotated_stmts_jumps,
    lemma_annotated_stmts_uids};
use crate::captures::captures_seq;
use crate::scope_tracker::{BlockScope, ScopeTracker};
use crate::shape::{shaped_stmt, shaped_stmts, shaped_expr, shaped_exprs, shaped_pairs, lemma_shaped_seq, binding_power, distinct_params, jumps_placed_expr,
    jumps_placed_exprs, jumps_placed_pairs, jumps_placed_stmt, jumps_placed_stmts, uids_expr, uids_exprs, uids_pairs,
    uids_stmt, uids_stmts, param_uids, fresh_uids, lemma_fresh_concat};
use crate::source::IdentifiedSource;
use crate::span::SourceSpan;
use crate::captures::{has_param_named, has_param};
use crate::token::{Token, TokenKind, Literal};
use crate::token_iter::{TokenIterator, NewlineGuard, skipped, next_relevant, lemma_drain_stops_at_last, lemma_next_relevant_bounded, lemma_match_end_bounded, kind_in, match_end,
    lemma_drain_is_next_relevant};

verus! {

/// The syntax errors.
#[derive(Debug, Clone, PartialEq)]
pub enum ParserError {
    /// The input ended where more was expected.
    UnexpectedEoi { span: SourceSpan },
    /// A `)` is missing.
    MissingParentheses { span: SourceSpan },
    /// A `]` is missing.
    MissingBrackets { span: SourceSpan },
    /// A `}` is missing.
    MissingBraces { span: SourceSpan },
    /// A `:` is missing.
    MissingColon { span: SourceSpan },
    /// A token that does not fit where it stands.
    UnexpectedToken { token: Token, span: SourceSpan },
    /// The left side of `=` cannot be assigned to.
    InvalidAssignmentTarget { token: Token, span: SourceSpan },
    /// `retorna` outside a function.
    IllegalReturn { span: SourceSpan },
    /// `para` (break) outside a loop.
    IllegalBreak { span: SourceSpan },
    /// `continua` outside a loop.
    IllegalContinue { span: SourceSpan },
    /// Two parameters of a function have the same name.
    DuplicateParameter { name: String, span: SourceSpan },
    /// An operator that cannot be chained was chained.
    InvalidChaining { op: Token, span: SourceSpan, message: Option<String>, help: Option<String> },
}

/// The error for a token that does not fit where it stands: the end of the input, or the token.
pub fn unexpected_token(token: Token) -> (r: ParserError)
    ensures
        token.kind == TokenKind::Eof ==> r == (ParserError::UnexpectedEoi { span: token.span }),
        token.kind != TokenKind::Eof ==> r == (ParserError::UnexpectedToken { span: token.span, token }),
{
    match token.kind {
        TokenKind::Eof => ParserError::UnexpectedEoi { span: token.span },
        _ => {
            let span = token.span.duplicate();
            ParserError::UnexpectedToken { token, span }
        },
    }
}

/// A scope is among the pushed ones where it was before or is the one pushed.
proof fn lemma_push_contains(s: Seq<BlockScope>, x: BlockScope, y: BlockScope)
    ensures
        s.push(x).contains(y) == (s.contains(y) || x == y),
{
    if s.contains(y) {
        let i = choose|i: int| 0 <= i < s.len() && s[i] == y;
        assert(s.push(x)[i] == y);
    }
    if x == y {
        assert(s.push(x)[s.len() as int] == y);
    }
    if s.push(x).contains(y) {
        let i = choose|i: int| 0 <= i < s.push(x).len() && s.push(x)[i] == y;
        if i < s.len() {
            assert(s[i] == y);
        }
    }
}

/// A failure's report: a single error, which, where it is the end of the input, points at the
/// end of the input.
pub open spec fn errors_reported(toks: Seq<Token>, es: Seq<ParserError>) -> bool {
    &&& es.len() == 1
    &&& es[0] matches ParserError::UnexpectedEoi { span } ==> span == toks.last().span
}

/// Whether a token carries the value that its kind calls for: an identifier its name, a
/// literal its value.
pub open spec fn literal_fits(t: Token) -> bool {
    match t.kind {
        TokenKind::Identifier => t.literal matches Some(Literal::String(_)),
        TokenKind::Number | TokenKind::True | TokenKind::False | TokenKind::String | TokenKind::Nil => t.literal is Some,
        _ => true,
    }
}

/// A token list the parser takes: it ends with the end of the input and holds it nowhere
/// else, and every token carries the value its kind calls for. (No list in memory holds more
/// than `isize::MAX / 2` tokens.)
pub open spec fn parsable(toks: Seq<Token>) -> bool {
    &&& 0 < toks.len() <= isize::MAX / 2
    &&& toks.last().kind == TokenKind::Eof
    &&& forall|i: int| 0 <= i < toks.len() - 1 ==> (#[trigger] toks[i]).kind != TokenKind::Eof
    &&& forall|i: int| 0 <= i < toks.len() ==> literal_fits(#[trigger] toks[i])
}

/// Whether a token list is one the parser takes.
pub fn is_parsable(tokens: &Vec<Token>) -> (r: bool)
    ensures
        r == parsable(tokens@),
{
    let n = tokens.len();
    let limit: usize = (isize::MAX as usize) / 2;
    if n == 0 || n > limit {
        return false;
    }
    if tokens[n - 1].kind != TokenKind::Eof {
        return false;
    }
    let mut i: usize = 0;
    while i < n
        invariant
            n == tokens@.len(),
            0 < n <= isize::MAX / 2,
            tokens@.last().kind == TokenKind::Eof,
            i <= n,
            forall|j: int| 0 <= j < i && j < n - 1 ==> (#[trigger] tokens@[j]).kind != TokenKind::Eof,
            forall|j: int| 0 <= j < i ==> literal_fits(#[trigger] tokens@[j]),
        decreases n - i,
    {
        let t = &tokens[i];
        if i < n - 1 && t.kind == TokenKind::Eof {
            return false;
        }
        let fits = match t.kind {
            TokenKind::Identifier => match &t.literal {
                Some(Literal::String(_)) => true,
                _ => false,
            },
            TokenKind::Number | TokenKind::True | TokenKind::False | TokenKind::String | TokenKind::Nil => t.literal.is_some(),
            _ => true,
        };
        if !fits {
            return false;
        }
        i = i + 1;
    }
    true
}

/// The parser: a cursor over the tokens, the blocks it is inside of, a counter for the
/// identifiers of declarations and references, and the source the tokens come from.
pub struct Parser {
    tokens: TokenIterator,
    scope: ScopeTracker,
    uid_counter: usize,
    source_id: IdentifiedSource,
}

impl Parser {
    /// The tokens.
    pub closed spec fn toks(&self) -> Seq<Token> {
        self.tokens.toks()
    }

    /// The index of the first token not consumed.
    pub closed spec fn pos(&self) -> int {
        self.tokens.position()
    }

    /// The last identifier handed out.
    pub closed spec fn uid(&self) -> int {
        self.uid_counter as int
    }

    /// The newline counter.
    pub closed spec fn ctr(&self) -> int {
        self.tokens.counter()
    }

    /// The blocks the parser is inside of.
    pub closed spec fn scopes(&self) -> Seq<BlockScope> {
        self.scope.scopes()
    }

    /// The parser can go on: the end of the input is not consumed, the look-ahead cursor rests
    /// at the position, and no more identifiers than tokens were handed out.
    pub closed spec fn live(&self) -> bool {
        &&& self.tokens.wf()
        &&& parsable(self.tokens.toks())
        &&& self.tokens.position() < self.tokens.toks().len()
        &&& self.tokens.look() == 0
        &&& 0 <= self.tokens.counter()
        &&& self.uid_counter <= self.tokens.position()
    }

    /// What every parsing step keeps: the tokens, the newline counter, the blocks and the source.
    closed spec fn kept(&self, old: &Parser) -> bool {
        &&& self.tokens.wf()
        &&& self.tokens.toks() == old.tokens.toks()
        &&& self.tokens.counter() == old.tokens.counter()
        &&& self.scope.scopes() == old.scope.scopes()
        &&& self.source_id == old.source_id
    }

    /// The parser went on from `old`: it can still go on, did not move back, and handed out at
    /// most one identifier for each token it consumed.
    closed spec fn moved(&self, old: &Parser) -> bool {
        &&& self.live()
        &&& self.pos() >= old.pos()
        &&& self.pos() - self.uid() >= old.pos() - old.uid()
    }

    /// `moved`, with at least one token consumed.
    closed spec fn stepped(&self, old: &Parser) -> bool {
        &&& self.moved(old)
        &&& self.pos() > old.pos()
    }

    /// Whether the parser is inside a function.
    closed spec fn in_fn(&self) -> bool {
        self.scopes().contains(BlockScope::Function)
    }

    /// Whether the parser is inside a loop.
    closed spec fn in_loop(&self) -> bool {
        self.scopes().contains(BlockScope::Loop)
    }

    /// The tokens left to consume.
    closed spec fn remaining(&self) -> int {
        self.tokens.toks().len() - self.tokens.position()
    }

    /// A parser at the first of `tokens`, outside every block but the global one.
    pub fn new(tokens: Vec<Token>, source_id: IdentifiedSource) -> (r: Parser)
        requires
            parsable(tokens@),
        ensures
            r.live(),
            r.toks() == tokens@,
            r.pos() == 0,
            r.uid() == 0,
            r.ctr() == 0,
            r.scopes() == seq![BlockScope::Global],
    {
        Parser { tokens: TokenIterator::from_tokens(tokens), scope: ScopeTracker::new(), uid_counter: 0, source_id }
    }

    /// Hands out the next identifier.
    fn gen_uid(&mut self) -> (r: usize)
        requires
            old(self).uid() < old(self).pos(),
            old(self).tokens.wf(),
        ensures
            r as int == old(self).uid() + 1,
            final(self).uid() == old(self).uid() + 1,
            final(self).tokens == old(self).tokens,
            final(self).scope == old(self).scope,
            final(self).source_id == old(self).source_id,
    {
        proof {
            self.tokens.lemma_wf();
        }
        self.uid_counter = self.uid_counter + 1;
        self.uid_counter
    }

    /// Consumes the skipped newlines and the next token, and returns it.
    fn next_token(&mut self) -> (r: Token)
        requires
            old(self).live(),
        ensures
            final(self).kept(&*old(self)),
            final(self).uid() == old(self).uid(),
            final(self).pos() > old(self).pos(),
            final(self).pos() <= old(self).toks().len(),
            r == old(self).toks()[final(self).pos() - 1],
            final(self).tokens.look() == 0,
            r.kind != TokenKind::Eof ==> final(self).live(),
            !skipped(old(self).toks()[old(self).pos()].kind, old(self).tokens.skipping()) ==> final(self).pos()
                == old(self).pos() + 1,
            final(self).pos() == next_relevant(old(self).toks(), old(self).pos(), old(self).tokens.skipping()) + 1,
    {
        let ghost toks = self.tokens.toks();
        proof {
            self.tokens.lemma_wf();
            let pred = |k: TokenKind| skipped(k, self.tokens.skipping());
            lemma_drain_stops_at_last(toks, self.tokens.position(), 0, pred);
            lemma_drain_is_next_relevant(toks, self.tokens.position(), self.tokens.skipping(), pred);
        }
        let t = match self.tokens.next() {
            Some(t) => t.clone_ref(),
            None => {
                assert(false);
                Token::eoi(SourceSpan::new(0, 0, self.source_id))
            },
        };
        proof {
            self.tokens.lemma_wf();
            let p = self.tokens.position() - 1;
            if toks[p].kind != TokenKind::Eof {
                assert(p != toks.len() - 1);
            }
        }
        t
    }

    /// Consumes the skipped newlines and returns the next token, without consuming it.
    fn peek_token(&mut self) -> (r: Token)
        requires
            old(self).live(),
        ensures
            final(self).kept(&*old(self)),
            final(self).moved(&*old(self)),
            final(self).uid() == old(self).uid(),
            r == final(self).toks()[final(self).pos()],
            !skipped(r.kind, old(self).tokens.skipping()),
            final(self).pos() == next_relevant(old(self).toks(), old(self).pos(), old(self).tokens.skipping()),
    {
        let ghost toks = self.tokens.toks();
        proof {
            self.tokens.lemma_wf();
            let pred = |k: TokenKind| skipped(k, self.tokens.skipping());
            lemma_drain_stops_at_last(toks, self.tokens.position(), 0, pred);
            lemma_drain_is_next_relevant(toks, self.tokens.position(), self.tokens.skipping(), pred);
        }
        let t = self.tokens.peek();
        match t {
            Some(t) => t.clone_ref(),
            None => {
                assert(false);
                Token::eoi(SourceSpan::new(0, 0, self.source_id))
            },
        }
    }

    /// Where the next token is one of `kinds`, consumes it (with the skipped newlines before
    /// it) and returns it.
    fn take_one_of(&mut self, kinds: &[TokenKind]) -> (r: Option<Token>)
        requires
            old(self).live(),
            !kinds@.contains(TokenKind::Eof),
        ensures
            final(self).kept(&*old(self)),
            final(self).moved(&*old(self)),
            final(self).uid() == old(self).uid(),
            r matches Some(t) ==> final(self).pos() > old(self).pos() && t == old(self).toks()[final(self).pos() - 1]
                && kinds@.contains(t.kind),
            r is None ==> final(self).pos() == old(self).pos(),
            ({
                let j = next_relevant(old(self).toks(), old(self).pos(), old(self).tokens.skipping());
                &&& r is Some <==> kinds@.contains(old(self).toks()[j].kind)
                &&& r is Some ==> final(self).pos() == j + 1
            }),
    {
        proof {
            self.tokens.lemma_wf();
            lemma_next_relevant_bounded(self.tokens.toks(), self.tokens.position(), self.tokens.skipping());
            let j = next_relevant(self.tokens.toks(), self.tokens.position(), self.tokens.skipping());
            if kinds@.contains(self.tokens.toks()[j].kind) {
                assert(self.tokens.toks()[j].kind != TokenKind::Eof);
                assert(j != self.tokens.toks().len() - 1);
            }
        }
        self.tokens.consume_one_of(kinds)
    }

    /// Where the next tokens are of the kinds `kinds`, one after the other, consumes them.
    fn take_sequence(&mut self, kinds: &[TokenKind]) -> (r: bool)
        requires
            old(self).live(),
            kinds@.len() > 0,
            forall|k: int| 0 <= k < kinds@.len() ==> kinds@[k] != TokenKind::Eof,
        ensures
            final(self).kept(&*old(self)),
            final(self).moved(&*old(self)),
            final(self).uid() == old(self).uid(),
            r ==> final(self).pos() > old(self).pos(),
            !r ==> final(self).pos() == old(self).pos(),
            r == match_end(old(self).toks(), old(self).pos(), kinds@, old(self).tokens.skipping()) is Some,
            r ==> final(self).pos() == match_end(old(self).toks(), old(self).pos(), kinds@, old(self).tokens.skipping())->Some_0,
    {
        proof {
            self.tokens.lemma_wf();
            lemma_match_end_bounded(self.tokens.toks(), self.tokens.position(), kinds@, self.tokens.skipping());
        }
        self.tokens.consume_sequence(kinds).is_some()
    }

    /// Whether the next token, newlines not skipped, is of kind `kind`.
    fn next_is(&mut self, kind: TokenKind) -> (r: bool)
        requires
            old(self).live(),
            old(self).ctr() == 0,
        ensures
            final(self).kept(&*old(self)),
            final(self).live(),
            final(self).pos() == old(self).pos(),
            final(self).uid() == old(self).uid(),
            r == (old(self).toks()[old(self).pos()].kind == kind),
    {
        proof {
            self.tokens.lemma_wf();
        }
        self.tokens.is_next_token(kind)
    }

    /// Whether only newlines, then the end of the input, follow.
    fn next_is_eof(&mut self) -> (r: bool)
        requires
            old(self).live(),
        ensures
            final(self).kept(&*old(self)),
            final(self).live(),
            final(self).pos() == old(self).pos(),
            final(self).uid() == old(self).uid(),
            r == (old(self).toks()[next_relevant(old(self).toks(), old(self).pos(), true)].kind == TokenKind::Eof),
    {
        proof {
            self.tokens.lemma_wf();
            lemma_next_relevant_bounded(self.tokens.toks(), self.tokens.position(), true);
        }
        self.tokens.is_next_eof()
    }

    /// Consumes the newlines that follow. Where the next token is a newline, that is at least
    /// one token.
    fn skip_newlines(&mut self)
        requires
            old(self).live(),
        ensures
            final(self).kept(&*old(self)),
            final(self).moved(&*old(self)),
            final(self).uid() == old(self).uid(),
            old(self).toks()[old(self).pos()].kind == TokenKind::Newline ==> final(self).pos() > old(self).pos(),
            final(self).pos() == next_relevant(old(self).toks(), old(self).pos(), true),
    {
        let kinds = [TokenKind::Newline];
        proof {
            self.tokens.lemma_wf();
            assert(kinds@ =~= seq![TokenKind::Newline]);
            assert(kinds@[0] == TokenKind::Newline);
            let pred = |k: TokenKind| kinds@.contains(k);
            assert forall|k: TokenKind| #[trigger] pred(k) == skipped(k, true) by {
                if k == TokenKind::Newline {
                    assert(kinds@[0] == k);
                }
            }
            lemma_drain_is_next_relevant(self.tokens.toks(), self.tokens.position(), true, pred);
            assert(!pred(TokenKind::Eof));
            lemma_drain_stops_at_last(self.tokens.toks(), self.tokens.position(), 0, pred);
            if self.tokens.toks()[self.tokens.position()].kind == TokenKind::Newline {
                assert(pred(self.tokens.toks()[self.tokens.position()].kind));
            }
        }
        self.tokens.advance_while(&kinds);
    }

    /// Consumes the next token, which must be an identifier, and returns its name and region.
    fn consume_identifier(&mut self) -> (r: Result<(String, SourceSpan), Vec<ParserError>>)
        requires
            old(self).live(),
        ensures
            final(self).kept(&*old(self)),
            final(self).uid() == old(self).uid(),
            r is Ok ==> final(self).stepped(&*old(self)),
            r matches Err(es) ==> errors_reported(old(self).toks(), es@),
            r is Ok ==> final(self).pos() == next_relevant(old(self).toks(), old(self).pos(), old(self).tokens.skipping()) + 1,
            ({
                let t = old(self).toks()[next_relevant(old(self).toks(), old(self).pos(), old(self).tokens.skipping())];
                &&& r is Ok <==> t.kind == TokenKind::Identifier
                &&& r matches Ok((name, span)) ==> t.literal == Some(Literal::String(name)) && span == t.span
            }),
    {
        let t = self.next_token();
        if t.kind == TokenKind::Identifier {
            proof {
                assert(literal_fits(self.toks()[self.pos() - 1]));
            }
            match t.literal {
                Some(Literal::String(name)) => Ok((name, t.span)),
                _ => {
                    assert(false);
                    Err(vec![unexpected_token(t)])
                },
            }
        } else {
            Err(vec![unexpected_token(t)])
        }
    }

    /// Consumes the next token, which must be of kind `token_kind`, and returns it.
    fn skip_token(&mut self, token_kind: TokenKind) -> (r: Result<Token, Vec<ParserError>>)
        requires
            old(self).live(),
            token_kind != TokenKind::Eof,
        ensures
            final(self).kept(&*old(self)),
            final(self).uid() == old(self).uid(),
            r matches Ok(t) ==> final(self).stepped(&*old(self)) && t.kind == token_kind,
            r matches Err(es) ==> errors_reported(old(self).toks(), es@),
            r is Ok ==> final(self).pos() == next_relevant(old(self).toks(), old(self).pos(), old(self).tokens.skipping()) + 1,
            ({
                let t = old(self).toks()[next_relevant(old(self).toks(), old(self).pos(), old(self).tokens.skipping())];
                &&& r is Ok <==> t.kind == token_kind
                &&& r matches Ok(u) ==> u == t
            }),
    {
        let t = self.next_token();
        if t.kind == token_kind {
            Ok(t)
        } else if t.kind == TokenKind::Eof {
            Err(vec![ParserError::UnexpectedEoi { span: t.span }])
        } else {
            Err(vec![unexpected_token(t)])
        }
    }

    /// What a step that parses an expression promises: the frame is kept, on success at least
    /// one token is consumed and the expression is of the parser's shape, and a failure
    /// is reported as `errors_reported` says.
    closed spec fn expr_done(&self, old: &Parser, r: Result<Expr, Vec<ParserError>>) -> bool {
        &&& self.kept(old)
        &&& r is Ok ==> self.stepped(old)
        &&& r matches Ok(e) ==> shaped_expr(e)
        &&& r matches Ok(e) ==> jumps_placed_expr(e, old.in_fn(), old.in_loop())
        &&& self.uid() >= old.uid()
        &&& r matches Ok(e) ==> fresh_uids(uids_expr(e), old.uid(), self.uid())
        &&& r matches Err(es) ==> errors_reported(old.toks(), es@)
        &&& r matches Ok(e) ==> expr_read(old.toks(), old.pos(), self.pos(), e)
    }

    /// Newlines are passed over, and the next token is a lone operand (`lone_operand_at`).
    closed spec fn at_lone_operand(&self) -> bool {
        &&& self.ctr() > 0
        &&& lone_operand_at(self.toks(), self.pos())
    }

    /// `r` is the operand that stood at `old`'s position, and only it was consumed.
    closed spec fn gave_operand(&self, old: &Parser, r: Result<Expr, Vec<ParserError>>) -> bool {
        &&& r matches Ok(e) && operand_of(e, old.toks()[old.pos()])
        &&& self.pos() == old.pos() + 1
    }

    /// Newlines are passed over, and an expression of literals, names and operators of level
    /// `lvl` and above (`chain_end`) is read from the position.
    closed spec fn chain_ok(&self, lvl: int) -> bool {
        &&& self.ctr() > 0
        &&& chain_end(self.toks(), self.pos(), lvl) is Some
    }

    /// `r` succeeded, and the parser stands where that expression ends.
    closed spec fn chain_done(&self, old: &Parser, lvl: int, r: Result<Expr, Vec<ParserError>>) -> bool {
        &&& r is Ok
        &&& self.pos() == chain_end(old.toks(), old.pos(), lvl)->Some_0
    }

    /// Newlines are passed over, and only newlines stand before the end of the input.
    closed spec fn at_end(&self) -> bool {
        &&& self.ctr() > 0
        &&& self.toks()[next_relevant(self.toks(), self.pos(), true)].kind == TokenKind::Eof
    }

    /// Starts skipping newlines.
    fn ignore_newlines(&mut self) -> (g: NewlineGuard)
        requires
            old(self).live(),
            old(self).ctr() <= old(self).pos() + 2,
        ensures
            final(self).live(),
            g.spec_size() == 1,
            final(self).ctr() == old(self).ctr() + 1,
            final(self).pos() == old(self).pos(),
            final(self).uid() == old(self).uid(),
            final(self).toks() == old(self).toks(),
            final(self).scopes() == old(self).scopes(),
            final(self).source_id == old(self).source_id,
    {
        proof {
            self.tokens.lemma_wf();
        }
        self.tokens.set_ignoring_newline()
    }

    /// Undoes the change of a newline guard.
    fn release_newlines(&mut self, g: NewlineGuard)
        requires
            old(self).tokens.wf(),
            isize::MIN <= old(self).ctr() - g.spec_size() <= isize::MAX,
        ensures
            final(self).tokens.wf(),
            final(self).ctr() == old(self).ctr() - g.spec_size(),
            final(self).pos() == old(self).pos(),
            final(self).tokens.look() == old(self).tokens.look(),
            final(self).uid() == old(self).uid(),
            final(self).toks() == old(self).toks(),
            final(self).scopes() == old(self).scopes(),
            final(self).source_id == old(self).source_id,
            old(self).live() && final(self).ctr() >= 0 ==> final(self).live(),
    {
        self.tokens.release(g);
    }

    /// An expression: newlines inside it are skipped.
    fn parse_expression(&mut self) -> (r: Result<Expr, Vec<ParserError>>)
        requires
            old(self).live(),
            old(self).ctr() <= old(self).pos() + 1,
        ensures
            expr_end(old(self).toks(), old(self).pos()) is Some ==> (r is Ok && final(self).pos() == expr_end(
                old(self).toks(),
                old(self).pos(),
            )->Some_0),
            old(self).toks()[next_relevant(old(self).toks(), old(self).pos(), true)].kind == TokenKind::Eof ==> (r matches Err(
                es,
            ) && es@[0] is UnexpectedEoi),
            lone_operand_at(old(self).toks(), old(self).pos()) ==> final(self).gave_operand(&*old(self), r),
            final(self).expr_done(&*old(self), r),
        decreases old(self).remaining(), 15int,
    {
        let g = self.ignore_newlines();
        let r = self.parse_assignment();
        self.release_newlines(g);
        r
    }

    /// `target = value`, where the target is a variable or an access; else a logical-or.
    fn parse_assignment(&mut self) -> (r: Result<Expr, Vec<ParserError>>)
        requires
            old(self).ctr() > 0,
            old(self).live(),
            old(self).ctr() <= old(self).pos() + 2,
        ensures
            old(self).ctr() > 0 && expr_end(old(self).toks(), old(self).pos()) is Some ==> (r is Ok && final(self).pos()
                == expr_end(old(self).toks(), old(self).pos())->Some_0),
            old(self).at_end() ==> (r matches Err(es) && es@[0] is UnexpectedEoi),
            old(self).at_lone_operand() ==> final(self).gave_operand(&*old(self), r),
            final(self).expr_done(&*old(self), r),
        decreases old(self).remaining(), 14int,
    {
        let expr = self.parse_logical_or()?;
        let kinds = [TokenKind::EqualSign];
        assert(kinds@ =~= seq![TokenKind::EqualSign]);
        let ghost mid = self.uid();
        let ghost m = self.pos();
        match self.take_one_of(&kinds) {
            Some(equal_sign) => {
                assert(token_at(self.toks(), m, TokenKind::EqualSign));
                let value = self.parse_assignment()?;
                proof {
                    lemma_fresh_concat(uids_expr(expr), uids_expr(value), old(self).uid(), mid, self.uid());
                }
                match expr {
                    Expr::Variable(_) | Expr::Access(_) => {
                        let span = SourceSpan::new(expr.get_span().start(), value.get_span().end(), self.source_id);
                        let node = ast::Assign::new(expr, value, span);
                        assert(expr_read(self.toks(), old(self).pos(), m, *node.name) && expr_read(
                            self.toks(),
                            after_newlines(self.toks(), m) + 1,
                            self.pos(),
                            *node.value,
                        ));
                        Ok(Expr::Assign(node))
                    },
                    _ => {
                        let span = equal_sign.span.duplicate();
                        Err(vec![ParserError::InvalidAssignmentTarget { span, token: equal_sign }])
                    },
                }
            },
            None => Ok(expr),
        }
    }

    /// Left-associative `a ou b ou ...`.
    fn parse_logical_or(&mut self) -> (r: Result<Expr, Vec<ParserError>>)
        requires
            old(self).ctr() > 0,
            old(self).live(),
            old(self).ctr() <= old(self).pos() + 2,
        ensures
            old(self).chain_ok(1) ==> final(self).chain_done(&*old(self), 1, r),
            old(self).at_end() ==> (r matches Err(es) && es@[0] is UnexpectedEoi),
            old(self).at_lone_operand() ==> final(self).gave_operand(&*old(self), r),
            r matches Ok(e) ==> binding_power(e) >= 1,
            final(self).expr_done(&*old(self), r),
        decreases old(self).remaining(), 13int,
    {
        let ghost before = *self;
        let mut expr = self.parse_logical_and()?;
        let kinds = [TokenKind::Or];
        assert(kinds@ =~= seq![TokenKind::Or]);
        loop
            invariant
                before == *old(self),
                before.chain_ok(1) ==> chain_rest(before.toks(), self.pos(), 1) == chain_end(before.toks(), before.pos(), 1),
                before.ctr() > 0,
                expr_read(before.toks(), before.pos(), self.pos(), expr),
                !before.at_end(),
                before.at_lone_operand() ==> self.gave_operand(&before, Ok(expr)),
                self.kept(&before),
                self.stepped(&before),
                shaped_expr(expr),
                jumps_placed_expr(expr, before.in_fn(), before.in_loop()),
                self.uid() >= before.uid(),
                fresh_uids(uids_expr(expr), before.uid(), self.uid()),
                binding_power(expr) >= 1,
                before.live(),
                before.ctr() <= before.pos() + 2,
                kinds@ =~= seq![TokenKind::Or],
            ensures
                before.chain_ok(1) ==> self.pos() == chain_end(before.toks(), before.pos(), 1)->Some_0,
            decreases self.remaining(),
        {
            let ghost m = self.pos();
            proof {
                if before.chain_ok(1) {
                    lemma_chain_rest_unfold(self.toks(), self.pos(), 1);
                    lemma_level_kinds(1, self.toks()[after_newlines(self.toks(), self.pos())].kind);
                    assert(kinds@ == level_kinds(1));
                }
            }
            match self.take_one_of(&kinds) {
                Some(op) => {
                    let ghost lhs_uids = uids_expr(expr);
                    let ghost mid = self.uid();
                    let rhs = self.parse_logical_and()?;
                    let ghost rhs_uids = uids_expr(rhs);
                    let span = SourceSpan::new(expr.get_span().start(), rhs.get_span().end(), self.source_id);
                    let bop = BinaryOperator::from_token(op);
                    let node = ast::BinaryOp::new(expr, bop, rhs, span);
                    proof {
                        lemma_binary_read(before.toks(), before.pos(), m, after_newlines(before.toks(), m) + 1, self.pos(), node);
                    }
                    expr = Expr::Binary(node);
                    proof {
                        lemma_fresh_concat(lhs_uids, rhs_uids, before.uid() as int, mid as int, self.uid() as int);
                    }
                },
                None => break,
            }
        }
        Ok(expr)
    }

    /// Left-associative `a e b e ...`.
    fn parse_logical_and(&mut self) -> (r: Result<Expr, Vec<ParserError>>)
        requires
            old(self).ctr() > 0,
            old(self).live(),
            old(self).ctr() <= old(self).pos() + 2,
        ensures
            old(self).chain_ok(2) ==> final(self).chain_done(&*old(self), 2, r),
            old(self).at_end() ==> (r matches Err(es) && es@[0] is UnexpectedEoi),
            old(self).at_lone_operand() ==> final(self).gave_operand(&*old(self), r),
            r matches Ok(e) ==> binding_power(e) >= 2,
            final(self).expr_done(&*old(self), r),
        decreases old(self).remaining(), 12int,
    {
        let ghost before = *self;
        let mut expr = self.parse_equality()?;
        let kinds = [TokenKind::And];
        assert(kinds@ =~= seq![TokenKind::And]);
        loop
            invariant
                before == *old(self),
                before.chain_ok(2) ==> chain_rest(before.toks(), self.pos(), 2) == chain_end(before.toks(), before.pos(), 2),
                before.ctr() > 0,
                expr_read(before.toks(), before.pos(), self.pos(), expr),
                !before.at_end(),
                before.at_lone_operand() ==> self.gave_operand(&before, Ok(expr)),
                self.kept(&before),
                self.stepped(&before),
                shaped_expr(expr),
                jumps_placed_expr(expr, before.in_fn(), before.in_loop()),
                self.uid() >= before.uid(),
                fresh_uids(uids_expr(expr), before.uid(), self.uid()),
                binding_power(expr) >= 2,
                before.live(),
                before.ctr() <= before.pos() + 2,
                kinds@ =~= seq![TokenKind::And],
            ensures
                before.chain_ok(2) ==> self.pos() == chain_end(before.toks(), before.pos(), 2)->Some_0,
            decreases self.remaining(),
        {
            let ghost m = self.pos();
            proof {
                if before.chain_ok(2) {
                    lemma_chain_rest_unfold(self.toks(), self.pos(), 2);
                    lemma_level_kinds(2, self.toks()[after_newlines(self.toks(), self.pos())].kind);
                    assert(kinds@ == level_kinds(2));
                }
            }
            match self.take_one_of(&kinds) {
                Some(op) => {
                    let ghost lhs_uids = uids_expr(expr);
                    let ghost mid = self.uid();
                    let rhs = self.parse_equality()?;
                    let ghost rhs_uids = uids_expr(rhs);
                    let span = SourceSpan::new(expr.get_span().start(), rhs.get_span().end(), self.source_id);
                    let bop = BinaryOperator::from_token(op);
                    let node = ast::BinaryOp::new(expr, bop, rhs, span);
                    proof {
                        lemma_binary_read(before.toks(), before.pos(), m, after_newlines(before.toks(), m) + 1, self.pos(), node);
                    }
                    expr = Expr::Binary(node);
                    proof {
                        lemma_fresh_concat(lhs_uids, rhs_uids, before.uid() as int, mid as int, self.uid() as int);
                    }
                },
                None => break,
            }
        }
        Ok(expr)
    }

    /// Left-associative `é`, `tem`, `não tem` and `não é`.
    fn parse_equality(&mut self) -> (r: Result<Expr, Vec<ParserError>>)
        requires
            old(self).ctr() > 0,
            old(self).live(),
            old(self).ctr() <= old(self).pos() + 2,
        ensures
            old(self).chain_ok(3) ==> final(self).chain_done(&*old(self), 3, r),
            old(self).at_end() ==> (r matches Err(es) && es@[0] is UnexpectedEoi),
            old(self).at_lone_operand() ==> final(self).gave_operand(&*old(self), r),
            r matches Ok(e) ==> binding_power(e) >= 3,
            final(self).expr_done(&*old(self), r),
        decreases old(self).remaining(), 11int,
    {
        let ghost before = *self;
        let mut expr = self.parse_comparison()?;
        let equals = [TokenKind::Equals];
        let has = [TokenKind::Has];
        let not_has = [TokenKind::Not, TokenKind::Has];
        let not_equals = [TokenKind::Not, TokenKind::Equals];
        assert(equals@ =~= seq![TokenKind::Equals]);
        assert(has@ =~= seq![TokenKind::Has]);
        loop
            invariant
                before == *old(self),
                before.chain_ok(3) ==> chain_rest(before.toks(), self.pos(), 3) == chain_end(before.toks(), before.pos(), 3),
                !before.at_end(),
                before.at_lone_operand() ==> self.gave_operand(&before, Ok(expr)),
                self.kept(&before),
                self.stepped(&before),
                shaped_expr(expr),
                jumps_placed_expr(expr, before.in_fn(), before.in_loop()),
                self.uid() >= before.uid(),
                fresh_uids(uids_expr(expr), before.uid(), self.uid()),
                binding_power(expr) >= 3,
                before.live(),
                before.ctr() <= before.pos() + 2,
                equals@ =~= seq![TokenKind::Equals],
                has@ =~= seq![TokenKind::Has],
                not_has@ == seq![TokenKind::Not, TokenKind::Has],
                not_equals@ == seq![TokenKind::Not, TokenKind::Equals],
                before.ctr() > 0,
                expr_read(before.toks(), before.pos(), self.pos(), expr),
            ensures
                before.chain_ok(3) ==> self.pos() == chain_end(before.toks(), before.pos(), 3)->Some_0,
            decreases self.remaining(),
        {
            let ghost at = *self;
            let ghost m = self.pos();
            proof {
                if before.chain_ok(3) {
                    let toks = self.toks();
                    lemma_chain_rest_unfold3(toks, self.pos());
                    let kk = after_newlines(toks, self.pos());
                    if toks[kk].kind == TokenKind::Not && token_at(toks, kk + 1, TokenKind::Has) {
                        lemma_two_token_op_found(toks, self.pos(), TokenKind::Has);
                    }
                    if toks[kk].kind == TokenKind::Not && token_at(toks, kk + 1, TokenKind::Equals) {
                        lemma_two_token_op_found(toks, self.pos(), TokenKind::Equals);
                    }
                    if kk + 1 < toks.len() {
                        lemma_next_relevant_bounded(toks, kk + 1, true);
                    }
                    assert(equals@[0] == TokenKind::Equals);
                    assert(has@[0] == TokenKind::Has);
                    if toks[kk].kind == TokenKind::Equals {
                        assert(equals@.contains(toks[kk].kind));
                    }
                    if toks[kk].kind == TokenKind::Has {
                        assert(has@.contains(toks[kk].kind));
                    }
                }
            }
            let op = if self.take_one_of(&equals).is_some() {
                Some(BinaryOperator::Equality)
            } else if self.take_one_of(&has).is_some() {
                Some(BinaryOperator::Has)
            } else if self.take_sequence(&not_has) {
                proof {
                    lemma_two_token_op(self.toks(), m, TokenKind::Has);
                }
                Some(BinaryOperator::Lacks)
            } else if self.take_sequence(&not_equals) {
                proof {
                    lemma_two_token_op(self.toks(), m, TokenKind::Equals);
                }
                Some(BinaryOperator::Inequality)
            } else {
                None
            };
            match op {
                Some(op) => {
                    assert(self.pos() > at.pos());
                    assert(binary_op_read(self.toks(), m, self.pos(), op));
                    let ghost a = self.pos();
                    let ghost lhs_uids = uids_expr(expr);
                    let ghost mid = self.uid();
                    let rhs = self.parse_comparison()?;
                    let ghost rhs_uids = uids_expr(rhs);
                    let span = SourceSpan::new(expr.get_span().start(), rhs.get_span().end(), self.source_id);
                    let node = ast::BinaryOp::new(expr, op, rhs, span);
                    proof {
                        lemma_binary_read(self.toks(), before.pos(), m, a, self.pos(), node);
                    }
                    expr = Expr::Binary(node);
                    proof {
                        lemma_fresh_concat(lhs_uids, rhs_uids, before.uid() as int, mid as int, self.uid() as int);
                    }
                },
                None => break,
            }
        }
        Ok(expr)
    }

    /// Left-associative `>`, `>=`, `<` and `<=`.
    fn parse_comparison(&mut self) -> (r: Result<Expr, Vec<ParserError>>)
        requires
            old(self).ctr() > 0,
            old(self).live(),
            old(self).ctr() <= old(self).pos() + 2,
        ensures
            old(self).chain_ok(4) ==> final(self).chain_done(&*old(self), 4, r),
            old(self).at_end() ==> (r matches Err(es) && es@[0] is UnexpectedEoi),
            old(self).at_lone_operand() ==> final(self).gave_operand(&*old(self), r),
            r matches Ok(e) ==> binding_power(e) >= 4,
            final(self).expr_done(&*old(self), r),
        decreases old(self).remaining(), 10int,
    {
        let ghost before = *self;
        let mut expr = self.parse_range()?;
        let kinds = [TokenKind::Greater, TokenKind::GreaterOrEqual, TokenKind::Less, TokenKind::LessOrEqual];
        assert(kinds@ =~= seq![TokenKind::Greater, TokenKind::GreaterOrEqual, TokenKind::Less, TokenKind::LessOrEqual]);
        loop
            invariant
                before == *old(self),
                before.chain_ok(4) ==> chain_rest(before.toks(), self.pos(), 4) == chain_end(before.toks(), before.pos(), 4),
                before.ctr() > 0,
                expr_read(before.toks(), before.pos(), self.pos(), expr),
                !before.at_end(),
                before.at_lone_operand() ==> self.gave_operand(&before, Ok(expr)),
                self.kept(&before),
                self.stepped(&before),
                shaped_expr(expr),
                jumps_placed_expr(expr, before.in_fn(), before.in_loop()),
                self.uid() >= before.uid(),
                fresh_uids(uids_expr(expr), before.uid(), self.uid()),
                binding_power(expr) >= 4,
                before.live(),
                before.ctr() <= before.pos() + 2,
                kinds@ =~= seq![TokenKind::Greater, TokenKind::GreaterOrEqual, TokenKind::Less, TokenKind::LessOrEqual],
            ensures
                before.chain_ok(4) ==> self.pos() == chain_end(before.toks(), before.pos(), 4)->Some_0,
            decreases self.remaining(),
        {
            let ghost m = self.pos();
            proof {
                if before.chain_ok(4) {
                    lemma_chain_rest_unfold(self.toks(), self.pos(), 4);
                    lemma_level_kinds(4, self.toks()[after_newlines(self.toks(), self.pos())].kind);
                    assert(kinds@ == level_kinds(4));
                }
            }
            match self.take_one_of(&kinds) {
                Some(op) => {
                    let ghost lhs_uids = uids_expr(expr);
                    let ghost mid = self.uid();
                    let rhs = self.parse_range()?;
                    let ghost rhs_uids = uids_expr(rhs);
                    let span = SourceSpan::new(expr.get_span().start(), rhs.get_span().end(), self.source_id);
                    let bop = BinaryOperator::from_token(op);
                    let node = ast::BinaryOp::new(expr, bop, rhs, span);
                    proof {
                        lemma_binary_read(before.toks(), before.pos(), m, after_newlines(before.toks(), m) + 1, self.pos(), node);
                    }
                    expr = Expr::Binary(node);
                    proof {
                        lemma_fresh_concat(lhs_uids, rhs_uids, before.uid() as int, mid as int, self.uid() as int);
                    }
                },
                None => break,
            }
        }
        Ok(expr)
    }

    /// `a até b`, not chained.
    fn parse_range(&mut self) -> (r: Result<Expr, Vec<ParserError>>)
        requires
            old(self).ctr() > 0,
            old(self).live(),
            old(self).ctr() <= old(self).pos() + 2,
        ensures
            old(self).chain_ok(5) ==> final(self).chain_done(&*old(self), 5, r),
            old(self).at_end() ==> (r matches Err(es) && es@[0] is UnexpectedEoi),
            old(self).at_lone_operand() ==> final(self).gave_operand(&*old(self), r),
            r matches Ok(e) ==> binding_power(e) >= 5,
            final(self).expr_done(&*old(self), r),
        decreases old(self).remaining(), 9int,
    {
        let lhs = self.parse_term()?;
        let kinds = [TokenKind::Until];
        assert(kinds@ =~= seq![TokenKind::Until]);
        let ghost mid = self.uid();
        let ghost m = self.pos();
        match self.take_one_of(&kinds) {
            Some(op) => {
                let rhs = self.parse_term()?;
                proof {
                    lemma_fresh_concat(uids_expr(lhs), uids_expr(rhs), old(self).uid(), mid, self.uid());
                }
                let span = SourceSpan::new(lhs.get_span().start(), rhs.get_span().end(), self.source_id);
                let bop = BinaryOperator::from_token(op);
                let node = ast::BinaryOp::new(lhs, bop, rhs, span);
                proof {
                    lemma_binary_read(self.toks(), old(self).pos(), m, after_newlines(self.toks(), m) + 1, self.pos(), node);
                }
                Ok(Expr::Binary(node))
            },
            None => Ok(lhs),
        }
    }

    /// Left-associative `+` and `-`.
    fn parse_term(&mut self) -> (r: Result<Expr, Vec<ParserError>>)
        requires
            old(self).ctr() > 0,
            old(self).live(),
            old(self).ctr() <= old(self).pos() + 2,
        ensures
            old(self).chain_ok(6) ==> final(self).chain_done(&*old(self), 6, r),
            old(self).at_end() ==> (r matches Err(es) && es@[0] is UnexpectedEoi),
            old(self).at_lone_operand() ==> final(self).gave_operand(&*old(self), r),
            r matches Ok(e) ==> binding_power(e) >= 6,
            final(self).expr_done(&*old(self), r),
        decreases old(self).remaining(), 8int,
    {
        let ghost before = *self;
        let mut expr = self.parse_factor()?;
        let kinds = [TokenKind::Plus, TokenKind::Minus];
        assert(kinds@ =~= seq![TokenKind::Plus, TokenKind::Minus]);
        loop
            invariant
                before == *old(self),
                before.chain_ok(6) ==> chain_rest(before.toks(), self.pos(), 6) == chain_end(before.toks(), before.pos(), 6),
                before.ctr() > 0,
                expr_read(before.toks(), before.pos(), self.pos(), expr),
                !before.at_end(),
                before.at_lone_operand() ==> self.gave_operand(&before, Ok(expr)),
                self.kept(&before),
                self.stepped(&before),
                shaped_expr(expr),
                jumps_placed_expr(expr, before.in_fn(), before.in_loop()),
                self.uid() >= before.uid(),
                fresh_uids(uids_expr(expr), before.uid(), self.uid()),
                binding_power(expr) >= 6,
                before.live(),
                before.ctr() <= before.pos() + 2,
                kinds@ =~= seq![TokenKind::Plus, TokenKind::Minus],
            ensures
                before.chain_ok(6) ==> self.pos() == chain_end(before.toks(), before.pos(), 6)->Some_0,
            decreases self.remaining(),
        {
            let ghost m = self.pos();
            proof {
                if before.chain_ok(6) {
                    lemma_chain_rest_unfold(self.toks(), self.pos(), 6);
                    lemma_level_kinds(6, self.toks()[after_newlines(self.toks(), self.pos())].kind);
                    assert(kinds@ == level_kinds(6));
                }
            }
            match self.take_one_of(&kinds) {
                Some(op) => {
                    let ghost lhs_uids = uids_expr(expr);
                    let ghost mid = self.uid();
                    let rhs = self.parse_factor()?;
                    let ghost rhs_uids = uids_expr(rhs);
                    let span = SourceSpan::new(expr.get_span().start(), rhs.get_span().end(), self.source_id);
                    let bop = BinaryOperator::from_token(op);
                    let node = ast::BinaryOp::new(expr, bop, rhs, span);
                    proof {
                        lemma_binary_read(before.toks(), before.pos(), m, after_newlines(before.toks(), m) + 1, self.pos(), node);
                    }
                    expr = Expr::Binary(node);
                    proof {
                        lemma_fresh_concat(lhs_uids, rhs_uids, before.uid() as int, mid as int, self.uid() as int);
                    }
                },
                None => break,
            }
        }
        Ok(expr)
    }

    /// Left-associative `*`, `/` and `%`.
    fn parse_factor(&mut self) -> (r: Result<Expr, Vec<ParserError>>)
        requires
            old(self).ctr() > 0,
            old(self).live(),
            old(self).ctr() <= old(self).pos() + 2,
        ensures
            old(self).chain_ok(7) ==> final(self).chain_done(&*old(self), 7, r),
            old(self).at_end() ==> (r matches Err(es) && es@[0] is UnexpectedEoi),
            old(self).at_lone_operand() ==> final(self).gave_operand(&*old(self), r),
            r matches Ok(e) ==> binding_power(e) >= 7,
            final(self).expr_done(&*old(self), r),
        decreases old(self).remaining(), 7int,
    {
        let ghost before = *self;
        let mut expr = self.parse_exponent()?;
        let kinds = [TokenKind::Star, TokenKind::Slash, TokenKind::Percent];
        assert(kinds@ =~= seq![TokenKind::Star, TokenKind::Slash, TokenKind::Percent]);
        loop
            invariant
                before == *old(self),
                before.chain_ok(7) ==> chain_rest(before.toks(), self.pos(), 7) == chain_end(before.toks(), before.pos(), 7),
                before.ctr() > 0,
                expr_read(before.toks(), before.pos(), self.pos(), expr),
                !before.at_end(),
                before.at_lone_operand() ==> self.gave_operand(&before, Ok(expr)),
                self.kept(&before),
                self.stepped(&before),
                shaped_expr(expr),
                jumps_placed_expr(expr, before.in_fn(), before.in_loop()),
                self.uid() >= before.uid(),
                fresh_uids(uids_expr(expr), before.uid(), self.uid()),
                binding_power(expr) >= 7,
                before.live(),
                before.ctr() <= before.pos() + 2,
                kinds@ =~= seq![TokenKind::Star, TokenKind::Slash, TokenKind::Percent],
            ensures
                before.chain_ok(7) ==> self.pos() == chain_end(before.toks(), before.pos(), 7)->Some_0,
            decreases self.remaining(),
        {
            let ghost m = self.pos();
            proof {
                if before.chain_ok(7) {
                    lemma_chain_rest_unfold(self.toks(), self.pos(), 7);
                    lemma_level_kinds(7, self.toks()[after_newlines(self.toks(), self.pos())].kind);
                    assert(kinds@ == level_kinds(7));
                }
            }
            match self.take_one_of(&kinds) {
                Some(op) => {
                    let ghost lhs_uids = uids_expr(expr);
                    let ghost mid = self.uid();
                    let rhs = self.parse_exponent()?;
                    let ghost rhs_uids = uids_expr(rhs);
                    let span = SourceSpan::new(expr.get_span().start(), rhs.get_span().end(), self.source_id);
                    let bop = BinaryOperator::from_token(op);
                    let node = ast::BinaryOp::new(expr, bop, rhs, span);
                    proof {
                        lemma_binary_read(before.toks(), before.pos(), m, after_newlines(before.toks(), m) + 1, self.pos(), node);
                    }
                    expr = Expr::Binary(node);
                    proof {
                        lemma_fresh_concat(lhs_uids, rhs_uids, before.uid() as int, mid as int, self.uid() as int);
                    }
                },
                None => break,
            }
        }
        Ok(expr)
    }

    /// Left-associative `^`.
    fn parse_exponent(&mut self) -> (r: Result<Expr, Vec<ParserError>>)
        requires
            old(self).ctr() > 0,
            old(self).live(),
            old(self).ctr() <= old(self).pos() + 2,
        ensures
            old(self).chain_ok(8) ==> final(self).chain_done(&*old(self), 8, r),
            old(self).at_end() ==> (r matches Err(es) && es@[0] is UnexpectedEoi),
            old(self).at_lone_operand() ==> final(self).gave_operand(&*old(self), r),
            r matches Ok(e) ==> binding_power(e) >= 8,
            final(self).expr_done(&*old(self), r),
        decreases old(self).remaining(), 6int,
    {
        let ghost before = *self;
        let mut expr = self.parse_unary()?;
        let kinds = [TokenKind::Caret];
        assert(kinds@ =~= seq![TokenKind::Caret]);
        loop
            invariant
                before == *old(self),
                before.chain_ok(8) ==> chain_rest(before.toks(), self.pos(), 8) == chain_end(before.toks(), before.pos(), 8),
                before.ctr() > 0,
                expr_read(before.toks(), before.pos(), self.pos(), expr),
                !before.at_end(),
                before.at_lone_operand() ==> self.gave_operand(&before, Ok(expr)),
                self.kept(&before),
                self.stepped(&before),
                shaped_expr(expr),
                jumps_placed_expr(expr, before.in_fn(), before.in_loop()),
                self.uid() >= before.uid(),
                fresh_uids(uids_expr(expr), before.uid(), self.uid()),
                binding_power(expr) >= 8,
                before.live(),
                before.ctr() <= before.pos() + 2,
                kinds@ =~= seq![TokenKind::Caret],
            ensures
                before.chain_ok(8) ==> self.pos() == chain_end(before.toks(), before.pos(), 8)->Some_0,
            decreases self.remaining(),
        {
            let ghost m = self.pos();
            proof {
                if before.chain_ok(8) {
                    lemma_chain_rest_unfold(self.toks(), self.pos(), 8);
                    lemma_level_kinds(8, self.toks()[after_newlines(self.toks(), self.pos())].kind);
                    assert(kinds@ == level_kinds(8));
                }
            }
            match self.take_one_of(&kinds) {
                Some(op) => {
                    let ghost lhs_uids = uids_expr(expr);
                    let ghost mid = self.uid();
                    let rhs = self.parse_unary()?;
                    let ghost rhs_uids = uids_expr(rhs);
                    let span = SourceSpan::new(expr.get_span().start(), rhs.get_span().end(), self.source_id);
                    let bop = BinaryOperator::from_token(op);
                    let node = ast::BinaryOp::new(expr, bop, rhs, span);
                    proof {
                        lemma_binary_read(before.toks(), before.pos(), m, after_newlines(before.toks(), m) + 1, self.pos(), node);
                    }
                    expr = Expr::Binary(node);
                    proof {
                        lemma_fresh_concat(lhs_uids, rhs_uids, before.uid() as int, mid as int, self.uid() as int);
                    }
                },
                None => break,
            }
        }
        Ok(expr)
    }

    /// `-a` and `não a`, nested; else a call.
    fn parse_unary(&mut self) -> (r: Result<Expr, Vec<ParserError>>)
        requires
            old(self).ctr() > 0,
            old(self).live(),
            old(self).ctr() <= old(self).pos() + 2,
        ensures
            old(self).chain_ok(9) ==> final(self).chain_done(&*old(self), 9, r),
            old(self).at_end() ==> (r matches Err(es) && es@[0] is UnexpectedEoi),
            old(self).at_lone_operand() ==> final(self).gave_operand(&*old(self), r),
            r matches Ok(e) ==> binding_power(e) >= 9,
            final(self).expr_done(&*old(self), r),
        decreases old(self).remaining(), 5int,
    {
        let kinds = [TokenKind::Minus, TokenKind::Not];
        assert(kinds@ =~= seq![TokenKind::Minus, TokenKind::Not]);
        match self.take_one_of(&kinds) {
            Some(op) => {
                let rhs = self.parse_unary()?;
                let span = SourceSpan::new(op.span.start(), rhs.get_span().end(), self.source_id);
                Ok(Expr::Unary(ast::UnaryOp::new(UnaryOperator::from_token(op), rhs, span)))
            },
            None => self.parse_call(),
        }
    }

    /// A primary expression followed by calls `(args)` and accesses `[index]`.
    fn parse_call(&mut self) -> (r: Result<Expr, Vec<ParserError>>)
        requires
            old(self).ctr() > 0,
            old(self).live(),
            old(self).ctr() <= old(self).pos() + 2,
        ensures
            old(self).chain_ok(9) && old(self).toks()[after_newlines(old(self).toks(), old(self).pos())].kind != TokenKind::Minus
                && old(self).toks()[after_newlines(old(self).toks(), old(self).pos())].kind != TokenKind::Not
                ==> final(self).chain_done(&*old(self), 9, r),
            old(self).at_end() ==> (r matches Err(es) && es@[0] is UnexpectedEoi),
            old(self).at_lone_operand() ==> final(self).gave_operand(&*old(self), r),
            r matches Ok(e) ==> binding_power(e) >= 10,
            final(self).expr_done(&*old(self), r),
        decreases old(self).remaining(), 4int,
    {
        let ghost before = *self;
        let mut lhs = self.parse_primary()?;
        let kinds = [TokenKind::LeftParen, TokenKind::LeftBracket];
        assert(kinds@ =~= seq![TokenKind::LeftParen, TokenKind::LeftBracket]);
        loop
            invariant
                before == *old(self),
                before.chain_ok(9) && before.toks()[after_newlines(before.toks(), before.pos())].kind != TokenKind::Minus
                    && before.toks()[after_newlines(before.toks(), before.pos())].kind != TokenKind::Not ==> self.pos() == chain_end(before.toks(), before.pos(), 9)->Some_0,
                !before.at_end(),
                before.at_lone_operand() ==> self.gave_operand(&before, Ok(lhs)),
                self.kept(&before),
                self.stepped(&before),
                shaped_expr(lhs),
                jumps_placed_expr(lhs, before.in_fn(), before.in_loop()),
                binding_power(lhs) == 10,
                self.uid() >= before.uid(),
                fresh_uids(uids_expr(lhs), before.uid(), self.uid()),
                before.live(),
                before.ctr() <= before.pos() + 2,
                kinds@ =~= seq![TokenKind::LeftParen, TokenKind::LeftBracket],
                before.ctr() > 0,
                expr_read(before.toks(), before.pos(), self.pos(), lhs),
            ensures
                before.chain_ok(9) && before.toks()[after_newlines(before.toks(), before.pos())].kind != TokenKind::Minus
                    && before.toks()[after_newlines(before.toks(), before.pos())].kind != TokenKind::Not ==> self.pos() == chain_end(before.toks(), before.pos(), 9)->Some_0,
            decreases self.remaining(),
        {
            let ghost m = self.pos();
            match self.take_one_of(&kinds) {
                Some(token) => {
                    if token.kind == TokenKind::LeftParen {
                        lhs = self.parse_function_call(lhs, Ghost(before.uid()), Ghost(before.pos()), Ghost(m))?;
                    } else {
                        lhs = self.parse_access(lhs, Ghost(before.uid()), Ghost(before.pos()), Ghost(m))?;
                    }
                },
                None => break,
            }
        }
        Ok(lhs)
    }

    /// The arguments of a call, after its `(`, up to its `)`.
    fn parse_function_call(&mut self, name: Expr, lo: Ghost<int>, start: Ghost<int>, name_end: Ghost<int>) -> (r: Result<
        Expr,
        Vec<ParserError>,
    >)
        requires
            old(self).ctr() > 0,
            expr_read(old(self).toks(), start@, name_end@, name),
            token_at(old(self).toks(), name_end@, TokenKind::LeftParen),
            old(self).pos() == after_newlines(old(self).toks(), name_end@) + 1,
            old(self).live(),
            old(self).ctr() <= old(self).pos() + 1,
            shaped_expr(name),
            jumps_placed_expr(name, old(self).in_fn(), old(self).in_loop()),
            lo@ <= old(self).uid(),
            fresh_uids(uids_expr(name), lo@, old(self).uid()),
        ensures
            r matches Ok(e) ==> expr_read(old(self).toks(), start@, final(self).pos(), e),
            r matches Ok(e) ==> binding_power(e) == 10,
            final(self).kept(&*old(self)),
            r is Ok ==> final(self).stepped(&*old(self)),
            r matches Ok(e) ==> shaped_expr(e),
            r matches Ok(e) ==> jumps_placed_expr(e, old(self).in_fn(), old(self).in_loop()),
            r matches Err(es) ==> errors_reported(old(self).toks(), es@),
            final(self).uid() >= old(self).uid(),
            r matches Ok(e) ==> fresh_uids(uids_expr(e), lo@, final(self).uid()),
        decreases old(self).remaining(), 16int,
    {
        let ghost before = *self;
        let mut arguments: Vec<Expr> = Vec::new();
        let comma = [TokenKind::Comma];
        assert(comma@ =~= seq![TokenKind::Comma]);
        proof {
            self.tokens.lemma_wf();
            lemma_next_relevant_bounded(self.tokens.toks(), self.tokens.position(), self.tokens.skipping());
        }
        let ghost mut ends: Seq<int> = Seq::empty();
        let ghost a = before.pos();
        assert(items_so_far(self.toks(), a, ends, arguments@));
        if !self.tokens.is_next_token(TokenKind::RightParen) {
            loop
                invariant_except_break
                    self.pos() == item_start(before.toks(), a, ends, ends.len() as int),
                    ends.len() > 0 ==> token_at(before.toks(), ends.last(), TokenKind::Comma),
                invariant
                    before == *old(self),
                    self.kept(&before),
                    self.moved(&before),
                    before.live(),
                    before.ctr() <= before.pos() + 1,
                    shaped_exprs(arguments@),
                    jumps_placed_exprs(arguments@, before.in_fn(), before.in_loop()),
                    self.uid() >= before.uid(),
                    fresh_uids(uids_exprs(arguments@), before.uid(), self.uid()),
                    comma@ =~= seq![TokenKind::Comma],
                    items_so_far(before.toks(), a, ends, arguments@),
                ensures
                    self.pos() == items_end(a, ends),
                decreases self.remaining(),
            {
                let ghost prev = arguments@;
                let ghost mid = self.uid();
                let arg = self.parse_expression()?;
                proof {
                    lemma_items_push(before.toks(), a, ends, arguments@, arg, self.pos());
                    ends = ends.push(self.pos());
                }
                arguments.push(arg);
                proof {
                    assert(arguments@.drop_last() =~= prev);
                    lemma_fresh_concat(uids_exprs(prev), uids_expr(arg), before.uid(), mid, self.uid());
                }
                assert(shaped_exprs(arguments@) && jumps_placed_exprs(arguments@, before.in_fn(), before.in_loop())) by {
                    assert forall|i: int| 0 <= i < arguments@.len() implies shaped_expr(#[trigger] arguments@[i])
                        && jumps_placed_expr(arguments@[i], before.in_fn(), before.in_loop()) by {
                        if i < arguments@.len() - 1 {
                            assert(arguments@[i] == arguments@.drop_last()[i]);
                        }
                    }
                }
                if self.take_one_of(&comma).is_none() {
                    break;
                }
            }
        } else {
            proof {
                let j = next_relevant(self.tokens.toks(), self.tokens.position(), self.tokens.skipping());
                assert(self.tokens.toks()[j].kind == TokenKind::RightParen);
                assert(j != self.tokens.toks().len() - 1);
            }
        }
        if self.tokens.is_next_eof() {
            let span = self.tokens.last_token().span.duplicate();
            return Err(vec![ParserError::UnexpectedEoi { span }]);
        }
        let right = [TokenKind::RightParen];
        assert(right@ =~= seq![TokenKind::RightParen]);
        let right_paren = match self.take_one_of(&right) {
            Some(token) => token,
            None => {
                let t = self.next_token();
                return Err(vec![ParserError::MissingParentheses { span: t.span }]);
            },
        };
        let span = SourceSpan::new(name.get_span().start(), right_paren.span.end(), self.source_id);
        assert(shaped_exprs(arguments@));
        proof {
            lemma_fresh_concat(uids_expr(name), uids_exprs(arguments@), lo@, before.uid(), self.uid());
            lemma_items_closed(before.toks(), a, ends, arguments@, self.pos(), TokenKind::RightParen);
        }
        let call = ast::Call::new(name, arguments, span);
        assert(expr_read(before.toks(), start@, name_end@, *call.callee) && token_at(before.toks(), name_end@, TokenKind::LeftParen));
        assert(shaped_exprs(call.args@));
        assert(jumps_placed_exprs(call.args@, before.in_fn(), before.in_loop()));
        Ok(Expr::Call(call))
    }

    /// The index of an access, after its `[`, up to its `]`.
    fn parse_access(&mut self, name: Expr, lo: Ghost<int>, start: Ghost<int>, name_end: Ghost<int>) -> (r: Result<
        Expr,
        Vec<ParserError>,
    >)
        requires
            old(self).ctr() > 0,
            expr_read(old(self).toks(), start@, name_end@, name),
            token_at(old(self).toks(), name_end@, TokenKind::LeftBracket),
            old(self).pos() == after_newlines(old(self).toks(), name_end@) + 1,
            old(self).live(),
            old(self).ctr() <= old(self).pos() + 1,
            shaped_expr(name),
            jumps_placed_expr(name, old(self).in_fn(), old(self).in_loop()),
            lo@ <= old(self).uid(),
            fresh_uids(uids_expr(name), lo@, old(self).uid()),
        ensures
            r matches Ok(e) ==> expr_read(old(self).toks(), start@, final(self).pos(), e),
            r matches Ok(e) ==> binding_power(e) == 10,
            final(self).kept(&*old(self)),
            r is Ok ==> final(self).stepped(&*old(self)),
            r matches Ok(e) ==> shaped_expr(e),
            r matches Ok(e) ==> jumps_placed_expr(e, old(self).in_fn(), old(self).in_loop()),
            r matches Err(es) ==> errors_reported(old(self).toks(), es@),
            final(self).uid() >= old(self).uid(),
            r matches Ok(e) ==> fresh_uids(uids_expr(e), lo@, final(self).uid()),
        decreases old(self).remaining(), 16int,
    {
        let index = self.parse_expression()?;
        let ghost m2 = self.pos();
        proof {
            lemma_fresh_concat(uids_expr(name), uids_expr(index), lo@, old(self).uid(), self.uid());
        }
        if self.next_is_eof() {
            let span = self.tokens.last_token().span.duplicate();
            return Err(vec![ParserError::UnexpectedEoi { span }]);
        }
        let right = [TokenKind::RightBracket];
        assert(right@ =~= seq![TokenKind::RightBracket]);
        let closing_bracket = match self.take_one_of(&right) {
            Some(token) => token,
            None => {
                let t = self.next_token();
                return Err(vec![ParserError::MissingBrackets { span: t.span }]);
            },
        };
        let span = SourceSpan::new(name.get_span().start(), closing_bracket.span.end(), self.source_id);
        let node = ast::Access::new(name, index, span);
        proof {
            let toks = self.toks();
            assert(closes_at(toks, m2, self.pos(), TokenKind::RightBracket));
            assert(expr_read(toks, after_newlines(toks, name_end@) + 1, m2, *node.index));
            assert(expr_read(toks, start@, name_end@, *node.subscripted));
            assert(token_at(toks, name_end@, TokenKind::LeftBracket));
        }
        Ok(Expr::Access(node))
    }

    /// A literal, a variable, a grouping, a list, an associative array or an anonymous
    /// function.
    fn parse_primary(&mut self) -> (r: Result<Expr, Vec<ParserError>>)
        requires
            old(self).ctr() > 0,
            old(self).live(),
            old(self).ctr() <= old(self).pos() + 2,
        ensures
            old(self).chain_ok(9) && old(self).toks()[after_newlines(old(self).toks(), old(self).pos())].kind != TokenKind::Minus
                && old(self).toks()[after_newlines(old(self).toks(), old(self).pos())].kind != TokenKind::Not
                ==> final(self).chain_done(&*old(self), 9, r),
            old(self).at_end() ==> (r matches Err(es) && es@[0] is UnexpectedEoi),
            old(self).at_lone_operand() ==> final(self).gave_operand(&*old(self), r),
            r matches Ok(e) ==> binding_power(e) == 10,
            final(self).expr_done(&*old(self), r),
        decreases old(self).remaining(), 3int,
    {
        let token = self.peek_token();
        let span = token.span.duplicate();
        let ghost p1 = self.pos();
        proof {
            lemma_after_newlines_stays(self.toks(), old(self).pos());
        }
        let r = match token.kind {
            TokenKind::Number | TokenKind::True | TokenKind::False | TokenKind::String | TokenKind::Nil => {
                self.parse_literal()
            },
            TokenKind::Identifier => self.parse_variable(),
            TokenKind::LeftParen => self.parse_grouping(),
            TokenKind::LeftBracket => self.parse_list(),
            TokenKind::LeftBrace => self.parse_associative_array(),
            TokenKind::Function => self.parse_anonymous_function(),
            TokenKind::Eof => {
                let _ = self.next_token();
                Err(vec![ParserError::UnexpectedEoi { span }])
            },
            _ => {
                let t = self.next_token();
                Err(vec![unexpected_token(t)])
            },
        };
        proof {
            if r is Ok {
                lemma_read_from_newlines(self.toks(), old(self).pos(), p1, self.pos(), r->Ok_0);
            }
        }
        r
    }

    /// A literal: the value of the next token.
    fn parse_literal(&mut self) -> (r: Result<Expr, Vec<ParserError>>)
        requires
            old(self).ctr() > 0,
            old(self).live(),
            match old(self).toks()[old(self).pos()].kind {
                TokenKind::Number | TokenKind::True | TokenKind::False | TokenKind::String | TokenKind::Nil => true,
                _ => false,
            },
        ensures
            old(self).chain_ok(9) ==> final(self).chain_done(&*old(self), 9, r),
            final(self).gave_operand(&*old(self), r),
            r matches Ok(e) ==> binding_power(e) == 10,
            final(self).expr_done(&*old(self), r),
        decreases old(self).remaining(), 2int,
    {
        let token = self.next_token();
        proof {
            assert(literal_fits(self.toks()[self.pos() - 1]));
        }
        match token.literal {
            Some(value) => Ok(Expr::Literal(ast::Literal::new(value, token.span))),
            None => {
                assert(false);
                Err(vec![ParserError::UnexpectedEoi { span: token.span }])
            },
        }
    }

    /// A variable, and the `.field` accesses after it.
    fn parse_variable(&mut self) -> (r: Result<Expr, Vec<ParserError>>)
        requires
            old(self).ctr() > 0,
            old(self).live(),
            old(self).toks()[old(self).pos()].kind == TokenKind::Identifier,
        ensures
            old(self).chain_ok(9) ==> final(self).chain_done(&*old(self), 9, r),
            old(self).at_lone_operand() ==> final(self).gave_operand(&*old(self), r),
            r matches Ok(e) ==> binding_power(e) == 10,
            final(self).expr_done(&*old(self), r),
        decreases old(self).remaining(), 2int,
    {
        let token = self.next_token();
        proof {
            assert(literal_fits(self.toks()[self.pos() - 1]));
        }
        let name = match token.literal {
            Some(Literal::String(name)) => name,
            _ => {
                assert(false);
                String::new()
            },
        };
        let id = self.gen_uid();
        let dot = [TokenKind::Dot];
        assert(dot@ =~= seq![TokenKind::Dot]);
        let ghost name_end = self.pos();
        if self.take_one_of(&dot).is_some() {
            let variable_expr = Expr::Variable(ast::Variable::new(name, id, token.span));
            self.parse_dot_access(variable_expr, Ghost(old(self).uid()), Ghost(old(self).pos()), Ghost(name_end))
        } else {
            Ok(Expr::Variable(ast::Variable::new(name, id, token.span)))
        }
    }

    /// The `.field` accesses after an expression, after the first `.`.
    fn parse_dot_access(&mut self, name: Expr, lo: Ghost<int>, start: Ghost<int>, name_end: Ghost<int>) -> (r: Result<
        Expr,
        Vec<ParserError>,
    >)
        requires
            old(self).ctr() > 0,
            expr_read(old(self).toks(), start@, name_end@, name),
            token_at(old(self).toks(), name_end@, TokenKind::Dot),
            old(self).pos() == after_newlines(old(self).toks(), name_end@) + 1,
            old(self).live(),
            shaped_expr(name),
            jumps_placed_expr(name, old(self).in_fn(), old(self).in_loop()),
            lo@ <= old(self).uid(),
            fresh_uids(uids_expr(name), lo@, old(self).uid()),
        ensures
            r matches Ok(e) ==> expr_read(old(self).toks(), start@, final(self).pos(), e),
            r matches Ok(e) ==> binding_power(e) == 10,
            final(self).kept(&*old(self)),
            r is Ok ==> final(self).stepped(&*old(self)),
            r matches Ok(e) ==> shaped_expr(e),
            r matches Ok(e) ==> jumps_placed_expr(e, old(self).in_fn(), old(self).in_loop()),
            r matches Err(es) ==> errors_reported(old(self).toks(), es@),
            final(self).uid() >= old(self).uid(),
            r matches Ok(e) ==> fresh_uids(uids_expr(e), lo@, final(self).uid()),
        decreases old(self).remaining(), 1int,
    {
        let ghost name_uids = uids_expr(name);
        let (field, field_span) = self.consume_identifier()?;
        let index_expr = Expr::Literal(ast::Literal::new(Literal::String(field), field_span));
        assert(field_read(self.toks(), old(self).pos(), self.pos(), index_expr));
        assert(shaped_expr(index_expr));
        assert(jumps_placed_expr(index_expr, old(self).in_fn(), old(self).in_loop()));
        let span = SourceSpan::new(name.get_span().start(), index_expr.get_span().end(), self.source_id);
        let mut access_expr = Expr::Access(ast::Access::new(name, index_expr, span));
        assert(shaped_expr(access_expr));
        assert(jumps_placed_expr(access_expr, old(self).in_fn(), old(self).in_loop()));
        assert(uids_expr(index_expr) =~= Seq::<usize>::empty());
        assert(uids_expr(access_expr) =~= name_uids + Seq::<usize>::empty());
        assert(name_uids + Seq::<usize>::empty() =~= name_uids);
        let dot = [TokenKind::Dot];
        assert(dot@ =~= seq![TokenKind::Dot]);
        proof {
            assert(after_newlines(self.toks(), name_end@) + 1 == old(self).pos());
            assert(expr_read(self.toks(), start@, self.pos(), access_expr));
        }
        let ghost next_end = self.pos();
        if self.take_one_of(&dot).is_some() {
            access_expr = self.parse_dot_access(access_expr, lo, start, Ghost(next_end))?;
        }
        Ok(access_expr)
    }

    /// `(expr)`.
    fn parse_grouping(&mut self) -> (r: Result<Expr, Vec<ParserError>>)
        requires
            old(self).ctr() > 0,
            old(self).live(),
            old(self).ctr() <= old(self).pos() + 2,
            old(self).toks()[old(self).pos()].kind == TokenKind::LeftParen,
        ensures
            old(self).chain_ok(9) ==> final(self).chain_done(&*old(self), 9, r),
            r matches Ok(e) ==> binding_power(e) == 10,
            final(self).expr_done(&*old(self), r),
        decreases old(self).remaining(), 2int,
    {
        let token = self.next_token();
        let expr = self.parse_expression()?;
        let ghost m = self.pos();
        let right = [TokenKind::RightParen];
        assert(right@ =~= seq![TokenKind::RightParen]);
        let closing_paren = match self.take_one_of(&right) {
            Some(t) => t,
            None => {
                let t = self.next_token();
                return Err(vec![ParserError::MissingParentheses { span: t.span }]);
            },
        };
        let span = SourceSpan::new(token.span.start(), closing_paren.span.end(), self.source_id);
        let node = ast::Grouping::new(expr, span);
        proof {
            lemma_after_newlines_stays(self.toks(), old(self).pos());
            assert(closes_at(self.toks(), m, self.pos(), TokenKind::RightParen));
            assert(expr_read(self.toks(), old(self).pos() + 1, m, *node.expr));
        }
        Ok(Expr::Grouping(node))
    }

    /// `[a, b, ...]`.
    fn parse_list(&mut self) -> (r: Result<Expr, Vec<ParserError>>)
        requires
            old(self).ctr() > 0,
            old(self).live(),
            old(self).ctr() <= old(self).pos() + 2,
            old(self).toks()[old(self).pos()].kind == TokenKind::LeftBracket,
        ensures
            r matches Ok(e) ==> binding_power(e) == 10,
            final(self).expr_done(&*old(self), r),
        decreases old(self).remaining(), 2int,
    {
        let ghost before = *self;
        let span_start = self.next_token().span.start();
        let mut elements: Vec<Expr> = Vec::new();
        let comma = [TokenKind::Comma];
        assert(comma@ =~= seq![TokenKind::Comma]);
        proof {
            self.tokens.lemma_wf();
            lemma_next_relevant_bounded(self.tokens.toks(), self.tokens.position(), self.tokens.skipping());
        }
        let ghost mut ends: Seq<int> = Seq::empty();
        let ghost a = before.pos() + 1;
        assert(items_so_far(self.toks(), a, ends, elements@));
        if !self.tokens.is_next_token(TokenKind::RightBracket) {
            loop
                invariant_except_break
                    self.pos() == item_start(before.toks(), a, ends, ends.len() as int),
                    ends.len() > 0 ==> token_at(before.toks(), ends.last(), TokenKind::Comma),
                invariant
                    before == *old(self),
                    self.kept(&before),
                    self.stepped(&before),
                    before.live(),
                    before.ctr() <= before.pos() + 2,
                    shaped_exprs(elements@),
                    jumps_placed_exprs(elements@, before.in_fn(), before.in_loop()),
                    self.uid() >= before.uid(),
                    fresh_uids(uids_exprs(elements@), before.uid(), self.uid()),
                    comma@ =~= seq![TokenKind::Comma],
                    items_so_far(before.toks(), a, ends, elements@),
                ensures
                    self.pos() == items_end(a, ends),
                decreases self.remaining(),
            {
                let ghost prev = elements@;
                let ghost mid = self.uid();
                let element = self.parse_expression()?;
                proof {
                    lemma_items_push(before.toks(), a, ends, elements@, element, self.pos());
                    ends = ends.push(self.pos());
                }
                elements.push(element);
                proof {
                    assert(elements@.drop_last() =~= prev);
                    lemma_fresh_concat(uids_exprs(prev), uids_expr(element), before.uid(), mid, self.uid());
                }
                assert(shaped_exprs(elements@) && jumps_placed_exprs(elements@, before.in_fn(), before.in_loop())) by {
                    assert forall|i: int| 0 <= i < elements@.len() implies shaped_expr(#[trigger] elements@[i])
                        && jumps_placed_expr(elements@[i], before.in_fn(), before.in_loop()) by {
                        if i < elements@.len() - 1 {
                            assert(elements@[i] == elements@.drop_last()[i]);
                        }
                    }
                }
                if self.take_one_of(&comma).is_none() {
                    break;
                }
            }
        } else {
            proof {
                let j = next_relevant(self.tokens.toks(), self.tokens.position(), self.tokens.skipping());
                assert(self.tokens.toks()[j].kind == TokenKind::RightBracket);
                assert(j != self.tokens.toks().len() - 1);
            }
        }
        if self.tokens.is_next_eof() {
            let span = self.tokens.last_token().span.duplicate();
            return Err(vec![ParserError::UnexpectedEoi { span }]);
        }
        let right = [TokenKind::RightBracket];
        assert(right@ =~= seq![TokenKind::RightBracket]);
        let closing_bracket = match self.take_one_of(&right) {
            Some(t) => t,
            None => {
                let t = self.next_token();
                return Err(vec![ParserError::MissingBrackets { span: t.span }]);
            },
        };
        let span = SourceSpan::new(span_start, closing_bracket.span.end(), self.source_id);
        assert(shaped_exprs(elements@));
        proof {
            lemma_items_closed(before.toks(), a, ends, elements@, self.pos(), TokenKind::RightBracket);
        }
        let list = ast::List::new(elements, span);
        assert(shaped_exprs(list.elements@));
        assert(jumps_placed_exprs(list.elements@, before.in_fn(), before.in_loop()));
        Ok(Expr::List(list))
    }

    /// `{ key: value, ... }`, with number and string keys.
    #[verifier::spinoff_prover]
    #[verifier::rlimit(40)]
    fn parse_associative_array(&mut self) -> (r: Result<Expr, Vec<ParserError>>)
        requires
            old(self).ctr() > 0,
            old(self).live(),
            old(self).ctr() <= old(self).pos() + 2,
            old(self).toks()[old(self).pos()].kind == TokenKind::LeftBrace,
        ensures
            r matches Ok(e) ==> binding_power(e) == 10,
            final(self).expr_done(&*old(self), r),
        decreases old(self).remaining(), 2int,
    {
        let ghost before = *self;
        let span_start = self.next_token().span.start();
        let mut elements: Vec<(ast::Literal, Expr)> = Vec::new();
        let comma = [TokenKind::Comma];
        let colon = [TokenKind::Colon];
        let key_kinds = [TokenKind::Number, TokenKind::String];
        assert(comma@ =~= seq![TokenKind::Comma]);
        assert(colon@ =~= seq![TokenKind::Colon]);
        assert(key_kinds@ =~= seq![TokenKind::Number, TokenKind::String]);
        proof {
            self.tokens.lemma_wf();
            lemma_next_relevant_bounded(self.tokens.toks(), self.tokens.position(), self.tokens.skipping());
        }
        let ghost mut ends: Seq<int> = Seq::empty();
        let ghost a = before.pos() + 1;
        assert(pairs_so_far(self.toks(), a, ends, elements@));
        if !self.tokens.is_next_token(TokenKind::RightBrace) {
            loop
                invariant_except_break
                    self.pos() == item_start(before.toks(), a, ends, ends.len() as int),
                    ends.len() > 0 ==> token_at(before.toks(), ends.last(), TokenKind::Comma),
                invariant
                    pairs_so_far(before.toks(), a, ends, elements@),
                    before.ctr() > 0,
                    before == *old(self),
                    self.kept(&before),
                    self.stepped(&before),
                    before.live(),
                    before.ctr() <= before.pos() + 2,
                    shaped_pairs(elements@),
                    jumps_placed_pairs(elements@, before.in_fn(), before.in_loop()),
                    self.uid() >= before.uid(),
                    fresh_uids(uids_pairs(elements@), before.uid(), self.uid()),
                    comma@ =~= seq![TokenKind::Comma],
                    colon@ =~= seq![TokenKind::Colon],
                    key_kinds@ =~= seq![TokenKind::Number, TokenKind::String],
                ensures
                    self.pos() == items_end(a, ends),
                decreases self.remaining(),
            {
                let ghost s0 = self.pos();
                let key = match self.take_one_of(&key_kinds) {
                    Some(token) => {
                        proof {
                            assert(literal_fits(self.toks()[self.pos() - 1]));
                        }
                        match token.literal {
                            Some(value) => ast::Literal::new(value, token.span),
                            None => {
                                assert(false);
                                return Err(vec![ParserError::UnexpectedEoi { span: token.span }]);
                            },
                        }
                    },
                    None => {
                        let t = self.next_token();
                        return Err(vec![unexpected_token(t)]);
                    },
                };
                if self.take_one_of(&colon).is_none() {
                    let t = self.next_token();
                    return Err(vec![ParserError::MissingColon { span: t.span }]);
                }
                assert(key_read(before.toks(), s0, key));
                let ghost prev = elements@;
                let ghost mid = self.uid();
                let value = self.parse_expression()?;
                proof {
                    lemma_pairs_push(before.toks(), a, ends, elements@, (key, value), self.pos());
                    ends = ends.push(self.pos());
                }
                let ghost value_uids = uids_expr(value);
                elements.push((key, value));
                proof {
                    assert(elements@.drop_last() =~= prev);
                    lemma_fresh_concat(uids_pairs(prev), value_uids, before.uid(), mid, self.uid());
                }
                assert(shaped_pairs(elements@) && jumps_placed_pairs(elements@, before.in_fn(), before.in_loop())) by {
                    assert forall|i: int| 0 <= i < elements@.len() implies shaped_expr((#[trigger] elements@[i]).1)
                        && jumps_placed_expr(elements@[i].1, before.in_fn(), before.in_loop()) by {
                        if i < elements@.len() - 1 {
                            assert(elements@[i] == elements@.drop_last()[i]);
                        }
                    }
                }
                if self.take_one_of(&comma).is_none() {
                    break;
                }
            }
        } else {
            proof {
                let j = next_relevant(self.tokens.toks(), self.tokens.position(), self.tokens.skipping());
                assert(self.tokens.toks()[j].kind == TokenKind::RightBrace);
                assert(j != self.tokens.toks().len() - 1);
            }
        }
        if self.tokens.is_next_eof() {
            let span = self.tokens.last_token().span.duplicate();
            return Err(vec![ParserError::UnexpectedEoi { span }]);
        }
        let right = [TokenKind::RightBrace];
        assert(right@ =~= seq![TokenKind::RightBrace]);
        let closing_brace = match self.take_one_of(&right) {
            Some(t) => t,
            None => {
                let t = self.next_token();
                return Err(vec![ParserError::MissingBraces { span: t.span }]);
            },
        };
        let span = SourceSpan::new(span_start, closing_brace.span.end(), self.source_id);
        assert(shaped_pairs(elements@));
        proof {
            lemma_pairs_closed(before.toks(), a, ends, elements@, self.pos());
        }
        let array = ast::AssociativeArray::new(elements, span);
        assert(shaped_pairs(array.elements@));
        Ok(Expr::AssociativeArray(array))
    }

    /// `função(params) body fim`, without a name.
    fn parse_anonymous_function(&mut self) -> (r: Result<Expr, Vec<ParserError>>)
        requires
            old(self).ctr() > 0,
            old(self).live(),
            old(self).ctr() <= old(self).pos() + 2,
            old(self).toks()[old(self).pos()].kind == TokenKind::Function,
        ensures
            r matches Ok(e) ==> binding_power(e) == 10,
            final(self).expr_done(&*old(self), r),
        decreases old(self).remaining(), 2int,
    {
        let function_token = self.next_token();
        let parameters = self.parse_function_parameters_signature()?;
        let end = [TokenKind::BlockEnd];
        assert(end@ =~= seq![TokenKind::BlockEnd]);
        let ghost after_params = self.uid();
        let ghost p1 = self.pos();
        let (body, _) = self.parse_block_contents(&end, BlockScope::Function, None)?;
        assert(in_order(old(self).pos(), p1, p1, self.pos()));
        proof {
            lemma_push_contains(old(self).scopes(), BlockScope::Function, BlockScope::Function);
            lemma_push_contains(old(self).scopes(), BlockScope::Function, BlockScope::Loop);
        }
        let span = SourceSpan::new(function_token.span.start(), body.get_span().end(), self.source_id);
        let ghost after_body = self.uid();
        let uid = self.gen_uid();
        proof {
            lemma_fresh_concat(param_uids(parameters@), uids_stmt(body), old(self).uid(), after_params, after_body);
            assert(fresh_uids(seq![uid], after_body, self.uid()));
            lemma_fresh_concat(param_uids(parameters@) + uids_stmt(body), seq![uid], old(self).uid(), after_body, self.uid());
        }
        Ok(Expr::AnonymousFunction(ast::AnonymousFunction::new(parameters, body, uid, span)))
    }

    /// `(a, b, ...)`: the parameters of a function.
    fn parse_function_parameters_signature(&mut self) -> (r: Result<Vec<FunctionParam>, Vec<ParserError>>)
        requires
            old(self).live(),
            old(self).ctr() <= old(self).pos() + 2,
        ensures
            (!old(self).tokens.skipping() && token_is(old(self).toks(), old(self).pos(), TokenKind::LeftParen) && token_is(
                old(self).toks(),
                after_newlines(old(self).toks(), old(self).pos() + 1),
                TokenKind::RightParen,
            )) ==> (r matches Ok(ps) && ps@.len() == 0 && final(self).pos() == after_newlines(old(self).toks(), old(self).pos() + 1)
                + 1),
            r matches Ok(ps) ==> params_read(old(self).toks(), after_newlines(old(self).toks(), old(self).pos()) + 1, ps@),
            final(self).kept(&*old(self)),
            r is Ok ==> final(self).stepped(&*old(self)),
            r matches Err(es) ==> errors_reported(old(self).toks(), es@),
            r matches Ok(ps) ==> distinct_params(ps@),
            final(self).uid() >= old(self).uid(),
            r matches Ok(ps) ==> fresh_uids(param_uids(ps@), old(self).uid(), final(self).uid()),
    {
        let _ = self.skip_token(TokenKind::LeftParen)?;
        proof {
            let toks = self.toks();
            if !old(self).tokens.skipping() {
                assert(next_relevant(toks, old(self).pos(), false) == old(self).pos());
                assert(toks[old(self).pos()].kind == TokenKind::LeftParen);
                assert(after_newlines(toks, old(self).pos()) == old(self).pos());
            }
            assert(self.pos() == after_newlines(toks, old(self).pos()) + 1);
            assert(name_positions(toks, self.pos(), Seq::<int>::empty()));
        }
        let g = self.ignore_newlines();
        if self.next_is_eof() {
            let span = self.tokens.last_token().span.duplicate();
            self.release_newlines(g);
            return Err(vec![ParserError::UnexpectedEoi { span }]);
        }
        let right = [TokenKind::RightParen];
        assert(right@ =~= seq![TokenKind::RightParen]);
        let parameters = match self.take_one_of(&right) {
            Some(_) => Vec::new(),
            None => {
                let parameters = match self.parse_function_parameters() {
                    Ok(ps) => ps,
                    Err(e) => {
                        self.release_newlines(g);
                        return Err(e);
                    },
                };
                if self.take_one_of(&right).is_none() {
                    let t = self.next_token();
                    self.release_newlines(g);
                    return Err(vec![ParserError::MissingParentheses { span: t.span }]);
                }
                parameters
            },
        };
        self.release_newlines(g);
        Ok(parameters)
    }

    /// `a, b, ...`: names of parameters, none twice.
    fn parse_function_parameters(&mut self) -> (r: Result<Vec<FunctionParam>, Vec<ParserError>>)
        requires
            old(self).ctr() > 0,
            old(self).live(),
        ensures
            r matches Ok(ps) ==> params_read(old(self).toks(), old(self).pos(), ps@),
            final(self).kept(&*old(self)),
            r is Ok ==> final(self).stepped(&*old(self)),
            r matches Err(es) ==> errors_reported(old(self).toks(), es@),
            r matches Ok(ps) ==> distinct_params(ps@),
            final(self).uid() >= old(self).uid(),
            r matches Ok(ps) ==> fresh_uids(param_uids(ps@), old(self).uid(), final(self).uid()),
    {
        let ghost before = *self;
        let mut parameters: Vec<FunctionParam> = Vec::new();
        let comma = [TokenKind::Comma];
        assert(comma@ =~= seq![TokenKind::Comma]);
        let ghost mut ks: Seq<int> = Seq::empty();
        assert(name_positions(before.toks(), before.pos(), ks));
        loop
            invariant_except_break
                ks.len() == 0 ==> self.pos() == before.pos(),
                ks.len() > 0 ==> self.pos() == after_newlines(before.toks(), ks.last() + 1) + 1 && token_at(
                    before.toks(),
                    ks.last() + 1,
                    TokenKind::Comma,
                ),
            invariant
                before.ctr() > 0,
                name_positions(before.toks(), before.pos(), ks),
                ks.len() == parameters@.len(),
                forall|i: int| 0 <= i < parameters@.len() ==> before.toks()[ks[i]].literal == Some(
                    Literal::String((#[trigger] parameters@[i]).name),
                ),
                before == *old(self),
                self.kept(&before),
                self.moved(&before),
                before.live(),
                comma@ =~= seq![TokenKind::Comma],
                parameters@.len() > 0 ==> self.pos() > before.pos(),
                distinct_params(parameters@),
                self.uid() >= before.uid(),
                fresh_uids(param_uids(parameters@), before.uid(), self.uid()),
            ensures
                self.pos() > before.pos(),
            decreases self.remaining(),
        {
            let ghost k = after_newlines(before.toks(), self.pos());
            let (param_name, param_span) = self.consume_identifier()?;
            proof {
                lemma_names_push(before.toks(), before.pos(), ks, k);
            }
            if has_param_named(&parameters, param_name.as_str()) {
                return Err(vec![ParserError::DuplicateParameter { name: param_name, span: param_span }]);
            }
            let ghost mid = self.uid();
            let uid = self.gen_uid();
            let ghost prev = parameters@;
            let param = FunctionParam::new(param_name, uid, param_span);
            parameters.push(param);
            proof {
                ks = ks.push(k);
                assert forall|i: int| 0 <= i < parameters@.len() implies before.toks()[ks[i]].literal == Some(
                    Literal::String((#[trigger] parameters@[i]).name),
                ) by {
                    if i < parameters@.len() - 1 {
                        assert(parameters@[i] == prev[i]);
                    }
                }
                assert(parameters@.drop_last() =~= prev);
                assert(param_uids(parameters@) =~= param_uids(prev).push(uid));
                assert(param_uids(prev).push(uid) =~= param_uids(prev) + seq![uid]);
                assert(fresh_uids(seq![uid], mid, self.uid()));
                lemma_fresh_concat(param_uids(prev), seq![uid], before.uid(), mid, self.uid());
                assert forall|i: int, j: int| 0 <= i < j < parameters@.len() implies
                    (#[trigger] parameters@[i]).name@ != (#[trigger] parameters@[j]).name@ by {
                    if j == parameters@.len() - 1 {
                        assert(parameters@[i] == prev[i]);
                        assert(!has_param(prev, param.name@));
                        if parameters@[i].name@ == parameters@[j].name@ {
                            assert(prev[i].name@ == param.name@);
                        }
                    } else {
                        assert(parameters@[i] == prev[i]);
                        assert(parameters@[j] == prev[j]);
                    }
                }
            }
            if self.take_one_of(&comma).is_none() {
                break;
            }
        }
        assert(params_read(before.toks(), before.pos(), parameters@));
        Ok(parameters)
    }

    /// What a step that parses a statement promises: the frame is kept, on success at least
    /// one token is consumed and the statement is of the parser's shape, and a failure is
    /// reported as `errors_reported` says.
    closed spec fn stmt_done(&self, old: &Parser, r: Result<Stmt, Vec<ParserError>>) -> bool {
        &&& self.kept(old)
        &&& r is Ok ==> self.stepped(old)
        &&& r matches Ok(s) ==> shaped_stmt(s)
        &&& r matches Ok(s) ==> jumps_placed_stmt(s, old.in_fn(), old.in_loop())
        &&& self.uid() >= old.uid()
        &&& r matches Ok(s) ==> fresh_uids(uids_stmt(s), old.uid(), self.uid())
        &&& r matches Err(es) ==> errors_reported(old.toks(), es@)
        &&& r matches Ok(s) ==> stmt_in(old.toks(), old.pos(), self.pos(), s)
    }

    /// A statement, with the newlines before it; it must end at a newline, the end of the input,
    /// `fim` or `senão`.
    #[verifier::spinoff_prover]
    #[verifier::rlimit(80)]
    fn parse_statement(&mut self) -> (r: Result<Stmt, Vec<ParserError>>)
        requires
            old(self).live(),
            old(self).ctr() == 0,
        ensures
            ({
                let j = after_newlines(old(self).toks(), old(self).pos());
                core_end(old(self).toks(), j) is Some && end_of_statement(old(self).toks(), core_end(old(self).toks(), j)->Some_0)
                    is Some
            }) ==> ({
                let j = after_newlines(old(self).toks(), old(self).pos());
                r is Ok && final(self).pos() == end_of_statement(old(self).toks(), core_end(old(self).toks(), j)->Some_0)->Some_0
            }),
            closed_loop_at(kinds_of(old(self).toks()), old(self).pos()) is Some && line_end(
                kinds_of(old(self).toks()),
                closed_loop_at(kinds_of(old(self).toks()), old(self).pos())->Some_0 + 1,
            ) ==> (r is Ok && final(self).pos() == next_relevant(
                old(self).toks(),
                closed_loop_at(kinds_of(old(self).toks()), old(self).pos())->Some_0 + 1,
                true,
            )),
            old(self).toks()[next_relevant(old(self).toks(), old(self).pos(), true)].kind == TokenKind::Eof ==> (r matches Err(es) && es@[0] is UnexpectedEoi),
            open_block_program(kinds_of(old(self).toks()), old(self).pos()) ==> (r matches Err(es) && es@[0] is UnexpectedEoi),
            simple_line_at(old(self).toks(), old(self).pos()) ==> ({
                &&& r matches Ok(s) && line_statement(s, old(self).toks(), old(self).pos())
                &&& final(self).pos() == next_relevant(
                    old(self).toks(),
                    line_next(kinds_of(old(self).toks()), old(self).pos()),
                    true,
                )
            }),
            final(self).stmt_done(&*old(self), r),
        decreases old(self).remaining(), 20int,
    {
        proof {
            let ks = kinds_of(self.toks());
            if simple_line_at(self.toks(), self.pos()) {
                assert(ks[self.pos()] == self.toks()[self.pos()].kind);
            }
        }
        let token = self.peek_token();
        if token.kind == TokenKind::Newline {
            self.skip_newlines();
            let ghost p1 = self.pos();
            let r = self.parse_statement();
            proof {
                lemma_after_newlines_stays(self.toks(), old(self).pos());
                if r is Ok {
                    lemma_stmt_widen(self.toks(), p1, self.pos(), old(self).pos(), self.pos(), r->Ok_0);
                }
            }
            return r;
        }
        let result = match token.kind {
            TokenKind::Let => self.parse_declaration(),
            TokenKind::If => self.parse_if_statement(),
            TokenKind::While => self.parse_while_statement(),
            TokenKind::ForOrBreak => {
                let for_each = [TokenKind::ForOrBreak, TokenKind::Each];
                proof {
                    reveal_with_fuel(match_end, 3);
                    assert(for_each@ =~= seq![TokenKind::ForOrBreak, TokenKind::Each]);
                    assert(seq![TokenKind::ForOrBreak, TokenKind::Each].drop_first() =~= seq![TokenKind::Each]);
                    assert(seq![TokenKind::Each].drop_first() =~= Seq::<TokenKind>::empty());
                }
                if self.tokens.check_sequence(&for_each) {
                    self.parse_for_each_statement()
                } else {
                    self.parse_break_statement()
                }
            },
            TokenKind::Function => self.parse_function_declaration(),
            TokenKind::Return => self.parse_return_statement(),
            TokenKind::Continue => self.parse_continue_statement(),
            _ => {
                let ghost a = self.pos();
                match self.parse_expression() {
                    Ok(e) => {
                        assert(in_order(old(self).pos(), a, self.pos(), self.pos()));
                        Ok(Stmt::Expr(e))
                    },
                    Err(e) => Err(e),
                }
            },
        }?;
        let ghost stmt_end = self.pos();
        let next = self.peek_token();
        if next.kind == TokenKind::Newline {
            self.skip_newlines();
        } else if next.kind == TokenKind::Eof || next.kind == TokenKind::BlockEnd || next.kind == TokenKind::Else {
        } else {
            return Err(vec![unexpected_token(next)]);
        }
        proof {
            lemma_stmt_widen(self.toks(), old(self).pos(), stmt_end, old(self).pos(), self.pos(), result);
        }
        Ok(result)
    }

    /// The block after the token that opens it, up to one of `end_token_types`; returns the
    /// block and the kind of the token that ended it.
    fn parse_block(&mut self, end_token_types: &[TokenKind], scope: BlockScope) -> (r: Result<
        (Stmt, TokenKind),
        Vec<ParserError>,
    >)
        requires
            old(self).live(),
            !end_token_types@.contains(TokenKind::Eof),
        ensures
            (old(self).ctr() == 0 && old(self).toks()[old(self).pos()].kind != TokenKind::Eof && block_end(
                old(self).toks(),
                old(self).pos() + 1,
                end_token_types@,
            ) is Some) ==> ({
                let e = block_end(old(self).toks(), old(self).pos() + 1, end_token_types@)->Some_0;
                r matches Ok(p) && final(self).pos() == e + 1 && p.1 == old(self).toks()[e].kind
            }),
            r matches Ok(p) ==> stmt_in(old(self).toks(), old(self).pos(), final(self).pos(), p.0),
            ({
                &&& old(self).ctr() == 0
                &&& old(self).toks()[old(self).pos()].kind != TokenKind::Eof
                &&& closes_only(end_token_types@)
                &&& block_lines(kinds_of(old(self).toks()), old(self).pos() + 1, end_token_types@) is Some
            }) ==> ({
                let q = block_lines(kinds_of(old(self).toks()), old(self).pos() + 1, end_token_types@)->Some_0;
                &&& r matches Ok(p) && p.1 == old(self).toks()[q].kind
                &&& final(self).pos() == q + 1
            }),
            ({
                &&& old(self).ctr() == 0
                &&& old(self).toks()[old(self).pos()].kind != TokenKind::Eof
                &&& closes_only(end_token_types@)
                &&& simple_lines(kinds_of(old(self).toks()), old(self).pos() + 1)
            }) ==> (r matches Err(es) && es@[0] is UnexpectedEoi),
            final(self).kept(&*old(self)),
            r is Ok ==> final(self).stepped(&*old(self)),
            r matches Ok(p) ==> p.0 is Block && shaped_stmt(p.0) && end_token_types@.contains(p.1),
            r matches Ok(p) ==> jumps_placed_stmt(p.0, old(self).scopes().push(scope).contains(BlockScope::Function),
                old(self).scopes().push(scope).contains(BlockScope::Loop)),
            r matches Err(es) ==> errors_reported(old(self).toks(), es@),
            final(self).uid() >= old(self).uid(),
            r matches Ok(p) ==> fresh_uids(uids_stmt(p.0), old(self).uid(), final(self).uid()),
        decreases old(self).remaining(), 18int,
    {
        let opener = self.next_token();
        if opener.kind == TokenKind::Eof {
            let span = self.tokens.last_token().span.duplicate();
            return Err(vec![ParserError::UnexpectedEoi { span }]);
        }
        let ghost p1 = self.pos();
        let r = self.parse_block_contents(end_token_types, scope, Some(opener.span.start()));
        proof {
            if r is Ok {
                let blk = r->Ok_0.0;
                lemma_stmts_widen(self.toks(), p1, self.pos(), old(self).pos(), self.pos(), blk->Block_0.inner.inner@);
            }
        }
        r
    }

    /// The statements of a block, inside `scope` and with newlines not skipped, up to one of
    /// `end_token_types`; returns the block and the kind of the token that ended it.
    fn parse_block_contents(&mut self, end_token_types: &[TokenKind], scope: BlockScope, span_start: Option<
        usize,
    >) -> (r: Result<(Stmt, TokenKind), Vec<ParserError>>)
        requires
            old(self).live(),
            !end_token_types@.contains(TokenKind::Eof),
        ensures
            block_end(old(self).toks(), old(self).pos(), end_token_types@) matches Some(e) ==> (r matches Ok(p)
                && final(self).pos() == e + 1 && p.1 == old(self).toks()[e].kind),
            r matches Ok(p) ==> stmt_in(old(self).toks(), old(self).pos(), final(self).pos(), p.0),
            closes_only(end_token_types@) && block_lines(kinds_of(old(self).toks()), old(self).pos(), end_token_types@) is Some
                ==> ({
                let q = block_lines(kinds_of(old(self).toks()), old(self).pos(), end_token_types@)->Some_0;
                &&& r matches Ok(p) && p.1 == old(self).toks()[q].kind
                &&& final(self).pos() == q + 1
            }),
            ({
                &&& closes_only(end_token_types@)
                &&& simple_lines(kinds_of(old(self).toks()), old(self).pos())
            }) ==> (r matches Err(es) && es@[0] is UnexpectedEoi),
            final(self).kept(&*old(self)),
            r is Ok ==> final(self).stepped(&*old(self)),
            r matches Ok(p) ==> p.0 is Block && shaped_stmt(p.0) && end_token_types@.contains(p.1),
            r matches Ok(p) ==> jumps_placed_stmt(p.0, old(self).scopes().push(scope).contains(BlockScope::Function),
                old(self).scopes().push(scope).contains(BlockScope::Loop)),
            r matches Err(es) ==> errors_reported(old(self).toks(), es@),
            final(self).uid() >= old(self).uid(),
            r matches Ok(p) ==> fresh_uids(uids_stmt(p.0), old(self).uid(), final(self).uid()),
        decreases old(self).remaining(), 21int,
    {
        let ghost before = *self;
        let guard = self.scope.guard(scope);
        proof {
            self.tokens.lemma_wf();
        }
        let ghost closed_lines = closes_only(end_token_types@) && block_lines(kinds_of(before.toks()), before.pos(),
            end_token_types@) is Some;
        let ghost close_at = block_lines(kinds_of(before.toks()), before.pos(), end_token_types@)->Some_0;
        proof {
            if closed_lines {
                lemma_block_lines_next(self.toks(), self.pos(), end_token_types@);
            }
        }
        let ghost body_lines = closes_only(end_token_types@)
            && simple_lines(kinds_of(before.toks()), before.pos());
        proof {
            if body_lines {
                lemma_simple_lines_next(self.toks(), self.pos());
            }
        }
        let newline_guard = self.tokens.halt_ignoring_newline();
        self.skip_newlines();
        let first = self.peek_token();
        let span_start = match span_start {
            Some(s) => s,
            None => first.span.start(),
        };
        let inner_span_start = first.span.start();
        let mut current_inner_span_end = first.span.end();
        let mut stmts: Vec<Stmt> = Vec::new();
        let ghost inside = *self;
        let ghost rec_ok = block_end(before.toks(), before.pos(), end_token_types@) is Some;
        let ghost e0 = block_end(before.toks(), before.pos(), end_token_types@)->Some_0;
        proof {
            if rec_ok {
                lemma_after_newlines_stays(before.toks(), before.pos());
                lemma_next_relevant_bounded(before.toks(), before.pos(), true);
                assert(block_end(before.toks(), self.pos(), end_token_types@) == Some(e0));
            }
        }
        let ghost mut bounds: Seq<int> = seq![self.pos()];
        let mut outcome: Result<Token, Vec<ParserError>> = Err(Vec::new());
        loop
            invariant_except_break
                self.moved(&inside),
                self.ctr() == 0,
                rec_ok ==> block_end(before.toks(), self.pos(), end_token_types@) == Some(e0) && before.toks()[self.pos()].kind
                    != TokenKind::Newline,
                bounds.last() == self.pos(),
                body_lines ==> simple_lines(kinds_of(self.toks()), self.pos()) && self.toks()[self.pos()].kind
                    != TokenKind::Newline,
                closed_lines ==> block_lines(kinds_of(self.toks()), self.pos(), end_token_types@) == Some(close_at)
                    && self.toks()[self.pos()].kind != TokenKind::Newline,
            invariant
                before == *old(self),
                inside.tokens.toks() == before.tokens.toks(),
                inside.pos() >= before.pos(),
                self.kept(&inside),
                inside.live(),
                inside.ctr() == 0,
                self.scopes() == before.scopes().push(scope),
                shaped_stmts(stmts@),
                ordered_bounds(bounds, before.pos(), bounds.last()),
                bounds.len() == stmts@.len() + 1,
                forall|i: int| 0 <= i < stmts@.len() ==> stmt_in(before.toks(), bounds[i], bounds[i + 1], #[trigger] stmts@[i]),
                jumps_placed_stmts(stmts@, before.scopes().push(scope).contains(BlockScope::Function),
                    before.scopes().push(scope).contains(BlockScope::Loop)),
                self.uid() >= before.uid(),
                fresh_uids(uids_stmts(stmts@), before.uid(), self.uid()),
                !end_token_types@.contains(TokenKind::Eof),
                body_lines ==> closes_only(end_token_types@),
                closed_lines ==> closes_only(end_token_types@),
            ensures
                outcome matches Ok(t) ==> self.moved(&inside) && self.pos() > inside.pos() && end_token_types@.contains(t.kind),
                outcome matches Err(es) ==> errors_reported(old(self).toks(), es@),
                rec_ok ==> (outcome matches Ok(t) && self.pos() == e0 + 1 && t == before.toks()[e0]),
                body_lines ==> (outcome matches Err(es) && es@[0] is UnexpectedEoi),
                closed_lines ==> (outcome matches Ok(t) && t == self.toks()[close_at] && self.pos() == close_at + 1),
                outcome is Ok ==> bounds.last() <= self.pos(),
            decreases self.remaining(),
        {
            let token = self.peek_token();
            proof {
                if body_lines {
                    assert(kinds_of(self.toks())[self.pos()] == self.toks()[self.pos()].kind);
                    if end_token_types@.contains(token.kind) {
                        let i = choose|i: int| 0 <= i < end_token_types@.len() && end_token_types@[i] == token.kind;
                        assert(!is_atom(end_token_types@[i]) && end_token_types@[i] != TokenKind::Let);
                    }
                }
            }
            if kind_in(end_token_types, token.kind) {
                let t = self.next_token();
                outcome = Ok(t);
                break;
            }
            current_inner_span_end = token.span.end();
            proof {
                if body_lines && token.kind != TokenKind::Eof {
                    let ks = kinds_of(self.toks());
                    assert(ks[self.pos()] == token.kind);
                    lemma_simple_lines_next(self.toks(), line_next(ks, self.pos()));
                }
                if closed_lines {
                    let ks = kinds_of(self.toks());
                    assert(ks[self.pos()] == token.kind);
                    lemma_block_lines_next(self.toks(), line_next(ks, self.pos()), end_token_types@);
                }
            }
            let ghost prev = stmts@;
            let ghost mid = self.uid();
            proof {
                if rec_ok {
                    let toks = before.toks();
                    let p = self.pos();
                    let b = core_end(toks, p)->Some_0;
                    if toks[b].kind == TokenKind::Newline {
                        lemma_next_relevant_bounded(toks, b, true);
                    }
                }
            }
            match self.parse_statement() {
                Ok(stmt) => {
                    stmts.push(stmt);
                    proof {
                        assert(stmts@.drop_last() =~= prev);
                        lemma_stmts_push(before.toks(), before.pos(), bounds, prev, stmt, self.pos());
                        bounds = bounds.push(self.pos());
                        assert(stmts@ =~= prev.push(stmt));
                        lemma_fresh_concat(uids_stmts(prev), uids_stmt(stmt), before.uid(), mid, self.uid());
                    }
                    assert(shaped_stmts(stmts@) && jumps_placed_stmts(stmts@, before.scopes().push(scope).contains(BlockScope::Function),
                        before.scopes().push(scope).contains(BlockScope::Loop))) by {
                        assert forall|i: int| 0 <= i < stmts@.len() implies shaped_stmt(#[trigger] stmts@[i])
                            && jumps_placed_stmt(stmts@[i], before.scopes().push(scope).contains(BlockScope::Function),
                            before.scopes().push(scope).contains(BlockScope::Loop)) by {
                            if i < stmts@.len() - 1 {
                                assert(stmts@[i] == stmts@.drop_last()[i]);
                            }
                        }
                    }
                },
                Err(e) => {
                    outcome = Err(e);
                    break;
                },
            }
        }
        self.release_newlines(newline_guard);
        self.scope.release(guard);
        proof {
            assert(before.scopes().push(scope).drop_last() =~= before.scopes());
        }
        let end_token = outcome?;
        let span = SourceSpan::new(span_start, end_token.span.end(), self.source_id);
        let inner_span = SourceSpan::new(inner_span_start, current_inner_span_end, self.source_id);
        proof {
            assert(ordered_bounds(bounds, before.pos(), self.pos()));
            assert(stmts_in(before.toks(), before.pos(), self.pos(), stmts@));
        }
        let block = Stmt::Block(ast::Block::new(Ast::from(stmts, inner_span), span));
        Ok((block, end_token.kind))
    }

    /// `se cond então ... [senão ...] fim`.
    fn parse_if_statement(&mut self) -> (r: Result<Stmt, Vec<ParserError>>)
        requires
            old(self).live(),
            old(self).ctr() == 0,
            old(self).toks()[old(self).pos()].kind == TokenKind::If,
        ensures
            core_end(old(self).toks(), old(self).pos()) matches Some(b) ==> (r is Ok && final(self).pos() == b),
            open_block_program(kinds_of(old(self).toks()), old(self).pos()) ==> (r matches Err(es) && es@[0] is UnexpectedEoi),
            final(self).stmt_done(&*old(self), r),
        decreases old(self).remaining(), 19int,
    {
        let span_start = self.next_token().span.start();
        proof {
            lemma_push_contains(old(self).scopes(), BlockScope::If, BlockScope::Function);
            lemma_push_contains(old(self).scopes(), BlockScope::If, BlockScope::Loop);
            lemma_push_contains(old(self).scopes(), BlockScope::Else, BlockScope::Function);
            lemma_push_contains(old(self).scopes(), BlockScope::Else, BlockScope::Loop);
        }
        let ghost a = self.pos();
        let condition = self.parse_expression()?;
        let ghost m = self.pos();
        let token = self.peek_token();
        let then_end = [TokenKind::BlockEnd, TokenKind::Else];
        assert(then_end@ =~= seq![TokenKind::BlockEnd, TokenKind::Else]);
        let (then_branch, block_end_delimiter) = if token.kind == TokenKind::Then {
            self.parse_block(&then_end, BlockScope::If)?
        } else {
            let t = self.next_token();
            return Err(vec![unexpected_token(t)]);
        };
        let ghost q = self.pos();
        let else_branch = if block_end_delimiter == TokenKind::Else {
            let else_end = [TokenKind::BlockEnd];
            assert(else_end@ =~= seq![TokenKind::BlockEnd]);
            let (else_branch, _) = self.parse_block(&else_end, BlockScope::Else)?;
            Some(else_branch)
        } else {
            None
        };
        let span_end = match &else_branch {
            Some(e) => e.get_span().end(),
            None => then_branch.get_span().end(),
        };
        let span = SourceSpan::new(span_start, span_end, self.source_id);
        let node = ast::Cond::new(condition, then_branch, else_branch, span);
        proof {
            assert(expr_read(self.toks(), a, m, node.cond));
            assert(in_order(old(self).pos(), a, m, m));
            assert(in_order(old(self).pos(), m, q, self.pos()));
            assert(stmt_in(self.toks(), m, q, *node.then_branch));
        }
        Ok(Stmt::Cond(node))
    }

    /// `enquanto cond faça ... fim`.
    fn parse_while_statement(&mut self) -> (r: Result<Stmt, Vec<ParserError>>)
        requires
            old(self).live(),
            old(self).ctr() == 0,
            old(self).toks()[old(self).pos()].kind == TokenKind::While,
        ensures
            core_end(old(self).toks(), old(self).pos()) matches Some(b) ==> (r is Ok && final(self).pos() == b),
            closed_loop_at(kinds_of(old(self).toks()), old(self).pos()) is Some ==> (r is Ok && final(self).pos()
                == closed_loop_at(kinds_of(old(self).toks()), old(self).pos())->Some_0 + 1),
            open_block_program(kinds_of(old(self).toks()), old(self).pos()) ==> (r matches Err(es) && es@[0] is UnexpectedEoi),
            final(self).stmt_done(&*old(self), r),
        decreases old(self).remaining(), 19int,
    {
        let span_start = self.next_token().span.start();
        proof {
            lemma_push_contains(old(self).scopes(), BlockScope::Loop, BlockScope::Function);
            lemma_push_contains(old(self).scopes(), BlockScope::Loop, BlockScope::Loop);
        }
        let ghost a = self.pos();
        let condition = self.parse_expression()?;
        let ghost m = self.pos();
        if !self.next_is(TokenKind::Do) {
            let t = self.next_token();
            return Err(vec![unexpected_token(t)]);
        }
        let end = [TokenKind::BlockEnd];
        assert(end@ =~= seq![TokenKind::BlockEnd]);
        let (body, _) = self.parse_block(&end, BlockScope::Loop)?;
        let span = SourceSpan::new(span_start, body.get_span().end(), self.source_id);
        let node = ast::While::new(condition, body, span);
        proof {
            assert(expr_read(self.toks(), a, m, node.cond));
            assert(in_order(old(self).pos(), a, m, m));
            assert(in_order(old(self).pos(), m, m, self.pos()));
            assert(stmt_in(self.toks(), m, self.pos(), *node.body));
        }
        Ok(Stmt::While(node))
    }

    /// `para cada item em iterable faça ... fim`.
    fn parse_for_each_statement(&mut self) -> (r: Result<Stmt, Vec<ParserError>>)
        requires
            old(self).live(),
            old(self).ctr() == 0,
            old(self).toks()[old(self).pos()].kind == TokenKind::ForOrBreak,
        ensures
            core_end(old(self).toks(), old(self).pos()) matches Some(b) ==> (r is Ok && final(self).pos() == b),
            final(self).stmt_done(&*old(self), r),
        decreases old(self).remaining(), 19int,
    {
        let span_start = self.next_token().span.start();
        proof {
            lemma_push_contains(old(self).scopes(), BlockScope::Loop, BlockScope::Function);
            lemma_push_contains(old(self).scopes(), BlockScope::Loop, BlockScope::Loop);
        }
        let _ = self.skip_token(TokenKind::Each)?;
        let (name, name_span) = self.consume_identifier()?;
        let _ = self.skip_token(TokenKind::In)?;
        let ghost a = self.pos();
        let iterable = self.parse_expression()?;
        let ghost m = self.pos();
        if !self.next_is(TokenKind::Do) {
            let t = self.next_token();
            return Err(vec![unexpected_token(t)]);
        }
        let end = [TokenKind::BlockEnd];
        assert(end@ =~= seq![TokenKind::BlockEnd]);
        let (body, _) = self.parse_block(&end, BlockScope::Loop)?;
        let span = SourceSpan::new(span_start, body.get_span().end(), self.source_id);
        let uid = self.gen_uid();
        let item = ast::ForEachItem::new(name, uid, name_span);
        let node = ast::ForEach::new(item, iterable, body, span);
        proof {
            assert(expr_read(self.toks(), a, m, node.iterable));
            assert(in_order(old(self).pos(), a, m, m));
            assert(in_order(old(self).pos(), m, m, self.pos()));
            assert(stmt_in(self.toks(), m, self.pos(), *node.body));
        }
        Ok(Stmt::ForEach(node))
    }

    /// `função name(params) ... fim`.
    fn parse_function_declaration(&mut self) -> (r: Result<Stmt, Vec<ParserError>>)
        requires
            old(self).live(),
            old(self).ctr() == 0,
            old(self).toks()[old(self).pos()].kind == TokenKind::Function,
        ensures
            core_end(old(self).toks(), old(self).pos()) matches Some(b) ==> (r is Ok && final(self).pos() == b),
            final(self).stmt_done(&*old(self), r),
        decreases old(self).remaining(), 19int,
    {
        let span_start = self.next_token().span.start();
        proof {
            lemma_push_contains(old(self).scopes(), BlockScope::Function, BlockScope::Function);
            lemma_push_contains(old(self).scopes(), BlockScope::Function, BlockScope::Loop);
        }
        let (name, _) = self.consume_identifier()?;
        let parameters = self.parse_function_parameters_signature()?;
        let end = [TokenKind::BlockEnd];
        assert(end@ =~= seq![TokenKind::BlockEnd]);
        let ghost p1 = self.pos();
        let (body, _) = self.parse_block_contents(&end, BlockScope::Function, None)?;
        proof {
            lemma_stmts_widen(self.toks(), p1, self.pos(), old(self).pos(), self.pos(), body->Block_0.inner.inner@);
        }
        let span = SourceSpan::new(span_start, body.get_span().end(), self.source_id);
        let uid = self.gen_uid();
        let node = ast::FunctionDecl::new(name, parameters, body, uid, span);
        proof {
            assert(token_at(self.toks(), old(self).pos(), TokenKind::Function));
            assert(name_after(self.toks(), old(self).pos(), 1, node.name));
            assert(stmt_in(self.toks(), old(self).pos(), self.pos(), *node.body));
        }
        Ok(Stmt::Decl(ast::Decl::Function(node)))
    }

    /// `seja name = value`.
    fn parse_declaration(&mut self) -> (r: Result<Stmt, Vec<ParserError>>)
        requires
            old(self).live(),
            old(self).ctr() == 0,
            old(self).toks()[old(self).pos()].kind == TokenKind::Let,
        ensures
            core_end(old(self).toks(), old(self).pos()) matches Some(b) ==> (r is Ok && final(self).pos() == b),
            final(self).stmt_done(&*old(self), r),
            declaration_line(kinds_of(old(self).toks()), old(self).pos()) && lone_operand_at(old(self).toks(), old(self).pos()
                + 3) ==> ({
                &&& r matches Ok(s) && line_statement(s, old(self).toks(), old(self).pos())
                &&& final(self).pos() == old(self).pos() + 4
            }),
        decreases old(self).remaining(), 19int,
    {
        proof {
            let ks = kinds_of(self.toks());
            let p = self.pos();
            if declaration_line(ks, p) {
                assert(ks[p + 1] == self.toks()[p + 1].kind);
                assert(ks[p + 2] == self.toks()[p + 2].kind);
            }
        }
        let span_start = self.next_token().span.start();
        let (name, _) = self.consume_identifier()?;
        let _ = self.skip_token(TokenKind::EqualSign)?;
        let ghost a = self.pos();
        let expr = self.parse_expression()?;
        assert(in_order(old(self).pos(), a, self.pos(), self.pos()));
        let span = SourceSpan::new(span_start, expr.get_span().end(), self.source_id);
        let uid = self.gen_uid();
        Ok(Stmt::Decl(ast::Decl::Local(ast::LocalDecl::new(name, expr, uid, span))))
    }

    /// `retorna [value]`, inside a function.
    fn parse_return_statement(&mut self) -> (r: Result<Stmt, Vec<ParserError>>)
        requires
            old(self).live(),
            old(self).ctr() == 0,
            old(self).toks()[old(self).pos()].kind == TokenKind::Return,
        ensures
            final(self).stmt_done(&*old(self), r),
        decreases old(self).remaining(), 19int,
    {
        let return_token = self.next_token();
        if !self.scope.has_scope(BlockScope::Function) {
            return Err(vec![ParserError::IllegalReturn { span: return_token.span }]);
        }
        let next = self.peek_token();
        let ghost a = self.pos();
        let expr = if next.kind != TokenKind::Newline {
            let e = self.parse_expression()?;
            assert(in_order(old(self).pos(), a, self.pos(), self.pos()));
            Some(e)
        } else {
            None
        };
        let span_end = match &expr {
            Some(e) => e.get_span().end(),
            None => return_token.span.end(),
        };
        let span = SourceSpan::new(return_token.span.start(), span_end, self.source_id);
        Ok(Stmt::Return(ast::Return::new(expr, span)))
    }

    /// `pare`, inside a loop.
    fn parse_break_statement(&mut self) -> (r: Result<Stmt, Vec<ParserError>>)
        requires
            old(self).live(),
            old(self).ctr() == 0,
            old(self).toks()[old(self).pos()].kind == TokenKind::ForOrBreak,
        ensures
            final(self).stmt_done(&*old(self), r),
        decreases old(self).remaining(), 19int,
    {
        let break_token = self.next_token();
        if !self.scope.has_scope(BlockScope::Loop) {
            return Err(vec![ParserError::IllegalBreak { span: break_token.span }]);
        }
        Ok(Stmt::Break(ast::Break::new(break_token.span)))
    }

    /// `continua`, inside a loop.
    fn parse_continue_statement(&mut self) -> (r: Result<Stmt, Vec<ParserError>>)
        requires
            old(self).live(),
            old(self).ctr() == 0,
            old(self).toks()[old(self).pos()].kind == TokenKind::Continue,
        ensures
            final(self).stmt_done(&*old(self), r),
        decreases old(self).remaining(), 19int,
    {
        let continue_token = self.next_token();
        if !self.scope.has_scope(BlockScope::Loop) {
            return Err(vec![ParserError::IllegalContinue { span: continue_token.span }]);
        }
        Ok(Stmt::Continue(ast::Continue::new(continue_token.span)))
    }

    /// The statements up to the end of the input, or up to the first that fails.
    fn parse_program(&mut self) -> (r: Result<Ast, Vec<ParserError>>)
        requires
            old(self).live(),
            old(self).ctr() == 0,
        ensures
            program_ok(old(self).toks(), old(self).pos()) ==> (r is Ok && final(self).toks()[final(self).pos()].kind
                == TokenKind::Eof),
            r matches Ok(ast) ==> program_cover(old(self).toks(), old(self).pos(), final(self).pos(), ast.inner@),
            closed_loop_program(kinds_of(old(self).toks()), old(self).pos()) ==> r is Ok && final(self).toks()[final(self).pos()].kind
                == TokenKind::Eof,
            open_block_program(kinds_of(old(self).toks()), old(self).pos()) ==> (r matches Err(es) && es@[0] is UnexpectedEoi),
            simple_program(kinds_of(old(self).toks()), old(self).pos()) ==> ({
                &&& r matches Ok(ast) && line_statements(ast.inner@, old(self).toks(), line_starts(kinds_of(old(self).toks()), old(self).pos()))
                &&& final(self).toks()[final(self).pos()].kind == TokenKind::Eof
            }),
            final(self).kept(&*old(self)),
            r is Ok ==> final(self).moved(&*old(self)),
            r matches Ok(ast) ==> shaped_stmts(ast.inner@),
            r matches Ok(ast) ==> jumps_placed_stmts(ast.inner@, old(self).in_fn(), old(self).in_loop()),
            final(self).uid() >= old(self).uid(),
            r matches Ok(ast) ==> fresh_uids(uids_stmts(ast.inner@), old(self).uid(), final(self).uid()),
            r matches Err(es) ==> errors_reported(old(self).toks(), es@),
    {
        let ghost before = *self;
        let mut stmt_list: Vec<Stmt> = Vec::new();
        let first = self.peek_token();
        let span_start = first.span.start();
        let mut errors: Vec<ParserError> = Vec::new();
        let ghost mut taken: Seq<int> = Seq::empty();
        let ghost mut bounds: Seq<int> = seq![self.pos()];
        let ghost prog_ok = program_ok(before.toks(), before.pos());
        assert(line_starts(kinds_of(before.toks()), before.pos()) =~= taken + line_starts(kinds_of(self.toks()), self.pos()));
        loop
            invariant_except_break
                self.moved(&before),
                errors@.len() == 0,
                prog_ok ==> program_ok(before.toks(), self.pos()),
                bounds.last() == self.pos(),
            invariant
                before == *old(self),
                before.live(),
                before.ctr() == 0,
                self.kept(&before),
                shaped_stmts(stmt_list@),
                ordered_bounds(bounds, before.pos(), bounds.last()),
                bounds[0] == before.pos(),
                bounds.len() == stmt_list@.len() + 1,
                forall|i: int| 0 <= i < stmt_list@.len() ==> stmt_in(before.toks(), bounds[i], bounds[i + 1], #[trigger] stmt_list@[i]),
                jumps_placed_stmts(stmt_list@, before.in_fn(), before.in_loop()),
                self.uid() >= before.uid(),
                fresh_uids(uids_stmts(stmt_list@), before.uid(), self.uid()),
                errors@.len() > 0 ==> errors_reported(before.toks(), errors@),
                closed_loop_program(kinds_of(before.toks()), before.pos()) ==> errors@.len() == 0 && ((self.pos()
                    == before.pos()) || simple_program(kinds_of(self.toks()), self.pos())),
                open_block_program(kinds_of(before.toks()), before.pos()) ==> (errors@.len() == 0 ==> self.pos()
                    == before.pos()) && (errors@.len() > 0 ==> errors@[0] is UnexpectedEoi),
                simple_program(kinds_of(before.toks()), before.pos()) ==> {
                    &&& errors@.len() == 0
                    &&& simple_program(kinds_of(self.toks()), self.pos())
                    &&& line_starts(kinds_of(before.toks()), before.pos()) == taken + line_starts(kinds_of(self.toks()), self.pos())
                    &&& line_statements(stmt_list@, before.toks(), taken)
                },
            ensures
                errors@.len() == 0 ==> self.moved(&before),
                prog_ok ==> errors@.len() == 0 && before.toks()[self.pos()].kind == TokenKind::Eof,
                errors@.len() == 0 ==> bounds.last() == self.pos(),
                simple_program(kinds_of(before.toks()), before.pos()) ==> self.toks()[self.pos()].kind == TokenKind::Eof,
                closed_loop_program(kinds_of(before.toks()), before.pos()) ==> self.toks()[self.pos()].kind == TokenKind::Eof,
                open_block_program(kinds_of(before.toks()), before.pos()) ==> errors@.len() > 0,
            decreases self.remaining(),
        {
            if !self.tokens.is_next_valid() {
                break;
            }
            let ghost prev = stmt_list@;
            let ghost mid = self.uid();
            let ghost at = self.pos();
            proof {
                let ks = kinds_of(self.toks());
                assert(ks[at] == self.toks()[at].kind);
                if simple_program(ks, at) {
                    lemma_simple_lines_next(self.toks(), line_next(ks, at));
                }
                if closed_loop_program(kinds_of(before.toks()), before.pos()) && at == before.pos() {
                    lemma_simple_lines_next(self.toks(), closed_loop_at(ks, at)->Some_0 + 1);
                }
            }
            match self.parse_statement() {
                Ok(stmt) => {
                    stmt_list.push(stmt);
                    proof {
                        assert(stmt_list@.drop_last() =~= prev);
                        lemma_stmts_push(before.toks(), before.pos(), bounds, prev, stmt, self.pos());
                        bounds = bounds.push(self.pos());
                        assert(stmt_list@ =~= prev.push(stmt));
                        lemma_fresh_concat(uids_stmts(prev), uids_stmt(stmt), before.uid(), mid, self.uid());
                        if simple_program(kinds_of(before.toks()), before.pos()) {
                            let ks = kinds_of(self.toks());
                            let nx = line_next(ks, at);
                            assert(line_starts(ks, at) == seq![at] + line_starts(ks, nx));
                            let old_taken = taken;
                            taken = taken.push(at);
                            assert(old_taken + (seq![at] + line_starts(ks, nx)) =~= taken + line_starts(ks, nx));
                            assert forall|i: int| 0 <= i < stmt_list@.len() implies line_statement(#[trigger] stmt_list@[i], before.toks(), taken[i]) by {
                                if i < stmt_list@.len() - 1 {
                                    assert(stmt_list@[i] == prev[i]);
                                    assert(line_statement(prev[i], before.toks(), old_taken[i]));
                                }
                            }
                        }
                    }
                    assert(shaped_stmts(stmt_list@) && jumps_placed_stmts(stmt_list@, before.in_fn(), before.in_loop())) by {
                        assert forall|i: int| 0 <= i < stmt_list@.len() implies shaped_stmt(#[trigger] stmt_list@[i])
                            && jumps_placed_stmt(stmt_list@[i], before.in_fn(), before.in_loop()) by {
                            if i < stmt_list@.len() - 1 {
                                assert(stmt_list@[i] == stmt_list@.drop_last()[i]);
                            }
                        }
                    }
                },
                Err(e) => {
                    let mut e = e;
                    let ghost reported = e@;
                    errors.append(&mut e);
                    assert(errors@ =~= reported);
                    break;
                },
            }
        }
        if errors.len() > 0 {
            return Err(errors);
        }
        proof {
            if simple_program(kinds_of(before.toks()), before.pos()) {
                assert(self.pos() == self.toks().len() - 1);
                assert(line_starts(kinds_of(self.toks()), self.pos() + 1) =~= Seq::<int>::empty());
                assert(taken + line_starts(kinds_of(self.toks()), self.pos()) =~= taken);
            }
        }
        let span_end = if stmt_list.len() > 0 {
            stmt_list[stmt_list.len() - 1].get_span().end()
        } else {
            span_start
        };
        let span = SourceSpan::new(span_start, span_end, self.source_id);
        proof {
            assert(cover_bounds(bounds, before.pos(), self.pos()));
            assert(program_cover(before.toks(), before.pos(), self.pos(), stmt_list@));
        }
        Ok(Ast::from(stmt_list, span))
    }

    /// The syntax tree of the whole input, with the variables that functions capture marked;
    /// the first error where the input is not a program.
    ///
    /// The tree is read from the tokens: before the marks it is a tree whose statements follow
    /// one another through the tokens (`stmts_in`), each starting with its keyword and with
    /// its names and parameters from the tokens after it, and whose every expression is read from its own
    /// stretch of tokens (`expr_read`): each operator from its operator token, each operand,
    /// argument, element, index, field and key from its tokens, in order.
    ///
    /// Every program in the grammar of `core_end` (`program_ok`: statements whose expressions
    /// are literals and names joined by binary operators, with loops, conditions, loops over
    /// items and functions nested to any depth) parses. On success the statements cover the whole input one after
    /// another (`program_cover`), none left out.
    ///
    /// A program of simple lines (`simple_program`: a literal or a name alone, or
    /// `seja <name> = <literal or name>`) always parses, to one statement for each line, in
    /// order, and so does one that starts with a loop of such lines closed by `fim`
    /// (`closed_loop_program`); a block opened and never closed (`open_block_program`) always
    /// fails at the end of the input.
    pub fn parse(&mut self) -> (r: Result<Ast, Vec<ParserError>>)
        requires
            old(self).live(),
            old(self).ctr() == 0,
        ensures
            program_ok(old(self).toks(), old(self).pos()) ==> r is Ok,
            final(self).toks() == old(self).toks(),
            r matches Err(es) ==> errors_reported(old(self).toks(), es@),
            r matches Ok(ast) ==> exists|t: Ast| #[trigger] parsed_from(t, ast) && program_cover(
                old(self).toks(),
                old(self).pos(),
                final(self).pos(),
                t.inner@,
            ),
            r matches Ok(ast) ==> shaped_stmts(ast.inner@),
            r matches Ok(ast) ==> jumps_placed_stmts(ast.inner@, old(self).scopes().contains(BlockScope::Function),
                old(self).scopes().contains(BlockScope::Loop)),
            r matches Ok(ast) ==> uids_stmts(ast.inner@).no_duplicates(),
            r is Ok ==> final(self).toks()[final(self).pos()].kind == TokenKind::Eof,
            simple_program(kinds_of(old(self).toks()), old(self).pos()) ==> (r matches Ok(ast) && line_statements(
                ast.inner@,
                old(self).toks(),
                line_starts(kinds_of(old(self).toks()), old(self).pos()),
            )),
            open_block_program(kinds_of(old(self).toks()), old(self).pos()) ==> (r matches Err(es) && es@[0] is UnexpectedEoi),
            closed_loop_program(kinds_of(old(self).toks()), old(self).pos()) ==> r is Ok,
    {
        let program = self.parse_program()?;
        let token = self.peek_token();
        if token.kind != TokenKind::Eof {
            return Err(vec![unexpected_token(token)]);
        }
        let mut ast = program;
        let ghost t = ast;
        proof {
            lemma_shaped_seq(ast.inner@);
        }
        annotate_ast_with_var_captures(&mut ast);
        assert(parsed_from(t, ast));
        proof {
            lemma_annotated_stmts_shaped(t.inner@, ast.inner@, captures_seq(t.inner@).unwrap());
            lemma_annotated_stmts_jumps(t.inner@, ast.inner@, captures_seq(t.inner@).unwrap(), old(self).in_fn(),
                old(self).in_loop());
            lemma_annotated_stmts_uids(t.inner@, ast.inner@, captures_seq(t.inner@).unwrap());
            if simple_program(kinds_of(old(self).toks()), old(self).pos()) {
                let ls = line_starts(kinds_of(old(self).toks()), old(self).pos());
                assert forall|i: int| 0 <= i < ast.inner@.len() implies line_statement(#[trigger] ast.inner@[i], old(self).toks(), ls[i]) by {
                    assert(line_statement(t.inner@[i], old(self).toks(), ls[i]));
                    let caps = captures_seq(t.inner@).unwrap();
                    assert(annotated_stmt(t.inner@[i], ast.inner@[i], caps));
                    if let Stmt::Expr(e) = t.inner@[i] {
                        if let Stmt::Expr(ne) = ast.inner@[i] {
                            assert(annotated_expr(e, ne, caps));
                        }
                    }
                    if let Stmt::Decl(Decl::Local(l)) = t.inner@[i] {
                        if let Stmt::Decl(Decl::Local(nl)) = ast.inner@[i] {
                            assert(annotated_expr(l.value, nl.value, caps));
                        }
                    }
                }
            }
        }
        Ok(ast)
    }
}

/// The kinds of the tokens that are a whole operand: a literal or a name.
pub open spec fn is_atom(k: TokenKind) -> bool {
    match k {
        TokenKind::Number | TokenKind::String | TokenKind::True | TokenKind::False | TokenKind::Nil
        | TokenKind::Identifier => true,
        _ => false,
    }
}

/// The kinds of the tokens that cannot go on an expression after an operand: neither an
/// operator, an `=`, a call, an index nor a `.` access.
pub open spec fn ends_operand(k: TokenKind) -> bool {
    match k {
        TokenKind::EqualSign | TokenKind::Or | TokenKind::And | TokenKind::Equals | TokenKind::Has
        | TokenKind::Not | TokenKind::Greater | TokenKind::GreaterOrEqual | TokenKind::Less
        | TokenKind::LessOrEqual | TokenKind::Until | TokenKind::Plus | TokenKind::Minus | TokenKind::Star
        | TokenKind::Slash | TokenKind::Percent | TokenKind::Caret | TokenKind::LeftParen
        | TokenKind::LeftBracket | TokenKind::Dot => false,
        _ => true,
    }
}

/// At `p` stands a single-token operand that no operator continues, newlines passed over.
pub open spec fn lone_operand_at(toks: Seq<Token>, p: int) -> bool {
    &&& 0 <= p
    &&& p + 1 < toks.len()
    &&& is_atom(toks[p].kind)
    &&& next_relevant(toks, p + 1, true) < toks.len()
    &&& ends_operand(toks[next_relevant(toks, p + 1, true)].kind)
}

/// `e` is the expression that the single token `t` stands for: the literal it carries, or the
/// variable it names.
pub open spec fn operand_of(e: Expr, t: Token) -> bool {
    if t.kind == TokenKind::Identifier {
        e matches Expr::Variable(v) && t.literal == Some(Literal::String(v.name)) && v.span == t.span
    } else {
        e matches Expr::Literal(l) && t.literal == Some(l.value) && l.span == t.span
    }
}

/// The kinds of a list of tokens.
pub open spec fn kinds_of(toks: Seq<Token>) -> Seq<TokenKind> {
    toks.map_values(|t: Token| t.kind)
}

/// Position `q` ends a line: a newline or the end of the input stands there.
pub open spec fn line_end(ks: Seq<TokenKind>, q: int) -> bool {
    0 <= q < ks.len() && (ks[q] == TokenKind::Newline || ks[q] == TokenKind::Eof)
}

/// Position `p` starts an operand line: one literal or name, then the line's end.
pub open spec fn operand_line(ks: Seq<TokenKind>, p: int) -> bool {
    &&& 0 <= p
    &&& p + 1 < ks.len()
    &&& is_atom(ks[p])
    &&& line_end(ks, p + 1)
}

/// Position `p` starts a declaration line: `seja <name> = <literal or name>`, then the line's
/// end.
pub open spec fn declaration_line(ks: Seq<TokenKind>, p: int) -> bool {
    &&& 0 <= p
    &&& p + 4 < ks.len()
    &&& ks[p] == TokenKind::Let
    &&& ks[p + 1] == TokenKind::Identifier
    &&& ks[p + 2] == TokenKind::EqualSign
    &&& is_atom(ks[p + 3])
    &&& line_end(ks, p + 4)
}

/// Where the simple line that starts at `p` ends: past its operand.
pub open spec fn line_next(ks: Seq<TokenKind>, p: int) -> int {
    if declaration_line(ks, p) {
        p + 4
    } else {
        p + 1
    }
}

/// At `p` starts a simple line after which no operator can go on: past the newlines that end
/// it stands a token that ends an operand.
pub open spec fn simple_line_at(toks: Seq<Token>, p: int) -> bool {
    let ks = kinds_of(toks);
    &&& operand_line(ks, p) || declaration_line(ks, p)
    &&& next_relevant(toks, line_next(ks, p), true) < toks.len()
    &&& ends_operand(toks[next_relevant(toks, line_next(ks, p), true)].kind)
}

/// The kinds that can end a block and cannot start a simple line.
pub open spec fn closes_only(ends: Seq<TokenKind>) -> bool {
    forall|i: int| 0 <= i < ends.len() ==> !is_atom(#[trigger] ends[i]) && ends[i] != TokenKind::Let && ends[i]
        != TokenKind::Newline && ends_operand(ends[i])
}

/// From `p` on, simple lines up to one of the kinds `ends`: where that token stands, if the
/// lines reach one.
pub open spec fn block_lines(ks: Seq<TokenKind>, p: int, ends: Seq<TokenKind>) -> Option<int>
    decreases ks.len() - p,
{
    if p < 0 || p >= ks.len() {
        None
    } else if ends.contains(ks[p]) {
        Some(p)
    } else if ks[p] == TokenKind::Newline {
        block_lines(ks, p + 1, ends)
    } else if operand_line(ks, p) {
        block_lines(ks, p + 1, ends)
    } else if declaration_line(ks, p) {
        block_lines(ks, p + 4, ends)
    } else {
        None
    }
}

/// Past the newlines inside a block of simple lines stands the next line or the token that
/// closes the block.
pub proof fn lemma_block_lines_next(toks: Seq<Token>, q: int, ends: Seq<TokenKind>)
    requires
        block_lines(kinds_of(toks), q, ends) is Some,
        closes_only(ends),
    ensures
        q <= next_relevant(toks, q, true) < toks.len(),
        toks[next_relevant(toks, q, true)].kind != TokenKind::Newline,
        block_lines(kinds_of(toks), next_relevant(toks, q, true), ends) == block_lines(kinds_of(toks), q, ends),
        ends_operand(toks[next_relevant(toks, q, true)].kind),
    decreases toks.len() - q,
{
    let ks = kinds_of(toks);
    assert(ks[q] == toks[q].kind);
    if ends.contains(ks[q]) {
        let i = choose|i: int| 0 <= i < ends.len() && ends[i] == ks[q];
        assert(!is_atom(ends[i]) && ends[i] != TokenKind::Newline);
    } else if toks[q].kind == TokenKind::Newline {
        lemma_block_lines_next(toks, q + 1, ends);
    }
}

/// From `p` on, the kinds are those of simple lines up to the end of the input: lines of one
/// literal or name, and declarations of a name with a literal or name as its value.
pub open spec fn simple_lines(ks: Seq<TokenKind>, p: int) -> bool
    decreases ks.len() - p,
{
    if p < 0 || p >= ks.len() {
        false
    } else if ks[p] == TokenKind::Eof {
        true
    } else if ks[p] == TokenKind::Newline {
        simple_lines(ks, p + 1)
    } else if operand_line(ks, p) {
        simple_lines(ks, p + 1)
    } else if declaration_line(ks, p) {
        simple_lines(ks, p + 4)
    } else {
        false
    }
}

/// Where the simple lines from `p` on start, in order.
pub open spec fn line_starts(ks: Seq<TokenKind>, p: int) -> Seq<int>
    decreases ks.len() - p,
{
    if p < 0 || p >= ks.len() {
        Seq::empty()
    } else if operand_line(ks, p) {
        seq![p] + line_starts(ks, p + 1)
    } else if declaration_line(ks, p) {
        seq![p] + line_starts(ks, p + 4)
    } else {
        line_starts(ks, p + 1)
    }
}

/// `s` is the statement of the simple line that starts at `q`: the declaration of its name with
/// its operand as the value, or the expression statement of its operand.
pub open spec fn line_statement(s: Stmt, toks: Seq<Token>, q: int) -> bool {
    if toks[q].kind == TokenKind::Let {
        &&& s matches Stmt::Decl(Decl::Local(l))
        &&& toks[q + 1].literal == Some(Literal::String(l.name))
        &&& operand_of(l.value, toks[q + 3])
    } else {
        s matches Stmt::Expr(e) && operand_of(e, toks[q])
    }
}

/// The statements `ss` are those of the simple lines that start at `starts`, one for each, in
/// order.
pub open spec fn line_statements(ss: Seq<Stmt>, toks: Seq<Token>, starts: Seq<int>) -> bool {
    &&& ss.len() == starts.len()
    &&& forall|i: int| 0 <= i < ss.len() ==> line_statement(#[trigger] ss[i], toks, starts[i])
}

/// A program of simple lines, starting at `p` with no newline before its first line.
pub open spec fn simple_program(ks: Seq<TokenKind>, p: int) -> bool {
    &&& 0 <= p < ks.len()
    &&& ks[p] != TokenKind::Newline
    &&& simple_lines(ks, p)
}

/// At `p` stands a loop `enquanto <literal or name> faça`, simple lines, `fim`: where its `fim`
/// stands.
pub open spec fn closed_loop_at(ks: Seq<TokenKind>, p: int) -> Option<int> {
    if 0 <= p && p + 3 < ks.len() && ks[p] == TokenKind::While && is_atom(ks[p + 1]) && ks[p + 2] == TokenKind::Do {
        block_lines(ks, p + 3, seq![TokenKind::BlockEnd])
    } else {
        None
    }
}

/// A program that starts at `p` with such a loop, and goes on after its `fim` with the end of
/// the line and simple lines.
pub open spec fn closed_loop_program(ks: Seq<TokenKind>, p: int) -> bool {
    &&& closed_loop_at(ks, p) is Some
    &&& line_end(ks, closed_loop_at(ks, p)->Some_0 + 1)
    &&& simple_lines(ks, closed_loop_at(ks, p)->Some_0 + 1)
}

/// A program that opens a block at `p`, a loop `enquanto <literal or name> faça` or a
/// condition `se <literal or name> então`, and reaches the end of the input inside it after
/// simple lines: the block is never closed.
pub open spec fn open_block_program(ks: Seq<TokenKind>, p: int) -> bool {
    &&& 0 <= p
    &&& p + 3 < ks.len()
    &&& ((ks[p] == TokenKind::While && ks[p + 2] == TokenKind::Do) || (ks[p] == TokenKind::If && ks[p + 2]
        == TokenKind::Then))
    &&& is_atom(ks[p + 1])
    &&& simple_lines(ks, p + 3)
}

/// Past the newlines that follow a simple line stands the next line or the end of the input,
/// and no line was passed over.
pub proof fn lemma_simple_lines_next(toks: Seq<Token>, q: int)
    requires
        simple_lines(kinds_of(toks), q),
    ensures
        q <= next_relevant(toks, q, true) < toks.len(),
        toks[next_relevant(toks, q, true)].kind != TokenKind::Newline,
        simple_lines(kinds_of(toks), next_relevant(toks, q, true)),
        line_starts(kinds_of(toks), q) == line_starts(kinds_of(toks), next_relevant(toks, q, true)),
        ends_operand(toks[next_relevant(toks, q, true)].kind),
    decreases toks.len() - q,
{
    if toks[q].kind == TokenKind::Newline {
        lemma_simple_lines_next(toks, q + 1);
    }
}

/// The first token at or after `i` that is not a newline.
pub open spec fn after_newlines(toks: Seq<Token>, i: int) -> int {
    next_relevant(toks, i, true)
}

/// Past the newlines from `m` on stands a token of kind `k`.
pub open spec fn token_at(toks: Seq<Token>, m: int, k: TokenKind) -> bool {
    0 <= after_newlines(toks, m) < toks.len() && toks[after_newlines(toks, m)].kind == k
}

/// Past the newlines from `m` on stands a token of kind `k`, and `hi` is just after it.
pub open spec fn closes_at(toks: Seq<Token>, m: int, hi: int, k: TokenKind) -> bool {
    token_at(toks, m, k) && hi == after_newlines(toks, m) + 1
}

/// The binary operator `op` is read from the tokens `[a, b)`: its token, or for `não tem` and
/// `não é` its two tokens, newlines passed over.
pub open spec fn binary_op_read(toks: Seq<Token>, a: int, b: int, op: BinaryOperator) -> bool {
    let j = after_newlines(toks, a);
    let j2 = after_newlines(toks, j + 1);
    &&& 0 <= j < toks.len()
    &&& {
        ||| binary_operator_of(toks[j].kind) == Some(op) && b == j + 1
        ||| toks[j].kind == TokenKind::Has && op == BinaryOperator::Has && b == j + 1
        ||| toks[j].kind == TokenKind::Not && token_at(toks, j + 1, TokenKind::Has) && op == BinaryOperator::Lacks
            && b == j2 + 1
        ||| toks[j].kind == TokenKind::Not && token_at(toks, j + 1, TokenKind::Equals) && op
            == BinaryOperator::Inequality && b == j2 + 1
    }
}

/// Where item `i` of a comma-separated list that starts at `a` starts, the items before it
/// ending at `ends`.
pub open spec fn item_start(toks: Seq<Token>, a: int, ends: Seq<int>, i: int) -> int {
    if i == 0 {
        a
    } else {
        after_newlines(toks, ends[i - 1]) + 1
    }
}

/// Where a comma-separated list that starts at `a` and has items ending at `ends` ends.
pub open spec fn items_end(a: int, ends: Seq<int>) -> int {
    if ends.len() == 0 {
        a
    } else {
        ends.last()
    }
}

/// The expressions `items`, separated by commas and closed by a token of kind `close`, are
/// read from `[a, hi)`.
pub open spec fn items_read(toks: Seq<Token>, a: int, hi: int, items: Seq<Expr>, close: TokenKind) -> bool
    decreases items,
{
    exists|ends: Seq<int>|
        {
            &&& ends.len() == items.len()
            &&& forall|i: int| 0 <= i < items.len() ==> expr_read(toks, item_start(toks, a, ends, i), ends[i], #[trigger] items[i])
            &&& forall|i: int| 0 < i < items.len() ==> token_at(toks, #[trigger] ends[i - 1], TokenKind::Comma)
            &&& closes_at(toks, #[trigger] items_end(a, ends), hi, close)
        }
}

/// The pairs `key: value` of `pairs`, separated by commas and closed by `}`, are read from
/// `[a, hi)`: each key from its number or text token, each value as an expression.
pub open spec fn pairs_read(toks: Seq<Token>, a: int, hi: int, pairs: Seq<(ast::Literal, Expr)>) -> bool
    decreases pairs,
{
    exists|ends: Seq<int>|
        {
            &&& ends.len() == pairs.len()
            &&& forall|i: int| 0 <= i < pairs.len() ==> key_read(toks, item_start(toks, a, ends, i), (#[trigger] pairs[i]).0)
                && expr_read(toks, after_newlines(toks, after_newlines(toks, item_start(toks, a, ends, i)) + 1) + 1, ends[i], pairs[i].1)
            &&& forall|i: int| 0 < i < pairs.len() ==> token_at(toks, #[trigger] ends[i - 1], TokenKind::Comma)
            &&& closes_at(toks, #[trigger] items_end(a, ends), hi, TokenKind::RightBrace)
        }
}

/// The key `key` of a pair, and the `:` after it, are read from `a` on: a number or text token
/// that carries the key's value.
pub open spec fn key_read(toks: Seq<Token>, a: int, key: ast::Literal) -> bool {
    let k = after_newlines(toks, a);
    &&& 0 <= k < toks.len()
    &&& (toks[k].kind == TokenKind::Number || toks[k].kind == TokenKind::String)
    &&& toks[k].literal == Some(key.value)
    &&& token_at(toks, k + 1, TokenKind::Colon)
}

/// The kinds of the tokens that carry a literal value.
pub open spec fn is_literal_kind(k: TokenKind) -> bool {
    k == TokenKind::Number || k == TokenKind::String || k == TokenKind::True || k == TokenKind::False || k
        == TokenKind::Nil
}

/// The expression `e` is read from the tokens `[lo, hi)`, newlines passed over: each operator
/// from its operator token, each operand, argument, element, index, field and key from its own
/// tokens, in the order they stand, and an anonymous function's body (`stmt_in`) from the
/// tokens after its `função`.
pub open spec fn expr_read(toks: Seq<Token>, lo: int, hi: int, e: Expr) -> bool
    decreases e,
{
    let j = after_newlines(toks, lo);
    match e {
        Expr::Literal(l) => 0 <= j < toks.len() && hi == j + 1 && is_literal_kind(toks[j].kind) && toks[j].literal
            == Some(l.value),
        Expr::Variable(v) => 0 <= j < toks.len() && hi == j + 1 && toks[j].kind == TokenKind::Identifier
            && toks[j].literal == Some(Literal::String(v.name)),
        Expr::Binary(b) => exists|m: int, a: int|
            expr_read(toks, lo, m, *b.lhs) && #[trigger] binary_op_read(toks, m, a, b.op) && expr_read(toks, a, hi, *b.rhs),
        Expr::Unary(u) => 0 <= j < toks.len() && unary_operator_of(toks[j].kind) == Some(u.op) && expr_read(
            toks,
            j + 1,
            hi,
            *u.rhs,
        ),
        Expr::Grouping(g) => 0 <= j < toks.len() && toks[j].kind == TokenKind::LeftParen && exists|m: int|
            expr_read(toks, j + 1, m, *g.expr) && #[trigger] closes_at(toks, m, hi, TokenKind::RightParen),
        Expr::Assign(a) => exists|m: int|
            expr_read(toks, lo, m, *a.name) && #[trigger] token_at(toks, m, TokenKind::EqualSign) && expr_read(
                toks,
                after_newlines(toks, m) + 1,
                hi,
                *a.value,
            ),
        Expr::Access(a) => exists|m: int|
            #![trigger after_newlines(toks, m)]
            expr_read(toks, lo, m, *a.subscripted) && {
                ||| token_at(toks, m, TokenKind::LeftBracket) && exists|m2: int|
                    expr_read(toks, after_newlines(toks, m) + 1, m2, *a.index) && #[trigger] closes_at(
                        toks,
                        m2,
                        hi,
                        TokenKind::RightBracket,
                    )
                ||| token_at(toks, m, TokenKind::Dot) && field_read(toks, after_newlines(toks, m) + 1, hi, *a.index)
            },
        Expr::Call(c) => exists|m: int|
            expr_read(toks, lo, m, *c.callee) && #[trigger] token_at(toks, m, TokenKind::LeftParen) && items_read(
                toks,
                after_newlines(toks, m) + 1,
                hi,
                c.args@,
                TokenKind::RightParen,
            ),
        Expr::List(l) => 0 <= j < toks.len() && toks[j].kind == TokenKind::LeftBracket && items_read(
            toks,
            j + 1,
            hi,
            l.elements@,
            TokenKind::RightBracket,
        ),
        Expr::AssociativeArray(a) => 0 <= j < toks.len() && toks[j].kind == TokenKind::LeftBrace && pairs_read(
            toks,
            j + 1,
            hi,
            a.elements@,
        ),
        Expr::AnonymousFunction(f) => 0 <= j < toks.len() && toks[j].kind == TokenKind::Function && params_read(
            toks,
            after_newlines(toks, j + 1) + 1,
            f.params@,
        ) && exists|m: int|
            #[trigger] in_order(j, m, m, hi) && stmt_in(toks, m, hi, *f.body),
        Expr::Ternary(_) => false,
    }
}

/// The field `e` of a `.` access is read from `[a, hi)`: the text of its name token.
pub open spec fn field_read(toks: Seq<Token>, a: int, hi: int, e: Expr) -> bool {
    let k = after_newlines(toks, a);
    &&& 0 <= k < toks.len()
    &&& toks[k].kind == TokenKind::Identifier
    &&& hi == k + 1
    &&& e matches Expr::Literal(l) && toks[k].literal == Some(l.value)
}

/// Where the name of parameter `i` stands, the names before it standing at `ks`: past the
/// newlines from `a` for the first, past the comma after the one before for the others.
pub open spec fn param_position(toks: Seq<Token>, a: int, ks: Seq<int>, i: int) -> int {
    if i == 0 {
        after_newlines(toks, a)
    } else {
        after_newlines(toks, after_newlines(toks, ks[i - 1] + 1) + 1)
    }
}

/// The names of the parameters stand at `ks`, separated by commas, from `a` on.
pub open spec fn name_positions(toks: Seq<Token>, a: int, ks: Seq<int>) -> bool {
    &&& names_placed(toks, a, ks)
    &&& commas_between(toks, ks)
}

/// Each name stands where `param_position` says, and is a name token.
pub open spec fn names_placed(toks: Seq<Token>, a: int, ks: Seq<int>) -> bool {
    forall|i: int|
        #![trigger param_position(toks, a, ks, i)]
        0 <= i < ks.len() ==> ks[i] == param_position(toks, a, ks, i) && 0 <= ks[i] < toks.len() && toks[ks[i]].kind
            == TokenKind::Identifier
}

/// A comma follows each name but the last.
pub open spec fn commas_between(toks: Seq<Token>, ks: Seq<int>) -> bool {
    forall|i: int| 0 < i < ks.len() ==> token_at(toks, #[trigger] ks[i - 1] + 1, TokenKind::Comma)
}

/// The parameters `ps` are read from `a` on: each name from its name token, in order, with
/// commas between them.
pub open spec fn params_read(toks: Seq<Token>, a: int, ps: Seq<ast::FunctionParam>) -> bool {
    exists|ks: Seq<int>|
        #[trigger] name_positions(toks, a, ks) && ks.len() == ps.len() && forall|i: int|
            0 <= i < ps.len() ==> toks[ks[i]].literal == Some(Literal::String((#[trigger] ps[i]).name))
}

/// One more parameter name, standing where the next one is looked for.
pub proof fn lemma_names_push(toks: Seq<Token>, a: int, ks: Seq<int>, k: int)
    requires
        name_positions(toks, a, ks),
        k == param_position(toks, a, ks, ks.len() as int),
        0 <= k < toks.len(),
        toks[k].kind == TokenKind::Identifier,
        ks.len() > 0 ==> token_at(toks, ks.last() + 1, TokenKind::Comma),
    ensures
        name_positions(toks, a, ks.push(k)),
{
    let ks2 = ks.push(k);
    assert forall|i: int| #![trigger param_position(toks, a, ks2, i)] 0 <= i < ks2.len() implies ks2[i] == param_position(
        toks,
        a,
        ks2,
        i,
    ) && 0 <= ks2[i] < toks.len() && toks[ks2[i]].kind == TokenKind::Identifier by {
        if i < ks.len() {
            assert(param_position(toks, a, ks2, i) == param_position(toks, a, ks, i)) by {
                if i > 0 {
                    assert(ks2[i - 1] == ks[i - 1]);
                }
            }
            assert(ks2[i] == ks[i]);
        } else {
            assert(param_position(toks, a, ks2, i) == param_position(toks, a, ks, ks.len() as int)) by {
                if i > 0 {
                    assert(ks2[i - 1] == ks[i - 1]);
                }
            }
        }
    }
    assert forall|i: int| 0 < i < ks2.len() implies token_at(toks, #[trigger] ks2[i - 1] + 1, TokenKind::Comma) by {
        if i < ks.len() {
            assert(ks2[i - 1] == ks[i - 1]);
        } else {
            assert(ks2[i - 1] == ks.last());
        }
    }
    assert(names_placed(toks, a, ks2));
    assert(commas_between(toks, ks2));
}

/// `a <= m <= q <= b`: positions in order.
pub open spec fn in_order(a: int, m: int, q: int, b: int) -> bool {
    a <= m <= q <= b
}

/// `bounds` are positions in order, the first at `lo` and the last at `hi`.
pub open spec fn cover_bounds(bounds: Seq<int>, lo: int, hi: int) -> bool {
    &&& bounds.len() >= 1
    &&& bounds[0] == lo
    &&& bounds.last() == hi
    &&& forall|i: int| 0 <= i < bounds.len() - 1 ==> bounds[i] <= #[trigger] bounds[i + 1]
}

/// The statements `ss` of a program cover the tokens `[lo, hi)` one after another: statement
/// `i` is read (`stmt_in`) from `bounds[i]` to `bounds[i + 1]`, the first starting at `lo` and
/// the last ending at `hi`, so that no stretch of tokens lies outside a statement.
pub open spec fn program_cover(toks: Seq<Token>, lo: int, hi: int, ss: Seq<Stmt>) -> bool {
    exists|bounds: Seq<int>|
        #[trigger] cover_bounds(bounds, lo, hi) && bounds.len() == ss.len() + 1 && forall|i: int|
            0 <= i < ss.len() ==> stmt_in(toks, bounds[i], bounds[i + 1], #[trigger] ss[i])
}

/// `bounds` are positions in order from `lo` to `hi`.
pub open spec fn ordered_bounds(bounds: Seq<int>, lo: int, hi: int) -> bool {
    &&& bounds.len() >= 1
    &&& lo <= bounds[0]
    &&& bounds.last() <= hi
    &&& forall|i: int| 0 <= i < bounds.len() - 1 ==> bounds[i] <= #[trigger] bounds[i + 1]
}

/// The name token after the keyword that starts at `lo` carries the name `name`.
pub open spec fn name_after(toks: Seq<Token>, lo: int, offset: int, name: String) -> bool {
    let k = after_newlines(toks, lo) + offset;
    0 <= k < toks.len() && toks[k].kind == TokenKind::Identifier && toks[k].literal == Some(Literal::String(name))
}

/// The statement `s` is read from the tokens inside `[lo, hi)`: it starts with its keyword,
/// names and parameters come from the tokens after it, each expression is read (`expr_read`) from a stretch
/// inside, and the parts follow one another in the order they stand: a condition before its
/// branch, a branch before the `senão` branch, the statements of a block one after another.
pub open spec fn stmt_in(toks: Seq<Token>, lo: int, hi: int, s: Stmt) -> bool
    decreases s,
{
    match s {
        Stmt::Expr(e) => (exists|a: int, b: int| #[trigger] in_order(lo, a, b, hi) && expr_read(toks, a, b, e)),
        Stmt::Decl(Decl::Local(l)) => token_at(toks, lo, TokenKind::Let) && name_after(toks, lo, 1, l.name)
            && (exists|a: int, b: int| #[trigger] in_order(lo, a, b, hi) && expr_read(toks, a, b, l.value)),
        Stmt::Decl(Decl::Function(f)) => token_at(toks, lo, TokenKind::Function) && name_after(toks, lo, 1, f.name)
            && params_read(toks, after_newlines(toks, after_newlines(toks, lo) + 2) + 1, f.params@) && stmt_in(
            toks,
            lo,
            hi,
            *f.body,
        ),
        Stmt::Cond(c) => token_at(toks, lo, TokenKind::If) && exists|m: int, q: int|
            #[trigger] in_order(lo, m, q, hi) && (exists|a: int, b: int| #[trigger] in_order(lo, a, b, m) && expr_read(toks, a, b, c.cond)) && stmt_in(toks, m, q, *c.then_branch)
                && match c.or_else {
                Some(o) => stmt_in(toks, q, hi, *o),
                None => true,
            },
        Stmt::While(w) => token_at(toks, lo, TokenKind::While) && exists|m: int|
            #[trigger] in_order(lo, m, m, hi) && (exists|a: int, b: int| #[trigger] in_order(lo, a, b, m) && expr_read(toks, a, b, w.cond)) && stmt_in(toks, m, hi, *w.body),
        Stmt::ForEach(fe) => token_at(toks, lo, TokenKind::ForOrBreak) && name_after(toks, lo, 2, fe.item.name)
            && exists|m: int|
            #[trigger] in_order(lo, m, m, hi) && (exists|a: int, b: int| #[trigger] in_order(lo, a, b, m) && expr_read(toks, a, b, fe.iterable)) && stmt_in(toks, m, hi, *fe.body),
        Stmt::Block(b) => stmts_in(toks, lo, hi, b.inner.inner@),
        Stmt::Return(r) => token_at(toks, lo, TokenKind::Return) && match r.value {
            Some(e) => (exists|a: int, b: int| #[trigger] in_order(lo, a, b, hi) && expr_read(toks, a, b, e)),
            None => true,
        },
        Stmt::Break(_) => token_at(toks, lo, TokenKind::ForOrBreak),
        Stmt::Continue(_) => token_at(toks, lo, TokenKind::Continue),
    }
}

/// The statements `ss` are read one after another from the tokens inside `[lo, hi)`
/// (`stmt_in`).
pub open spec fn stmts_in(toks: Seq<Token>, lo: int, hi: int, ss: Seq<Stmt>) -> bool
    decreases ss,
{
    exists|bounds: Seq<int>|
        #[trigger] ordered_bounds(bounds, lo, hi) && bounds.len() == ss.len() + 1 && forall|i: int|
            0 <= i < ss.len() ==> stmt_in(toks, bounds[i], bounds[i + 1], #[trigger] ss[i])
}

/// Statements read one after another inside `[lo, hi)` are read so inside any wider stretch.
pub proof fn lemma_stmts_widen(toks: Seq<Token>, lo: int, hi: int, lo2: int, hi2: int, ss: Seq<Stmt>)
    requires
        stmts_in(toks, lo, hi, ss),
        lo2 <= lo,
        hi <= hi2,
    ensures
        stmts_in(toks, lo2, hi2, ss),
{
    let bounds = choose|bounds: Seq<int>|
        #[trigger] ordered_bounds(bounds, lo, hi) && bounds.len() == ss.len() + 1 && forall|i: int|
            0 <= i < ss.len() ==> stmt_in(toks, bounds[i], bounds[i + 1], #[trigger] ss[i]);
    assert(ordered_bounds(bounds, lo2, hi2));
}

/// One more statement, read from where the statements before it end.
pub proof fn lemma_stmts_push(toks: Seq<Token>, lo: int, bounds: Seq<int>, ss: Seq<Stmt>, s: Stmt, hi: int)
    requires
        ordered_bounds(bounds, lo, bounds.last()),
        bounds.len() == ss.len() + 1,
        forall|i: int| 0 <= i < ss.len() ==> stmt_in(toks, bounds[i], bounds[i + 1], #[trigger] ss[i]),
        stmt_in(toks, bounds.last(), hi, s),
        bounds.last() <= hi,
    ensures
        ordered_bounds(bounds.push(hi), lo, hi),
        forall|i: int| 0 <= i < ss.push(s).len() ==> stmt_in(toks, bounds.push(hi)[i], bounds.push(hi)[i + 1], #[trigger] ss.push(s)[i]),
{
    let b2 = bounds.push(hi);
    assert forall|i: int| 0 <= i < b2.len() - 1 implies b2[i] <= #[trigger] b2[i + 1] by {
        if i < bounds.len() - 1 {
            assert(b2[i] == bounds[i] && b2[i + 1] == bounds[i + 1]);
        }
    }
    assert forall|i: int| 0 <= i < ss.push(s).len() implies stmt_in(toks, b2[i], b2[i + 1], #[trigger] ss.push(s)[i]) by {
        if i < ss.len() {
            assert(ss.push(s)[i] == ss[i] && b2[i] == bounds[i] && b2[i + 1] == bounds[i + 1]);
        }
    }
}

/// A statement read inside `[lo, hi)` is read inside any wider stretch that starts at the same
/// token past the newlines.
pub proof fn lemma_stmt_widen(toks: Seq<Token>, lo: int, hi: int, lo2: int, hi2: int, s: Stmt)
    requires
        stmt_in(toks, lo, hi, s),
        lo2 <= lo,
        hi <= hi2,
        after_newlines(toks, lo2) == after_newlines(toks, lo),
    ensures
        stmt_in(toks, lo2, hi2, s),
    decreases s,
{
    reveal_with_fuel(stmt_in, 2);
    match s {
        Stmt::Expr(e) => {
            let (a, b) = choose|a: int, b: int| #[trigger] in_order(lo, a, b, hi) && expr_read(toks, a, b, e);
            assert(in_order(lo2, a, b, hi2));
            assert((exists|a: int, b: int| #[trigger] in_order(lo2, a, b, hi2) && expr_read(toks, a, b, e)));
        },
        Stmt::Decl(Decl::Local(l)) => {
            let (a, b) = choose|a: int, b: int| #[trigger] in_order(lo, a, b, hi) && expr_read(toks, a, b, l.value);
            assert(in_order(lo2, a, b, hi2));
        },
        Stmt::Decl(Decl::Function(f)) => {
            lemma_stmt_widen(toks, lo, hi, lo2, hi2, *f.body);
        },
        Stmt::Cond(c) => {
            let (m, q) = choose|m: int, q: int|
                #[trigger] in_order(lo, m, q, hi) && (exists|a: int, b: int| #[trigger] in_order(lo, a, b, m) && expr_read(toks, a, b, c.cond)) && stmt_in(toks, m, q, *c.then_branch)
                    && match c.or_else {
                    Some(o) => stmt_in(toks, q, hi, *o),
                    None => true,
                };
            let (a, b) = choose|a: int, b: int| #[trigger] in_order(lo, a, b, m) && expr_read(toks, a, b, c.cond);
            assert(in_order(lo2, a, b, m));
            assert(in_order(lo2, m, q, hi2));
            if let Some(o) = c.or_else {
                lemma_stmt_widen(toks, q, hi, q, hi2, *o);
            }
        },
        Stmt::While(w) => {
            let m = choose|m: int| #[trigger] in_order(lo, m, m, hi) && (exists|a: int, b: int| #[trigger] in_order(lo, a, b, m) && expr_read(toks, a, b, w.cond)) && stmt_in(toks, m, hi, *w.body);
            let (a, b) = choose|a: int, b: int| #[trigger] in_order(lo, a, b, m) && expr_read(toks, a, b, w.cond);
            assert(in_order(lo2, a, b, m));
            assert(in_order(lo2, m, m, hi2));
            lemma_stmt_widen(toks, m, hi, m, hi2, *w.body);
        },
        Stmt::ForEach(fe) => {
            let m = choose|m: int| #[trigger] in_order(lo, m, m, hi) && (exists|a: int, b: int| #[trigger] in_order(lo, a, b, m) && expr_read(toks, a, b, fe.iterable)) && stmt_in(toks, m, hi, *fe.body);
            let (a, b) = choose|a: int, b: int| #[trigger] in_order(lo, a, b, m) && expr_read(toks, a, b, fe.iterable);
            assert(in_order(lo2, a, b, m));
            assert(in_order(lo2, m, m, hi2));
            lemma_stmt_widen(toks, m, hi, m, hi2, *fe.body);
        },
        Stmt::Block(b) => {
            let ss = b.inner.inner@;
            let bounds = choose|bounds: Seq<int>|
                #[trigger] ordered_bounds(bounds, lo, hi) && bounds.len() == ss.len() + 1 && forall|i: int|
                    0 <= i < ss.len() ==> stmt_in(toks, bounds[i], bounds[i + 1], #[trigger] ss[i]);
            assert(ordered_bounds(bounds, lo2, hi2));
        },
        Stmt::Return(r) => {
            if let Some(e) = r.value {
                let (a, b) = choose|a: int, b: int| #[trigger] in_order(lo, a, b, hi) && expr_read(toks, a, b, e);
                assert(in_order(lo2, a, b, hi2));
            }
        },
        _ => {},
    }
}

/// An expression read from `lo2` is read from any `lo` with the same first token past the
/// newlines.
pub proof fn lemma_read_from_newlines(toks: Seq<Token>, lo: int, lo2: int, hi: int, e: Expr)
    requires
        after_newlines(toks, lo) == after_newlines(toks, lo2),
        expr_read(toks, lo2, hi, e),
    ensures
        expr_read(toks, lo, hi, e),
    decreases e,
{
    match e {
        Expr::Binary(b) => {
            let (m, a) = choose|m: int, a: int|
                expr_read(toks, lo2, m, *b.lhs) && #[trigger] binary_op_read(toks, m, a, b.op) && expr_read(toks, a, hi, *b.rhs);
            lemma_read_from_newlines(toks, lo, lo2, m, *b.lhs);
        },
        Expr::Assign(x) => {
            let m = choose|m: int|
                expr_read(toks, lo2, m, *x.name) && #[trigger] token_at(toks, m, TokenKind::EqualSign) && expr_read(
                    toks,
                    after_newlines(toks, m) + 1,
                    hi,
                    *x.value,
                );
            lemma_read_from_newlines(toks, lo, lo2, m, *x.name);
        },
        Expr::Access(x) => {
            let m = choose|m: int|
                #![trigger after_newlines(toks, m)]
                expr_read(toks, lo2, m, *x.subscripted) && {
                    ||| token_at(toks, m, TokenKind::LeftBracket) && exists|m2: int|
                        expr_read(toks, after_newlines(toks, m) + 1, m2, *x.index) && #[trigger] closes_at(
                            toks,
                            m2,
                            hi,
                            TokenKind::RightBracket,
                        )
                    ||| token_at(toks, m, TokenKind::Dot) && field_read(toks, after_newlines(toks, m) + 1, hi, *x.index)
                };
            lemma_read_from_newlines(toks, lo, lo2, m, *x.subscripted);
        },
        Expr::Call(c) => {
            let m = choose|m: int|
                expr_read(toks, lo2, m, *c.callee) && #[trigger] token_at(toks, m, TokenKind::LeftParen) && items_read(
                    toks,
                    after_newlines(toks, m) + 1,
                    hi,
                    c.args@,
                    TokenKind::RightParen,
                );
            lemma_read_from_newlines(toks, lo, lo2, m, *c.callee);
        },
        _ => {},
    }
}

/// Each of `items` is read from its start to its end in `ends`, with a comma between each two.
pub open spec fn items_so_far(toks: Seq<Token>, a: int, ends: Seq<int>, items: Seq<Expr>) -> bool {
    &&& ends.len() == items.len()
    &&& forall|i: int| 0 <= i < items.len() ==> expr_read(toks, item_start(toks, a, ends, i), ends[i], #[trigger] items[i])
    &&& forall|i: int| 0 < i < items.len() ==> token_at(toks, #[trigger] ends[i - 1], TokenKind::Comma)
}

/// One more item, read from where the next item starts, after a comma where there are items
/// before it.
pub proof fn lemma_items_push(toks: Seq<Token>, a: int, ends: Seq<int>, items: Seq<Expr>, e: Expr, m: int)
    requires
        items_so_far(toks, a, ends, items),
        expr_read(toks, item_start(toks, a, ends, ends.len() as int), m, e),
        ends.len() > 0 ==> token_at(toks, ends.last(), TokenKind::Comma),
    ensures
        items_so_far(toks, a, ends.push(m), items.push(e)),
{
    let ends2 = ends.push(m);
    let items2 = items.push(e);
    assert forall|i: int| 0 <= i < items2.len() implies expr_read(toks, item_start(toks, a, ends2, i), ends2[i], #[trigger] items2[i]) by {
        if i < items.len() {
            assert(items2[i] == items[i] && ends2[i] == ends[i]);
            assert(item_start(toks, a, ends2, i) == item_start(toks, a, ends, i));
        } else {
            assert(item_start(toks, a, ends2, i) == item_start(toks, a, ends, ends.len() as int));
        }
    }
    assert forall|i: int| 0 < i < items2.len() implies token_at(toks, #[trigger] ends2[i - 1], TokenKind::Comma) by {
        if i < items.len() {
            assert(ends2[i - 1] == ends[i - 1]);
        } else {
            assert(ends2[i - 1] == ends.last());
        }
    }
}

/// Items read so far, closed by `close`, are the items of a list read from `a`.
pub proof fn lemma_items_closed(toks: Seq<Token>, a: int, ends: Seq<int>, items: Seq<Expr>, hi: int, close: TokenKind)
    requires
        items_so_far(toks, a, ends, items),
        closes_at(toks, items_end(a, ends), hi, close),
    ensures
        items_read(toks, a, hi, items, close),
{
}

/// Each pair of `pairs` is read from its start to its end in `ends`, with a comma between each
/// two.
pub open spec fn pairs_so_far(toks: Seq<Token>, a: int, ends: Seq<int>, pairs: Seq<(ast::Literal, Expr)>) -> bool {
    &&& ends.len() == pairs.len()
    &&& forall|i: int| 0 <= i < pairs.len() ==> key_read(toks, item_start(toks, a, ends, i), (#[trigger] pairs[i]).0)
        && expr_read(toks, after_newlines(toks, after_newlines(toks, item_start(toks, a, ends, i)) + 1) + 1, ends[i], pairs[i].1)
    &&& forall|i: int| 0 < i < pairs.len() ==> token_at(toks, #[trigger] ends[i - 1], TokenKind::Comma)
}

/// One more pair, read from where the next pair starts, after a comma where there are pairs
/// before it.
pub proof fn lemma_pairs_push(toks: Seq<Token>, a: int, ends: Seq<int>, pairs: Seq<(ast::Literal, Expr)>, p: (ast::Literal, Expr), m: int)
    requires
        pairs_so_far(toks, a, ends, pairs),
        key_read(toks, item_start(toks, a, ends, ends.len() as int), p.0),
        expr_read(toks, after_newlines(toks, after_newlines(toks, item_start(toks, a, ends, ends.len() as int)) + 1) + 1, m, p.1),
        ends.len() > 0 ==> token_at(toks, ends.last(), TokenKind::Comma),
    ensures
        pairs_so_far(toks, a, ends.push(m), pairs.push(p)),
{
    let ends2 = ends.push(m);
    let pairs2 = pairs.push(p);
    assert forall|i: int| 0 <= i < pairs2.len() implies key_read(toks, item_start(toks, a, ends2, i), (#[trigger] pairs2[i]).0)
        && expr_read(toks, after_newlines(toks, after_newlines(toks, item_start(toks, a, ends2, i)) + 1) + 1, ends2[i], pairs2[i].1) by {
        if i < pairs.len() {
            assert(pairs2[i] == pairs[i] && ends2[i] == ends[i]);
            assert(item_start(toks, a, ends2, i) == item_start(toks, a, ends, i));
        } else {
            assert(item_start(toks, a, ends2, i) == item_start(toks, a, ends, ends.len() as int));
        }
    }
    assert forall|i: int| 0 < i < pairs2.len() implies token_at(toks, #[trigger] ends2[i - 1], TokenKind::Comma) by {
        if i < pairs.len() {
            assert(ends2[i - 1] == ends[i - 1]);
        } else {
            assert(ends2[i - 1] == ends.last());
        }
    }
}

/// Pairs read so far, closed by `}`, are the pairs of an associative array read from `a`.
pub proof fn lemma_pairs_closed(toks: Seq<Token>, a: int, ends: Seq<int>, pairs: Seq<(ast::Literal, Expr)>, hi: int)
    requires
        pairs_so_far(toks, a, ends, pairs),
        closes_at(toks, items_end(a, ends), hi, TokenKind::RightBrace),
    ensures
        pairs_read(toks, a, hi, pairs),
{
}

/// A binary node is read from its operand before, its operator and its operand after.
pub proof fn lemma_binary_read(toks: Seq<Token>, lo: int, m: int, a: int, hi: int, b: ast::BinaryOp)
    requires
        expr_read(toks, lo, m, *b.lhs),
        binary_op_read(toks, m, a, b.op),
        expr_read(toks, a, hi, *b.rhs),
    ensures
        expr_read(toks, lo, hi, Expr::Binary(b)),
{
}

/// A match of `não` and then `kind`, newlines passed over, is those two tokens.
pub proof fn lemma_two_token_op(toks: Seq<Token>, m: int, kind: TokenKind)
    requires
        match_end(toks, m, seq![TokenKind::Not, kind], true) is Some,
    ensures
        ({
            let j = after_newlines(toks, m);
            &&& 0 <= j < toks.len()
            &&& toks[j].kind == TokenKind::Not
            &&& token_at(toks, j + 1, kind)
            &&& match_end(toks, m, seq![TokenKind::Not, kind], true) == Some(after_newlines(toks, j + 1) + 1)
        }),
{
    reveal_with_fuel(match_end, 3);
    assert(seq![TokenKind::Not, kind].drop_first() =~= seq![kind]);
    assert(seq![kind].drop_first() =~= Seq::<TokenKind>::empty());
}

/// `não` and then `kind`, newlines passed over, match where those two tokens stand.
pub proof fn lemma_two_token_op_found(toks: Seq<Token>, m: int, kind: TokenKind)
    requires
        0 <= after_newlines(toks, m) < toks.len(),
        toks[after_newlines(toks, m)].kind == TokenKind::Not,
        token_at(toks, after_newlines(toks, m) + 1, kind),
    ensures
        match_end(toks, m, seq![TokenKind::Not, kind], true) is Some,
{
    reveal_with_fuel(match_end, 3);
    assert(seq![TokenKind::Not, kind].drop_first() =~= seq![kind]);
    assert(seq![kind].drop_first() =~= Seq::<TokenKind>::empty());
}

/// After an operand ending at `e`, the run of `é`, `tem`, `não tem` and `não é` goes on at one
/// of them and ends at any other token.
pub proof fn lemma_chain_rest_unfold3(toks: Seq<Token>, e: int)
    requires
        0 <= e < toks.len(),
        toks.last().kind != TokenKind::Newline,
    ensures
        ({
            let k = after_newlines(toks, e);
            let k2 = after_newlines(toks, k + 1);
            let step = |a: int| match chain_end(toks, a, 4) {
                Some(e2) => if e < e2 < toks.len() {
                    chain_rest(toks, e2, 3)
                } else {
                    None
                },
                None => None,
            };
            &&& e <= k < toks.len()
            &&& (toks[k].kind == TokenKind::Equals || toks[k].kind == TokenKind::Has) ==> chain_rest(toks, e, 3) == step(k + 1)
            &&& (toks[k].kind == TokenKind::Not && (token_at(toks, k + 1, TokenKind::Has) || token_at(toks, k + 1, TokenKind::Equals)))
                ==> (k < k2 < toks.len() ==> chain_rest(toks, e, 3) == step(k2 + 1))
            &&& (toks[k].kind != TokenKind::Equals && toks[k].kind != TokenKind::Has && !(toks[k].kind == TokenKind::Not && (
                token_at(toks, k + 1, TokenKind::Has) || token_at(toks, k + 1, TokenKind::Equals)))) ==> chain_rest(toks, e, 3)
                == Some(e)
        }),
{
    lemma_next_relevant_bounded(toks, e, true);
}

/// Past the newlines from the first token that is not a newline stands that token itself.
pub proof fn lemma_after_newlines_stays(toks: Seq<Token>, i: int)
    requires
        0 <= i < toks.len(),
        toks.last().kind != TokenKind::Newline,
    ensures
        after_newlines(toks, after_newlines(toks, i)) == after_newlines(toks, i),
{
    lemma_next_relevant_bounded(toks, i, true);
}

/// The token at `k` is of kind `kind`.
pub open spec fn token_is(toks: Seq<Token>, k: int, kind: TokenKind) -> bool {
    0 <= k < toks.len() && toks[k].kind == kind
}

/// The precedence level at which a binary operator token is taken: `ou` 1, `e` 2, `é` and
/// `tem` 3, comparisons 4, `até` 5, `+` and `-` 6, `*`, `/` and `%` 7, `^` 8; 0 for other tokens.
pub open spec fn op_level(k: TokenKind) -> int {
    match k {
        TokenKind::Or => 1,
        TokenKind::And => 2,
        TokenKind::Equals | TokenKind::Has => 3,
        TokenKind::Greater | TokenKind::GreaterOrEqual | TokenKind::Less | TokenKind::LessOrEqual => 4,
        TokenKind::Until => 5,
        TokenKind::Plus | TokenKind::Minus => 6,
        TokenKind::Star | TokenKind::Slash | TokenKind::Percent => 7,
        TokenKind::Caret => 8,
        _ => 0,
    }
}

/// Past the newlines from `i` stands a call, an index or a `.` access.
pub open spec fn continues_operand(toks: Seq<Token>, i: int) -> bool {
    token_at(toks, i, TokenKind::LeftParen) || token_at(toks, i, TokenKind::LeftBracket) || token_at(toks, i, TokenKind::Dot)
}

/// Where an expression of literals and names joined by binary operators, under `-` and `não`
/// and in parentheses, read from `p` at precedence level `lvl` (1 to 9, 9 being a single
/// literal, name, negated operand or parenthesized expression), ends, newlines passed over: each level takes the longest run of its own operators between operands of the level
/// above, and `até` joins two operands at most.
pub open spec fn chain_end(toks: Seq<Token>, p: int, lvl: int) -> Option<int>
    decreases toks.len() - p, 2 * (10 - lvl) + 1,
{
    if p < 0 || p >= toks.len() || lvl < 1 || lvl > 9 {
        None
    } else if lvl == 9 {
        let j = after_newlines(toks, p);
        if j < p || j + 1 >= toks.len() {
            None
        } else if is_atom(toks[j].kind) {
            if !continues_operand(toks, j + 1) {
                Some(j + 1)
            } else {
                None
            }
        } else if toks[j].kind == TokenKind::Minus || toks[j].kind == TokenKind::Not {
            chain_end(toks, j + 1, 9)
        } else if toks[j].kind == TokenKind::LeftParen {
            match chain_end(toks, j + 1, 1) {
                Some(m) => if j < m && !token_at(toks, m, TokenKind::EqualSign) && token_at(toks, m, TokenKind::RightParen) {
                    let e = after_newlines(toks, m) + 1;
                    if !continues_operand(toks, e) {
                        Some(e)
                    } else {
                        None
                    }
                } else {
                    None
                },
                None => None,
            }
        } else {
            None
        }
    } else if lvl == 5 {
        match chain_end(toks, p, 6) {
            Some(e) => if p < e < toks.len() {
                if token_at(toks, e, TokenKind::Until) {
                    let a = after_newlines(toks, e) + 1;
                    if e < a < toks.len() {
                        chain_end(toks, a, 6)
                    } else {
                        None
                    }
                } else {
                    Some(e)
                }
            } else {
                None
            },
            None => None,
        }
    } else {
        match chain_end(toks, p, lvl + 1) {
            Some(e) => if p < e < toks.len() {
                chain_rest(toks, e, lvl)
            } else {
                None
            },
            None => None,
        }
    }
}

/// Where the run of level-`lvl` operators after an operand that ends at `e` ends.
pub open spec fn chain_rest(toks: Seq<Token>, e: int, lvl: int) -> Option<int>
    decreases toks.len() - e, 2 * (10 - lvl),
{
    let k = after_newlines(toks, e);
    if e < 0 || k < e || k >= toks.len() || lvl < 1 || lvl > 8 {
        None
    } else if op_level(toks[k].kind) == lvl && lvl != 5 {
        match chain_end(toks, k + 1, lvl + 1) {
            Some(e2) => if e < e2 < toks.len() {
                chain_rest(toks, e2, lvl)
            } else {
                None
            },
            None => None,
        }
    } else if lvl == 3 && toks[k].kind == TokenKind::Not && (token_at(toks, k + 1, TokenKind::Has) || token_at(
        toks,
        k + 1,
        TokenKind::Equals,
    )) {
        let k2 = after_newlines(toks, k + 1);
        if k < k2 < toks.len() {
            match chain_end(toks, k2 + 1, 4) {
                Some(e2) => if e < e2 < toks.len() {
                    chain_rest(toks, e2, lvl)
                } else {
                    None
                },
                None => None,
            }
        } else {
            None
        }
    } else {
        Some(e)
    }
}

/// The operator tokens of a level that takes them one at a time, in the order the parser lists
/// them.
pub open spec fn level_kinds(lvl: int) -> Seq<TokenKind> {
    if lvl == 1 {
        seq![TokenKind::Or]
    } else if lvl == 2 {
        seq![TokenKind::And]
    } else if lvl == 4 {
        seq![TokenKind::Greater, TokenKind::GreaterOrEqual, TokenKind::Less, TokenKind::LessOrEqual]
    } else if lvl == 6 {
        seq![TokenKind::Plus, TokenKind::Minus]
    } else if lvl == 7 {
        seq![TokenKind::Star, TokenKind::Slash, TokenKind::Percent]
    } else {
        seq![TokenKind::Caret]
    }
}

/// A level's operator tokens are exactly those of its level.
pub proof fn lemma_level_kinds(lvl: int, x: TokenKind)
    requires
        lvl == 1 || lvl == 2 || lvl == 4 || lvl == 6 || lvl == 7 || lvl == 8,
    ensures
        level_kinds(lvl).contains(x) <==> op_level(x) == lvl,
{
    let ks = level_kinds(lvl);
    if op_level(x) == lvl {
        if ks.len() > 0 && ks[0] == x {
        } else if ks.len() > 1 && ks[1] == x {
        } else if ks.len() > 2 && ks[2] == x {
        } else {
            assert(ks.len() > 3 && ks[3] == x);
        }
    }
    if ks.contains(x) {
        let i = choose|i: int| 0 <= i < ks.len() && ks[i] == x;
        assert(op_level(ks[i]) == lvl);
    }
}

/// After an operand ending at `e`, the run of level-`lvl` operators goes on at an operator of
/// that level and ends at any other token.
pub proof fn lemma_chain_rest_unfold(toks: Seq<Token>, e: int, lvl: int)
    requires
        0 <= e < toks.len(),
        toks.last().kind != TokenKind::Newline,
        1 <= lvl <= 8,
        lvl != 3,
        lvl != 5,
    ensures
        ({
            let k = after_newlines(toks, e);
            &&& e <= k < toks.len()
            &&& op_level(toks[k].kind) != lvl ==> chain_rest(toks, e, lvl) == Some(e)
            &&& op_level(toks[k].kind) == lvl ==> chain_rest(toks, e, lvl) == match chain_end(toks, k + 1, lvl + 1) {
                Some(e2) => if e < e2 < toks.len() {
                    chain_rest(toks, e2, lvl)
                } else {
                    None
                },
                None => None,
            }
        }),
{
    lemma_next_relevant_bounded(toks, e, true);
}

/// Where an expression of literals and names joined by binary operators, not assigned to,
/// read from `p`, ends.
pub open spec fn expr_end(toks: Seq<Token>, p: int) -> Option<int> {
    match chain_end(toks, p, 1) {
        Some(e) => if token_at(toks, e, TokenKind::EqualSign) {
            None
        } else {
            Some(e)
        },
        None => None,
    }
}

/// Where the parser goes on after a statement whose last token is just before `b`: past a
/// newline and the newlines after it, or at the end of the input, `fim` or `senão`; none where
/// another token follows the statement.
pub open spec fn end_of_statement(toks: Seq<Token>, b: int) -> Option<int> {
    if 0 <= b < toks.len() && toks[b].kind == TokenKind::Newline {
        Some(after_newlines(toks, b))
    } else if 0 <= b < toks.len() && (toks[b].kind == TokenKind::Eof || toks[b].kind == TokenKind::BlockEnd
        || toks[b].kind == TokenKind::Else) {
        Some(b)
    } else {
        None
    }
}

/// The grammar of statements whose expressions are literals and names joined by binary
/// operators (`expr_end`), nested to any depth: where the statement whose keyword (or first
/// operand) stands at `j` ends.
///
/// - an expression;
/// - `seja <name> = <expression>`;
/// - `enquanto <expression> faça <block> fim`;
/// - `se <expression> então <block> fim`, or with `senão <token> <block> fim` (the token
///   right after `senão` opens the second block);
/// - `para cada <name> em <expression> faça <block> fim`;
/// - `função <name>() <block> fim`.
pub open spec fn core_end(toks: Seq<Token>, j: int) -> Option<int>
    decreases toks.len() - j, 0int,
{
    if j < 0 || j >= toks.len() {
        None
    } else if is_atom(toks[j].kind) {
        expr_end(toks, j)
    } else if toks[j].kind == TokenKind::Let {
        if token_is(toks, j + 1, TokenKind::Identifier) && token_is(toks, j + 2, TokenKind::EqualSign) {
            expr_end(toks, j + 3)
        } else {
            None
        }
    } else if toks[j].kind == TokenKind::While {
        match expr_end(toks, j + 1) {
            Some(m) => if j < m && token_is(toks, m, TokenKind::Do) {
                match block_end(toks, m + 1, seq![TokenKind::BlockEnd]) {
                    Some(e) => Some(e + 1),
                    None => None,
                }
            } else {
                None
            },
            None => None,
        }
    } else if toks[j].kind == TokenKind::If {
        let m = match expr_end(toks, j + 1) {
            Some(m) => m,
            None => j,
        };
        if j < m && token_is(toks, m, TokenKind::Then) {
            match block_end(toks, m + 1, seq![TokenKind::BlockEnd, TokenKind::Else]) {
                Some(e) => if e <= j || e + 1 >= toks.len() {
                    None
                } else if toks[e].kind == TokenKind::Else {
                    if toks[e + 1].kind == TokenKind::Eof {
                        None
                    } else {
                        match block_end(toks, e + 2, seq![TokenKind::BlockEnd]) {
                            Some(e2) => Some(e2 + 1),
                            None => None,
                        }
                    }
                } else {
                    Some(e + 1)
                },
                None => None,
            }
        } else {
            None
        }
    } else if toks[j].kind == TokenKind::ForOrBreak {
        let m = match expr_end(toks, j + 4) {
            Some(m) => m,
            None => j,
        };
        if token_is(toks, j + 1, TokenKind::Each) && token_is(toks, j + 2, TokenKind::Identifier) && token_is(
            toks,
            j + 3,
            TokenKind::In,
        ) && j < m && token_is(toks, m, TokenKind::Do) {
            match block_end(toks, m + 1, seq![TokenKind::BlockEnd]) {
                Some(e) => Some(e + 1),
                None => None,
            }
        } else {
            None
        }
    } else if toks[j].kind == TokenKind::Function {
        let p = after_newlines(toks, j + 3) + 1;
        if token_is(toks, j + 1, TokenKind::Identifier) && token_is(toks, j + 2, TokenKind::LeftParen) && token_is(
            toks,
            p - 1,
            TokenKind::RightParen,
        ) && p > j {
            match block_end(toks, p, seq![TokenKind::BlockEnd]) {
                Some(e) => Some(e + 1),
                None => None,
            }
        } else {
            None
        }
    } else {
        None
    }
}

/// The statements of a block in the grammar of `core_end`, from `p` on, up to a token of one
/// of the kinds `closers`: where that token stands.
pub open spec fn block_end(toks: Seq<Token>, p: int, closers: Seq<TokenKind>) -> Option<int>
    decreases toks.len() - p, 1int,
{
    let j = after_newlines(toks, p);
    if j < p || j >= toks.len() || p < 0 {
        None
    } else if closers.contains(toks[j].kind) {
        Some(j)
    } else {
        match core_end(toks, j) {
            Some(b) => match end_of_statement(toks, b) {
                Some(q) => if j < q < toks.len() {
                    block_end(toks, q, closers)
                } else {
                    None
                },
                None => None,
            },
            None => None,
        }
    }
}

/// From `p` on, the tokens are statements in the grammar of `core_end` up to the end of the
/// input.
pub open spec fn program_ok(toks: Seq<Token>, p: int) -> bool
    decreases toks.len() - p,
{
    let j = after_newlines(toks, p);
    if p < 0 || p >= toks.len() {
        false
    } else if toks[p].kind == TokenKind::Eof {
        true
    } else if j < p || j >= toks.len() || toks[j].kind == TokenKind::Eof {
        false
    } else {
        match core_end(toks, j) {
            Some(b) => match end_of_statement(toks, b) {
                Some(q) => if j < q < toks.len() {
                    program_ok(toks, q)
                } else {
                    false
                },
                None => false,
            },
            None => false,
        }
    }
}

/// `ast` is the tree `t`, of the parser's shape, with the variables that functions capture
/// marked.
pub open spec fn parsed_from(t: Ast, ast: Ast) -> bool {
    &&& shaped_stmts(t.inner@)
    &&& captures_seq(t.inner@) is Some
    &&& ast.span == t.span
    &&& ast.inner@.len() == t.inner@.len()
    &&& forall|i: int| 0 <= i < t.inner@.len() ==> annotated_stmt(
        #[trigger] t.inner@[i],
        ast.inner@[i],
        captures_seq(t.inner@).unwrap(),
    )
}

} // verus!
