//! A cursor over a list of tokens that can look ahead and skip newlines where the grammar
//! allows them.
//!
//! The list is read through a position (the first token not consumed) and a look-ahead cursor,
//! counted from that position: `peek` looks at the token under the cursor, `next` consumes the
//! token at the position and moves the cursor one token back (not below zero). While the
//! newline counter is positive, newlines are skipped.

use vstd::prelude::*;
use crate::token::{Token, TokenKind};

verus! {

/// Whether a token of kind `k` is passed over when newlines are skipped.
pub open spec fn skipped(k: TokenKind, skip: bool) -> bool {
    skip && k == TokenKind::Newline
}

/// The first index at or after `i` whose token is not passed over (or the length).
pub open spec fn next_relevant(toks: Seq<Token>, i: int, skip: bool) -> int
    decreases toks.len() - i,
{
    if i < 0 || i >= toks.len() {
        i
    } else if skipped(toks[i].kind, skip) {
        next_relevant(toks, i + 1, skip)
    } else {
        i
    }
}

/// Where a match of the kinds `kinds`, one after the other with passed-over tokens between
/// them, that starts at `i` ends; none where there is no such match.
pub open spec fn match_end(toks: Seq<Token>, i: int, kinds: Seq<TokenKind>, skip: bool) -> Option<int>
    decreases kinds.len(),
{
    if kinds.len() == 0 {
        Some(i)
    } else {
        let j = next_relevant(toks, i, skip);
        if 0 <= j < toks.len() && toks[j].kind == kinds[0] {
            match_end(toks, j + 1, kinds.drop_first(), skip)
        } else {
            None
        }
    }
}

/// The position and cursor after consuming tokens while the token under the cursor is of a
/// kind that `pred` holds of.
pub open spec fn drain(toks: Seq<Token>, pos: int, cursor: int, pred: spec_fn(TokenKind) -> bool) -> (int, int)
    decreases toks.len() - pos,
{
    if 0 <= pos && 0 <= cursor && pos + cursor < toks.len() && pred(toks[pos + cursor].kind) {
        drain(toks, pos + 1, if cursor > 0 { cursor - 1 } else { 0 }, pred)
    } else {
        (pos, cursor)
    }
}

/// A guard that raises or lowers the newline counter while it is held; releasing it undoes
/// its change.
pub struct NewlineGuard {
    size: isize,
}

impl NewlineGuard {
    /// How much the guard changed the counter.
    pub closed spec fn spec_size(&self) -> int {
        self.size as int
    }

    /// Adds `custom_size` (1 where none is given) to the counter and returns a guard that
    /// remembers it.
    pub fn new(counter: &mut isize, custom_size: Option<isize>) -> (r: NewlineGuard)
        requires
            isize::MIN <= *old(counter) + match custom_size {
                Some(s) => s as int,
                None => 1,
            } <= isize::MAX,
        ensures
            r.spec_size() == match custom_size {
                Some(s) => s as int,
                None => 1,
            },
            *final(counter) == *old(counter) + r.spec_size(),
    {
        let size = match custom_size {
            Some(s) => s,
            None => 1,
        };
        *counter = *counter + size;
        NewlineGuard { size }
    }

    /// Undoes the guard's change of the counter.
    pub fn release(self, counter: &mut isize)
        requires
            isize::MIN <= *old(counter) - self.spec_size() <= isize::MAX,
        ensures
            *final(counter) == *old(counter) - self.spec_size(),
    {
        *counter = *counter - self.size;
    }
}

/// Whether `k` is one of `kinds`.
pub fn kind_in(kinds: &[TokenKind], k: TokenKind) -> (r: bool)
    ensures
        r == kinds@.contains(k),
{
    let mut i: usize = 0;
    while i < kinds.len()
        invariant
            i <= kinds.len(),
            forall|j: int| 0 <= j < i ==> kinds@[j] != k,
        decreases kinds.len() - i,
    {
        if kinds[i] == k {
            assert(kinds@[i as int] == k);
            return true;
        }
        i = i + 1;
    }
    false
}

/// A cursor over a non-empty list of tokens.
pub struct TokenIterator {
    tokens: Vec<Token>,
    pos: usize,
    cursor: usize,
    ignoring_newline_counter: isize,
}

impl TokenIterator {
    /// The tokens.
    pub closed spec fn toks(&self) -> Seq<Token> {
        self.tokens@
    }

    /// The index of the first token not consumed.
    pub closed spec fn position(&self) -> int {
        self.pos as int
    }

    /// The look-ahead cursor, counted from the position.
    pub closed spec fn look(&self) -> int {
        self.cursor as int
    }

    /// The newline counter: newlines are skipped while it is positive.
    pub closed spec fn counter(&self) -> int {
        self.ignoring_newline_counter as int
    }

    /// Whether newlines are skipped.
    pub open spec fn skipping(&self) -> bool {
        self.counter() > 0
    }

    /// The cursor points at most one past the last token.
    pub closed spec fn wf(&self) -> bool {
        &&& 0 < self.tokens@.len() <= usize::MAX
        &&& self.pos + self.cursor <= self.tokens@.len()
    }

    /// What well-formedness says of the position and the cursor.
    pub proof fn lemma_wf(&self)
        requires
            self.wf(),
        ensures
            0 < self.toks().len() <= usize::MAX,
            0 <= self.position(),
            0 <= self.look(),
            self.position() + self.look() <= self.toks().len(),
            isize::MIN <= self.counter() <= isize::MAX,
    {
    }

    /// A cursor at the first of `tokens`, skipping no newlines.
    pub fn from_tokens(tokens: Vec<Token>) -> (r: TokenIterator)
        requires
            tokens@.len() > 0,
        ensures
            r.wf(),
            r.toks() == tokens@,
            r.position() == 0,
            r.look() == 0,
            r.counter() == 0,
    {
        assert(tokens@.len() == tokens.len());
        TokenIterator { tokens, pos: 0, cursor: 0, ignoring_newline_counter: 0 }
    }

    /// Consumes the token at the position, if any, and moves the cursor one token back.
    fn advance(&mut self)
        requires
            old(self).wf(),
        ensures
            final(self).wf(),
            final(self).toks() == old(self).toks(),
            final(self).counter() == old(self).counter(),
            final(self).position() == if old(self).position() < old(self).toks().len() {
                old(self).position() + 1
            } else {
                old(self).position()
            },
            final(self).look() == if old(self).look() > 0 {
                old(self).look() - 1
            } else {
                0
            },
    {
        if self.pos < self.tokens.len() {
            self.pos = self.pos + 1;
        }
        if self.cursor > 0 {
            self.cursor = self.cursor - 1;
        }
    }

    /// Consumes tokens while the token under the cursor is a newline that is skipped.
    fn skip_ignored_newlines(&mut self)
        requires
            old(self).wf(),
        ensures
            final(self).wf(),
            final(self).toks() == old(self).toks(),
            final(self).counter() == old(self).counter(),
            (final(self).position(), final(self).look()) == drain(
                old(self).toks(),
                old(self).position(),
                old(self).look(),
                |k: TokenKind| skipped(k, old(self).skipping()),
            ),
    {
        let ghost pred = |k: TokenKind| skipped(k, old(self).skipping());
        while self.pos + self.cursor < self.tokens.len()
            && self.tokens[self.pos + self.cursor].kind == TokenKind::Newline
            && self.ignoring_newline_counter > 0
            invariant
                self.wf(),
                self.toks() == old(self).toks(),
                self.counter() == old(self).counter(),
                pred == (|k: TokenKind| skipped(k, old(self).skipping())),
                drain(self.toks(), self.position(), self.look(), pred) == drain(
                    old(self).toks(),
                    old(self).position(),
                    old(self).look(),
                    pred,
                ),
            decreases self.tokens.len() - self.pos,
        {
            self.advance();
        }
    }

    /// Moves the cursor over the newlines that are passed over (all of them where `all`).
    fn skip_cursor_over_newlines(&mut self, all: bool)
        requires
            old(self).wf(),
        ensures
            final(self).wf(),
            final(self).toks() == old(self).toks(),
            final(self).counter() == old(self).counter(),
            final(self).position() == old(self).position(),
            final(self).position() + final(self).look() == next_relevant(
                old(self).toks(),
                old(self).position() + old(self).look(),
                all || old(self).skipping(),
            ),
    {
        let ghost skip = all || old(self).skipping();
        while self.pos + self.cursor < self.tokens.len()
            && self.tokens[self.pos + self.cursor].kind == TokenKind::Newline
            && (all || self.ignoring_newline_counter > 0)
            invariant
                self.wf(),
                self.toks() == old(self).toks(),
                self.counter() == old(self).counter(),
                self.position() == old(self).position(),
                skip == (all || old(self).skipping()),
                next_relevant(self.toks(), self.position() + self.look(), skip) == next_relevant(
                    old(self).toks(),
                    old(self).position() + old(self).look(),
                    skip,
                ),
            decreases self.tokens.len() - self.pos - self.cursor,
        {
            self.cursor = self.cursor + 1;
        }
    }

    /// The token under the cursor, after consuming the newlines that are skipped.
    pub fn peek(&mut self) -> (r: Option<&Token>)
        requires
            old(self).wf(),
        ensures
            final(self).wf(),
            final(self).toks() == old(self).toks(),
            final(self).counter() == old(self).counter(),
            (final(self).position(), final(self).look()) == drain(
                old(self).toks(),
                old(self).position(),
                old(self).look(),
                |k: TokenKind| skipped(k, old(self).skipping()),
            ),
            r == if final(self).position() + final(self).look() < final(self).toks().len() {
                Some(&final(self).toks()[final(self).position() + final(self).look()])
            } else {
                None
            },
    {
        self.skip_ignored_newlines();
        if self.pos + self.cursor < self.tokens.len() {
            Some(&self.tokens[self.pos + self.cursor])
        } else {
            None
        }
    }

    /// Consumes the newlines that are skipped, then the next token.
    pub fn next(&mut self) -> (r: Option<&Token>)
        requires
            old(self).wf(),
        ensures
            final(self).wf(),
            final(self).toks() == old(self).toks(),
            final(self).counter() == old(self).counter(),
            ({
                let (p, c) = drain(
                    old(self).toks(),
                    old(self).position(),
                    old(self).look(),
                    |k: TokenKind| skipped(k, old(self).skipping()),
                );
                &&& r == if p < old(self).toks().len() {
                    Some(&old(self).toks()[p])
                } else {
                    None
                }
                &&& final(self).position() == if p < old(self).toks().len() { p + 1 } else { p }
                &&& final(self).look() == if c > 0 { c - 1 } else { 0 }
            }),
    {
        self.skip_ignored_newlines();
        let p = self.pos;
        self.advance();
        if p < self.tokens.len() {
            Some(&self.tokens[p])
        } else {
            None
        }
    }

    /// Starts skipping newlines (or skips them longer), until the guard is released.
    pub fn set_ignoring_newline(&mut self) -> (r: NewlineGuard)
        requires
            old(self).wf(),
            old(self).counter() < isize::MAX,
        ensures
            final(self).wf(),
            final(self).toks() == old(self).toks(),
            final(self).position() == old(self).position(),
            final(self).look() == old(self).look(),
            r.spec_size() == 1,
            final(self).counter() == old(self).counter() + 1,
    {
        NewlineGuard::new(&mut self.ignoring_newline_counter, None)
    }

    /// Stops skipping newlines, until the guard is released.
    pub fn halt_ignoring_newline(&mut self) -> (r: NewlineGuard)
        requires
            old(self).wf(),
            old(self).counter() > isize::MIN,
        ensures
            final(self).wf(),
            final(self).toks() == old(self).toks(),
            final(self).position() == old(self).position(),
            final(self).look() == old(self).look(),
            r.spec_size() == -old(self).counter(),
            final(self).counter() == 0,
    {
        let size = -self.ignoring_newline_counter;
        NewlineGuard::new(&mut self.ignoring_newline_counter, Some(size))
    }

    /// Undoes the change of a guard.
    pub fn release(&mut self, guard: NewlineGuard)
        requires
            old(self).wf(),
            isize::MIN <= old(self).counter() - guard.spec_size() <= isize::MAX,
        ensures
            final(self).wf(),
            final(self).toks() == old(self).toks(),
            final(self).position() == old(self).position(),
            final(self).look() == old(self).look(),
            final(self).counter() == old(self).counter() - guard.spec_size(),
    {
        guard.release(&mut self.ignoring_newline_counter);
    }

    /// Where the next token that is not skipped is one of `token_types`: consumes it, with the
    /// skipped newlines before it, and returns it. The cursor ends at the position.
    pub fn consume_one_of(&mut self, token_types: &[TokenKind]) -> (r: Option<Token>)
        requires
            old(self).wf(),
        ensures
            final(self).wf(),
            final(self).toks() == old(self).toks(),
            final(self).counter() == old(self).counter(),
            final(self).look() == 0,
            ({
                let j = next_relevant(old(self).toks(), old(self).position(), old(self).skipping());
                if j < old(self).toks().len() && token_types@.contains(old(self).toks()[j].kind) {
                    &&& r == Some(old(self).toks()[j])
                    &&& final(self).position() == j + 1
                } else {
                    &&& r is None
                    &&& final(self).position() == old(self).position()
                }
            }),
    {
        self.cursor = 0;
        self.skip_cursor_over_newlines(false);
        let j = self.pos + self.cursor;
        if j < self.tokens.len() && kind_in(token_types, self.tokens[j].kind) {
            let t = self.tokens[j].clone_ref();
            self.pos = j + 1;
            self.cursor = 0;
            return Some(t);
        }
        self.cursor = 0;
        None
    }

    /// Where the next tokens that are not skipped are of the kinds `token_types`, one after the
    /// other: consumes them, with the skipped newlines among them, and returns all the tokens
    /// consumed. The cursor ends at the position.
    pub fn consume_sequence(&mut self, token_types: &[TokenKind]) -> (r: Option<Vec<Token>>)
        requires
            old(self).wf(),
        ensures
            final(self).wf(),
            final(self).toks() == old(self).toks(),
            final(self).counter() == old(self).counter(),
            final(self).look() == 0,
            match match_end(old(self).toks(), old(self).position(), token_types@, old(self).skipping()) {
                Some(e) => {
                    &&& r matches Some(v) && v@ == old(self).toks().subrange(old(self).position(), e)
                    &&& final(self).position() == e
                },
                None => {
                    &&& r is None
                    &&& final(self).position() == old(self).position()
                },
            },
    {
        self.cursor = 0;
        let mut m: usize = 0;
        let ghost skip = self.skipping();
        assert(token_types@.skip(0) =~= token_types@);
        while m < token_types.len()
            invariant
                self.wf(),
                self.toks() == old(self).toks(),
                self.counter() == old(self).counter(),
                self.position() == old(self).position(),
                skip == old(self).skipping(),
                m <= token_types.len(),
                match_end(old(self).toks(), old(self).position(), token_types@, skip) == match_end(
                    self.toks(),
                    self.position() + self.look(),
                    token_types@.skip(m as int),
                    skip,
                ),
            decreases token_types.len() - m,
        {
            assert(token_types@.skip(m as int)[0] == token_types@[m as int]);
            assert(token_types@.skip(m as int).drop_first() =~= token_types@.skip(m + 1));
            self.skip_cursor_over_newlines(false);
            let j = self.pos + self.cursor;
            if j < self.tokens.len() && self.tokens[j].kind == token_types[m] {
                self.cursor = self.cursor + 1;
            } else {
                self.cursor = 0;
                return None;
            }
            m = m + 1;
        }
        assert(token_types@.skip(m as int).len() == 0);
        let count = self.cursor;
        let start = self.pos;
        let mut out: Vec<Token> = Vec::new();
        let mut k: usize = 0;
        while k < count
            invariant
                self.wf(),
                self.toks() == old(self).toks(),
                self.counter() == old(self).counter(),
                start == old(self).position(),
                start + count <= self.toks().len(),
                k <= count,
                self.pos == start + k,
                self.cursor == count - k,
                out@ == self.toks().subrange(start as int, (start + k) as int),
            decreases count - k,
        {
            let t = self.tokens[self.pos].clone_ref();
            out.push(t);
            self.advance();
            k = k + 1;
            assert(out@ =~= self.toks().subrange(start as int, (start + k) as int));
        }
        Some(out)
    }

    /// Whether the next tokens that are not skipped are of the kinds `token_types`, one after
    /// the other. Consumes nothing; the cursor ends at the position.
    pub fn check_sequence(&mut self, token_types: &[TokenKind]) -> (r: bool)
        requires
            old(self).wf(),
        ensures
            final(self).wf(),
            final(self).toks() == old(self).toks(),
            final(self).counter() == old(self).counter(),
            final(self).position() == old(self).position(),
            final(self).look() == 0,
            r == match_end(old(self).toks(), old(self).position(), token_types@, old(self).skipping()) is Some,
    {
        self.cursor = 0;
        let mut m: usize = 0;
        let ghost skip = self.skipping();
        assert(token_types@.skip(0) =~= token_types@);
        while m < token_types.len()
            invariant
                self.wf(),
                self.toks() == old(self).toks(),
                self.counter() == old(self).counter(),
                self.position() == old(self).position(),
                skip == old(self).skipping(),
                m <= token_types.len(),
                match_end(old(self).toks(), old(self).position(), token_types@, skip) == match_end(
                    self.toks(),
                    self.position() + self.look(),
                    token_types@.skip(m as int),
                    skip,
                ),
            decreases token_types.len() - m,
        {
            assert(token_types@.skip(m as int)[0] == token_types@[m as int]);
            assert(token_types@.skip(m as int).drop_first() =~= token_types@.skip(m + 1));
            self.skip_cursor_over_newlines(false);
            let j = self.pos + self.cursor;
            if j < self.tokens.len() && self.tokens[j].kind == token_types[m] {
                self.cursor = self.cursor + 1;
            } else {
                self.cursor = 0;
                return false;
            }
            m = m + 1;
        }
        assert(token_types@.skip(m as int).len() == 0);
        self.cursor = 0;
        true
    }

    /// Whether the next token that is not skipped is of kind `token_type`. Where it is, the
    /// cursor is left on it; else the cursor ends at the position.
    pub fn is_next_token(&mut self, token_type: TokenKind) -> (r: bool)
        requires
            old(self).wf(),
        ensures
            final(self).wf(),
            final(self).toks() == old(self).toks(),
            final(self).counter() == old(self).counter(),
            final(self).position() == old(self).position(),
            ({
                let j = next_relevant(old(self).toks(), old(self).position(), old(self).skipping());
                &&& r == (j < old(self).toks().len() && old(self).toks()[j].kind == token_type)
                &&& final(self).look() == if r { j - old(self).position() } else { 0 }
            }),
    {
        self.cursor = 0;
        self.skip_cursor_over_newlines(false);
        let j = self.pos + self.cursor;
        if j < self.tokens.len() && self.tokens[j].kind == token_type {
            return true;
        }
        self.cursor = 0;
        false
    }

    /// Whether only newlines, then the end of the input, follow (whether or not newlines are
    /// skipped). The cursor ends at the position.
    pub fn is_next_eof(&mut self) -> (r: bool)
        requires
            old(self).wf(),
        ensures
            final(self).wf(),
            final(self).toks() == old(self).toks(),
            final(self).counter() == old(self).counter(),
            final(self).position() == old(self).position(),
            final(self).look() == 0,
            ({
                let j = next_relevant(old(self).toks(), old(self).position(), true);
                r == (j >= old(self).toks().len() || old(self).toks()[j].kind == TokenKind::Eof)
            }),
    {
        self.cursor = 0;
        self.skip_cursor_over_newlines(true);
        let j = self.pos + self.cursor;
        let is_eof = j >= self.tokens.len() || self.tokens[j].kind == TokenKind::Eof;
        self.cursor = 0;
        is_eof
    }

    /// Whether a token other than the end of the input follows, after the skipped newlines.
    /// The cursor ends at the position.
    pub fn is_next_valid(&mut self) -> (r: bool)
        requires
            old(self).wf(),
        ensures
            final(self).wf(),
            final(self).toks() == old(self).toks(),
            final(self).counter() == old(self).counter(),
            final(self).position() == old(self).position(),
            final(self).look() == 0,
            ({
                let j = next_relevant(old(self).toks(), old(self).position(), old(self).skipping());
                r == (j < old(self).toks().len() && old(self).toks()[j].kind != TokenKind::Eof)
            }),
    {
        self.cursor = 0;
        self.skip_cursor_over_newlines(false);
        let j = self.pos + self.cursor;
        let is_next_valid = j < self.tokens.len() && self.tokens[j].kind != TokenKind::Eof;
        self.cursor = 0;
        is_next_valid
    }

    /// Consumes tokens while the token under the cursor is one of `expected_types`.
    pub fn advance_while(&mut self, expected_types: &[TokenKind])
        requires
            old(self).wf(),
        ensures
            final(self).wf(),
            final(self).toks() == old(self).toks(),
            final(self).counter() == old(self).counter(),
            (final(self).position(), final(self).look()) == drain(
                old(self).toks(),
                old(self).position(),
                old(self).look(),
                |k: TokenKind| expected_types@.contains(k),
            ),
    {
        let ghost pred = |k: TokenKind| expected_types@.contains(k);
        while self.pos + self.cursor < self.tokens.len()
            && kind_in(expected_types, self.tokens[self.pos + self.cursor].kind)
            invariant
                self.wf(),
                self.toks() == old(self).toks(),
                self.counter() == old(self).counter(),
                pred == (|k: TokenKind| expected_types@.contains(k)),
                drain(self.toks(), self.position(), self.look(), pred) == drain(
                    old(self).toks(),
                    old(self).position(),
                    old(self).look(),
                    pred,
                ),
            decreases self.tokens.len() - self.pos,
        {
            self.advance();
        }
    }

    /// The last token of the list.
    pub fn last_token(&self) -> (r: &Token)
        requires
            self.wf(),
        ensures
            *r == self.toks().last(),
    {
        &self.tokens[self.tokens.len() - 1]
    }
}

/// Draining a list whose last token is one that `pred` does not hold of never passes that
/// token, and never moves the looked-at index back.
pub proof fn lemma_drain_stops_at_last(toks: Seq<Token>, pos: int, cursor: int, pred: spec_fn(TokenKind) -> bool)
    requires
        0 <= pos,
        0 <= cursor,
        pos + cursor < toks.len(),
        !pred(toks.last().kind),
    ensures
        ({
            let (p, c) = drain(toks, pos, cursor, pred);
            &&& pos <= p
            &&& 0 <= c
            &&& pos + cursor <= p + c < toks.len()
            &&& !pred(toks[p + c].kind)
            &&& cursor == 0 ==> c == 0
        }),
    decreases toks.len() - pos,
{
    if pred(toks[pos + cursor].kind) {
        let c2 = if cursor > 0 { cursor - 1 } else { 0 };
        assert(pos + cursor != toks.len() - 1);
        lemma_drain_stops_at_last(toks, pos + 1, c2, pred);
    }
}

/// Draining the passed-over tokens from a position, with the cursor there, stops at the first
/// token that is not passed over.
pub proof fn lemma_drain_is_next_relevant(toks: Seq<Token>, pos: int, skip: bool, pred: spec_fn(TokenKind) -> bool)
    requires
        0 <= pos,
        forall|k: TokenKind| #[trigger] pred(k) == skipped(k, skip),
    ensures
        drain(toks, pos, 0, pred) == (next_relevant(toks, pos, skip), 0int),
    decreases toks.len() - pos,
{
    if pos < toks.len() && pred(toks[pos].kind) {
        lemma_drain_is_next_relevant(toks, pos + 1, skip, pred);
    }
}

/// The first token at or after `i` that is not passed over comes at or before the last token,
/// where the last token is not a newline.
pub proof fn lemma_next_relevant_bounded(toks: Seq<Token>, i: int, skip: bool)
    requires
        0 <= i < toks.len(),
        toks.last().kind != TokenKind::Newline,
    ensures
        i <= next_relevant(toks, i, skip) < toks.len(),
        !skipped(toks[next_relevant(toks, i, skip)].kind, skip),
    decreases toks.len() - i,
{
    if skipped(toks[i].kind, skip) {
        assert(i != toks.len() - 1);
        lemma_next_relevant_bounded(toks, i + 1, skip);
    }
}

/// A match of kinds other than the end of the input ends after where it starts and before the
/// last token, where the last token ends the input and no token before it does.
pub proof fn lemma_match_end_bounded(toks: Seq<Token>, i: int, kinds: Seq<TokenKind>, skip: bool)
    requires
        0 <= i < toks.len(),
        toks.last().kind == TokenKind::Eof,
        forall|k: int| 0 <= k < kinds.len() ==> kinds[k] != TokenKind::Eof,
    ensures
        match match_end(toks, i, kinds, skip) {
            Some(e) => i <= e < toks.len() && (kinds.len() > 0 ==> i < e),
            None => true,
        },
    decreases kinds.len(),
{
    if kinds.len() > 0 {
        lemma_next_relevant_bounded(toks, i, skip);
        let j = next_relevant(toks, i, skip);
        if 0 <= j < toks.len() && toks[j].kind == kinds[0] {
            assert(j != toks.len() - 1);
            assert forall|k: int| 0 <= k < kinds.drop_first().len() implies kinds.drop_first()[k] != TokenKind::Eof by {
                assert(kinds.drop_first()[k] == kinds[k + 1]);
            }
            lemma_match_end_bounded(toks, j + 1, kinds.drop_first(), skip);
        }
    }
}

} // verus!
