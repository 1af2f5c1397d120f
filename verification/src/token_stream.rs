//! The stream from where the parser takes the tokens.

use crate::token::{is_trivia_id, Token};
use crate::tokenizer::{in_source, lemma_scan, lex, Cursor, Mode, Tokenizer};
use std::collections::VecDeque;
use vstd::prelude::*;

verus! {

/// Where a place within the source leads to.
pub proof fn lemma_lex(src: Seq<u8>, at: Cursor)
    requires
        src.len() <= usize::MAX,
    ensures
        match lex(src, at) {
            Some((token, next)) => {
                &&& at.pos < next.pos <= src.len()
                &&& token.span.start == at.pos
                &&& token.span.end == next.pos
                &&& in_source(src, at) ==> in_source(src, next) && next.index == at.index + 1
            },
            None => at.pos >= src.len(),
        },
{
    if at.pos < src.len() {
        lemma_scan(src, at.pos as int, at.mode);
    }
}

/// The place that is `n` tokens further, or the end if there are less.
pub open spec fn further(src: Seq<u8>, at: Cursor, n: nat) -> Cursor
    decreases n,
{
    if n == 0 {
        at
    } else {
        match lex(src, at) {
            Some((_, next)) => further(src, next, (n - 1) as nat),
            None => at,
        }
    }
}

/// The token that follows a place.
pub open spec fn token_after(src: Seq<u8>, at: Cursor) -> Option<Token> {
    match lex(src, at) {
        Some((token, _)) => Some(token),
        None => None,
    }
}

/// The first token after a place that is not trivia.
pub open spec fn relevant_after(src: Seq<u8>, at: Cursor) -> Option<Token>
    decreases src.len() - at.pos,
    when src.len() <= usize::MAX
{
    proof {
        lemma_lex(src, at);
    }
    match lex(src, at) {
        Some((token, next)) => if is_trivia_id(token.id) {
            relevant_after(src, next)
        } else {
            Some(token)
        },
        None => None,
    }
}

/// One more token, and what follows it.
pub proof fn lemma_further(src: Seq<u8>, at: Cursor, n: nat)
    requires
        in_source(src, at),
    ensures
        in_source(src, further(src, at, n)),
        at.pos <= further(src, at, n).pos,
        n <= further(src, at, n).pos - at.pos || lex(src, further(src, at, n)) is None,
        match lex(src, further(src, at, n)) {
            Some((_, next)) => further(src, at, n + 1) == next,
            None => further(src, at, n + 1) == further(src, at, n),
        },
    decreases n,
{
    lemma_lex(src, at);
    if n > 0 {
        if let Some((_, next)) = lex(src, at) {
            lemma_further(src, next, (n - 1) as nat);
        }
    } else {
        assert(further(src, at, 1) == match lex(src, at) {
            Some((_, next)) => further(src, next, 0),
            None => at,
        });
    }
}

/// Remembers a place in the stream.
pub struct Bookmark(Cursor);

impl Bookmark {
    /// The place.
    pub closed spec fn place(&self) -> Cursor {
        self.0
    }
}

/// A stream of tokens that lets look ahead and go back.
pub struct TokenStream<'src> {
    /// Produces the tokens.
    tokenizer: Tokenizer<'src>,
    /// The current place.
    cursor: Cursor,
    /// Tokens that have been read but not consumed, each with the place that
    /// follows it.
    ahead: VecDeque<(Token, Cursor)>,
}

impl<'src> TokenStream<'src> {
    /// The source code.
    pub closed spec fn src(&self) -> Seq<u8> {
        self.tokenizer.src()
    }

    /// The current place.
    pub closed spec fn cursor(&self) -> Cursor {
        self.cursor
    }

    /// The place is within the source, and the tokens read ahead are those
    /// that follow it.
    pub closed spec fn wf(&self) -> bool {
        &&& in_source(self.src(), self.cursor)
        &&& forall|i: int|
            0 <= i < self.ahead@.len() ==> lex(
                self.src(),
                further(self.src(), self.cursor, i as nat),
            ) == Some(#[trigger] self.ahead@[i])
    }

    /// The current place is within the source.
    pub proof fn lemma_wf(&self)
        requires
            self.wf(),
        ensures
            in_source(self.src(), self.cursor()),
    {
    }

    /// Creates a stream with the tokens of the given tokenizer.
    pub fn new(tokenizer: Tokenizer<'src>) -> (stream: Self)
        ensures
            stream.wf(),
            stream.src() == tokenizer.src(),
            stream.cursor() == (Cursor { pos: 0, index: 0, mode: Mode::Normal }),
    {
        let source = tokenizer.source();
        let len = source.len();
        assert(tokenizer.src().len() == len);
        TokenStream {
            tokenizer,
            cursor: Cursor { pos: 0, index: 0, mode: Mode::Normal },
            ahead: VecDeque::new(),
        }
    }

    /// Returns the source code.
    pub fn source(&self) -> (source: &'src [u8])
        ensures
            source@ == self.src(),
    {
        self.tokenizer.source()
    }

    /// Returns how many tokens precede the current place.
    pub fn current_token_index(&self) -> (index: usize)
        ensures
            index == self.cursor().index,
    {
        self.cursor.index
    }

    /// Reads tokens ahead until there are more than `n`, if there are so many.
    fn read_ahead(&mut self, n: usize)
        requires
            old(self).wf(),
        ensures
            final(self).wf(),
            final(self).src() == old(self).src(),
            final(self).cursor() == old(self).cursor(),
            n < final(self).ahead@.len() || lex(
                old(self).src(),
                further(old(self).src(), old(self).cursor(), n as nat),
            ) is None,
    {
        let ghost src = self.src();
        let ghost cursor = self.cursor;
        while self.ahead.len() <= n
            invariant
                self.wf(),
                self.src() == src,
                self.cursor == cursor,
                src == old(self).src(),
                cursor == old(self).cursor(),
            decreases n + 1 - self.ahead@.len(),
        {
            let len = self.ahead.len();
            proof {
                lemma_further(src, cursor, len as nat);
                if len > 0 {
                    lemma_further(src, cursor, (len - 1) as nat);
                    assert(lex(src, further(src, cursor, (len - 1) as nat)) == Some(
                        self.ahead@[len - 1],
                    ));
                }
            }
            let last = if len == 0 {
                self.cursor
            } else {
                self.ahead[len - 1].1
            };
            match self.tokenizer.token_at(last) {
                Some(next) => {
                    self.ahead.push_back(next);
                },
                None => {
                    proof {
                        Self::lemma_beyond(src, cursor, len as nat, n as nat);
                    }
                    return ;
                },
            }
        }
    }

    proof fn lemma_beyond(src: Seq<u8>, at: Cursor, m: nat, n: nat)
        requires
            in_source(src, at),
            m <= n,
            lex(src, further(src, at, m)) is None,
        ensures
            further(src, at, n) == further(src, at, m),
        decreases n,
    {
        if m < n {
            Self::lemma_beyond(src, at, m, (n - 1) as nat);
            lemma_further(src, at, (n - 1) as nat);
        }
    }

    /// Returns the token that is `n` tokens after the next one, without
    /// consuming any.
    pub fn peek_token(&mut self, n: usize) -> (token: Option<Token>)
        requires
            old(self).wf(),
        ensures
            final(self).wf(),
            final(self).src() == old(self).src(),
            final(self).cursor() == old(self).cursor(),
            token == token_after(
                old(self).src(),
                further(old(self).src(), old(self).cursor(), n as nat),
            ),
    {
        self.read_ahead(n);
        if n < self.ahead.len() {
            assert(lex(self.src(), further(self.src(), self.cursor, n as nat)) == Some(
                self.ahead@[n as int],
            ));
            Some(self.ahead[n].0)
        } else {
            None
        }
    }

    /// Returns true if the stream is not at its end.
    pub fn has_more(&mut self) -> (yes: bool)
        requires
            old(self).wf(),
        ensures
            final(self).wf(),
            final(self).src() == old(self).src(),
            final(self).cursor() == old(self).cursor(),
            yes == (old(self).cursor().pos < old(self).src().len()),
    {
        self.peek_token(0).is_some()
    }

    /// Consumes the next token and returns it.
    pub fn next_token(&mut self) -> (token: Option<Token>)
        requires
            old(self).wf(),
        ensures
            final(self).wf(),
            final(self).src() == old(self).src(),
            match lex(old(self).src(), old(self).cursor()) {
                Some((next, place)) => token == Some(next) && final(self).cursor() == place,
                None => token is None && final(self).cursor() == old(self).cursor(),
            },
    {
        self.read_ahead(0);
        let ghost before = *self;
        match self.ahead.pop_front() {
            Some((token, place)) => {
                self.cursor = place;
                proof {
                    let src = self.src();
                    assert(before.ahead@[0] == (token, place));
                    assert(lex(src, further(src, before.cursor, 0)) == Some(before.ahead@[0]));
                    lemma_lex(src, before.cursor);
                    assert forall|i: int| 0 <= i < self.ahead@.len() implies lex(
                        src,
                        further(src, self.cursor, i as nat),
                    ) == Some(#[trigger] self.ahead@[i]) by {
                        assert(self.ahead@[i] == before.ahead@[i + 1]);
                        assert(further(src, before.cursor, (i + 1) as nat) == further(
                            src,
                            place,
                            i as nat,
                        ));
                    }
                }
                Some(token)
            },
            None => None,
        }
    }

    /// Remembers the current place.
    pub fn bookmark(&self) -> (bookmark: Bookmark)
        ensures
            bookmark.place() == self.cursor(),
    {
        Bookmark(self.cursor)
    }

    /// Goes back to the place where the bookmark was made.
    pub fn restore_bookmark(&mut self, bookmark: &Bookmark)
        requires
            old(self).wf(),
            in_source(old(self).src(), bookmark.place()),
        ensures
            final(self).wf(),
            final(self).src() == old(self).src(),
            final(self).cursor() == bookmark.place(),
    {
        if bookmark.0 != self.cursor {
            self.ahead.clear();
            self.cursor = bookmark.0;
        }
    }

    /// Switches to the given mode.
    fn enter(&mut self, mode: Mode)
        requires
            old(self).wf(),
        ensures
            final(self).wf(),
            final(self).src() == old(self).src(),
            final(self).cursor() == (Cursor { mode, ..old(self).cursor() }),
    {
        if self.cursor.mode != mode {
            self.ahead.clear();
            self.cursor = Cursor { pos: self.cursor.pos, index: self.cursor.index, mode };
        }
    }

    /// Switches to hex pattern mode.
    pub fn enter_hex_pattern_mode(&mut self)
        requires
            old(self).wf(),
        ensures
            final(self).wf(),
            final(self).src() == old(self).src(),
            final(self).cursor() == (Cursor { mode: Mode::HexPattern, ..old(self).cursor() }),
    {
        self.enter(Mode::HexPattern);
    }

    /// Switches to hex jump mode.
    pub fn enter_hex_jump_mode(&mut self)
        requires
            old(self).wf(),
        ensures
            final(self).wf(),
            final(self).src() == old(self).src(),
            final(self).cursor() == (Cursor { mode: Mode::HexJump, ..old(self).cursor() }),
    {
        self.enter(Mode::HexJump);
    }
}

} // verus!
