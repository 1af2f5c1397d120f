//! What the parser does to its state: the steps that the grammar is made of.

use crate::collections::{add_text, has_key};
use crate::event::EventView;
use crate::message::{expecting, lossy_text, unexpected};
use crate::span::Span;
use crate::syntax_kind::{kind_of, token_id_of, SyntaxKind};
use crate::syntax_stream::Output;
use crate::token::{description_of, is_trivia_id, TokenId};
use crate::token_stream::{lemma_lex, relevant_after, token_after};
use crate::tokenizer::{in_source, lex, Cursor, Mode};
use vstd::prelude::*;

verus! {

/// The state of the parser.
#[verifier::ext_equal]
pub struct State {
    /// The source code.
    pub src: Seq<u8>,
    /// The place of the next token.
    pub cursor: Cursor,
    /// The events that make up the syntax tree.
    pub out: Output,
    /// The parser has failed to parse some portion of the source.
    pub failed: bool,
    /// The parser is within an optional branch of the grammar, one that can
    /// fail without the whole production failing.
    pub in_opt: bool,
    /// The parser is within a negated branch of the grammar.
    pub in_not: bool,
    /// What was expected, and not found, at each place.
    pub expected: Map<(usize, usize), Seq<Seq<char>>>,
    /// The places of the tokens that were found but should not be there.
    pub unexpected: Set<(usize, usize)>,
    /// The errors that have not been sent to the output yet.
    pub pending: Seq<((usize, usize), Seq<char>)>,
    /// The productions that are known to fail: the index of a token and the
    /// code of the production.
    pub cache: Set<(usize, usize)>,
}

/// The first kind of a set that the token has.
pub open spec fn kind_in(set: Seq<SyntaxKind>, id: TokenId) -> Option<SyntaxKind>
    decreases set.len(),
{
    if set.len() == 0 {
        None
    } else if token_id_of(set[0]) == Some(id) {
        Some(set[0])
    } else {
        kind_in(set.drop_first(), id)
    }
}

/// How a kind of token is called in error messages.
pub open spec fn text_of(kind: SyntaxKind) -> Seq<char> {
    description_of(token_id_of(kind)->0)
}

/// Some texts after adding those of the kinds of a set.
pub open spec fn add_texts(texts: Seq<Seq<char>>, set: Seq<SyntaxKind>) -> Seq<Seq<char>>
    decreases set.len(),
{
    if set.len() == 0 {
        texts
    } else {
        add_texts(add_text(texts, text_of(set[0])), set.drop_first())
    }
}

/// All the kinds of the set are kinds of tokens, and there is one.
#[verifier::opaque]
pub open spec fn is_token_set(set: Seq<SyntaxKind>) -> bool {
    &&& set.len() > 0
    &&& forall|i: int| 0 <= i < set.len() ==> token_id_of(#[trigger] set[i]) is Some
}

/// The number by which a production is known in the cache.
#[verifier::opaque]
pub open spec fn code(kind: SyntaxKind) -> usize {
    kind as usize
}

/// The key is the one of a span that lies within the source.
pub open spec fn key_within(src: Seq<u8>, key: (usize, usize)) -> bool {
    key.0 <= key.1 <= src.len()
}

/// A key goes before another one if its span starts before, or starts at the
/// same place and does not end after.
pub open spec fn key_le(a: (usize, usize), b: (usize, usize)) -> bool {
    a.0 < b.0 || (a.0 == b.0 && a.1 <= b.1)
}

/// The key is in the set, and none goes after it.
pub open spec fn is_greatest(keys: Set<(usize, usize)>, key: (usize, usize)) -> bool {
    &&& keys.contains(key)
    &&& forall|other: (usize, usize)| #[trigger] keys.contains(other) ==> key_le(other, key)
}

/// The last key of a set, if there is one.
pub open spec fn greatest(keys: Set<(usize, usize)>) -> Option<(usize, usize)> {
    if exists|key: (usize, usize)| is_greatest(keys, key) {
        Some(choose|key: (usize, usize)| is_greatest(keys, key))
    } else {
        None
    }
}

/// The events for some errors.
pub open spec fn error_events(errors: Seq<((usize, usize), Seq<char>)>) -> Seq<EventView> {
    errors.map_values(
        |error: ((usize, usize), Seq<char>)|
            EventView::Error(error.1, Span { start: error.0.0, end: error.0.1 }),
    )
}

impl State {
    /// The state makes sense: the place is within the source, and so are the
    /// errors.
    pub open spec fn wf(self) -> bool {
        &&& in_source(self.src, self.cursor)
        &&& self.out.wf()
        &&& forall|key: (usize, usize)| #[trigger]
            self.expected.contains_key(key) ==> key_within(self.src, key)
                && self.expected[key].len() > 0
        &&& forall|key: (usize, usize)| #[trigger]
            self.unexpected.contains(key) ==> key_within(self.src, key)
    }

    /// How many bytes are left.
    pub open spec fn rest(self) -> nat {
        (self.src.len() - self.cursor.pos) as nat
    }

    /// The next token goes to the output, under the given kind.
    pub open spec fn take(self, kind: SyntaxKind) -> State {
        match lex(self.src, self.cursor) {
            Some((token, next)) => State {
                cursor: next,
                out: self.out.push(EventView::Token(kind, token.span)),
                ..self
            },
            None => self,
        }
    }

    /// The next token, whatever it is, goes to the output.
    pub open spec fn bump(self) -> State {
        match lex(self.src, self.cursor) {
            Some((token, _)) => self.take(kind_of(token.id)),
            None => self,
        }
    }

    /// The trivia tokens that come next go to the output.
    pub open spec fn skip_trivia(self) -> State
        decreases self.src.len() - self.cursor.pos,
        when self.src.len() <= usize::MAX
    {
        proof {
            lemma_lex(self.src, self.cursor);
        }
        match lex(self.src, self.cursor) {
            Some((token, _)) => if is_trivia_id(token.id) {
                self.bump().skip_trivia()
            } else {
                self
            },
            None => self,
        }
    }

    /// As `skip_trivia`, but a parser that has failed stays where it is.
    pub open spec fn trivia(self) -> State {
        if self.failed {
            self
        } else {
            self.skip_trivia()
        }
    }

    /// The tokens up to one of a set, or up to the end, go to the output.
    pub open spec fn skip_until(self, set: Seq<SyntaxKind>) -> State
        decreases self.src.len() - self.cursor.pos,
        when self.src.len() <= usize::MAX
    {
        proof {
            lemma_lex(self.src, self.cursor);
        }
        match lex(self.src, self.cursor) {
            Some((token, _)) => if kind_in(set, token.id) is Some {
                self
            } else {
                self.bump().skip_until(set)
            },
            None => self,
        }
    }

    /// What was expected at a place.
    pub open spec fn expected_at(self, key: (usize, usize)) -> Seq<Seq<char>> {
        if self.expected.contains_key(key) {
            self.expected[key]
        } else {
            Seq::empty()
        }
    }

    /// The tokens of a set, or what the description says, were expected at a
    /// place.
    pub open spec fn note_expected(
        self,
        key: (usize, usize),
        set: Seq<SyntaxKind>,
        description: Option<Seq<char>>,
    ) -> State {
        State {
            expected: self.expected.insert(
                key,
                match description {
                    Some(text) => add_text(self.expected_at(key), text),
                    None => add_texts(self.expected_at(key), set),
                },
            ),
            ..self
        }
    }

    /// The next token that is not trivia is in a set.
    pub open spec fn sees(self, set: Seq<SyntaxKind>) -> bool {
        relevant_after(self.src, self.cursor) matches Some(token) && kind_in(set, token.id) is Some
    }

    /// The tokens of a set were expected at the next token that is not trivia,
    /// if there is one.
    pub open spec fn missed(self, set: Seq<SyntaxKind>) -> State {
        match relevant_after(self.src, self.cursor) {
            None => self,
            Some(token) => self.note_expected(token.span.key_of(), set, None),
        }
    }

    /// The source text between the two ends of a span.
    pub open spec fn text_at(self, key: (usize, usize)) -> Seq<char> {
        lossy_text(self.src.subrange(key.0 as int, key.1 as int))
    }

    /// There is an error at a place, unless there was one already.
    pub open spec fn report(self, key: (usize, usize), message: Seq<char>) -> State {
        if has_key(self.pending, key) {
            self
        } else {
            State { pending: self.pending.push((key, message)), ..self }
        }
    }

    /// Out of the places where something was expected, or should not be there,
    /// the last one is where the error is. Within an optional branch there is
    /// no error yet.
    #[verifier::opaque]
    pub open spec fn handle_errors(self) -> State {
        let cleared = State { expected: Map::empty(), unexpected: Set::empty(), ..self };
        if self.in_opt {
            self
        } else {
            match (greatest(self.expected.dom()), greatest(self.unexpected)) {
                (None, None) => cleared,
                (None, Some(key)) => cleared.report(key, unexpected(self.text_at(key))),
                (Some(key), None) => cleared.report(
                    key,
                    expecting(self.expected[key], self.text_at(key)),
                ),
                (Some(e), Some(u)) => if u.0 > e.0 {
                    cleared.report(u, unexpected(self.text_at(u)))
                } else {
                    cleared.report(e, expecting(self.expected[e], self.text_at(e)))
                },
            }
        }
    }

    /// The errors go to the output, and what was expected is forgotten.
    pub open spec fn flush_errors(self) -> State {
        State {
            expected: Map::empty(),
            pending: Seq::empty(),
            out: Output { events: self.out.events + error_events(self.pending), ..self.out },
            ..self
        }
    }

    /// The next token that is not trivia must be in a set. If it is, it goes to
    /// the output with the trivia in front of it. If it is not, the parser
    /// fails.
    #[verifier::opaque]
    pub open spec fn expect(
        self,
        set: Seq<SyntaxKind>,
        description: Option<Seq<char>>,
    ) -> State {
        if self.failed {
            self
        } else {
            match relevant_after(self.src, self.cursor) {
                None => State { failed: true, ..self },
                Some(token) => {
                    let key = token.span.key_of();
                    match kind_in(set, token.id) {
                        Some(kind) => {
                            let noted = if self.in_not {
                                State {
                                    unexpected: self.unexpected.insert(key),
                                    ..self
                                }.handle_errors()
                            } else {
                                self
                            };
                            let taken = noted.trivia().take(kind);
                            if taken.in_opt {
                                taken
                            } else {
                                taken.flush_errors()
                            }
                        },
                        None => {
                            let noted = if self.in_not {
                                self
                            } else {
                                self.note_expected(key, set, description).handle_errors()
                            };
                            State { failed: true, ..noted }
                        },
                    }
                },
            }
        }
    }

    /// The parser goes back to OK.
    pub open spec fn recover(self) -> State {
        State { failed: false, ..self }
    }

    /// The tokens up to one of a set go to the output under an error node.
    #[verifier::opaque]
    pub open spec fn sync(self, set: Seq<SyntaxKind>) -> State {
        let start = self.trivia();
        match token_after(start.src, start.cursor) {
            None => start,
            Some(token) => if kind_in(set, token.id) is Some {
                start
            } else {
                let noted = start.note_expected(token.span.key_of(), set, None);
                let reported = if noted.pending.len() == 0 {
                    noted.handle_errors()
                } else {
                    noted.flush_errors()
                };
                let opened = State { out: reported.out.begin(SyntaxKind::ERROR), ..reported };
                let skipped = opened.skip_until(set);
                State { out: skipped.out.end(), ..skipped }
            },
        }
    }

    /// A node starts.
    pub open spec fn begin(self, kind: SyntaxKind) -> State {
        let start = self.trivia();
        State { out: start.out.begin(kind), ..start }
    }

    /// The innermost open node ends; it is an error if the parser has failed.
    pub open spec fn end(self) -> State {
        State {
            out: if self.failed {
                self.out.end_with_error()
            } else {
                self.out.end()
            },
            ..self
        }
    }

    /// The tokenizer is switched to a mode.
    pub open spec fn enter(self, mode: Mode) -> State {
        if self.failed {
            self
        } else {
            State { cursor: Cursor { mode, ..self.cursor }, ..self }
        }
    }

    /// The parser goes back to where it was in an earlier state.
    pub open spec fn restore(self, earlier: State) -> State {
        State {
            cursor: earlier.cursor,
            out: self.out.truncate(earlier.out.events.len() as int),
            ..self
        }
    }

    /// An optional branch starts.
    pub open spec fn enter_opt(self) -> State {
        State { in_opt: true, ..self.trivia() }
    }

    /// An optional branch that started in an earlier state ends: a failure is
    /// forgotten, and the parser goes back.
    pub open spec fn leave_opt(self, earlier: State) -> State {
        let left = State { in_opt: earlier.in_opt, ..self };
        if left.failed {
            left.recover().restore(earlier)
        } else {
            left
        }
    }

    /// A negated branch starts.
    pub open spec fn enter_not(self) -> State {
        State { in_not: true, ..self.trivia() }
    }

    /// A negated branch that started in an earlier state ends: success is
    /// failure, failure is success, and the parser goes back.
    pub open spec fn leave_not(self, earlier: State) -> State {
        State { in_not: earlier.in_not, failed: !self.failed, ..self }.restore(earlier)
    }

    /// No alternative fits.
    pub open spec fn no_match(self) -> State {
        State { failed: true, ..self }.handle_errors()
    }

    /// A production is known to fail at a place.
    pub open spec fn cache_failure(self, index: usize, kind: SyntaxKind) -> State {
        if self.failed {
            State { cache: self.cache.insert((index, code(kind))), ..self }
        } else {
            self
        }
    }
}

} // verus!
