//! The steps of the parser.
//!
//! Each function here does one of the steps that the grammar is made of. What
//! it does to the state of the parser is what [`State`] says of the step, or
//! what parsing the expression means if the step is made of others.

use crate::collections::{
    insert_text, new_pair_set, new_text_map, new_text_set, new_text_set_map, pair_set,
    pair_set_clear, pair_set_contains, pair_set_drain, pair_set_insert, text_map, text_map_contains,
    text_map_drain, text_map_insert, text_map_is_empty, text_set, text_set_map, text_set_map_clear,
    text_set_map_drain, text_set_map_insert, text_set_map_remove, texts_in_order,
};
use crate::event::{Event, EventView};
use crate::grammar::{
    alt, cached, cond, if_next, if_next_else, inner_of, n_or_more, node, not, one, one_or_more,
    opt, production, token, zero_or_more, Expr,
};
use crate::item::{after_next, events_from, events_of, parses_item, parses_next};
use crate::laws::items::{lemma_next, lemma_next_deterministic};
use crate::laws::frame::{
    ahead_of, lemma_ahead_refl, lemma_ahead_trans, lemma_begin, lemma_enter_not, lemma_enter_opt,
    lemma_expect, lemma_handle_errors, lemma_parses_ahead, lemma_restore, lemma_skip_trivia,
    lemma_sync, lemma_take, lemma_tries_ahead, lemma_trivia,
};
use crate::laws::progress::{
    consumes, keeps_failure, lemma_consumes, lemma_keeps_failure, lemma_productions,
    lemma_tries_failed,
};
use crate::message::{
    expecting_item_message, expecting_message, from_utf8_lossy, texts_of, unexpected,
    unexpected_message,
};
use crate::parser::token_set::{lemma_add_texts, TokenSet};
use crate::semantics::{
    lemma_alt, lemma_cached, lemma_cat, lemma_if_next, lemma_if_next_else, lemma_many_done,
    lemma_many_more, lemma_node, lemma_not, lemma_one, lemma_opt, lemma_rule, lemma_step,
    lemma_tries_more, lemma_tries_none, lemma_tries_skip, parses, tries,
};
use crate::span::Span;
use crate::state::{
    add_texts, code, error_events, greatest, is_greatest, is_token_set, key_le, key_within, State,
};
use crate::syntax_kind::{kind_of, token_id_of, SyntaxKind};
use crate::syntax_stream::{Output, SyntaxStream};
use crate::token::{Token, TokenId};
use crate::token_stream::{
    further, lemma_further, lemma_lex, relevant_after, token_after, TokenStream,
};
use crate::tokenizer::{in_source, Tokenizer};
use indexmap::{IndexMap, IndexSet};
use rustc_hash::{FxHashMap, FxHashSet};
use vstd::prelude::*;
use vstd::slice::*;

verus! {

/// Describes the state of the parser.
#[derive(Clone, Copy, PartialEq, Eq, Structural)]
pub enum ParserState {
    /// Indicates that the parser is at the start of the input.
    StartOfInput,
    /// Indicates that the parser is at the end of the input.
    EndOfInput,
    /// The parser is OK, it can continue parsing.
    OK,
    /// The parser has failed to parse some portion of the source code. It can
    /// recover from the failure and go back to OK.
    Failure,
}

/// The parser proper.
pub struct ParserImpl<'src> {
    /// Stream from where the parser consumes the input tokens.
    tokens: TokenStream<'src>,
    /// Stream where the parser puts the events that conform the syntax tree.
    output: SyntaxStream,
    /// The current state of the parser.
    state: ParserState,
    /// The parser is within an optional branch of the grammar. An optional
    /// branch is one that can fail without the whole production failing. For
    /// instance, in `A := B? C` the parser can fail while parsing `B`, but this
    /// failure is acceptable because `B` is optional. Less obvious cases are
    /// the alternatives and the repetitions (`(A|B)`, `A*`).
    in_opt: bool,
    /// The parser is within a negated branch of the grammar.
    in_not: bool,
    /// The tokens that were expected at each place.
    ///
    /// Consider the production `A := a? b`. Parsing `cb` fails at `c`, and the
    /// error message should be "expecting `a` or `b`, found `c`". It is
    /// produced when `b` is expected, but `a` was also valid at that point:
    /// that it was expected there has been recorded here, when it was tried.
    expected_token_errors: FxHashMap<(usize, usize), IndexSet<&'static str>>,
    /// The places where tokens were found that should not be there.
    unexpected_token_errors: FxHashSet<(usize, usize)>,
    /// Errors that are not yet sent to the output. Only the first error for a
    /// place is taken into account.
    pending_errors: IndexMap<(usize, usize), String>,
    /// The productions that failed: the index of a token and the code of a
    /// production, for each production that does not fit at that token. Only
    /// failures are stored, which is enough for speeding up some edge cases.
    cache: FxHashSet<(usize, usize)>,
}

/// Remembers a state of the parser.
pub struct Bookmark {
    tokens: crate::token_stream::Bookmark,
    output: crate::syntax_stream::Bookmark,
}

impl Bookmark {
    /// The bookmark was made in the given state.
    pub closed spec fn made_at(&self, s: State) -> bool {
        self.tokens.place() == s.cursor && self.output.len() == s.out.events.len()
    }
}

impl View for ParserImpl<'_> {
    type V = State;

    closed spec fn view(&self) -> State {
        State {
            src: self.tokens.src(),
            cursor: self.tokens.cursor(),
            out: self.output@,
            failed: self.state == ParserState::Failure,
            in_opt: self.in_opt,
            in_not: self.in_not,
            expected: text_set_map(self.expected_token_errors),
            unexpected: pair_set(self.unexpected_token_errors),
            pending: text_map(self.pending_errors),
            cache: pair_set(self.cache),
        }
    }
}

/// The later state is not behind the earlier one, and a failure has not been
/// forgotten.
pub open spec fn advances(earlier: State, later: State) -> bool {
    later.rest() <= earlier.rest() && (earlier.failed ==> later.failed)
}

/// Parsing the expression takes the parser from what it was before to what it
/// is after, which is still a proper parser.
pub open spec fn runs(expr: Expr, before: ParserImpl<'_>, after: ParserImpl<'_>) -> bool {
    runs_from(expr, before@, after)
}

/// Parsing the expression from a state leads to the given parser, which is a
/// proper one.
pub open spec fn runs_from(expr: Expr, s: State, after: ParserImpl<'_>) -> bool {
    after.wf() && parses(expr, s, after@)
}

impl<'src> ParserImpl<'src> {
    /// The parts of the parser fit together, and it is parsing.
    pub closed spec fn wf(&self) -> bool {
        &&& self.tokens.wf()
        &&& self.output.wf()
        &&& !self.output.draining()
        &&& self.state == ParserState::OK || self.state == ParserState::Failure
        &&& self@.wf()
    }

    /// The source code.
    pub closed spec fn src(&self) -> Seq<u8> {
        self.tokens.src()
    }

    /// The parts of the parser fit together, and it is between two items.
    pub closed spec fn idle(&self) -> bool {
        &&& self.tokens.wf()
        &&& self.output.wf()
        &&& self.state != ParserState::Failure
        &&& self.output@.open.len() == 0
        &&& self.state == ParserState::StartOfInput ==> self.output@.events.len() == 0
        &&& self@.wf()
    }

    /// No event has been returned yet.
    pub closed spec fn at_start(&self) -> bool {
        self.state == ParserState::StartOfInput
    }

    /// The events that have not been returned yet.
    pub closed spec fn remaining(&self) -> Seq<EventView> {
        match self.state {
            ParserState::StartOfInput => seq![EventView::Begin(SyntaxKind::SOURCE_FILE)]
                + events_from(self@) + seq![EventView::End(SyntaxKind::SOURCE_FILE)],
            ParserState::EndOfInput => Seq::empty(),
            _ => self@.out.events + events_from(self@.drained()) + seq![
                EventView::End(SyntaxKind::SOURCE_FILE),
            ],
        }
    }

    /// What the parser is at makes sense.
    pub proof fn lemma_wf(&self)
        requires
            self.wf(),
        ensures
            self@.wf(),
            self@.placed(),
    {
    }

    /// Returns true if the parser has failed.
    fn failed(&self) -> (yes: bool)
        ensures
            yes == self@.failed,
    {
        matches!(self.state, ParserState::Failure)
    }

    /// Returns the next token, without consuming it.
    ///
    /// Returns `None` if there are no more tokens.
    pub(crate) fn peek(&mut self) -> (token: Option<Token>)
        requires
            old(self).wf(),
        ensures
            final(self).wf(),
            final(self)@ == old(self)@,
            token == token_after(old(self)@.src, old(self)@.cursor),
    {
        self.tokens.peek_token(0)
    }

    /// Returns the next non-trivia token, without consuming any token.
    ///
    /// Trivia tokens are those that are not really relevant and can be ignored,
    /// like whitespaces, newlines, and comments. This function skips trivia
    /// tokens until finding one that is non-trivia.
    fn peek_non_ws(&mut self) -> (token: Option<Token>)
        requires
            old(self).wf(),
        ensures
            final(self).wf(),
            final(self)@ == old(self)@,
            token == relevant_after(old(self)@.src, old(self)@.cursor),
    {
        let ghost src = self@.src;
        let ghost cursor = self@.cursor;
        let mut i: usize = 0;
        loop
            invariant
                self.wf(),
                self@ == old(self)@,
                src == self@.src,
                cursor == self@.cursor,
                in_source(src, cursor),
                relevant_after(src, further(src, cursor, i as nat)) == relevant_after(src, cursor),
                further(src, cursor, i as nat).pos >= i,
            decreases src.len() - i,
        {
            proof {
                lemma_further(src, cursor, i as nat);
                lemma_lex(src, further(src, cursor, i as nat));
            }
            match self.tokens.peek_token(i) {
                Some(token) => {
                    if token.is_trivia() {
                        i += 1;
                    } else {
                        return Some(token);
                    }
                },
                None => return None,
            }
        }
    }

    /// Consumes the next token and returns it. The consumed token is also
    /// appended to the output.
    ///
    /// Returns `None` if there are no more tokens.
    pub(crate) fn bump(&mut self) -> (token: Option<Token>)
        requires
            old(self).wf(),
        ensures
            final(self).wf(),
            final(self)@ == old(self)@.bump(),
            token == token_after(old(self)@.src, old(self)@.cursor),
    {
        proof {
            lemma_lex(self@.src, self@.cursor);
        }
        let token = self.tokens.next_token();
        if let Some(token) = &token {
            proof {
                self.output.lemma_wf();
                self.output@.lemma_push(
                    EventView::Token(kind_of(token.id), token.span),
                );
            }
            self.output.push_token(SyntaxKind::of_token(token.id), token.span);
        }
        token
    }

    /// Sets a bookmark at the current parser state.
    ///
    /// This saves the current parser state, allowing the parser to try
    /// a grammar production, and if it fails, go back to the saved state
    /// and try a different grammar production.
    fn bookmark(&mut self) -> (bookmark: Bookmark)
        requires
            old(self).wf(),
        ensures
            final(self).wf(),
            final(self)@ == old(self)@,
            bookmark.made_at(old(self)@),
    {
        Bookmark { tokens: self.tokens.bookmark(), output: self.output.bookmark() }
    }

    /// Restores the parser to the state indicated by the bookmark.
    fn restore_bookmark(&mut self, bookmark: &Bookmark, Ghost(s): Ghost<State>)
        requires
            old(self).wf(),
            bookmark.made_at(s),
            s.placed(),
            ahead_of(old(self)@, s),
        ensures
            final(self).wf(),
            final(self)@ == old(self)@.restore(s),
            final(self)@.cursor == s.cursor,
            final(self)@.out == s.out,
    {
        proof {
            lemma_restore(s, self@);
        }
        self.tokens.restore_bookmark(&bookmark.tokens);
        self.output.truncate(&bookmark.output);
    }

    /// Switches to hex pattern mode.
    pub(crate) fn enter_hex_pattern_mode(&mut self)
        requires
            old(self).wf(),
        ensures
            runs(Expr::HexPatternMode, *old(self), *final(self)),
            advances(old(self)@, final(self)@),
    {
        proof {
            lemma_step(Expr::HexPatternMode, self@);
        }
        if self.failed() {
            return ;
        }
        self.tokens.enter_hex_pattern_mode();
    }

    /// Switches to hex jump mode.
    pub(crate) fn enter_hex_jump_mode(&mut self)
        requires
            old(self).wf(),
        ensures
            runs(Expr::HexJumpMode, *old(self), *final(self)),
            advances(old(self)@, final(self)@),
    {
        proof {
            lemma_step(Expr::HexJumpMode, self@);
        }
        if self.failed() {
            return ;
        }
        self.tokens.enter_hex_jump_mode();
    }

    /// Indicates the start of a non-terminal symbol of a given kind.
    ///
    /// Must be followed by a matching [`ParserImpl::end`].
    pub(crate) fn begin(&mut self, kind: SyntaxKind)
        requires
            old(self).wf(),
        ensures
            final(self).wf(),
            final(self)@ == old(self)@.begin(kind),
            advances(old(self)@, final(self)@),
    {
        proof {
            lemma_begin(self@, kind);
        }
        self.trivia();
        self.output.begin(kind);
    }

    /// Indicates the end of the non-terminal symbol that was previously
    /// started with [`ParserImpl::begin`].
    pub(crate) fn end(&mut self)
        requires
            old(self).wf(),
            old(self)@.out.open.len() > 0,
        ensures
            final(self).wf(),
            final(self)@ == old(self)@.end(),
    {
        if self.failed() {
            self.output.end_with_error();
        } else {
            self.output.end();
        }
        proof {
            self.output.lemma_wf();
        }
    }

    /// Ends a node that started in an earlier state.
    pub(crate) fn end_node(
        &mut self,
        kind: SyntaxKind,
        Ghost(inner): Ghost<Expr>,
        Ghost(s): Ghost<State>,
    )
        requires
            old(self).wf(),
            s.placed(),
            parses(inner, s.begin(kind), old(self)@),
        ensures
            runs_from(node(kind, inner), s, *final(self)),
            final(self)@.rest() <= s.rest(),
            keeps_failure(inner) ==> advances(s, final(self)@),
    {
        proof {
            lemma_begin(s, kind);
            lemma_parses_ahead(inner, s.begin(kind), self@);
            lemma_node(kind, inner, s, self@);
            if s.failed && keeps_failure(inner) {
                lemma_keeps_failure(inner, s.begin(kind), self@);
            }
        }
        self.end();
    }

    /// Ends the node of a production that started in an earlier state.
    pub(crate) fn end_production(&mut self, kind: SyntaxKind, Ghost(s): Ghost<State>)
        requires
            old(self).wf(),
            s.placed(),
            production(kind) == node(kind, inner_of(production(kind))),
            parses(inner_of(production(kind)), s.begin(kind), old(self)@),
        ensures
            runs_from(Expr::Rule(kind), s, *final(self)),
            final(self)@.rest() <= s.rest(),
            kind != SyntaxKind::RULE_DECL ==> advances(s, final(self)@),
    {
        self.end_node(kind, Ghost(inner_of(production(kind))), Ghost(s));
        proof {
            lemma_productions(kind);
            lemma_rule(kind, s, self@);
        }
    }

    /// Forgets a failure.
    pub(crate) fn recover(&mut self)
        requires
            old(self).wf(),
        ensures
            final(self).wf(),
            final(self)@ == old(self)@.recover(),
    {
        self.state = ParserState::OK;
    }

    /// Consumes trivia tokens until finding one that is non-trivia.
    ///
    /// Trivia tokens are those that are not really part of the language, like
    /// whitespaces, newlines and comments.
    pub(crate) fn trivia(&mut self)
        requires
            old(self).wf(),
        ensures
            final(self).wf(),
            final(self)@ == old(self)@.trivia(),
    {
        if self.failed() {
            return ;
        }
        loop
            invariant
                self.wf(),
                self@.skip_trivia() == old(self)@.skip_trivia(),
            ensures
                self.wf(),
                self@ == old(self)@.skip_trivia(),
            decreases self@.rest(),
        {
            proof {
                lemma_lex(self@.src, self@.cursor);
            }
            match self.peek() {
                Some(token) => {
                    if token.is_trivia() {
                        self.bump();
                    } else {
                        break ;
                    }
                },
                None => break ,
            }
        }
    }

    /// Records that the tokens of a set, or what a description says, were
    /// expected at a place.
    fn note_expected(
        &mut self,
        span: Span,
        expected_tokens: &TokenSet,
        description: Option<&'static str>,
    )
        requires
            old(self).wf(),
            is_token_set(expected_tokens@),
            key_within(old(self)@.src, span.key_of()),
        ensures
            final(self).wf(),
            final(self)@ == old(self)@.note_expected(
                span.key_of(),
                expected_tokens@,
                match description {
                    Some(text) => Some(text@),
                    None => None,
                },
            ),
    {
        let key = span.key();
        let ghost before = self@.expected_at(key);
        let mut texts = match text_set_map_remove(&mut self.expected_token_errors, key) {
            Some(texts) => texts,
            None => new_text_set(),
        };
        assert(text_set(texts) == before);
        match description {
            Some(description) => insert_text(&mut texts, description),
            None => {
                let ids = expected_tokens.token_ids();
                let ghost set = expected_tokens@;
                let mut i: usize = 0;
                assert(set.take(0) =~= Seq::empty());
                while i < ids.len()
                    invariant
                        i <= ids@.len() == set.len(),
                        forall|j: int|
                            0 <= j < ids@.len() ==> Some(#[trigger] ids@[j]) == token_id_of(set[j]),
                        text_set(texts) == add_texts(before, set.take(i as int)),
                    decreases ids@.len() - i,
                {
                    proof {
                        lemma_add_texts(before, set.take(i + 1));
                        assert(set.take(i + 1).drop_last() =~= set.take(i as int));
                    }
                    insert_text(&mut texts, ids[i].description());
                    i += 1;
                }
                assert(set.take(set.len() as int) =~= set);
                proof {
                    reveal(is_token_set);
                    lemma_add_texts(before, set);
                }
            },
        }
        text_set_map_insert(&mut self.expected_token_errors, key, texts);
        assert(self@.expected =~= old(self)@.note_expected(
            key,
            expected_tokens@,
            match description {
                Some(text) => Some(text@),
                None => None,
            },
        ).expected);
    }

    /// Sends the pending errors to the output, and forgets what was expected.
    pub(crate) fn flush_errors(&mut self)
        requires
            old(self).wf(),
        ensures
            final(self).wf(),
            final(self)@ == old(self)@.flush_errors(),
    {
        text_set_map_clear(&mut self.expected_token_errors);
        let ghost pending = self@.pending;
        let errors = text_map_drain(&mut self.pending_errors);
        let ghost all = errors@;
        let ghost events = self@.out.events;
        let ghost before = self@;
        for (key, message) in it: errors
            invariant
                self.wf(),
                it.seq() == all,
                all.len() == pending.len(),
                forall|i: int|
                    0 <= i < all.len() ==> ((#[trigger] all[i]).0, all[i].1@) == pending[i],
                self@ == (State {
                    out: Output {
                        events: events + error_events(pending.take(it.index())),
                        ..before.out
                    },
                    ..before
                }),
        {
            let ghost done = it.index();
            let span = Span { start: key.0, end: key.1 };
            assert(all[done] == (key, message));
            let ghost was = self@;
            self.output.push_error(message, span);
            proof {
                self.output.lemma_wf();
                assert(self@.expected == was.expected);
                assert(self@.unexpected == was.unexpected);
                assert(pending.take(done + 1) =~= pending.take(done).push(pending[done]));
                assert(events + error_events(pending.take(done + 1)) =~= (events + error_events(
                    pending.take(done),
                )).push(EventView::Error(message@, span)));
            }
        }
        assert(pending.take(pending.len() as int) =~= pending);
    }

    /// Takes out all that was expected, and returns what was expected at the
    /// last place. If several places start at the same offset, it is the one
    /// that ends last.
    fn last_expected(&mut self) -> (last: Option<((usize, usize), IndexSet<&'static str>)>)
        requires
            old(self).wf(),
        ensures
            final(self).wf(),
            final(self)@ == (State { expected: Map::empty(), ..old(self)@ }),
            match last {
                Some((key, texts)) => {
                    &&& greatest(old(self)@.expected.dom()) == Some(key)
                    &&& old(self)@.expected.contains_key(key)
                    &&& text_set(texts) == old(self)@.expected[key]
                },
                None => greatest(old(self)@.expected.dom()) is None,
            },
    {
        let ghost expected = self@.expected;
        let mut entries = text_set_map_drain(&mut self.expected_token_errors);
        let ghost all = entries@;
        let mut last: Option<((usize, usize), IndexSet<&'static str>)> = None;
        while entries.len() > 0
            invariant
                entries@.len() <= all.len(),
                entries@ == all.take(entries@.len() as int),
                forall|i: int|
                    0 <= i < all.len() ==> expected.contains_key((#[trigger] all[i]).0) && text_set(
                        all[i].1,
                    ) == expected[all[i].0],
                match last {
                    Some((key, texts)) => {
                        &&& expected.contains_key(key)
                        &&& text_set(texts) == expected[key]
                        &&& forall|i: int|
                            entries@.len() <= i < all.len() ==> key_le((#[trigger] all[i]).0, key)
                    },
                    None => entries@.len() == all.len(),
                },
            decreases entries@.len(),
        {
            let ghost n = entries@.len() - 1;
            if let Some((key, texts)) = entries.pop() {
                assert(all[n] == (key, texts));
                assert(entries@ =~= all.take(n));
                let better = match &last {
                    Some((best, _)) => best.0 < key.0 || (best.0 == key.0 && best.1 <= key.1),
                    None => true,
                };
                if better {
                    last = Some((key, texts));
                }
            }
        }
        proof {
            match last {
                Some((key, _)) => {
                    assert forall|other: (usize, usize)| #[trigger]
                        expected.dom().contains(other) implies key_le(other, key) by {
                        assert(expected.contains_key(other));
                    }
                    assert(is_greatest(expected.dom(), key));
                },
                None => {
                    assert forall|key: (usize, usize)| !is_greatest(expected.dom(), key) by {
                        if expected.contains_key(key) {
                            let i = choose|i: int|
                                0 <= i < all.len() && (#[trigger] all[i]).0 == key;
                        }
                    }
                },
            }
        }
        last
    }

    /// Takes out all the unexpected tokens, and returns the last one. If
    /// several tokens start at the same offset, it is the one that ends last.
    fn last_unexpected(&mut self) -> (last: Option<(usize, usize)>)
        requires
            old(self).wf(),
        ensures
            final(self).wf(),
            final(self)@ == (State { unexpected: Set::empty(), ..old(self)@ }),
            last == greatest(old(self)@.unexpected),
            last matches Some(key) ==> old(self)@.unexpected.contains(key),
    {
        let ghost unexpected = self@.unexpected;
        let items = pair_set_drain(&mut self.unexpected_token_errors);
        let mut last: Option<(usize, usize)> = None;
        let mut i: usize = 0;
        while i < items.len()
            invariant
                i <= items@.len(),
                match last {
                    Some(key) => items@.contains(key) && forall|j: int|
                        0 <= j < i ==> key_le(#[trigger] items@[j], key),
                    None => i == 0,
                },
            decreases items@.len() - i,
        {
            let key = items[i];
            assert(items@.contains(key));
            let better = match last {
                Some(best) => best.0 < key.0 || (best.0 == key.0 && best.1 <= key.1),
                None => true,
            };
            if better {
                last = Some(key);
            }
            i += 1;
        }
        proof {
            match last {
                Some(key) => {
                    assert forall|other: (usize, usize)| #[trigger]
                        unexpected.contains(other) implies key_le(other, key) by {
                        assert(items@.contains(other));
                    }
                    assert(is_greatest(unexpected, key));
                },
                None => {
                    assert forall|key: (usize, usize)| !is_greatest(unexpected, key) by {
                        assert(!items@.contains(key));
                    }
                },
            }
        }
        last
    }

    /// Turns what was expected, or should not be there, into an error.
    ///
    /// Out of all the places the last one is used. If there was something
    /// expected and something unexpected at it, the former is used. Within an
    /// optional branch nothing is done, as the failure may not be one.
    fn handle_errors(&mut self)
        requires
            old(self).wf(),
        ensures
            final(self).wf(),
            final(self)@ == old(self)@.handle_errors(),
    {
        proof {
            reveal(State::handle_errors);
        }
        if self.in_opt {
            return ;
        }
        let expected_token = self.last_expected();
        let unexpected_token = self.last_unexpected();
        let ghost cleared = self@;
        let (key, expected) = match (expected_token, unexpected_token) {
            (None, None) => {
                return ;
            },
            (None, Some(u)) => (u, None),
            (Some((e, expected)), None) => (e, Some(expected)),
            (Some((e, expected)), Some(u)) => if u.0 > e.0 {
                (u, None)
            } else {
                (e, Some(expected))
            },
        };
        // There's a previous error for the same span, ignore this one.
        if text_map_contains(&self.pending_errors, key) {
            return ;
        }
        assert(key_within(self@.src, key));
        let actual_token = from_utf8_lossy(slice_subrange(self.tokens.source(), key.0, key.1));
        let error_msg = match expected {
            Some(expected) => {
                let texts = texts_in_order(expected);
                assert(texts_of(texts@) =~= text_set(expected));
                expecting_message(texts.as_slice(), actual_token.as_str())
            },
            None => unexpected_message(actual_token.as_str()),
        };
        text_map_insert(&mut self.pending_errors, key, error_msg);
    }

    /// Checks that the next non-trivia token matches one of the expected
    /// tokens.
    ///
    /// If the next non-trivia token does not match any of the expected tokens,
    /// no token will be consumed, the parser will transition to a failure
    /// state and generate an error message. If it matches, the non-trivia
    /// token and any trivia token that appears in front of it will be
    /// consumed and sent to the output.
    pub(crate) fn expect(&mut self, expected_tokens: &TokenSet)
        requires
            old(self).wf(),
            is_token_set(expected_tokens@),
        ensures
            runs(token(expected_tokens@), *old(self), *final(self)),
            advances(old(self)@, final(self)@),
            !final(self)@.failed ==> final(self)@.rest() < old(self)@.rest(),
    {
        self.expect_d(expected_tokens, None)
    }

    /// Like [`ParserImpl::expect`], but allows specifying a custom
    /// description for the expected tokens.
    pub(crate) fn expect_d(&mut self, expected_tokens: &TokenSet, description: Option<&'static str>)
        requires
            old(self).wf(),
            is_token_set(expected_tokens@),
        ensures
            runs(
                Expr::Expect(
                    expected_tokens@,
                    match description {
                        Some(text) => Some(text@),
                        None => None,
                    },
                ),
                *old(self),
                *final(self),
            ),
            advances(old(self)@, final(self)@),
            !final(self)@.failed ==> final(self)@.rest() < old(self)@.rest(),
    {
        let ghost s = self@;
        let ghost text = match description {
            Some(text) => Some(text@),
            None => None,
        };
        proof {
            reveal(State::expect);
            lemma_expect(s, expected_tokens@, text);
            lemma_step(Expr::Expect(expected_tokens@, text), s);
        }
        if self.failed() {
            return ;
        }
        let found_expected_token = match self.peek_non_ws() {
            None => None,
            Some(token) => {
                proof {
                    lemma_skip_trivia(s);
                    lemma_lex(s.src, s.skip_trivia().cursor);
                }
                let found = expected_tokens.contains(&token);
                if found.is_some() {
                    // The expected token was found, but inside a "not" any
                    // "expect" is negated, and actually means that the token
                    // was *not* expected.
                    if self.in_not {
                        pair_set_insert(&mut self.unexpected_token_errors, token.span.key());
                        self.handle_errors();
                    }
                } else if !self.in_not {
                    self.note_expected(token.span, expected_tokens, description);
                    self.handle_errors();
                }
                found
            },
        };
        match found_expected_token {
            Some(kind) => {
                let ghost noted = self@;
                proof {
                    lemma_handle_errors(
                        State {
                            unexpected: s.unexpected.insert(
                                relevant_after(s.src, s.cursor)->0.span.key_of(),
                            ),
                            ..s
                        },
                    );
                    lemma_skip_trivia(noted);
                }
                // Consume any trivia token in front of the expected token.
                self.trivia();
                // Consume the expected token.
                if let Some(token) = self.tokens.next_token() {
                    self.output.push_token(kind, token.span);
                }
                proof {
                    lemma_lex(noted.src, noted.trivia().cursor);
                    self.output.lemma_wf();
                }
                // After matching a token that is not inside an "optional"
                // branch of the grammar, it's guaranteed that the parser won't
                // go back to a position at the left of the matched token. This
                // is a good opportunity for flushing errors.
                if !self.in_opt {
                    self.flush_errors();
                }
            },
            None => {
                self.state = ParserState::Failure;
            },
        }
    }

    /// Consumes any token that is not in the recovery set, putting them under
    /// an error node in the resulting tree.
    pub(crate) fn sync(&mut self, recovery_set: &TokenSet)
        requires
            old(self).wf(),
            is_token_set(recovery_set@),
        ensures
            runs(Expr::Sync(recovery_set@), *old(self), *final(self)),
            advances(old(self)@, final(self)@),
    {
        let ghost s = self@;
        proof {
            reveal(State::sync);
            lemma_sync(s, recovery_set@);
            lemma_step(Expr::Sync(recovery_set@), s);
        }
        self.trivia();
        match self.peek() {
            None => return ,
            Some(token) => {
                if recovery_set.contains(&token).is_some() {
                    return ;
                }
                proof {
                    lemma_lex(self@.src, self@.cursor);
                }
                self.note_expected(token.span, recovery_set, None);
                if text_map_is_empty(&self.pending_errors) {
                    self.handle_errors();
                } else {
                    self.flush_errors();
                }
            },
        }
        self.output.begin(SyntaxKind::ERROR);
        proof {
            self.output.lemma_wf();
        }
        let ghost opened = self@;
        proof {
            lemma_ahead_refl(opened);
        }
        loop
            invariant
                self.wf(),
                opened.placed(),
                opened.out.open.len() > 0,
                ahead_of(self@, opened),
                self@.skip_until(recovery_set@) == opened.skip_until(recovery_set@),
            ensures
                self.wf(),
                self@ == opened.skip_until(recovery_set@),
                self@.out.open.len() > 0,
            decreases self@.rest(),
        {
            let ghost now = self@;
            proof {
                lemma_lex(now.src, now.cursor);
            }
            match self.peek() {
                Some(token) => {
                    if recovery_set.contains(&token).is_some() {
                        break ;
                    } else {
                        self.bump();
                        proof {
                            lemma_take(now, kind_of(token.id));
                            lemma_ahead_trans(opened, now, self@);
                        }
                    }
                },
                None => break ,
            }
        }
        self.output.end();
        proof {
            self.output.lemma_wf();
        }
    }

    /// Recovers the parser from a previous error, consuming any token that is
    /// not in the recovery set and putting them under an error node in the
    /// resulting tree.
    ///
    /// The purpose of this function is establishing a point for the parser to
    /// recover from parsing errors. For instance, consider the productions:
    ///
    /// ```text
    /// A := aBC
    /// B := bb
    /// C := ccc
    /// ```
    ///
    /// Suppose that we are parsing the sequence `axxc`. It starts with `a`, but
    /// `B` fails because `x` is found instead of the expected `b`. As a result
    /// `C` is not attempted, and the entire `A` production fails.
    ///
    /// By recovering and skipping up to `c` after `B`, the `xx` tokens are
    /// consumed and `C` is tried at the `c`. The resulting tree is:
    ///
    /// ```text
    /// A
    ///   a
    ///   error
    ///     x
    ///     x
    ///   c
    /// ```
    pub(crate) fn recover_and_sync(&mut self, recovery_set: &TokenSet)
        requires
            old(self).wf(),
            is_token_set(recovery_set@),
        ensures
            parses(Expr::Recover, old(self)@, old(self)@.recover()),
            runs_from(Expr::Sync(recovery_set@), old(self)@.recover(), *final(self)),
            final(self)@.rest() <= old(self)@.rest(),
    {
        proof {
            lemma_step(Expr::Recover, self@);
        }
        self.recover();
        self.sync(recovery_set);
    }

    /// Applies `parser` optionally.
    ///
    /// If `parser` fails, the failure is ignored and the parser is reset to
    /// its previous state.
    pub(crate) fn opt<F: Fn(&mut ParserImpl<'src>)>(&mut self, Ghost(expr): Ghost<Expr>, parser: F)
        requires
            old(self).wf(),
            !old(self)@.failed ==> forall|p: &mut Self|
                p.wf() && p@.rest() <= old(self)@.rest() ==> #[trigger] call_requires(parser, (p,)),
            forall|p: &mut ParserImpl<'src>| #[trigger]
                call_ensures(parser, (p,), ()) ==> runs(expr, *p, *final(p)),
        ensures
            runs(opt(expr), *old(self), *final(self)),
            advances(old(self)@, final(self)@),
    {
        let ghost s = self@;
        if self.failed() {
            proof {
                lemma_step(opt(expr), s);
            }
            return ;
        }
        proof {
            lemma_enter_opt(s);
        }
        let bookmark = self.bookmark();
        let in_opt = self.in_opt;
        self.trivia();
        self.in_opt = true;
        parser(self);
        let ghost t = self@;
        proof {
            lemma_parses_ahead(expr, s.enter_opt(), t);
            lemma_opt(expr, s, t);
        }
        self.in_opt = in_opt;
        // Any error occurred while parsing the optional production is ignored.
        if self.failed() {
            self.recover();
            self.restore_bookmark(&bookmark, Ghost(s));
        }
    }

    /// Negates the result of `parser`.
    ///
    /// If `parser` is successful the parser transitions to failure state.
    pub(crate) fn not<F: Fn(&mut ParserImpl<'src>)>(&mut self, Ghost(expr): Ghost<Expr>, parser: F)
        requires
            old(self).wf(),
            !old(self)@.failed ==> forall|p: &mut Self|
                p.wf() && p@.rest() <= old(self)@.rest() ==> #[trigger] call_requires(parser, (p,)),
            forall|p: &mut ParserImpl<'src>| #[trigger]
                call_ensures(parser, (p,), ()) ==> runs(expr, *p, *final(p)),
        ensures
            runs(not(expr), *old(self), *final(self)),
            advances(old(self)@, final(self)@),
    {
        let ghost s = self@;
        if self.failed() {
            proof {
                lemma_step(not(expr), s);
            }
            return ;
        }
        proof {
            lemma_enter_not(s);
        }
        let bookmark = self.bookmark();
        let in_not = self.in_not;
        self.trivia();
        self.in_not = true;
        parser(self);
        let ghost t = self@;
        proof {
            lemma_parses_ahead(expr, s.enter_not(), t);
            lemma_not(expr, s, t);
        }
        self.in_not = in_not;
        self.state = if self.failed() {
            ParserState::OK
        } else {
            ParserState::Failure
        };
        self.restore_bookmark(&bookmark, Ghost(s));
    }

    /// Like [`ParserImpl::expect`], but optional.
    pub(crate) fn opt_expect(&mut self, expected_tokens: &TokenSet)
        requires
            old(self).wf(),
            is_token_set(expected_tokens@),
        ensures
            runs(opt(token(expected_tokens@)), *old(self), *final(self)),
            advances(old(self)@, final(self)@),
    {
        self.opt(
            Ghost(token(expected_tokens@)),
            |p: &mut Self|
                requires
                    p.wf(),
                ensures
                    runs(token(expected_tokens@), *old(p), *final(p))
                { p.expect(expected_tokens) },
        )
    }

    /// If the next non-trivia token matches one of the expected tokens,
    /// consume all trivia tokens and applies `parser`.
    ///
    /// `if_next(TOKEN, |p| p.expect(TOKEN))` is logically equivalent to
    /// `opt(|p| p.expect(TOKEN))`, but the former is more efficient because it
    /// doesn't do any backtracking. The closure is executed only after we are
    /// sure that the next non-trivia token is `TOKEN`.
    ///
    /// This can be used for replacing `opt` when the optional production can
    /// be unequivocally distinguished by its first token. For instance, in a
    /// YARA rule the metadata section is optional, but always starts with
    /// the `meta` keyword.
    pub(crate) fn if_next<F: Fn(&mut ParserImpl<'src>)>(
        &mut self,
        expected_tokens: &TokenSet,
        Ghost(expr): Ghost<Expr>,
        parser: F,
    )
        requires
            old(self).wf(),
            is_token_set(expected_tokens@),
            !old(self)@.failed ==> forall|p: &mut Self|
                p.wf() && p@.rest() <= old(self)@.rest() ==> #[trigger] call_requires(parser, (p,)),
            forall|p: &mut ParserImpl<'src>| #[trigger]
                call_ensures(parser, (p,), ()) ==> runs(expr, *p, *final(p)),
        ensures
            runs(if_next(expected_tokens@, expr), *old(self), *final(self)),
            advances(old(self)@, final(self)@),
    {
        let ghost s = self@;
        let ghost set = expected_tokens@;
        if self.failed() {
            proof {
                lemma_step(if_next(set, expr), s);
            }
            return ;
        }
        match self.peek_non_ws() {
            None => {
                proof {
                    lemma_step(if_next(set, expr), s);
                }
            },
            Some(token) => {
                if expected_tokens.contains(&token).is_some() {
                    proof {
                        lemma_trivia(s);
                    }
                    self.trivia();
                    parser(self);
                    proof {
                        lemma_parses_ahead(expr, s.trivia(), self@);
                        lemma_if_next(set, expr, s, self@);
                    }
                } else {
                    proof {
                        lemma_skip_trivia(s);
                        lemma_lex(s.src, s.skip_trivia().cursor);
                        lemma_step(if_next(set, expr), s);
                    }
                    self.note_expected(token.span, expected_tokens, None);
                }
            },
        }
    }

    /// If the next non-trivia token matches one of the expected tokens,
    /// consume all trivia tokens and applies `parser`. If not, applies
    /// `otherwise`.
    ///
    /// This is for productions that exclude each other. In contrast to
    /// alternatives, the second one is not tried where the first one fails:
    /// the next token alone decides between them.
    pub(crate) fn if_next_else<F: Fn(&mut ParserImpl<'src>), G: Fn(&mut ParserImpl<'src>)>(
        &mut self,
        expected_tokens: &TokenSet,
        Ghost(expr): Ghost<Expr>,
        Ghost(other): Ghost<Expr>,
        parser: F,
        otherwise: G,
    )
        requires
            old(self).wf(),
            is_token_set(expected_tokens@),
            !old(self)@.failed ==> forall|p: &mut Self|
                p.wf() && p@.rest() <= old(self)@.rest() ==> #[trigger] call_requires(parser, (p,)),
            !old(self)@.failed ==> forall|p: &mut Self|
                p.wf() && p@.rest() <= old(self)@.rest() ==> #[trigger] call_requires(
                    otherwise,
                    (p,),
                ),
            forall|p: &mut ParserImpl<'src>| #[trigger]
                call_ensures(parser, (p,), ()) ==> runs(expr, *p, *final(p)),
            forall|p: &mut ParserImpl<'src>| #[trigger]
                call_ensures(otherwise, (p,), ()) ==> runs(other, *p, *final(p)),
        ensures
            runs(if_next_else(expected_tokens@, expr, other), *old(self), *final(self)),
            advances(old(self)@, final(self)@),
    {
        let ghost s = self@;
        let ghost set = expected_tokens@;
        if self.failed() {
            proof {
                lemma_step(if_next_else(set, expr, other), s);
            }
            return ;
        }
        let found = match self.peek_non_ws() {
            None => false,
            Some(token) => if expected_tokens.contains(&token).is_some() {
                true
            } else {
                proof {
                    lemma_skip_trivia(s);
                    lemma_lex(s.src, s.skip_trivia().cursor);
                }
                self.note_expected(token.span, expected_tokens, None);
                false
            },
        };
        proof {
            lemma_trivia(s);
        }
        if found {
            self.trivia();
            parser(self);
            proof {
                lemma_parses_ahead(expr, s.trivia(), self@);
            }
        } else {
            otherwise(self);
            proof {
                lemma_parses_ahead(other, s.missed(set), self@);
            }
        }
        proof {
            lemma_if_next_else(set, expr, other, s, self@);
        }
    }

    /// Applies `parser` exactly one time.
    pub(crate) fn one<F: Fn(&mut ParserImpl<'src>)>(&mut self, Ghost(expr): Ghost<Expr>, parser: F)
        requires
            old(self).wf(),
            !old(self)@.failed ==> forall|p: &mut Self|
                p.wf() && p@.rest() <= old(self)@.rest() ==> #[trigger] call_requires(parser, (p,)),
            forall|p: &mut ParserImpl<'src>| #[trigger]
                call_ensures(parser, (p,), ()) ==> runs(expr, *p, *final(p)),
        ensures
            runs(one(expr), *old(self), *final(self)),
            advances(old(self)@, final(self)@),
    {
        let ghost s = self@;
        if self.failed() {
            proof {
                lemma_step(one(expr), s);
            }
            return ;
        }
        proof {
            lemma_trivia(s);
        }
        self.trivia();
        parser(self);
        proof {
            lemma_parses_ahead(expr, s.trivia(), self@);
            lemma_one(expr, s, self@);
        }
    }

    /// If the next non-trivia token matches one of the expected tokens,
    /// consume all trivia tokens, consume the expected token, and applies
    /// `parser`.
    ///
    /// This is similar to [`ParserImpl::if_next`], the difference between
    /// both functions reside on how they handle the expected token. `if_next`
    /// leaves the expected token in the stream, to be consumed by `parser`,
    /// while `cond` consumes the expected token too.
    pub(crate) fn cond<F: Fn(&mut ParserImpl<'src>)>(
        &mut self,
        expected_tokens: &TokenSet,
        Ghost(expr): Ghost<Expr>,
        parser: F,
    )
        requires
            old(self).wf(),
            is_token_set(expected_tokens@),
            !old(self)@.failed ==> forall|p: &mut Self|
                p.wf() && p@.rest() < old(self)@.rest() ==> #[trigger] call_requires(parser, (p,)),
            forall|p: &mut ParserImpl<'src>| #[trigger]
                call_ensures(parser, (p,), ()) ==> runs(expr, *p, *final(p)),
        ensures
            runs(cond(expected_tokens@, expr), *old(self), *final(self)),
            advances(old(self)@, final(self)@),
    {
        let ghost s = self@;
        let ghost set = expected_tokens@;
        self.if_next(
            expected_tokens,
            Ghost(token(set).and_one(expr)),
            |p: &mut Self|
                requires
                    p.wf(),
                    !s.failed,
                    p@.rest() <= s.rest(),
                ensures
                    runs(token(set).and_one(expr), *old(p), *final(p))
                {
                    let ghost start = p@;
                    p.expect(expected_tokens);
                    let ghost middle = p@;
                    p.one(
                        Ghost(expr),
                        |p: &mut Self|
                            requires
                                p.wf(),
                                p@.rest() < s.rest(),
                            ensures
                                runs(expr, *old(p), *final(p))
                            { parser(p) },
                    );
                    proof {
                        lemma_cat(token(set), one(expr), start, middle, p@);
                    }
                },
        );
    }

    /// Applies `parser` zero or more times.
    pub(crate) fn zero_or_more<F: Fn(&mut ParserImpl<'src>)>(
        &mut self,
        Ghost(expr): Ghost<Expr>,
        parser: F,
    )
        requires
            old(self).wf(),
            consumes(expr),
            !old(self)@.failed ==> forall|p: &mut Self|
                p.wf() && p@.rest() <= old(self)@.rest() ==> #[trigger] call_requires(parser, (p,)),
            forall|p: &mut Self| #[trigger]
                call_ensures(parser, (p,), ()) ==> runs(expr, *p, *final(p)),
        ensures
            runs(zero_or_more(expr), *old(self), *final(self)),
            advances(old(self)@, final(self)@),
    {
        self.n_or_more(0, Ghost(expr), parser)
    }

    /// Applies `parser` one or more times.
    pub(crate) fn one_or_more<F: Fn(&mut ParserImpl<'src>)>(
        &mut self,
        Ghost(expr): Ghost<Expr>,
        parser: F,
    )
        requires
            old(self).wf(),
            consumes(expr),
            !old(self)@.failed ==> forall|p: &mut Self|
                p.wf() && p@.rest() <= old(self)@.rest() ==> #[trigger] call_requires(parser, (p,)),
            forall|p: &mut Self| #[trigger]
                call_ensures(parser, (p,), ()) ==> runs(expr, *p, *final(p)),
        ensures
            runs(one_or_more(expr), *old(self), *final(self)),
            advances(old(self)@, final(self)@),
    {
        self.n_or_more(1, Ghost(expr), parser)
    }

    /// Applies `parser` N or more times.
    pub(crate) fn n_or_more<F: Fn(&mut ParserImpl<'src>)>(
        &mut self,
        n: usize,
        Ghost(expr): Ghost<Expr>,
        parser: F,
    )
        requires
            old(self).wf(),
            consumes(expr),
            !old(self)@.failed ==> forall|p: &mut Self|
                p.wf() && p@.rest() <= old(self)@.rest() ==> #[trigger] call_requires(parser, (p,)),
            forall|p: &mut Self| #[trigger]
                call_ensures(parser, (p,), ()) ==> runs(expr, *p, *final(p)),
        ensures
            runs(n_or_more(n as nat, expr), *old(self), *final(self)),
            advances(old(self)@, final(self)@),
    {
        let ghost s = self@;
        if self.failed() {
            proof {
                lemma_many_failed(n as nat, expr, s);
            }
            return ;
        }
        // The first N times that `parser` is called it must match.
        let mut i: usize = 0;
        while i < n
            invariant
                i <= n,
                s == old(self)@,
                self.wf(),
                !s.failed,
                !self@.failed,
                self@.rest() <= s.rest(),
                forall|p: &mut Self|
                    p.wf() && p@.rest() <= s.rest() ==> #[trigger] call_requires(parser, (p,)),
                forall|p: &mut Self| #[trigger]
                    call_ensures(parser, (p,), ()) ==> runs(expr, *p, *final(p)),
                forall|u: State|
                    parses(n_or_more((n - i) as nat, expr), self@, u) ==> #[trigger] parses(
                        n_or_more(n as nat, expr),
                        s,
                        u,
                    ),
            decreases n - i,
        {
            let ghost now = self@;
            let ghost left = (n - i - 1) as nat;
            proof {
                lemma_trivia(now);
            }
            self.trivia();
            parser(self);
            let ghost t = self@;
            proof {
                lemma_parses_ahead(expr, now.trivia(), t);
                lemma_one(expr, now, t);
                assert forall|u: State|
                    parses(n_or_more(left, expr), t, u) implies #[trigger] parses(
                    n_or_more(n as nat, expr),
                    s,
                    u,
                ) by {
                    lemma_cat(one(expr), n_or_more(left, expr), now, t, u);
                    assert(parses(n_or_more(left + 1, expr), now, u));
                }
            }
            if self.failed() {
                proof {
                    lemma_many_failed(left, expr, t);
                }
                return ;
            }
            i += 1;
        }
        // If the first N matches were ok, keep matching `parser` as much as
        // possible.
        loop
            invariant
                s == old(self)@,
                self.wf(),
                !s.failed,
                !self@.failed,
                self@.rest() <= s.rest(),
                consumes(expr),
                forall|p: &mut Self|
                    p.wf() && p@.rest() <= s.rest() ==> #[trigger] call_requires(parser, (p,)),
                forall|p: &mut Self| #[trigger]
                    call_ensures(parser, (p,), ()) ==> runs(expr, *p, *final(p)),
                forall|u: State|
                    parses(n_or_more(0, expr), self@, u) ==> #[trigger] parses(
                        n_or_more(n as nat, expr),
                        s,
                        u,
                    ),
            decreases self@.rest(),
        {
            let ghost now = self@;
            proof {
                lemma_enter_opt(now);
            }
            let bookmark = self.bookmark();
            let in_opt = self.in_opt;
            self.trivia();
            self.in_opt = true;
            parser(self);
            let ghost t = self@;
            proof {
                lemma_parses_ahead(expr, now.enter_opt(), t);
                lemma_consumes(expr, now.enter_opt(), t);
            }
            self.in_opt = in_opt;
            if self.failed() {
                self.recover();
                self.restore_bookmark(&bookmark, Ghost(now));
                proof {
                    lemma_many_done(expr, now, t);
                }
                return ;
            }
            proof {
                assert forall|u: State|
                    parses(n_or_more(0, expr), self@, u) implies #[trigger] parses(
                    n_or_more(n as nat, expr),
                    s,
                    u,
                ) by {
                    lemma_many_more(expr, now, t, u);
                }
            }
        }
    }

    /// Applies `parser`, unless it is known to fail at this place.
    pub(crate) fn cached<F: Fn(&mut ParserImpl<'src>)>(
        &mut self,
        kind: SyntaxKind,
        Ghost(expr): Ghost<Expr>,
        parser: F,
    )
        requires
            old(self).wf(),
            forall|p: &mut Self|
                p.wf() && p@.rest() <= old(self)@.rest() ==> #[trigger] call_requires(parser, (p,)),
            forall|p: &mut Self| #[trigger]
                call_ensures(parser, (p,), ()) ==> runs(expr, *p, *final(p)),
        ensures
            runs(cached(kind, expr), *old(self), *final(self)),
            final(self)@.rest() <= old(self)@.rest(),
            keeps_failure(expr) ==> advances(old(self)@, final(self)@),
    {
        let ghost s = self@;
        let entry = (self.tokens.current_token_index(), code_of(kind));
        if pair_set_contains(&self.cache, entry) {
            proof {
                lemma_step(cached(kind, expr), s);
            }
            self.state = ParserState::Failure;
            return ;
        }
        parser(self);
        proof {
            lemma_parses_ahead(expr, s, self@);
            if s.failed && keeps_failure(expr) {
                lemma_keeps_failure(expr, s, self@);
            }
            lemma_cached(kind, expr, s, self@);
        }
        if self.failed() {
            pair_set_insert(&mut self.cache, entry);
        }
    }

    /// Begins an alternative.
    ///
    /// # Example
    ///
    /// ```text
    /// let mut alternatives = p.begin_alt();
    /// p.alt(&mut alternatives, ..);
    /// p.alt(&mut alternatives, ..);
    /// p.end_alt(alternatives);
    /// ```
    pub(crate) fn begin_alt(&mut self) -> (alternatives: Alt)
        requires
            old(self).wf(),
        ensures
            final(self).wf(),
            final(self)@ == old(self)@,
            alternatives.exprs() == Seq::<Expr>::empty(),
            alternatives.start() == old(self)@,
            !alternatives.matched(),
            alternatives.at(final(self)@),
    {
        proof {
            lemma_tries_none(self@);
        }
        let ghost start = self@;
        Alt {
            matched: false,
            bookmark: self.bookmark(),
            exprs: Ghost(Seq::empty()),
            start: Ghost(start),
        }
    }

    /// Tries an alternative, unless a previous one already matched.
    pub(crate) fn alt<F: Fn(&mut ParserImpl<'src>)>(
        &mut self,
        alternatives: &mut Alt,
        Ghost(expr): Ghost<Expr>,
        parser: F,
    )
        requires
            old(self).wf(),
            old(alternatives).at(old(self)@),
            !old(alternatives).start().failed ==> forall|p: &mut Self|
                p.wf() && p@.rest() <= old(alternatives).start().rest()
                    ==> #[trigger] call_requires(parser, (p,)),
            forall|p: &mut Self| #[trigger]
                call_ensures(parser, (p,), ()) ==> runs(expr, *p, *final(p)),
        ensures
            final(self).wf(),
            final(alternatives).at(final(self)@),
            final(alternatives).start() == old(alternatives).start(),
            final(alternatives).exprs() == old(alternatives).exprs().push(expr),
    {
        let ghost s = alternatives.start();
        let ghost exprs = alternatives.exprs();
        let ghost now = self@;
        proof {
            lemma_tries_ahead(exprs, s, now, alternatives.matched);
            alternatives.exprs@ = exprs.push(expr);
        }
        if self.failed() || alternatives.matched {
            proof {
                lemma_tries_skip(exprs, expr, s, now, alternatives.matched);
            }
            return ;
        }
        proof {
            lemma_enter_opt(now);
        }
        let in_opt = self.in_opt;
        self.trivia();
        self.in_opt = true;
        parser(self);
        let ghost t = self@;
        proof {
            lemma_parses_ahead(expr, now.enter_opt(), t);
            lemma_tries_more(exprs, expr, s, now, t);
        }
        self.in_opt = in_opt;
        if self.failed() {
            // The current alternative didn't match, restore the token stream
            // to the position it has before trying to match.
            self.recover();
            proof {
                lemma_ahead_trans(s, now, self@);
            }
            self.restore_bookmark(&alternatives.bookmark, Ghost(s));
        } else {
            // The current alternative matched.
            alternatives.matched = true;
        }
    }

    /// Ends an alternative. If none of the alternatives matched, that's a
    /// failure.
    pub(crate) fn end_alt(&mut self, alternatives: Alt)
        requires
            old(self).wf(),
            alternatives.at(old(self)@),
        ensures
            final(self).wf(),
            parses(alt(alternatives.exprs()), alternatives.start(), final(self)@),
            advances(alternatives.start(), final(self)@),
    {
        proof {
            let (exprs, s) = (alternatives.exprs(), alternatives.start());
            lemma_tries_ahead(exprs, s, self@, alternatives.matched);
            lemma_alt(exprs, s, self@, alternatives.matched);
            lemma_handle_errors(State { failed: true, ..self@ });
            if s.failed {
                lemma_tries_failed(exprs, s, self@, alternatives.matched);
            }
        }
        if !alternatives.matched {
            self.state = ParserState::Failure;
            self.handle_errors();
        }
    }

    /// Creates a new parser that receives tokens from the given tokenizer.
    pub(crate) fn from(tokenizer: Tokenizer<'src>) -> (parser: Self)
        ensures
            parser.idle(),
            parser.at_start(),
            parser@ == State::initial(tokenizer.src()),
            parser.src() == tokenizer.src(),
            parser.remaining() == events_of(tokenizer.src()),
    {
        let parser = ParserImpl {
            tokens: TokenStream::new(tokenizer),
            output: SyntaxStream::new(),
            state: ParserState::StartOfInput,
            in_opt: false,
            in_not: false,
            expected_token_errors: new_text_set_map(),
            unexpected_token_errors: new_pair_set(),
            pending_errors: new_text_map(),
            cache: new_pair_set(),
        };
        proof {
            parser.tokens.lemma_wf();
            assert(parser@ =~= State::initial(tokenizer.src()));
        }
        parser
    }

    /// Returns the source code.
    pub(crate) fn source(&self) -> (source: &'src [u8])
        ensures
            source@ == self.src(),
    {
        self.tokens.source()
    }

    /// Parses a top-level item of a YARA source file.
    ///
    /// A top-level item is either an import statement or a rule declaration.
    ///
    /// ```text
    /// TOP_LEVEL_ITEM ::= ( IMPORT_STMT | RULE_DECL )
    /// ```
    pub(crate) fn top_level_item(&mut self)
        requires
            old(self).wf(),
        ensures
            final(self).wf(),
            parses_item(old(self)@, final(self)@),
    {
        let ghost s = self@;
        let token = match self.peek() {
            Some(token) => token,
            None => {
                self.state = ParserState::Failure;
                assert(self@.expected == s.expected);
                assert(self@.unexpected == s.unexpected);
                return ;
            },
        };
        match token.id {
            TokenId::IMPORT_KW => self.import_stmt(),
            TokenId::GLOBAL_KW | TokenId::PRIVATE_KW | TokenId::RULE_KW => self.rule_decl(),
            _ => {
                self.output.push_error(
                    expecting_item_message(token.id.description()),
                    token.span,
                );
                self.output.begin(SyntaxKind::ERROR);
                proof {
                    self.output.lemma_wf();
                    assert(self@.expected == s.expected);
                    assert(self@.unexpected == s.unexpected);
                    lemma_lex(s.src, s.cursor);
                }
                self.bump();
                self.output.end();
                self.state = ParserState::Failure;
                proof {
                    self.output.lemma_wf();
                }
            },
        }
    }

    /// Returns the next event.
    ///
    /// If all the events that have been produced so far have been returned
    /// already, the next top-level item is parsed. This means that the source
    /// code is parsed lazily, one item at a time, which saves memory by not
    /// producing all the events before they are consumed. The first event is
    /// returned before anything is parsed.
    pub(crate) fn next(&mut self) -> (event: Option<Event>)
        requires
            old(self).idle(),
        ensures
            final(self).idle(),
            !final(self).at_start(),
            final(self).src() == old(self).src(),
            old(self).at_start() ==> final(self).wf() && final(self)@ == old(self)@,
            match event {
                Some(event) => {
                    &&& old(self).remaining().len() > 0
                    &&& event@ == old(self).remaining()[0]
                    &&& final(self).remaining() == old(self).remaining().drop_first()
                },
                None => old(self).remaining().len() == 0 && final(self).remaining() == old(
                    self,
                ).remaining(),
            },
    {
        let ghost before = self.remaining();
        match self.state {
            ParserState::StartOfInput => {
                let ghost s = self@;
                self.state = ParserState::OK;
                proof {
                    self.output.lemma_empty();
                }
                assert(self@ == s);
                assert(s.drained() =~= s);
                assert(self.remaining() =~= before.drop_first());
                return Some(Event::Begin(SyntaxKind::SOURCE_FILE));
            },
            ParserState::EndOfInput => {
                return None;
            },
            _ => {},
        }
        let ghost buffered = self@;
        if let Some(event) = self.output.pop() {
            assert(self@.drained() =~= buffered.drained());
            assert(self.remaining() =~= before.drop_first());
            return Some(event);
        }
        proof {
            self.output.lemma_empty();
            self.tokens.lemma_wf();
            self.output.lemma_wf();
        }
        let ghost s = self@;
        assert(s.drained() =~= s);
        if self.tokens.has_more() {
            self.trivia();
            self.top_level_item();
            let ghost u = self@;
            self.flush_errors();
            pair_set_clear(&mut self.cache);
            self.state = ParserState::OK;
            proof {
                assert(self@ =~= u.leave_item());
                assert(parses_next(s, self@));
                lemma_next_deterministic(s, self@, after_next(s));
                lemma_next(s, self@);
                assert(before =~= self.remaining());
            }
        }
        let ghost buffered = self@;
        if let Some(event) = self.output.pop() {
            assert(self@.drained() =~= buffered.drained());
            assert(self.remaining() =~= before.drop_first());
            Some(event)
        } else {
            self.state = ParserState::EndOfInput;
            assert(before =~= seq![EventView::End(SyntaxKind::SOURCE_FILE)]);
            assert(self.remaining() =~= before.drop_first());
            Some(Event::End(SyntaxKind::SOURCE_FILE))
        }
    }
}

/// Some alternatives, of which the first ones have been tried.
pub struct Alt {
    /// One of the alternatives matched.
    matched: bool,
    /// Where the alternatives start.
    bookmark: Bookmark,
    /// The alternatives so far.
    exprs: Ghost<Seq<Expr>>,
    /// The state in which the alternatives started.
    start: Ghost<State>,
}

impl Alt {
    /// The alternatives so far.
    pub closed spec fn exprs(&self) -> Seq<Expr> {
        self.exprs@
    }

    /// The state in which the alternatives started.
    pub closed spec fn start(&self) -> State {
        self.start@
    }

    /// One of the alternatives so far matched.
    pub closed spec fn matched(&self) -> bool {
        self.matched
    }

    /// The parser can go back to where the alternatives started.
    pub closed spec fn marks_start(&self) -> bool {
        self.bookmark.made_at(self.start())
    }

    /// The alternatives so far have taken the parser to the given state.
    pub open spec fn at(&self, s: State) -> bool {
        &&& self.start().placed()
        &&& self.marks_start()
        &&& tries(self.exprs(), self.start(), s, self.matched())
    }
}

/// Returns the number by which a production is known in the cache.
fn code_of(kind: SyntaxKind) -> (n: usize)
    ensures
        n == code(kind),
{
    proof {
        reveal(code);
    }
    kind as usize
}

/// A parser that has failed repeats nothing.
proof fn lemma_many_failed(n: nat, expr: Expr, s: State)
    requires
        s.failed,
    ensures
        parses(n_or_more(n, expr), s, s),
    decreases n,
{
    if n == 0 {
        lemma_step(n_or_more(0, expr), s);
    } else {
        lemma_many_failed((n - 1) as nat, expr, s);
        lemma_step(one(expr), s);
        lemma_cat(one(expr), n_or_more((n - 1) as nat, expr), s, s, s);
    }
}

} // verus!
