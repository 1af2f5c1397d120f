//! The errors that the parser reports are about places in the source.

use crate::event::EventView;
use crate::grammar::{production, Expr};
use crate::item::{after_next, events_from, events_of, parses_item, parses_next};
use crate::laws::items::{lemma_after_next, lemma_next};
use crate::laws::combinators::{lemma_first_error, one_per_place};
use crate::laws::frame::{
    lemma_begin, lemma_enter_not, lemma_enter_opt, lemma_eval_ahead, lemma_eval_alt_ahead,
    lemma_flush_errors, lemma_handle_errors, lemma_skip_until, lemma_take, lemma_trivia,
};
use crate::message::expecting_item;
use crate::semantics::{eval, eval_alt};
use crate::state::{error_events, greatest, is_greatest, key_within, kind_in, State};
use crate::syntax_kind::{kind_of, SyntaxKind};
use crate::token::{description_of, is_trivia_id, TokenId};
use crate::token_stream::{lemma_lex, relevant_after, token_after};
use crate::tokenizer::{lex, Cursor};
use vstd::prelude::*;

verus! {

/// If the event is an error, it is within the source.
pub open spec fn is_within(src: Seq<u8>, event: EventView) -> bool {
    event matches EventView::Error(_, span) ==> key_within(src, span.key_of())
}

/// The errors among some events are within the source.
pub open spec fn are_within(src: Seq<u8>, events: Seq<EventView>) -> bool {
    forall|i: int| 0 <= i < events.len() ==> is_within(src, #[trigger] events[i])
}

/// What the parser has noted, and what it has reported, is within the source.
/// There is one pending error for each place.
spec fn noted_within(s: State) -> bool {
    &&& forall|key: (usize, usize)| #[trigger]
        s.expected.contains_key(key) ==> key_within(s.src, key)
    &&& forall|key: (usize, usize)| #[trigger]
        s.unexpected.contains(key) ==> key_within(s.src, key)
    &&& forall|i: int|
        0 <= i < s.pending.len() ==> key_within(s.src, (#[trigger] s.pending[i]).0)
    &&& one_per_place(s.pending)
}

/// As `noted_within`, with the output.
spec fn all_within(s: State) -> bool {
    noted_within(s) && are_within(s.src, s.out.events)
}

/// The next token that is not trivia is within the source.
proof fn lemma_relevant_within(src: Seq<u8>, at: Cursor)
    requires
        src.len() <= usize::MAX,
    ensures
        relevant_after(src, at) matches Some(token) ==> key_within(src, token.span.key_of()),
    decreases src.len() - at.pos,
{
    lemma_lex(src, at);
    if let Some((token, next)) = lex(src, at) {
        if is_trivia_id(token.id) {
            lemma_relevant_within(src, next);
        }
    }
}

proof fn lemma_note(
    s: State,
    key: (usize, usize),
    set: Seq<SyntaxKind>,
    description: Option<Seq<char>>,
)
    requires
        all_within(s),
        key_within(s.src, key),
    ensures
        all_within(s.note_expected(key, set, description)),
{
}

proof fn lemma_report(s: State, key: (usize, usize), message: Seq<char>)
    requires
        all_within(s),
        key_within(s.src, key),
    ensures
        all_within(s.report(key, message)),
{
    lemma_first_error(s, key, message);
}

proof fn lemma_handle(s: State)
    requires
        all_within(s),
    ensures
        all_within(s.handle_errors()),
{
    reveal(State::handle_errors);
    let cleared = State { expected: Map::empty(), unexpected: Set::empty(), ..s };
    assert(all_within(cleared));
    if let Some(key) = greatest(s.expected.dom()) {
        assert(is_greatest(s.expected.dom(), key));
        assert(s.expected.contains_key(key));
        lemma_report(
            cleared,
            key,
            crate::message::expecting(s.expected[key], s.text_at(key)),
        );
    }
    if let Some(key) = greatest(s.unexpected) {
        assert(is_greatest(s.unexpected, key));
        lemma_report(cleared, key, crate::message::unexpected(s.text_at(key)));
    }
}

proof fn lemma_flush(s: State)
    requires
        all_within(s),
    ensures
        all_within(s.flush_errors()),
{
    let t = s.flush_errors();
    let errors = error_events(s.pending);
    assert forall|i: int| 0 <= i < t.out.events.len() implies is_within(
        t.src,
        #[trigger] t.out.events[i],
    ) by {
        let n = s.out.events.len();
        if i < n {
            assert(t.out.events[i] == s.out.events[i]);
        } else {
            assert(t.out.events[i] == errors[i - n]);
            assert(key_within(s.src, s.pending[i - n].0));
        }
    }
}

proof fn lemma_take_within(s: State, kind: SyntaxKind)
    requires
        all_within(s),
    ensures
        all_within(s.take(kind)),
{
    let t = s.take(kind);
    assert forall|i: int| 0 <= i < t.out.events.len() implies is_within(
        t.src,
        #[trigger] t.out.events[i],
    ) by {
        if i < s.out.events.len() {
            assert(t.out.events[i] == s.out.events[i]);
        }
    }
}

proof fn lemma_trivia_within(s: State)
    requires
        s.placed(),
        all_within(s),
    ensures
        all_within(s.skip_trivia()),
        all_within(s.trivia()),
    decreases s.rest(),
{
    lemma_lex(s.src, s.cursor);
    if let Some((token, _)) = lex(s.src, s.cursor) {
        if is_trivia_id(token.id) {
            lemma_take(s, kind_of(token.id));
            lemma_take_within(s, kind_of(token.id));
            lemma_trivia_within(s.bump());
        }
    }
}

proof fn lemma_skip_until_within(s: State, set: Seq<SyntaxKind>)
    requires
        s.placed(),
        all_within(s),
    ensures
        all_within(s.skip_until(set)),
    decreases s.rest(),
{
    lemma_lex(s.src, s.cursor);
    if let Some((token, _)) = lex(s.src, s.cursor) {
        if kind_in(set, token.id) is None {
            lemma_take(s, kind_of(token.id));
            lemma_take_within(s, kind_of(token.id));
            lemma_skip_until_within(s.bump(), set);
        }
    }
}

/// Starting and ending nodes.
proof fn lemma_nodes_within(s: State, kind: SyntaxKind)
    requires
        all_within(s),
    ensures
        all_within(State { out: s.out.begin(kind), ..s }),
        s.out.open.len() > 0 && s.out.wf() ==> all_within(State { out: s.out.end(), ..s })
            && all_within(State { out: s.out.end_with_error(), ..s }),
{
    assert forall|i: int| 0 <= i < s.out.begin(kind).events.len() implies is_within(
        s.src,
        #[trigger] s.out.begin(kind).events[i],
    ) by {
        if i < s.out.events.len() {
            assert(s.out.begin(kind).events[i] == s.out.events[i]);
        }
    }
    if s.out.open.len() > 0 && s.out.wf() {
        let at = s.out.open.last();
        assert(at == s.out.open[s.out.open.len() - 1]);
        assert forall|i: int| 0 <= i < s.out.end().events.len() implies is_within(
            s.src,
            #[trigger] s.out.end().events[i],
        ) by {
            if i < s.out.events.len() {
                assert(s.out.end().events[i] == s.out.events[i]);
            }
        }
        assert forall|i: int| 0 <= i < s.out.end_with_error().events.len() implies is_within(
            s.src,
            #[trigger] s.out.end_with_error().events[i],
        ) by {
            if i < s.out.events.len() && i != at {
                assert(s.out.end_with_error().events[i] == s.out.events[i]);
            }
        }
    }
}

proof fn lemma_expect_within(s: State, set: Seq<SyntaxKind>, description: Option<Seq<char>>)
    requires
        s.placed(),
        all_within(s),
    ensures
        all_within(s.expect(set, description)),
{
    reveal(State::expect);
    lemma_relevant_within(s.src, s.cursor);
    if !s.failed {
        if let Some(token) = relevant_after(s.src, s.cursor) {
            let key = token.span.key_of();
            let unexpected = State { unexpected: s.unexpected.insert(key), ..s };
            assert(all_within(unexpected));
            lemma_handle(unexpected);
            lemma_handle_errors(unexpected);
            lemma_note(s, key, set, description);
            lemma_handle(s.note_expected(key, set, description));
            if let Some(kind) = kind_in(set, token.id) {
                let noted = if s.in_not {
                    unexpected.handle_errors()
                } else {
                    s
                };
                lemma_trivia(noted);
                lemma_trivia_within(noted);
                lemma_take_within(noted.trivia(), kind);
                lemma_flush(noted.trivia().take(kind));
            }
        }
    }
}

proof fn lemma_sync_within(s: State, set: Seq<SyntaxKind>)
    requires
        s.placed(),
        all_within(s),
    ensures
        all_within(s.sync(set)),
{
    reveal(State::sync);
    lemma_trivia(s);
    lemma_trivia_within(s);
    let start = s.trivia();
    lemma_lex(start.src, start.cursor);
    if let Some(token) = token_after(start.src, start.cursor) {
        if kind_in(set, token.id) is None {
            let noted = start.note_expected(token.span.key_of(), set, None);
            lemma_note(start, token.span.key_of(), set, None);
            lemma_handle(noted);
            lemma_flush(noted);
            lemma_handle_errors(noted);
            lemma_flush_errors(noted);
            let reported = if noted.pending.len() == 0 {
                noted.handle_errors()
            } else {
                noted.flush_errors()
            };
            let opened = State { out: reported.out.begin(SyntaxKind::ERROR), ..reported };
            lemma_nodes_within(reported, SyntaxKind::ERROR);
            reported.out.lemma_begin(SyntaxKind::ERROR);
            lemma_skip_until(opened, set);
            lemma_skip_until_within(opened, set);
            lemma_nodes_within(opened.skip_until(set), SyntaxKind::ERROR);
        }
    }
}

/// Going back to an earlier state.
proof fn lemma_back_within(s: State, t: State)
    requires
        all_within(s),
        noted_within(t),
        t.src == s.src,
        t.out.events == s.out.events,
    ensures
        all_within(t),
{
}

#[verifier::rlimit(30)]
proof fn lemma_eval_within(expr: Expr, s: State, depth: nat)
    requires
        s.placed(),
        all_within(s),
        eval(expr, s, depth) is Some,
    ensures
        all_within(eval(expr, s, depth)->0),
    decreases depth, expr,
{
    let end = eval(expr, s, depth)->0;
    lemma_trivia(s);
    lemma_trivia_within(s);
    match expr {
        Expr::Expect(set, description) => lemma_expect_within(s, set, description),
        Expr::HexPatternMode | Expr::HexJumpMode | Expr::Recover => {},
        Expr::Sync(set) => lemma_sync_within(s, set),
        Expr::Cat(first, second) => {
            lemma_eval_ahead(*first, s, depth);
            lemma_eval_within(*first, s, depth);
            lemma_eval_within(*second, eval(*first, s, depth)->0, depth);
        },
        Expr::Node(kind, inner) => {
            lemma_begin(s, kind);
            lemma_nodes_within(s.trivia(), kind);
            lemma_eval_ahead(*inner, s.begin(kind), depth);
            lemma_eval_within(*inner, s.begin(kind), depth);
            lemma_nodes_within(eval(*inner, s.begin(kind), depth)->0, kind);
        },
        Expr::Opt(inner) => if !s.failed {
            lemma_enter_opt(s);
            lemma_eval_ahead(*inner, s.enter_opt(), depth);
            lemma_eval_within(*inner, s.enter_opt(), depth);
            let t = eval(*inner, s.enter_opt(), depth)->0;
            if t.failed {
                lemma_back_within(s, end);
            }
        },
        Expr::Not(inner) => if !s.failed {
            lemma_enter_not(s);
            lemma_eval_ahead(*inner, s.enter_not(), depth);
            lemma_eval_within(*inner, s.enter_not(), depth);
            lemma_back_within(s, end);
        },
        Expr::IfNext(set, inner) => if !s.failed {
            lemma_relevant_within(s.src, s.cursor);
            if let Some(token) = relevant_after(s.src, s.cursor) {
                if kind_in(set, token.id) is Some {
                    lemma_eval_within(*inner, s.trivia(), depth);
                } else {
                    lemma_note(s, token.span.key_of(), set, None);
                }
            }
        },
        Expr::IfNextElse(set, inner, other) => if !s.failed {
            lemma_relevant_within(s.src, s.cursor);
            if s.sees(set) {
                lemma_eval_within(*inner, s.trivia(), depth);
            } else {
                if let Some(token) = relevant_after(s.src, s.cursor) {
                    lemma_note(s, token.span.key_of(), set, None);
                }
                lemma_eval_within(*other, s.missed(set), depth);
            }
        },
        Expr::Many(inner) => if !s.failed {
            lemma_enter_opt(s);
            lemma_eval_ahead(*inner, s.enter_opt(), depth);
            lemma_eval_within(*inner, s.enter_opt(), depth);
            let t = eval(*inner, s.enter_opt(), depth)->0;
            if t.failed {
                lemma_back_within(s, end);
            } else {
                lemma_eval_within(expr, t.leave_opt(s), (depth - 1) as nat);
            }
        },
        Expr::One(inner) => if !s.failed {
            lemma_eval_within(*inner, s.trivia(), depth);
        },
        Expr::Cached(kind, inner) => if !s.cache.contains(
            (s.cursor.index, crate::state::code(kind)),
        ) {
            lemma_eval_within(*inner, s, depth);
        },
        Expr::Alt(exprs) => {
            lemma_eval_alt_within(exprs, s, depth);
            let (t, matched) = eval_alt(exprs, s, depth)->0;
            if !matched {
                lemma_handle(State { failed: true, ..t });
            }
        },
        Expr::Rule(kind) => lemma_eval_within(production(kind), s, (depth - 1) as nat),
    }
}

proof fn lemma_eval_alt_within(exprs: Seq<Expr>, s: State, depth: nat)
    requires
        s.placed(),
        all_within(s),
        eval_alt(exprs, s, depth) is Some,
    ensures
        all_within((eval_alt(exprs, s, depth)->0).0),
    decreases depth, exprs,
{
    if exprs.len() > 0 {
        lemma_eval_alt_ahead(exprs.drop_last(), s, depth);
        lemma_eval_alt_within(exprs.drop_last(), s, depth);
        let (t, matched) = eval_alt(exprs.drop_last(), s, depth)->0;
        if !matched && !t.failed {
            lemma_trivia(t);
            lemma_trivia_within(t);
            lemma_enter_opt(t);
            lemma_eval_ahead(exprs.last(), t.enter_opt(), depth);
            lemma_eval_within(exprs.last(), t.enter_opt(), depth);
            let u = eval(exprs.last(), t.enter_opt(), depth)->0;
            assert(u.leave_opt(s) == u.leave_opt(t));
            if u.failed {
                lemma_back_within(t, u.leave_opt(t));
            }
        }
    }
}

/// The next item.
proof fn lemma_next_within(s: State, t: State)
    requires
        s.placed(),
        all_within(s),
        parses_next(s, t),
    ensures
        all_within(t),
{
    let trimmed = s.trivia();
    let u = choose|u: State| #[trigger] parses_item(trimmed, u) && t == u.leave_item();
    lemma_trivia(s);
    lemma_trivia_within(s);
    lemma_lex(trimmed.src, trimmed.cursor);
    if let Some(token) = token_after(trimmed.src, trimmed.cursor) {
        match token.id {
            TokenId::IMPORT_KW => {
                let rule = Expr::Rule(SyntaxKind::IMPORT_STMT);
                let depth = choose|depth: nat| #[trigger] eval(rule, trimmed, depth) == Some(u);
                lemma_eval_within(rule, trimmed, depth);
            },
            TokenId::GLOBAL_KW | TokenId::PRIVATE_KW | TokenId::RULE_KW => {
                let rule = Expr::Rule(SyntaxKind::RULE_DECL);
                let depth = choose|depth: nat| #[trigger] eval(rule, trimmed, depth) == Some(u);
                lemma_eval_within(rule, trimmed, depth);
            },
            _ => {
                let error = EventView::Error(
                    expecting_item(description_of(token.id)),
                    token.span,
                );
                let reported = State { out: trimmed.out.push(error), ..trimmed };
                trimmed.out.lemma_push(error);
                assert forall|i: int| 0 <= i < reported.out.events.len() implies is_within(
                    s.src,
                    #[trigger] reported.out.events[i],
                ) by {
                    if i < trimmed.out.events.len() {
                        assert(reported.out.events[i] == trimmed.out.events[i]);
                    }
                }
                let begun = State { out: reported.out.begin(SyntaxKind::ERROR), ..reported };
                reported.out.lemma_begin(SyntaxKind::ERROR);
                lemma_nodes_within(reported, SyntaxKind::ERROR);
                lemma_take(begun, kind_of(token.id));
                lemma_take_within(begun, kind_of(token.id));
                lemma_nodes_within(begun.bump(), SyntaxKind::ERROR);
            },
        }
    }
    lemma_flush(u);
}

proof fn lemma_rest_within(s: State)
    requires
        s.placed(),
        !s.failed,
        noted_within(s),
        s.out.events.len() == 0,
        s.out.open.len() == 0,
    ensures
        are_within(s.src, events_from(s)),
    decreases s.rest(),
{
    if s.cursor.pos < s.src.len() {
        let t = after_next(s);
        lemma_after_next(s);
        lemma_next(s, t);
        lemma_next_within(s, t);
        let next = t.drained();
        lemma_rest_within(next);
        assert forall|i: int| 0 <= i < events_from(s).len() implies is_within(
            s.src,
            #[trigger] events_from(s)[i],
        ) by {
            let n = t.out.events.len();
            if i < n {
                assert(events_from(s)[i] == t.out.events[i]);
            } else {
                assert(events_from(s)[i] == events_from(next)[i - n]);
            }
        }
    }
}

/// Whatever the source is, the errors that are reported are about places in it.
pub proof fn lemma_errors_within(src: Seq<u8>)
    requires
        src.len() <= usize::MAX,
    ensures
        are_within(src, events_of(src)),
{
    let s = State::initial(src);
    lemma_rest_within(s);
    assert forall|i: int| 0 <= i < events_of(src).len() implies is_within(
        src,
        #[trigger] events_of(src)[i],
    ) by {
        if 0 < i < events_of(src).len() - 1 {
            assert(events_of(src)[i] == events_from(s)[i - 1]);
        }
    }
}

} // verus!
