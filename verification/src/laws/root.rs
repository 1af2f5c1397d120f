//! There is one node for the whole file, around everything else.

use crate::event::EventView;
use crate::grammar::{production, Expr};
use crate::item::{after_next, events_from, events_of, parses_item, parses_next};
use crate::laws::frame::{
    lemma_begin, lemma_close, lemma_enter_not, lemma_enter_opt, lemma_eval_ahead,
    lemma_eval_alt_ahead, lemma_flush_errors, lemma_handle_errors, lemma_skip_until, lemma_take,
    lemma_trivia,
};
use crate::laws::items::{lemma_after_next, lemma_next};
use crate::laws::valid::{all_local, lemma_local_orderly, lemma_orderly, lemma_parts, orderly};
use crate::message::expecting_item;
use crate::semantics::{eval, eval_alt};
use crate::state::{error_events, kind_in, State};
use crate::syntax_kind::{kind_of, SyntaxKind};
use crate::token::{description_of, is_trivia_id, Token, TokenId};
use crate::token_stream::{lemma_lex, relevant_after, token_after};
use crate::tokenizer::lex;
use vstd::prelude::*;

verus! {

/// The event starts or ends the node of the whole file.
pub open spec fn is_root(event: EventView) -> bool {
    event == EventView::Begin(SyntaxKind::SOURCE_FILE) || event == EventView::End(
        SyntaxKind::SOURCE_FILE,
    )
}

/// No event starts or ends the node of the whole file.
pub open spec fn rootless(events: Seq<EventView>) -> bool {
    forall|i: int| 0 <= i < events.len() ==> !is_root(#[trigger] events[i])
}

/// One more event.
proof fn lemma_rootless_push(events: Seq<EventView>, event: EventView)
    requires
        rootless(events),
        !is_root(event),
    ensures
        rootless(events.push(event)),
{
    assert forall|i: int| 0 <= i < events.push(event).len() implies !is_root(
        #[trigger] events.push(event)[i],
    ) by {
        if i < events.len() {
            assert(events.push(event)[i] == events[i]);
        }
    }
}

/// Some more events.
proof fn lemma_rootless_cat(a: Seq<EventView>, b: Seq<EventView>)
    requires
        rootless(a),
        rootless(b),
    ensures
        rootless(a + b),
{
    assert forall|i: int| 0 <= i < (a + b).len() implies !is_root(#[trigger] (a + b)[i]) by {
        if i < a.len() {
            assert((a + b)[i] == a[i]);
        } else {
            assert((a + b)[i] == b[i - a.len()]);
        }
    }
}

/// Reporting errors.
proof fn lemma_rootless_flush(s: State)
    requires
        rootless(s.out.events),
    ensures
        rootless(s.flush_errors().out.events),
{
    lemma_rootless_cat(s.out.events, error_events(s.pending));
}

/// Taking a token.
proof fn lemma_rootless_take(s: State, kind: SyntaxKind)
    requires
        rootless(s.out.events),
    ensures
        rootless(s.take(kind).out.events),
{
    if let Some((token, _)) = lex(s.src, s.cursor) {
        lemma_rootless_push(s.out.events, EventView::Token(kind, token.span));
    }
}

proof fn lemma_rootless_trivia(s: State)
    requires
        s.placed(),
        rootless(s.out.events),
    ensures
        rootless(s.skip_trivia().out.events),
        rootless(s.trivia().out.events),
    decreases s.rest(),
{
    lemma_lex(s.src, s.cursor);
    if let Some((token, _)) = lex(s.src, s.cursor) {
        if is_trivia_id(token.id) {
            lemma_take(s, kind_of(token.id));
            lemma_rootless_take(s, kind_of(token.id));
            lemma_rootless_trivia(s.bump());
        }
    }
}

proof fn lemma_rootless_skip_until(s: State, set: Seq<SyntaxKind>)
    requires
        s.placed(),
        rootless(s.out.events),
    ensures
        rootless(s.skip_until(set).out.events),
    decreases s.rest(),
{
    lemma_lex(s.src, s.cursor);
    if let Some((token, _)) = lex(s.src, s.cursor) {
        if kind_in(set, token.id) is None {
            lemma_take(s, kind_of(token.id));
            lemma_rootless_take(s, kind_of(token.id));
            lemma_rootless_skip_until(s.bump(), set);
        }
    }
}

/// Starting a node.
proof fn lemma_rootless_begin(s: State, kind: SyntaxKind)
    requires
        rootless(s.out.events),
        kind != SyntaxKind::SOURCE_FILE,
    ensures
        rootless(s.out.begin(kind).events),
{
    lemma_rootless_push(s.out.events, EventView::Begin(kind));
}

/// Ending a node.
proof fn lemma_rootless_end(s: State)
    requires
        rootless(s.out.events),
        s.out.wf(),
        s.out.open.len() > 0,
    ensures
        rootless(s.out.end().events),
        rootless(s.out.end_with_error().events),
{
    let at = s.out.open.last();
    assert(at == s.out.open[s.out.open.len() - 1]);
    assert(!is_root(s.out.events[at]));
    lemma_rootless_push(s.out.events, EventView::End(s.out.events[at]->Begin_0));
    let error = s.out.events.update(at, EventView::Begin(SyntaxKind::ERROR));
    assert(rootless(error));
    lemma_rootless_push(error, EventView::End(SyntaxKind::ERROR));
}

proof fn lemma_rootless_expect(s: State, set: Seq<SyntaxKind>, description: Option<Seq<char>>)
    requires
        s.placed(),
        rootless(s.out.events),
    ensures
        rootless(s.expect(set, description).out.events),
{
    reveal(State::expect);
    if !s.failed {
        if let Some(token) = relevant_after(s.src, s.cursor) {
            let key = token.span.key_of();
            let unexpected = State { unexpected: s.unexpected.insert(key), ..s };
            lemma_handle_errors(unexpected);
            lemma_handle_errors(s.note_expected(key, set, description));
            if let Some(kind) = kind_in(set, token.id) {
                let noted = if s.in_not {
                    unexpected.handle_errors()
                } else {
                    s
                };
                lemma_rootless_trivia(noted);
                lemma_rootless_take(noted.trivia(), kind);
                lemma_rootless_flush(noted.trivia().take(kind));
            }
        }
    }
}

proof fn lemma_rootless_sync(s: State, set: Seq<SyntaxKind>)
    requires
        s.placed(),
        rootless(s.out.events),
    ensures
        rootless(s.sync(set).out.events),
{
    reveal(State::sync);
    lemma_trivia(s);
    lemma_rootless_trivia(s);
    let start = s.trivia();
    lemma_lex(start.src, start.cursor);
    if let Some(token) = token_after(start.src, start.cursor) {
        if kind_in(set, token.id) is None {
            let noted = start.note_expected(token.span.key_of(), set, None);
            lemma_rootless_flush(noted);
            lemma_handle_errors(noted);
            lemma_flush_errors(noted);
            let reported = if noted.pending.len() == 0 {
                noted.handle_errors()
            } else {
                noted.flush_errors()
            };
            let opened = State { out: reported.out.begin(SyntaxKind::ERROR), ..reported };
            lemma_rootless_begin(reported, SyntaxKind::ERROR);
            reported.out.lemma_begin(SyntaxKind::ERROR);
            lemma_skip_until(opened, set);
            lemma_rootless_skip_until(opened, set);
            lemma_rootless_end(opened.skip_until(set));
        }
    }
}

proof fn lemma_eval_rootless(expr: Expr, s: State, depth: nat)
    requires
        s.placed(),
        orderly(expr),
        rootless(s.out.events),
        eval(expr, s, depth) is Some,
    ensures
        rootless((eval(expr, s, depth)->0).out.events),
    decreases depth, expr,
{
    lemma_trivia(s);
    lemma_rootless_trivia(s);
    lemma_parts(expr);
    match expr {
        Expr::Expect(set, description) => lemma_rootless_expect(s, set, description),
        Expr::HexPatternMode | Expr::HexJumpMode | Expr::Recover => {},
        Expr::Sync(set) => lemma_rootless_sync(s, set),
        Expr::Cat(first, second) => {
            lemma_eval_ahead(*first, s, depth);
            lemma_eval_rootless(*first, s, depth);
            lemma_eval_rootless(*second, eval(*first, s, depth)->0, depth);
        },
        Expr::Node(kind, inner) => {
            let t = eval(*inner, s.begin(kind), depth)->0;
            lemma_begin(s, kind);
            lemma_rootless_begin(s.trivia(), kind);
            lemma_eval_ahead(*inner, s.begin(kind), depth);
            lemma_eval_rootless(*inner, s.begin(kind), depth);
            lemma_close(s.trivia(), kind, t);
            lemma_rootless_end(t);
        },
        Expr::Opt(inner) => if !s.failed {
            lemma_enter_opt(s);
            lemma_eval_ahead(*inner, s.enter_opt(), depth);
            lemma_eval_rootless(*inner, s.enter_opt(), depth);
        },
        Expr::Not(inner) => if !s.failed {
            lemma_enter_not(s);
            lemma_eval_ahead(*inner, s.enter_not(), depth);
            lemma_eval_rootless(*inner, s.enter_not(), depth);
        },
        Expr::IfNext(set, inner) => if !s.failed {
            if let Some(token) = relevant_after(s.src, s.cursor) {
                if kind_in(set, token.id) is Some {
                    lemma_eval_rootless(*inner, s.trivia(), depth);
                }
            }
        },
        Expr::IfNextElse(set, inner, other) => if !s.failed {
            if s.sees(set) {
                lemma_eval_rootless(*inner, s.trivia(), depth);
            } else {
                lemma_eval_rootless(*other, s.missed(set), depth);
            }
        },
        Expr::Many(inner) => if !s.failed {
            lemma_enter_opt(s);
            lemma_eval_ahead(*inner, s.enter_opt(), depth);
            lemma_eval_rootless(*inner, s.enter_opt(), depth);
            let t = eval(*inner, s.enter_opt(), depth)->0;
            if !t.failed {
                lemma_eval_rootless(expr, t.leave_opt(s), (depth - 1) as nat);
            }
        },
        Expr::One(inner) => if !s.failed {
            lemma_eval_rootless(*inner, s.trivia(), depth);
        },
        Expr::Cached(kind, inner) => if !s.cache.contains(
            (s.cursor.index, crate::state::code(kind)),
        ) {
            lemma_eval_rootless(*inner, s, depth);
        },
        Expr::Alt(exprs) => {
            lemma_eval_alt_ahead(exprs, s, depth);
            lemma_eval_alt_rootless(exprs, s, depth);
            let (t, _) = eval_alt(exprs, s, depth)->0;
            lemma_handle_errors(State { failed: true, ..t });
        },
        Expr::Rule(kind) => {
            lemma_orderly(kind);
            lemma_eval_rootless(production(kind), s, (depth - 1) as nat);
        },
    }
}

proof fn lemma_eval_alt_rootless(exprs: Seq<Expr>, s: State, depth: nat)
    requires
        s.placed(),
        all_local(exprs),
        rootless(s.out.events),
        eval_alt(exprs, s, depth) is Some,
    ensures
        rootless((eval_alt(exprs, s, depth)->0).0.out.events),
    decreases depth, exprs,
{
    if exprs.len() > 0 {
        lemma_eval_alt_ahead(exprs.drop_last(), s, depth);
        lemma_eval_alt_rootless(exprs.drop_last(), s, depth);
        let (t, matched) = eval_alt(exprs.drop_last(), s, depth)->0;
        if !matched && !t.failed {
            lemma_local_orderly(exprs.last());
            lemma_trivia(t);
            lemma_rootless_trivia(t);
            lemma_enter_opt(t);
            lemma_eval_ahead(exprs.last(), t.enter_opt(), depth);
            lemma_eval_rootless(exprs.last(), t.enter_opt(), depth);
            let u = eval(exprs.last(), t.enter_opt(), depth)->0;
            assert(u.leave_opt(s) == u.leave_opt(t));
        }
    }
}

/// A token that no item starts with.
proof fn lemma_rootless_reject(s: State, token: Token)
    requires
        s.placed(),
        rootless(s.out.events),
        token_after(s.src, s.cursor) == Some(token),
    ensures
        rootless(s.reject(token).out.events),
{
    let error = EventView::Error(expecting_item(description_of(token.id)), token.span);
    let reported = State { out: s.out.push(error), ..s };
    let begun = State { out: reported.out.begin(SyntaxKind::ERROR), ..reported };
    s.out.lemma_push(error);
    reported.out.lemma_begin(SyntaxKind::ERROR);
    lemma_rootless_push(s.out.events, error);
    lemma_rootless_begin(reported, SyntaxKind::ERROR);
    lemma_lex(s.src, s.cursor);
    lemma_take(begun, kind_of(token.id));
    lemma_rootless_take(begun, kind_of(token.id));
    lemma_rootless_end(begun.bump());
}

/// The next item.
proof fn lemma_next_rootless(s: State, t: State)
    requires
        s.placed(),
        rootless(s.out.events),
        parses_next(s, t),
    ensures
        rootless(t.out.events),
{
    let trimmed = s.trivia();
    let u = choose|u: State| #[trigger] parses_item(trimmed, u) && t == u.leave_item();
    lemma_trivia(s);
    lemma_rootless_trivia(s);
    if let Some(token) = token_after(trimmed.src, trimmed.cursor) {
        match token.id {
            TokenId::IMPORT_KW => {
                let rule = Expr::Rule(SyntaxKind::IMPORT_STMT);
                let depth = choose|depth: nat| #[trigger] eval(rule, trimmed, depth) == Some(u);
                lemma_eval_rootless(rule, trimmed, depth);
            },
            TokenId::GLOBAL_KW | TokenId::PRIVATE_KW | TokenId::RULE_KW => {
                let rule = Expr::Rule(SyntaxKind::RULE_DECL);
                let depth = choose|depth: nat| #[trigger] eval(rule, trimmed, depth) == Some(u);
                lemma_eval_rootless(rule, trimmed, depth);
            },
            _ => lemma_rootless_reject(trimmed, token),
        }
    }
    lemma_rootless_flush(u);
}

proof fn lemma_rest_rootless(s: State)
    requires
        s.placed(),
        !s.failed,
        s.out.events.len() == 0,
        s.out.open.len() == 0,
    ensures
        rootless(events_from(s)),
    decreases s.rest(),
{
    if s.cursor.pos < s.src.len() {
        let t = after_next(s);
        lemma_after_next(s);
        lemma_next(s, t);
        lemma_next_rootless(s, t);
        lemma_rest_rootless(t.drained());
        lemma_rootless_cat(t.out.events, events_from(t.drained()));
    }
}

/// Whatever the source is, the first event and no other one starts the node of
/// the whole file, and the last event and no other one ends it. So every token,
/// every error and every other node is between the two.
pub proof fn lemma_one_root(src: Seq<u8>)
    requires
        src.len() <= usize::MAX,
    ensures
        events_of(src).len() >= 2,
        events_of(src)[0] == EventView::Begin(SyntaxKind::SOURCE_FILE),
        events_of(src).last() == EventView::End(SyntaxKind::SOURCE_FILE),
        forall|i: int|
            0 < i < events_of(src).len() - 1 ==> !is_root(#[trigger] events_of(src)[i]),
{
    let s = State::initial(src);
    lemma_rest_rootless(s);
    assert forall|i: int| 0 < i < events_of(src).len() - 1 implies !is_root(
        #[trigger] events_of(src)[i],
    ) by {
        assert(events_of(src)[i] == events_from(s)[i - 1]);
    }
}

} // verus!
