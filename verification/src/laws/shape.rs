//! The shape of the sequences of events that the parser produces.

use crate::event::EventView;
use crate::grammar::{production, Expr};
use crate::laws::frame::{
    ahead_of, lemma_begin, lemma_close, lemma_enter_not, lemma_enter_opt, lemma_eval_ahead,
    lemma_eval_alt_ahead, lemma_flush_errors, lemma_handle_errors, lemma_skip_until, lemma_take,
    lemma_trivia,
};
use crate::semantics::{eval, eval_alt, parses};
use crate::state::{code, error_events, kind_in, State};
use crate::syntax_kind::{kind_of, SyntaxKind};
use crate::token::is_trivia_id;
use crate::token_stream::{lemma_lex, relevant_after, token_after};
use crate::tokenizer::lex;
use vstd::prelude::*;

verus! {

/// The place that the tokens of some events reach, if they start at the given
/// one and each of them starts where the previous one ends.
pub open spec fn covered(events: Seq<EventView>, from: int) -> Option<int>
    decreases events.len(),
{
    if events.len() == 0 {
        Some(from)
    } else {
        match (covered(events.drop_last(), from), events.last()) {
            (Some(at), EventView::Token(_, span)) => if span.start == at && span.start < span.end {
                Some(span.end as int)
            } else {
                None
            },
            (at, _) => at,
        }
    }
}

/// The kinds of the nodes that are open after some events, the outermost
/// first, if the given ones were open before them and each node ends with the
/// kind that it started with.
pub open spec fn opened(events: Seq<EventView>, before: Seq<SyntaxKind>) -> Option<Seq<SyntaxKind>>
    decreases events.len(),
{
    if events.len() == 0 {
        Some(before)
    } else {
        match (opened(events.drop_last(), before), events.last()) {
            (Some(kinds), EventView::Begin(kind)) => Some(kinds.push(kind)),
            (Some(kinds), EventView::End(kind)) => if kinds.len() > 0 && kinds.last() == kind {
                Some(kinds.drop_last())
            } else {
                None
            },
            (kinds, _) => kinds,
        }
    }
}

/// The events describe whole nodes, and their tokens cover the source from a
/// place to another one.
pub open spec fn complete(events: Seq<EventView>, from: int, to: int) -> bool {
    &&& covered(events, from) == Some(to)
    &&& forall|before: Seq<SyntaxKind>| #[trigger] opened(events, before) == Some(before)
}

/// Some events after others.
pub proof fn lemma_covered(a: Seq<EventView>, b: Seq<EventView>, from: int)
    ensures
        covered(a + b, from) == match covered(a, from) {
            Some(at) => covered(b, at),
            None => None,
        },
    decreases b.len(),
{
    if b.len() == 0 {
        assert(a + b =~= a);
    } else {
        lemma_covered(a, b.drop_last(), from);
        assert((a + b).drop_last() =~= a + b.drop_last());
        if covered(a, from) is None {
            assert(covered(a + b.drop_last(), from) is None);
        }
    }
}

/// Some events after others.
pub proof fn lemma_opened(a: Seq<EventView>, b: Seq<EventView>, before: Seq<SyntaxKind>)
    ensures
        opened(a + b, before) == match opened(a, before) {
            Some(kinds) => opened(b, kinds),
            None => None,
        },
    decreases b.len(),
{
    if b.len() == 0 {
        assert(a + b =~= a);
    } else {
        lemma_opened(a, b.drop_last(), before);
        assert((a + b).drop_last() =~= a + b.drop_last());
    }
}

/// No events cover nothing.
pub proof fn lemma_complete_none(from: int)
    ensures
        complete(Seq::empty(), from, from),
{
}

/// Whole nodes after others are whole nodes.
pub proof fn lemma_complete(a: Seq<EventView>, b: Seq<EventView>, from: int, at: int, to: int)
    requires
        complete(a, from, at),
        complete(b, at, to),
    ensures
        complete(a + b, from, to),
{
    lemma_covered(a, b, from);
    assert forall|before: Seq<SyntaxKind>| #[trigger] opened(a + b, before) == Some(before) by {
        lemma_opened(a, b, before);
        assert(opened(a, before) == Some(before));
        assert(opened(b, before) == Some(before));
    }
}

/// A node around whole nodes is a whole node.
pub proof fn lemma_complete_node(kind: SyntaxKind, inner: Seq<EventView>, from: int, to: int)
    requires
        complete(inner, from, to),
    ensures
        complete(
            seq![EventView::Begin(kind)] + inner + seq![EventView::End(kind)],
            from,
            to,
        ),
{
    let begin = seq![EventView::Begin(kind)];
    let end = seq![EventView::End(kind)];
    lemma_covered(begin + inner, end, from);
    lemma_covered(begin, inner, from);
    assert(begin.drop_last() =~= Seq::empty());
    assert(end.drop_last() =~= Seq::empty());
    assert(covered(begin.drop_last(), from) == Some(from));
    assert(covered(end.drop_last(), to) == Some(to));
    assert forall|before: Seq<SyntaxKind>| #[trigger]
        opened(begin + inner + end, before) == Some(before) by {
        let inside = before.push(kind);
        lemma_opened(begin + inner, end, before);
        lemma_opened(begin, inner, before);
        assert(opened(begin.drop_last(), before) == Some(before));
        assert(opened(inner, inside) == Some(inside));
        assert(opened(end.drop_last(), inside) == Some(inside));
        assert(inside.drop_last() =~= before);
    }
}

/// One event that is neither the start nor the end of a node.
pub proof fn lemma_complete_one(event: EventView, from: int, to: int)
    requires
        match event {
            EventView::Token(_, span) => span.start == from < to == span.end,
            EventView::Error(_, _) => from == to,
            _ => false,
        },
    ensures
        complete(seq![event], from, to),
{
    let one = seq![event];
    assert(one.drop_last() =~= Seq::empty());
    assert(covered(one.drop_last(), from) == Some(from));
    assert forall|before: Seq<SyntaxKind>| #[trigger] opened(one, before) == Some(before) by {
        assert(opened(one.drop_last(), before) == Some(before));
    }
}

/// Errors cover nothing.
pub proof fn lemma_complete_errors(errors: Seq<((usize, usize), Seq<char>)>, at: int)
    ensures
        complete(error_events(errors), at, at),
    decreases errors.len(),
{
    let events = error_events(errors);
    if errors.len() == 0 {
        assert(events =~= Seq::empty());
        lemma_complete_none(at);
    } else {
        lemma_complete_errors(errors.drop_last(), at);
        lemma_complete_one(events.last(), at, at);
        assert(events =~= error_events(errors.drop_last()) + seq![events.last()]);
        lemma_complete(error_events(errors.drop_last()), seq![events.last()], at, at, at);
    }
}

/// The later state has whole nodes more than the earlier one, and their tokens
/// cover the source between the places of the two.
pub open spec fn extends(later: State, earlier: State) -> bool {
    &&& earlier.out.events.len() <= later.out.events.len()
    &&& later.out.events.take(earlier.out.events.len() as int) == earlier.out.events
    &&& complete(
        later.out.events.skip(earlier.out.events.len() as int),
        earlier.cursor.pos as int,
        later.cursor.pos as int,
    )
}

/// A state with the same events at the same place.
pub proof fn lemma_extends_same(s: State, t: State)
    requires
        t.out.events == s.out.events,
        t.cursor.pos == s.cursor.pos,
    ensures
        extends(t, s),
{
    assert(t.out.events.take(s.out.events.len() as int) =~= s.out.events);
    assert(t.out.events.skip(s.out.events.len() as int) =~= Seq::empty());
    lemma_complete_none(s.cursor.pos as int);
}

pub proof fn lemma_extends_trans(s: State, t: State, u: State)
    requires
        extends(t, s),
        extends(u, t),
    ensures
        extends(u, s),
{
    let n = s.out.events.len() as int;
    let m = t.out.events.len() as int;
    assert(u.out.events.take(n) =~= u.out.events.take(m).take(n));
    assert(u.out.events.skip(n) =~= t.out.events.skip(n) + u.out.events.skip(m)) by {
        assert(t.out.events =~= u.out.events.take(m));
    }
    lemma_complete(
        t.out.events.skip(n),
        u.out.events.skip(m),
        s.cursor.pos as int,
        t.cursor.pos as int,
        u.cursor.pos as int,
    );
}

/// One more event.
proof fn lemma_extends_push(s: State, t: State, event: EventView)
    requires
        t.out.events == s.out.events.push(event),
        complete(seq![event], s.cursor.pos as int, t.cursor.pos as int),
    ensures
        extends(t, s),
{
    let n = s.out.events.len() as int;
    assert(t.out.events.take(n) =~= s.out.events);
    assert(t.out.events.skip(n) =~= seq![event]);
}

/// Taking a token.
pub proof fn lemma_extends_take(s: State, kind: SyntaxKind)
    requires
        s.placed(),
    ensures
        extends(s.take(kind), s),
{
    lemma_lex(s.src, s.cursor);
    match lex(s.src, s.cursor) {
        Some((token, next)) => {
            let event = EventView::Token(kind, token.span);
            lemma_complete_one(event, s.cursor.pos as int, next.pos as int);
            lemma_extends_push(s, s.take(kind), event);
        },
        None => lemma_extends_same(s, s),
    }
}

/// Skipping trivia.
pub proof fn lemma_extends_trivia(s: State)
    requires
        s.placed(),
    ensures
        extends(s.skip_trivia(), s),
        extends(s.trivia(), s),
    decreases s.rest(),
{
    lemma_lex(s.src, s.cursor);
    lemma_extends_same(s, s);
    if let Some((token, _)) = lex(s.src, s.cursor) {
        if is_trivia_id(token.id) {
            lemma_take(s, kind_of(token.id));
            lemma_extends_take(s, kind_of(token.id));
            lemma_extends_trivia(s.bump());
            lemma_extends_trans(s, s.bump(), s.skip_trivia());
        }
    }
}

/// Skipping tokens.
proof fn lemma_extends_skip_until(s: State, set: Seq<SyntaxKind>)
    requires
        s.placed(),
    ensures
        extends(s.skip_until(set), s),
    decreases s.rest(),
{
    lemma_lex(s.src, s.cursor);
    lemma_extends_same(s, s);
    if let Some((token, _)) = lex(s.src, s.cursor) {
        if kind_in(set, token.id) is None {
            lemma_take(s, kind_of(token.id));
            lemma_extends_take(s, kind_of(token.id));
            lemma_extends_skip_until(s.bump(), set);
            lemma_extends_trans(s, s.bump(), s.skip_until(set));
        }
    }
}

/// Flushing errors.
pub proof fn lemma_extends_flush(s: State)
    ensures
        extends(s.flush_errors(), s),
{
    let n = s.out.events.len() as int;
    let t = s.flush_errors();
    assert(t.out.events.take(n) =~= s.out.events);
    assert(t.out.events.skip(n) =~= error_events(s.pending));
    lemma_complete_errors(s.pending, s.cursor.pos as int);
}

/// Ending a node that started in an earlier state.
pub proof fn lemma_extends_close(s: State, kind: SyntaxKind, t: State)
    requires
        s.placed(),
        ahead_of(t, State { out: s.out.begin(kind), ..s }),
        extends(t, State { out: s.out.begin(kind), ..s }),
    ensures
        extends(State { out: t.out.end(), ..t }, s),
        extends(State { out: t.out.end_with_error(), ..t }, s),
{
    let n = s.out.events.len() as int;
    let begun = s.out.begin(kind);
    let inner = t.out.events.skip(n + 1);
    lemma_close(s, kind, t);
    let ended = t.out.end().events;
    assert(ended.take(n) =~= s.out.events);
    assert(ended.skip(n) =~= seq![EventView::Begin(kind)] + inner + seq![EventView::End(kind)]);
    lemma_complete_node(kind, inner, s.cursor.pos as int, t.cursor.pos as int);
    let failed = t.out.end_with_error().events;
    let error = SyntaxKind::ERROR;
    assert(failed.take(n) =~= s.out.events);
    assert(failed.skip(n) =~= seq![EventView::Begin(error)] + inner + seq![EventView::End(error)]);
    lemma_complete_node(error, inner, s.cursor.pos as int, t.cursor.pos as int);
}

/// Expecting a token.
proof fn lemma_extends_expect(s: State, set: Seq<SyntaxKind>, description: Option<Seq<char>>)
    requires
        s.placed(),
    ensures
        extends(s.expect(set, description), s),
{
    reveal(State::expect);
    lemma_extends_same(s, s);
    if !s.failed {
        if let Some(token) = relevant_after(s.src, s.cursor) {
            let key = token.span.key_of();
            let unexpected = State { unexpected: s.unexpected.insert(key), ..s };
            lemma_handle_errors(unexpected);
            let expected = s.note_expected(key, set, description);
            lemma_handle_errors(expected);
            if let Some(kind) = kind_in(set, token.id) {
                let noted = if s.in_not {
                    unexpected.handle_errors()
                } else {
                    s
                };
                lemma_extends_same(s, noted);
                lemma_trivia(noted);
                lemma_extends_trivia(noted);
                let trimmed = noted.trivia();
                let taken = trimmed.take(kind);
                lemma_extends_take(trimmed, kind);
                lemma_extends_flush(taken);
                lemma_extends_trans(s, noted, trimmed);
                lemma_extends_trans(s, trimmed, taken);
                lemma_extends_trans(s, taken, taken.flush_errors());
            } else {
                lemma_extends_same(s, s.expect(set, description));
            }
        } else {
            lemma_extends_same(s, State { failed: true, ..s });
        }
    }
}

/// Skipping tokens under an error node.
proof fn lemma_extends_sync(s: State, set: Seq<SyntaxKind>)
    requires
        s.placed(),
    ensures
        extends(s.sync(set), s),
{
    reveal(State::sync);
    lemma_trivia(s);
    lemma_extends_trivia(s);
    let start = s.trivia();
    if let Some(token) = token_after(start.src, start.cursor) {
        if kind_in(set, token.id) is None {
            let noted = start.note_expected(token.span.key_of(), set, None);
            lemma_extends_same(start, noted);
            lemma_handle_errors(noted);
            lemma_flush_errors(noted);
            lemma_extends_same(noted, noted.handle_errors());
            lemma_extends_flush(noted);
            let reported = if noted.pending.len() == 0 {
                noted.handle_errors()
            } else {
                noted.flush_errors()
            };
            let opened = State { out: reported.out.begin(SyntaxKind::ERROR), ..reported };
            reported.out.lemma_begin(SyntaxKind::ERROR);
            lemma_skip_until(opened, set);
            lemma_extends_skip_until(opened, set);
            let skipped = opened.skip_until(set);
            lemma_extends_close(reported, SyntaxKind::ERROR, skipped);
            let closed = State { out: skipped.out.end(), ..skipped };
            lemma_extends_trans(s, start, noted);
            lemma_extends_trans(s, noted, reported);
            lemma_extends_trans(s, reported, closed);
        }
    }
}

/// What follows an optional branch.
proof fn lemma_extends_opt(s: State, t: State)
    requires
        s.placed(),
        ahead_of(t, s.enter_opt()),
        extends(t, s.enter_opt()),
    ensures
        extends(t.leave_opt(s), s),
{
    lemma_enter_opt(s);
    if t.failed {
        lemma_extends_same(s, t.leave_opt(s));
    } else {
        lemma_extends_trivia(s);
        lemma_extends_same(s.trivia(), s.enter_opt());
        lemma_extends_same(t, t.leave_opt(s));
        lemma_extends_trans(s, s.trivia(), s.enter_opt());
        lemma_extends_trans(s, s.enter_opt(), t);
        lemma_extends_trans(s, t, t.leave_opt(s));
    }
}

/// Parsing an expression adds whole nodes, and their tokens cover what has
/// been consumed.
#[verifier::rlimit(30)]
proof fn lemma_eval_extends(expr: Expr, s: State, depth: nat)
    requires
        s.placed(),
        eval(expr, s, depth) is Some,
    ensures
        extends(eval(expr, s, depth)->0, s),
    decreases depth, expr,
{
    lemma_extends_same(s, s);
    match expr {
        Expr::Expect(set, description) => lemma_extends_expect(s, set, description),
        Expr::HexPatternMode | Expr::HexJumpMode | Expr::Recover => lemma_extends_same(
            s,
            eval(expr, s, depth)->0,
        ),
        Expr::Sync(set) => lemma_extends_sync(s, set),
        Expr::Cat(first, second) => {
            lemma_eval_ahead(*first, s, depth);
            lemma_eval_extends(*first, s, depth);
            let t = eval(*first, s, depth)->0;
            lemma_eval_extends(*second, t, depth);
            lemma_extends_trans(s, t, eval(*second, t, depth)->0);
        },
        Expr::Node(kind, inner) => {
            lemma_begin(s, kind);
            lemma_eval_ahead(*inner, s.begin(kind), depth);
            lemma_eval_extends(*inner, s.begin(kind), depth);
            let t = eval(*inner, s.begin(kind), depth)->0;
            lemma_trivia(s);
            lemma_extends_trivia(s);
            lemma_extends_close(s.trivia(), kind, t);
            lemma_extends_trans(s, s.trivia(), t.end());
        },
        Expr::Opt(inner) => if !s.failed {
            lemma_enter_opt(s);
            lemma_eval_ahead(*inner, s.enter_opt(), depth);
            lemma_eval_extends(*inner, s.enter_opt(), depth);
            lemma_extends_opt(s, eval(*inner, s.enter_opt(), depth)->0);
        },
        Expr::Not(inner) => if !s.failed {
            lemma_enter_not(s);
            lemma_eval_ahead(*inner, s.enter_not(), depth);
            let t = eval(*inner, s.enter_not(), depth)->0;
            lemma_extends_same(s, t.leave_not(s));
        },
        Expr::IfNext(set, inner) => if !s.failed {
            if let Some(token) = relevant_after(s.src, s.cursor) {
                if kind_in(set, token.id) is Some {
                    lemma_trivia(s);
                    lemma_extends_trivia(s);
                    lemma_eval_extends(*inner, s.trivia(), depth);
                    lemma_extends_trans(s, s.trivia(), eval(*inner, s.trivia(), depth)->0);
                } else {
                    lemma_extends_same(s, s.note_expected(token.span.key_of(), set, None));
                }
            }
        },
        Expr::IfNextElse(set, inner, other) => if !s.failed {
            if s.sees(set) {
                lemma_trivia(s);
                lemma_extends_trivia(s);
                lemma_eval_extends(*inner, s.trivia(), depth);
                lemma_extends_trans(s, s.trivia(), eval(*inner, s.trivia(), depth)->0);
            } else {
                lemma_extends_same(s, s.missed(set));
                lemma_eval_extends(*other, s.missed(set), depth);
                lemma_extends_trans(s, s.missed(set), eval(*other, s.missed(set), depth)->0);
            }
        },
        Expr::Many(inner) => if !s.failed {
            lemma_enter_opt(s);
            lemma_eval_ahead(*inner, s.enter_opt(), depth);
            lemma_eval_extends(*inner, s.enter_opt(), depth);
            let t = eval(*inner, s.enter_opt(), depth)->0;
            lemma_extends_opt(s, t);
            if !t.failed {
                let u = t.leave_opt(s);
                lemma_eval_extends(expr, u, (depth - 1) as nat);
                lemma_extends_trans(s, u, eval(expr, u, (depth - 1) as nat)->0);
            }
        },
        Expr::One(inner) => if !s.failed {
            lemma_trivia(s);
            lemma_extends_trivia(s);
            lemma_eval_extends(*inner, s.trivia(), depth);
            lemma_extends_trans(s, s.trivia(), eval(*inner, s.trivia(), depth)->0);
        },
        Expr::Cached(kind, inner) => if !s.cache.contains((s.cursor.index, code(kind))) {
            lemma_eval_extends(*inner, s, depth);
        } else {
            lemma_extends_same(s, State { failed: true, ..s });
        },
        Expr::Alt(exprs) => {
            lemma_eval_alt_ahead(exprs, s, depth);
            lemma_eval_alt_extends(exprs, s, depth);
            let (t, matched) = eval_alt(exprs, s, depth)->0;
            if !matched {
                let failed = State { failed: true, ..t };
                lemma_handle_errors(failed);
                lemma_extends_same(s, failed.handle_errors());
            }
        },
        Expr::Rule(kind) => lemma_eval_extends(production(kind), s, (depth - 1) as nat),
    }
}

proof fn lemma_eval_alt_extends(exprs: Seq<Expr>, s: State, depth: nat)
    requires
        s.placed(),
        eval_alt(exprs, s, depth) is Some,
    ensures
        extends((eval_alt(exprs, s, depth)->0).0, s),
    decreases depth, exprs,
{
    lemma_extends_same(s, s);
    if exprs.len() > 0 {
        lemma_eval_alt_ahead(exprs.drop_last(), s, depth);
        lemma_eval_alt_extends(exprs.drop_last(), s, depth);
        let (t, matched) = eval_alt(exprs.drop_last(), s, depth)->0;
        if !matched && !t.failed {
            lemma_enter_opt(t);
            lemma_eval_ahead(exprs.last(), t.enter_opt(), depth);
            lemma_eval_extends(exprs.last(), t.enter_opt(), depth);
            let u = eval(exprs.last(), t.enter_opt(), depth)->0;
            lemma_extends_opt(t, u);
            assert(u.leave_opt(s) == u.leave_opt(t));
            lemma_extends_trans(s, t, u.leave_opt(t));
        }
    }
}

/// Parsing an expression, whatever it is, adds whole nodes to the output, each
/// of which ends with the kind that it started with. Their tokens cover, in
/// order and without gaps, what has been consumed.
pub proof fn lemma_extends(expr: Expr, s: State, t: State)
    requires
        s.placed(),
        parses(expr, s, t),
    ensures
        extends(t, s),
{
    let depth = choose|depth: nat| #[trigger] eval(expr, s, depth) == Some(t);
    lemma_eval_extends(expr, s, depth);
}

} // verus!
