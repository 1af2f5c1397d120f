//! What is outside of the error nodes.

use crate::event::EventView;
use crate::grammar;
use crate::grammar::{
    alt, cached, if_next, if_next_else, n_or_more, node, not, one, opt, production, Expr,
};
use crate::laws::frame::{
    ahead_of, lemma_begin, lemma_close, lemma_enter_not, lemma_enter_opt, lemma_eval_ahead,
    lemma_eval_alt_ahead, lemma_flush_errors, lemma_handle_errors, lemma_skip_trivia,
    lemma_skip_until, lemma_sync, lemma_take, lemma_trivia,
};
use crate::laws::progress::{
    keeps_failure, lemma_eval_alt_failed, lemma_eval_keeps_failure, lemma_n_or_more,
    lemma_productions,
};
use crate::semantics::{eval, eval_alt, parses};
use crate::state::{code, error_events, kind_in, State};
use crate::syntax_kind::{kind_of, token_id_of, SyntaxKind};
use crate::token::{is_trivia_id, TokenId};
use crate::token_stream::{lemma_lex, relevant_after, token_after};
use crate::tokenizer::lex;
use vstd::prelude::*;

verus! {

/// A kind of token that is not really part of the language.
pub open spec fn is_trivia_kind(kind: SyntaxKind) -> bool {
    token_id_of(kind) matches Some(id) && is_trivia_id(id)
}

/// The events that are outside of error nodes, and how many nodes are open
/// since the start of the error node in which the last one is, if it is in
/// one.
#[verifier::ext_equal]
pub struct Shown {
    pub events: Seq<EventView>,
    pub hidden: nat,
}

impl Shown {
    /// One more event.
    pub open spec fn next(self, event: EventView) -> Shown {
        let with = Shown { events: self.events.push(event), ..self };
        match event {
            EventView::Begin(kind) => if self.hidden > 0 || kind == SyntaxKind::ERROR {
                Shown { hidden: self.hidden + 1, ..self }
            } else {
                with
            },
            EventView::End(_) => if self.hidden > 0 {
                Shown { hidden: (self.hidden - 1) as nat, ..self }
            } else {
                with
            },
            EventView::Token(kind, _) => if self.hidden > 0 || is_trivia_kind(kind) {
                self
            } else {
                with
            },
            EventView::Error(_, _) => self,
        }
    }

    /// Some more events.
    pub open spec fn all(self, events: Seq<EventView>) -> Shown
        decreases events.len(),
    {
        if events.len() == 0 {
            self
        } else {
            self.all(events.drop_last()).next(events.last())
        }
    }
}

/// The events that are outside of error nodes, without trivia and errors.
pub open spec fn outside(events: Seq<EventView>) -> Seq<EventView> {
    (Shown { events: Seq::empty(), hidden: 0 }).all(events).events
}

/// The events do not end within a node that started among them, nor end one
/// that started before.
#[verifier::opaque]
pub open spec fn tidy(events: Seq<EventView>) -> bool {
    forall|from: Shown| #[trigger]
        from.all(events) == (Shown {
            events: if from.hidden == 0 {
                from.events + outside(events)
            } else {
                from.events
            },
            ..from
        })
}

pub proof fn lemma_all(from: Shown, a: Seq<EventView>, b: Seq<EventView>)
    ensures
        from.all(a + b) == from.all(a).all(b),
    decreases b.len(),
{
    if b.len() == 0 {
        assert(a + b =~= a);
    } else {
        lemma_all(from, a, b.drop_last());
        assert((a + b).drop_last() =~= a + b.drop_last());
    }
}

pub proof fn lemma_tidy_none()
    ensures
        tidy(Seq::empty()),
        outside(Seq::empty()) == Seq::<EventView>::empty(),
{
    reveal(tidy);
    let none = Seq::<EventView>::empty();
    assert forall|from: Shown| #[trigger] from.all(none) == (Shown {
        events: if from.hidden == 0 {
            from.events + outside(none)
        } else {
            from.events
        },
        ..from
    }) by {
        assert(from.events + outside(none) =~= from.events);
    }
}

pub proof fn lemma_tidy_cat(a: Seq<EventView>, b: Seq<EventView>)
    requires
        tidy(a),
        tidy(b),
    ensures
        tidy(a + b),
        outside(a + b) == outside(a) + outside(b),
{
    reveal(tidy);
    let zero = Shown { events: Seq::empty(), hidden: 0 };
    lemma_all(zero, a, b);
    assert(zero.all(a).all(b).events =~= outside(a) + outside(b));
    assert forall|from: Shown| #[trigger] from.all(a + b) == (Shown {
        events: if from.hidden == 0 {
            from.events + outside(a + b)
        } else {
            from.events
        },
        ..from
    }) by {
        lemma_all(from, a, b);
        let middle = from.all(a);
        assert(middle.all(b).hidden == from.hidden);
        if from.hidden == 0 {
            assert(from.events + outside(a) + outside(b) =~= from.events + outside(a + b));
        }
    }
}

/// One event that is neither the start nor the end of a node.
pub proof fn lemma_tidy_one(event: EventView)
    requires
        event is Token || event is Error,
    ensures
        tidy(seq![event]),
        outside(seq![event]) == (match event {
            EventView::Token(kind, _) => if is_trivia_kind(kind) {
                Seq::empty()
            } else {
                seq![event]
            },
            _ => Seq::empty(),
        }),
{
    reveal(tidy);
    let one = seq![event];
    let zero = Shown { events: Seq::empty(), hidden: 0 };
    assert(one.drop_last() =~= Seq::empty());
    assert(zero.all(one.drop_last()) == zero);
    assert(zero.all(one) == zero.next(event));
    assert forall|from: Shown| #[trigger] from.all(one) == (Shown {
        events: if from.hidden == 0 {
            from.events + outside(one)
        } else {
            from.events
        },
        ..from
    }) by {
        assert(from.all(one.drop_last()) == from);
        assert(from.all(one) == from.next(event));
        assert(from.events + Seq::<EventView>::empty() =~= from.events);
        assert(from.events + seq![event] =~= from.events.push(event));
        assert(zero.events.push(event) =~= seq![event]);
    }
}

/// A node.
pub proof fn lemma_tidy_node(kind: SyntaxKind, inner: Seq<EventView>)
    requires
        tidy(inner),
    ensures
        ({
            let node = seq![EventView::Begin(kind)] + inner + seq![EventView::End(kind)];
            &&& tidy(node)
            &&& outside(node) == (if kind == SyntaxKind::ERROR {
                Seq::empty()
            } else {
                seq![EventView::Begin(kind)] + outside(inner) + seq![EventView::End(kind)]
            })
        }),
{
    reveal(tidy);
    let begin = seq![EventView::Begin(kind)];
    let end = seq![EventView::End(kind)];
    let node = begin + inner + end;
    let zero = Shown { events: Seq::empty(), hidden: 0 };
    assert(begin.drop_last() =~= Seq::empty());
    assert(end.drop_last() =~= Seq::empty());
    assert forall|from: Shown| true implies #[trigger] from.all(node) == (Shown {
        events: if from.hidden == 0 && kind != SyntaxKind::ERROR {
            from.events + (begin + outside(inner) + end)
        } else {
            from.events
        },
        ..from
    }) by {
        lemma_all(from, begin + inner, end);
        lemma_all(from, begin, inner);
        assert(from.all(begin.drop_last()) == from);
        let inside = from.all(begin);
        assert(inside == from.next(EventView::Begin(kind)));
        let after = inside.all(inner);
        assert(after.all(end.drop_last()) == after);
        assert(after.all(end) == after.next(EventView::End(kind)));
        if from.hidden == 0 && kind != SyntaxKind::ERROR {
            assert((from.events.push(EventView::Begin(kind)) + outside(inner)).push(
                EventView::End(kind),
            ) =~= from.events + (begin + outside(inner) + end));
        }
    }
    assert(zero.all(node).events =~= outside(node));
    if kind != SyntaxKind::ERROR {
        assert(zero.events + (begin + outside(inner) + end) =~= begin + outside(inner) + end);
    } else {
        assert forall|from: Shown| true implies #[trigger] from.all(node) == (Shown {
            events: if from.hidden == 0 {
                from.events + outside(node)
            } else {
                from.events
            },
            ..from
        }) by {
            assert(from.events + Seq::<EventView>::empty() =~= from.events);
        }
    }
}

/// The events that the later state has more than the earlier one are those of
/// `shown`, outside of error nodes.
pub open spec fn shows(earlier: State, later: State, shown: Seq<EventView>) -> bool {
    let n = earlier.out.events.len() as int;
    &&& n <= later.out.events.len()
    &&& later.out.events.take(n) == earlier.out.events
    &&& tidy(later.out.events.skip(n))
    &&& outside(later.out.events.skip(n)) == shown
}

pub proof fn lemma_shows_same(s: State, t: State)
    requires
        t.out.events == s.out.events,
    ensures
        shows(s, t, Seq::empty()),
{
    let n = s.out.events.len() as int;
    assert(t.out.events.take(n) =~= s.out.events);
    assert(t.out.events.skip(n) =~= Seq::empty());
    lemma_tidy_none();
}

pub proof fn lemma_shows_trans(
    s: State,
    t: State,
    u: State,
    a: Seq<EventView>,
    b: Seq<EventView>,
)
    requires
        shows(s, t, a),
        shows(t, u, b),
    ensures
        shows(s, u, a + b),
{
    let n = s.out.events.len() as int;
    let m = t.out.events.len() as int;
    assert(u.out.events.take(n) =~= u.out.events.take(m).take(n));
    assert(u.out.events.skip(n) =~= t.out.events.skip(n) + u.out.events.skip(m)) by {
        assert(t.out.events =~= u.out.events.take(m));
    }
    lemma_tidy_cat(t.out.events.skip(n), u.out.events.skip(m));
}

/// As `lemma_shows_trans`, where one of the two steps shows nothing.
pub proof fn lemma_shows_more(s: State, t: State, u: State, a: Seq<EventView>)
    requires
        (shows(s, t, Seq::empty()) && shows(t, u, a)) || (shows(s, t, a) && shows(
            t,
            u,
            Seq::empty(),
        )),
    ensures
        shows(s, u, a),
{
    let none = Seq::<EventView>::empty();
    assert(none + a =~= a);
    assert(a + none =~= a);
    if shows(s, t, none) && shows(t, u, a) {
        lemma_shows_trans(s, t, u, none, a);
    } else {
        lemma_shows_trans(s, t, u, a, none);
    }
}

/// Taking a token.
pub proof fn lemma_shows_take(s: State, kind: SyntaxKind)
    requires
        s.placed(),
    ensures
        match lex(s.src, s.cursor) {
            Some((token, _)) => shows(
                s,
                s.take(kind),
                if is_trivia_kind(kind) {
                    Seq::empty()
                } else {
                    seq![EventView::Token(kind, token.span)]
                },
            ),
            None => shows(s, s.take(kind), Seq::empty()),
        },
{
    match lex(s.src, s.cursor) {
        Some((token, _)) => {
            let event = EventView::Token(kind, token.span);
            let n = s.out.events.len() as int;
            lemma_tidy_one(event);
            assert(s.take(kind).out.events.take(n) =~= s.out.events);
            assert(s.take(kind).out.events.skip(n) =~= seq![event]);
        },
        None => lemma_shows_same(s, s),
    }
}

/// The kind of a trivia token is one of trivia.
proof fn lemma_trivia_kind(id: TokenId)
    requires
        is_trivia_id(id),
    ensures
        is_trivia_kind(kind_of(id)),
{
}

/// Skipping trivia.
pub proof fn lemma_shows_trivia(s: State)
    requires
        s.placed(),
    ensures
        shows(s, s.skip_trivia(), Seq::empty()),
        shows(s, s.trivia(), Seq::empty()),
    decreases s.rest(),
{
    lemma_lex(s.src, s.cursor);
    lemma_shows_same(s, s);
    if let Some((token, _)) = lex(s.src, s.cursor) {
        if is_trivia_id(token.id) {
            lemma_trivia_kind(token.id);
            lemma_take(s, kind_of(token.id));
            lemma_shows_take(s, kind_of(token.id));
            lemma_shows_trivia(s.bump());
            lemma_shows_more(s, s.bump(), s.skip_trivia(), Seq::empty());
        }
    }
}

/// Skipping tokens.
proof fn lemma_shows_skip_until(s: State, set: Seq<SyntaxKind>) -> (shown: Seq<EventView>)
    requires
        s.placed(),
    ensures
        shows(s, s.skip_until(set), shown),
    decreases s.rest(),
{
    lemma_lex(s.src, s.cursor);
    lemma_shows_same(s, s);
    if let Some((token, _)) = lex(s.src, s.cursor) {
        if kind_in(set, token.id) is None {
            let kind = kind_of(token.id);
            lemma_take(s, kind);
            lemma_shows_take(s, kind);
            let first = outside(s.bump().out.events.skip(s.out.events.len() as int));
            let others = lemma_shows_skip_until(s.bump(), set);
            lemma_shows_trans(s, s.bump(), s.skip_until(set), first, others);
            first + others
        } else {
            Seq::empty()
        }
    } else {
        Seq::empty()
    }
}

/// Errors are not shown.
proof fn lemma_tidy_errors(errors: Seq<((usize, usize), Seq<char>)>)
    ensures
        tidy(error_events(errors)),
        outside(error_events(errors)) == Seq::<EventView>::empty(),
    decreases errors.len(),
{
    let events = error_events(errors);
    lemma_tidy_none();
    if errors.len() == 0 {
        assert(events =~= Seq::empty());
    } else {
        lemma_tidy_errors(errors.drop_last());
        lemma_tidy_one(events.last());
        assert(events =~= error_events(errors.drop_last()) + seq![events.last()]);
        lemma_tidy_cat(error_events(errors.drop_last()), seq![events.last()]);
        assert(outside(events) =~= Seq::empty());
    }
}

/// Flushing errors.
pub proof fn lemma_shows_flush(s: State)
    ensures
        shows(s, s.flush_errors(), Seq::empty()),
{
    let n = s.out.events.len() as int;
    let t = s.flush_errors();
    assert(t.out.events.take(n) =~= s.out.events);
    assert(t.out.events.skip(n) =~= error_events(s.pending));
    lemma_tidy_errors(s.pending);
}

/// Ending a node that started in an earlier state.
pub proof fn lemma_shows_close(s: State, kind: SyntaxKind, t: State, shown: Seq<EventView>)
    requires
        s.placed(),
        ahead_of(t, State { out: s.out.begin(kind), ..s }),
        shows(State { out: s.out.begin(kind), ..s }, t, shown),
    ensures
        shows(
            s,
            State { out: t.out.end(), ..t },
            if kind == SyntaxKind::ERROR {
                Seq::empty()
            } else {
                seq![EventView::Begin(kind)] + shown + seq![EventView::End(kind)]
            },
        ),
        shows(s, State { out: t.out.end_with_error(), ..t }, Seq::empty()),
{
    let n = s.out.events.len() as int;
    let inner = t.out.events.skip(n + 1);
    lemma_close(s, kind, t);
    let ended = t.out.end().events;
    assert(ended.take(n) =~= s.out.events);
    assert(ended.skip(n) =~= seq![EventView::Begin(kind)] + inner + seq![EventView::End(kind)]);
    lemma_tidy_node(kind, inner);
    let failed = t.out.end_with_error().events;
    let error = SyntaxKind::ERROR;
    assert(failed.take(n) =~= s.out.events);
    assert(failed.skip(n) =~= seq![EventView::Begin(error)] + inner + seq![EventView::End(error)]);
    lemma_tidy_node(error, inner);
}

/// Expecting a token: what is shown is the token, if it is found.
pub proof fn lemma_shows_expect(
    s: State,
    set: Seq<SyntaxKind>,
    description: Option<Seq<char>>,
) -> (shown: Seq<EventView>)
    requires
        s.placed(),
    ensures
        shows(s, s.expect(set, description), shown),
        s.failed || s.expect(set, description).failed ==> shown.len() == 0,
        !s.failed && !s.expect(set, description).failed ==> one_of(set, shown) && (relevant_after(
            s.src,
            s.cursor,
        ) matches Some(token) && (kind_in(set, token.id) matches Some(kind) && shown == seq![
            EventView::Token(kind, token.span),
        ])),
{
    reveal(State::expect);
    let t = s.expect(set, description);
    lemma_shows_same(s, s);
    if s.failed {
        Seq::empty()
    } else if let Some(token) = relevant_after(s.src, s.cursor) {
        let key = token.span.key_of();
        let unexpected = State { unexpected: s.unexpected.insert(key), ..s };
        lemma_handle_errors(unexpected);
        let expected = s.note_expected(key, set, description);
        lemma_handle_errors(expected);
        if let Some(kind) = kind_in(set, token.id) {
            let noted = if s.in_not {
                unexpected.handle_errors()
            } else {
                s
            };
            lemma_kind_in(set, token.id);
            lemma_shows_same(s, noted);
            lemma_trivia(noted);
            lemma_skip_trivia(noted);
            lemma_shows_trivia(noted);
            lemma_relevant(s.src, s.cursor);
            let trimmed = noted.trivia();
            let taken = trimmed.take(kind);
            lemma_lex(trimmed.src, trimmed.cursor);
            lemma_shows_take(trimmed, kind);
            lemma_shows_flush(taken);
            lemma_take(trimmed, kind);
            lemma_flush_errors(taken);
            let shown = seq![EventView::Token(kind, token.span)];
            lemma_shows_more(s, noted, trimmed, Seq::empty());
            lemma_shows_more(s, trimmed, taken, shown);
            lemma_shows_more(s, taken, taken.flush_errors(), shown);
            shown
        } else {
            lemma_shows_same(s, t);
            Seq::empty()
        }
    } else {
        lemma_shows_same(s, t);
        Seq::empty()
    }
}

/// What is found in a set is in it.
proof fn lemma_kind_in(set: Seq<SyntaxKind>, id: TokenId)
    requires
        kind_in(set, id) is Some,
    ensures
        set.contains(kind_in(set, id)->0),
        token_id_of(kind_in(set, id)->0) == Some(id),
    decreases set.len(),
{
    if token_id_of(set[0]) == Some(id) {
        assert(set.contains(set[0]));
    } else {
        lemma_kind_in(set.drop_first(), id);
        let kind = kind_in(set, id)->0;
        let i = choose|i: int| 0 <= i < set.drop_first().len() && set.drop_first()[i] == kind;
        assert(set[i + 1] == kind);
    }
}

/// A token that is not trivia.
proof fn lemma_relevant(src: Seq<u8>, at: crate::tokenizer::Cursor)
    requires
        src.len() <= usize::MAX,
    ensures
        relevant_after(src, at) matches Some(token) ==> !is_trivia_id(token.id),
    decreases src.len() - at.pos,
{
    lemma_lex(src, at);
    if let Some((token, next)) = lex(src, at) {
        if is_trivia_id(token.id) {
            lemma_relevant(src, next);
        }
    }
}

/// Skipping tokens under an error node shows nothing.
pub proof fn lemma_shows_sync(s: State, set: Seq<SyntaxKind>)
    requires
        s.placed(),
    ensures
        shows(s, s.sync(set), Seq::empty()),
{
    reveal(State::sync);
    lemma_trivia(s);
    lemma_shows_trivia(s);
    let start = s.trivia();
    if let Some(token) = token_after(start.src, start.cursor) {
        if kind_in(set, token.id) is None {
            let noted = start.note_expected(token.span.key_of(), set, None);
            lemma_shows_same(start, noted);
            lemma_handle_errors(noted);
            lemma_flush_errors(noted);
            lemma_shows_same(noted, noted.handle_errors());
            lemma_shows_flush(noted);
            let reported = if noted.pending.len() == 0 {
                noted.handle_errors()
            } else {
                noted.flush_errors()
            };
            let opened = State { out: reported.out.begin(SyntaxKind::ERROR), ..reported };
            reported.out.lemma_begin(SyntaxKind::ERROR);
            lemma_skip_until(opened, set);
            let shown = lemma_shows_skip_until(opened, set);
            let skipped = opened.skip_until(set);
            lemma_shows_close(reported, SyntaxKind::ERROR, skipped, shown);
            let closed = State { out: skipped.out.end(), ..skipped };
            lemma_shows_more(s, start, noted, Seq::empty());
            lemma_shows_more(s, noted, reported, Seq::empty());
            lemma_shows_more(s, reported, closed, Seq::empty());
        }
    }
}

/// The events are those of one token of the set.
pub open spec fn one_of(set: Seq<SyntaxKind>, events: Seq<EventView>) -> bool {
    events.len() == 1 && (events[0] matches EventView::Token(kind, _) && set.contains(kind))
}

/// The events are what the expression describes, if `depth` nested productions
/// and repetitions are enough for that. What stands before a point of recovery
/// may have been cut short.
#[verifier::opaque]
pub open spec fn derives(expr: Expr, events: Seq<EventView>, depth: nat) -> bool
    decreases depth, expr,
{
    match expr {
        Expr::Expect(set, _) => one_of(set, events),
        Expr::Cat(first, second) => {
            ||| exists|i: int|
                0 <= i <= events.len() && derives(*first, #[trigger] events.take(i), depth)
                    && derives(*second, events.skip(i), depth)
            ||| *second == Expr::Recover && cut(*first, events, depth)
        },
        Expr::Node(kind, inner) => {
            &&& events.len() >= 2
            &&& events[0] == EventView::Begin(kind)
            &&& events.last() == EventView::End(kind)
            &&& derives(*inner, events.drop_first().drop_last(), depth)
        },
        Expr::Opt(inner) => events.len() == 0 || derives(*inner, events, depth),
        Expr::IfNext(_, inner) => events.len() == 0 || derives(*inner, events, depth),
        Expr::IfNextElse(_, inner, other) => {
            derives(*inner, events, depth) || derives(*other, events, depth)
        },
        Expr::Many(inner) => {
            ||| events.len() == 0
            ||| depth > 0 && exists|i: int|
                0 <= i <= events.len() && derives(*inner, #[trigger] events.take(i), depth)
                    && derives(expr, events.skip(i), (depth - 1) as nat)
        },
        Expr::One(inner) => derives(*inner, events, depth),
        Expr::Cached(_, inner) => derives(*inner, events, depth),
        Expr::Alt(exprs) => derives_any(exprs, events, depth),
        Expr::Rule(kind) => depth > 0 && derives(production(kind), events, (depth - 1) as nat),
        _ => events.len() == 0,
    }
}

/// The events are what one of the expressions describes.
#[verifier::opaque]
pub open spec fn derives_any(exprs: Seq<Expr>, events: Seq<EventView>, depth: nat) -> bool
    decreases depth, exprs,
{
    exprs.len() > 0 && (derives(exprs.last(), events, depth) || derives_any(
        exprs.drop_last(),
        events,
        depth,
    ))
}

/// The events are what the expression describes up to some point.
#[verifier::opaque]
pub open spec fn cut(expr: Expr, events: Seq<EventView>, depth: nat) -> bool
    decreases depth, expr,
{
    match expr {
        Expr::Cat(first, second) => {
            ||| cut(*first, events, depth)
            ||| exists|i: int|
                0 <= i <= events.len() && derives(*first, #[trigger] events.take(i), depth) && cut(
                    *second,
                    events.skip(i),
                    depth,
                )
        },
        Expr::IfNext(_, inner) => cut(*inner, events, depth),
        Expr::IfNextElse(_, inner, other) => {
            cut(*inner, events, depth) || cut(*other, events, depth)
        },
        Expr::One(inner) => cut(*inner, events, depth),
        Expr::Cached(_, inner) => events.len() == 0 || cut(*inner, events, depth),
        Expr::Rule(kind) => depth > 0 && cut(production(kind), events, (depth - 1) as nat),
        _ => events.len() == 0,
    }
}

proof fn lemma_derives_step(expr: Expr, depth: nat)
    ensures
        (expr is HexPatternMode || expr is HexJumpMode || expr is Recover || expr is Sync
            || expr is Not || expr is Opt || expr is IfNext || expr is Many) ==> derives(
            expr,
            Seq::empty(),
            depth,
        ),
        (expr is Expect || expr is Not || expr is Node || expr is Alt || expr is Cached) ==> cut(
            expr,
            Seq::empty(),
            depth,
        ),
{
    reveal(derives);
    reveal(cut);
}

proof fn lemma_derives_expect(
    set: Seq<SyntaxKind>,
    description: Option<Seq<char>>,
    events: Seq<EventView>,
    depth: nat,
)
    ensures
        one_of(set, events) ==> derives(Expr::Expect(set, description), events, depth),
        events.len() == 0 ==> cut(Expr::Expect(set, description), events, depth),
{
    reveal(derives);
    reveal(cut);
}

proof fn lemma_derives_cat(
    first: Expr,
    second: Expr,
    a: Seq<EventView>,
    b: Seq<EventView>,
    depth: nat,
)
    ensures
        derives(first, a, depth) && derives(second, b, depth) ==> derives(
            first.and(second),
            a + b,
            depth,
        ),
        derives(first, a, depth) && cut(second, b, depth) ==> cut(first.and(second), a + b, depth),
        cut(first, a, depth) ==> cut(first.and(second), a, depth),
        cut(first, a, depth) && second == Expr::Recover ==> derives(
            first.and(second),
            a,
            depth,
        ),
{
    reveal(derives);
    reveal(cut);
    assert((a + b).take(a.len() as int) =~= a);
    assert((a + b).skip(a.len() as int) =~= b);
}

proof fn lemma_derives_node(kind: SyntaxKind, inner: Expr, events: Seq<EventView>, depth: nat)
    requires
        derives(inner, events, depth),
    ensures
        derives(
            node(kind, inner),
            seq![EventView::Begin(kind)] + events + seq![EventView::End(kind)],
            depth,
        ),
{
    reveal(derives);
    let all = seq![EventView::Begin(kind)] + events + seq![EventView::End(kind)];
    assert(all.drop_first().drop_last() =~= events);
}

/// Expressions that describe what the one within them does.
proof fn lemma_derives_inner(expr: Expr, inner: Expr, events: Seq<EventView>, depth: nat)
    requires
        match expr {
            Expr::Opt(e) => *e == inner,
            Expr::IfNext(_, e) => *e == inner,
            Expr::IfNextElse(_, e, f) => *e == inner || *f == inner,
            Expr::One(e) => *e == inner,
            Expr::Cached(_, e) => *e == inner,
            _ => false,
        },
    ensures
        derives(inner, events, depth) ==> derives(expr, events, depth),
        cut(inner, events, depth) && !(expr is Opt) ==> cut(expr, events, depth),
{
    reveal(derives);
    reveal(cut);
}

proof fn lemma_derives_many(
    inner: Expr,
    a: Seq<EventView>,
    b: Seq<EventView>,
    depth: nat,
)
    requires
        depth > 0,
        derives(inner, a, depth),
        derives(n_or_more(0, inner), b, (depth - 1) as nat),
    ensures
        derives(n_or_more(0, inner), a + b, depth),
{
    reveal(derives);
    assert((a + b).take(a.len() as int) =~= a);
    assert((a + b).skip(a.len() as int) =~= b);
}

proof fn lemma_derives_alt(exprs: Seq<Expr>, events: Seq<EventView>, depth: nat)
    ensures
        derives_any(exprs, events, depth) ==> derives(alt(exprs), events, depth),
        exprs.len() > 0 && derives(exprs.last(), events, depth) ==> derives_any(
            exprs,
            events,
            depth,
        ),
        exprs.len() > 0 && derives_any(exprs.drop_last(), events, depth) ==> derives_any(
            exprs,
            events,
            depth,
        ),
{
    reveal(derives);
    reveal(derives_any);
}

proof fn lemma_derives_rule(kind: SyntaxKind, events: Seq<EventView>, depth: nat)
    requires
        depth > 0,
    ensures
        derives(production(kind), events, (depth - 1) as nat) ==> derives(
            Expr::Rule(kind),
            events,
            depth,
        ),
        cut(production(kind), events, (depth - 1) as nat) ==> cut(Expr::Rule(kind), events, depth),
{
    reveal(derives);
    reveal(cut);
}

/// The expression has no points of recovery, and describes neither error nodes
/// nor the node of the whole file.
pub open spec fn local(expr: Expr) -> bool
    decreases expr,
{
    match expr {
        Expr::Recover | Expr::Sync(_) => false,
        Expr::Cat(first, second) => local(*first) && local(*second),
        Expr::Node(kind, inner) => {
            &&& kind != SyntaxKind::ERROR
            &&& kind != SyntaxKind::SOURCE_FILE
            &&& local(*inner)
        },
        Expr::Opt(inner) => local(*inner),
        Expr::Not(inner) => local(*inner),
        Expr::IfNext(_, inner) => local(*inner),
        Expr::IfNextElse(_, inner, other) => local(*inner) && local(*other),
        Expr::Many(inner) => local(*inner),
        Expr::One(inner) => local(*inner),
        Expr::Cached(_, inner) => local(*inner),
        Expr::Alt(exprs) => all_local(exprs),
        Expr::Rule(kind) => kind != SyntaxKind::RULE_DECL,
        _ => true,
    }
}

/// All the expressions are local.
pub open spec fn all_local(exprs: Seq<Expr>) -> bool
    decreases exprs,
{
    exprs.len() == 0 || (all_local(exprs.drop_last()) && local(exprs.last()))
}

pub broadcast proof fn lemma_all_local(exprs: Seq<Expr>, expr: Expr)
    ensures
        #[trigger] all_local(exprs.push(expr)) == (all_local(exprs) && local(expr)),
{
    assert(exprs.push(expr).drop_last() =~= exprs);
}

pub broadcast proof fn lemma_local_and(a: Expr, b: Expr)
    ensures
        #[trigger] local(a.and(b)) == (local(a) && local(b)),
{
}

pub broadcast proof fn lemma_local_node(kind: SyntaxKind, a: Expr)
    ensures
        #[trigger] local(node(kind, a)) == (kind != SyntaxKind::ERROR && kind
            != SyntaxKind::SOURCE_FILE && local(a)),
{
}

pub broadcast proof fn lemma_local_opt(a: Expr)
    ensures
        #[trigger] local(opt(a)) == local(a),
{
}

pub broadcast proof fn lemma_local_not(a: Expr)
    ensures
        #[trigger] local(not(a)) == local(a),
{
}

pub broadcast proof fn lemma_local_if_next(set: Seq<SyntaxKind>, a: Expr)
    ensures
        #[trigger] local(if_next(set, a)) == local(a),
{
}

pub broadcast proof fn lemma_local_if_next_else(set: Seq<SyntaxKind>, a: Expr, b: Expr)
    ensures
        #[trigger] local(if_next_else(set, a, b)) == (local(a) && local(b)),
{
}

pub broadcast proof fn lemma_local_one(a: Expr)
    ensures
        #[trigger] local(one(a)) == local(a),
{
}

pub broadcast proof fn lemma_local_cached(kind: SyntaxKind, a: Expr)
    ensures
        #[trigger] local(cached(kind, a)) == local(a),
{
}

pub broadcast proof fn lemma_local_alt(exprs: Seq<Expr>)
    ensures
        #[trigger] local(alt(exprs)) == all_local(exprs),
{
}

pub broadcast proof fn lemma_local_many(n: nat, a: Expr)
    requires
        local(a),
    ensures
        #[trigger] local(n_or_more(n, a)),
    decreases n,
{
    if n > 0 {
        lemma_local_many((n - 1) as nat, a);
        lemma_n_or_more((n - 1) as nat, a);
        lemma_local_one(a);
        lemma_local_and(one(a), n_or_more((n - 1) as nat, a));
    }
}

pub broadcast group group_local {
    lemma_all_local,
    lemma_local_and,
    lemma_local_node,
    lemma_local_opt,
    lemma_local_not,
    lemma_local_if_next,
    lemma_local_if_next_else,
    lemma_local_one,
    lemma_local_cached,
    lemma_local_alt,
    lemma_local_many,
}

proof fn lemma_local_declarations()
    ensures
        local(grammar::import_stmt()),
        local(grammar::rule_mods()),
        local(grammar::rule_tags()),
        local(grammar::condition_blk()),
{
    broadcast use group_local;

    reveal(grammar::import_stmt);
    reveal(grammar::rule_mods);
    reveal(grammar::private_mods);
    reveal(grammar::global_mods);
    reveal(grammar::rule_tags);
    reveal(grammar::condition_blk);
}

proof fn lemma_local_blocks()
    ensures
        local(grammar::meta_blk()),
        local(grammar::meta_def()),
        local(grammar::patterns_blk()),
        local(grammar::pattern_def()),
        local(grammar::pattern_mods()),
{
    broadcast use group_local;

    reveal(grammar::meta_blk);
    reveal(grammar::meta_def);
    reveal(grammar::signed_number);
    reveal(grammar::patterns_blk);
    reveal(grammar::pattern_def);
    reveal(grammar::pattern_mods);
}

proof fn lemma_local_modifiers()
    ensures
        local(grammar::pattern_mod()),
{
    broadcast use group_local;

    reveal(grammar::pattern_mod);
    reveal(grammar::plain_mod);
    reveal(grammar::base64_mod);
    reveal(grammar::base64_alphabet);
    reveal(grammar::xor_mod);
    reveal(grammar::xor_range);
    reveal(grammar::xor_upper_bound);
}

proof fn lemma_local_hex()
    ensures
        local(grammar::hex_pattern()),
        local(grammar::hex_sub_pattern()),
        local(grammar::hex_alternative()),
        local(grammar::hex_jump()),
{
    broadcast use group_local;

    reveal(grammar::hex_pattern);
    reveal(grammar::hex_sub_pattern);
    reveal(grammar::hex_item);
    reveal(grammar::hex_more);
    reveal(grammar::hex_alternative);
    reveal(grammar::hex_branch);
    reveal(grammar::hex_jump);
    reveal(grammar::jump_bounds);
}

proof fn lemma_local_booleans()
    ensures
        local(grammar::boolean_expr()),
        local(grammar::boolean_term()),
{
    broadcast use group_local;

    reveal(grammar::boolean_expr);
    reveal(grammar::boolean_more);
    reveal(grammar::boolean_term);
    reveal(grammar::anchored_pattern);
    reveal(grammar::prefixed_term);
    reveal(grammar::comparison);
    reveal(grammar::comparison_more);
    reveal(grammar::boolean_group);
}

proof fn lemma_local_exprs()
    ensures
        local(grammar::expr()),
        local(grammar::term()),
        local(grammar::range()),
{
    broadcast use group_local;

    reveal(grammar::expr);
    reveal(grammar::expr_more);
    reveal(grammar::term);
    reveal(grammar::index);
    reveal(grammar::arguments);
    reveal(grammar::more_booleans);
    reveal(grammar::range);
}

proof fn lemma_local_primary()
    ensures
        local(grammar::primary_expr()),
{
    broadcast use group_local;

    reveal(grammar::primary_expr);
    reveal(grammar::primary_node);
    reveal(grammar::literal);
    reveal(grammar::pattern_count);
    reveal(grammar::in_range);
    reveal(grammar::pattern_match);
    reveal(grammar::match_index);
    reveal(grammar::negation);
    reveal(grammar::complement);
    reveal(grammar::group);
    reveal(grammar::path);
    reveal(grammar::field);
}

proof fn lemma_local_quantified()
    ensures
        local(grammar::for_expr()),
        local(grammar::of_expr()),
{
    broadcast use group_local;

    reveal(grammar::for_expr);
    reveal(grammar::for_patterns);
    reveal(grammar::pattern_choice);
    reveal(grammar::for_items);
    reveal(grammar::more_idents);
    reveal(grammar::of_expr);
    reveal(grammar::of_patterns);
    reveal(grammar::anchor);
    reveal(grammar::at_offset);
    reveal(grammar::in_range);
    reveal(grammar::of_booleans);
}

proof fn lemma_local_quantifiers()
    ensures
        local(grammar::quantifier()),
        local(grammar::iterable()),
{
    broadcast use group_local;

    reveal(grammar::quantifier);
    reveal(grammar::percentage);
    reveal(grammar::exact_count);
    reveal(grammar::iterable);
}

proof fn lemma_local_tuples()
    ensures
        local(grammar::boolean_expr_tuple()),
        local(grammar::expr_tuple()),
        local(grammar::pattern_ident_tuple()),
{
    broadcast use group_local;

    reveal(grammar::boolean_expr_tuple);
    reveal(grammar::more_booleans);
    reveal(grammar::expr_tuple);
    reveal(grammar::more_exprs);
    reveal(grammar::pattern_ident_tuple);
    reveal(grammar::more_pattern_idents);
}

/// The productions are local, but for the one of rules.
pub proof fn lemma_local(kind: SyntaxKind)
    requires
        kind != SyntaxKind::RULE_DECL,
    ensures
        local(production(kind)),
{
    reveal(production);
    lemma_local_alt(Seq::empty());
    lemma_local_declarations();
    lemma_local_blocks();
    lemma_local_modifiers();
    lemma_local_hex();
    lemma_local_booleans();
    lemma_local_exprs();
    lemma_local_primary();
    lemma_local_quantified();
    lemma_local_quantifiers();
    lemma_local_tuples();
}

/// The expression describes neither error nodes nor the node of the whole file,
/// and its points of recovery are between the parts that it is made of.
pub open spec fn orderly(expr: Expr) -> bool
    decreases expr,
{
    match expr {
        Expr::Recover | Expr::Sync(_) => true,
        Expr::Cat(first, second) => {
            &&& orderly(*first)
            &&& local(*second) || *second is Recover || *second is Sync
        },
        Expr::Node(kind, inner) => {
            &&& kind != SyntaxKind::ERROR
            &&& kind != SyntaxKind::SOURCE_FILE
            &&& orderly(*inner)
        },
        Expr::Rule(_) => true,
        _ => local(expr),
    }
}

/// A local expression is orderly, and forgets no failure.
pub proof fn lemma_local_orderly(expr: Expr)
    requires
        local(expr),
    ensures
        orderly(expr),
        keeps_failure(expr),
    decreases expr,
{
    match expr {
        Expr::Cat(first, second) => {
            lemma_local_orderly(*first);
            lemma_local_orderly(*second);
        },
        Expr::Node(_, inner) => lemma_local_orderly(*inner),
        Expr::Cached(_, inner) => lemma_local_orderly(*inner),
        _ => {},
    }
}

broadcast proof fn lemma_orderly_and(a: Expr, b: Expr)
    ensures
        #[trigger] orderly(a.and(b)) == (orderly(a) && (local(b) || b is Recover || b is Sync)),
{
}

broadcast proof fn lemma_orderly_node(kind: SyntaxKind, a: Expr)
    ensures
        #[trigger] orderly(node(kind, a)) == (kind != SyntaxKind::ERROR && kind
            != SyntaxKind::SOURCE_FILE && orderly(a)),
{
}

proof fn lemma_orderly_rule_decl()
    ensures
        orderly(grammar::rule_decl()),
{
    broadcast use {group_local, lemma_orderly_and, lemma_orderly_node};

    reveal(grammar::rule_decl);
    reveal(grammar::rule_parts);
    reveal(grammar::rule_blocks);
    reveal(grammar::rule_header);
}

/// The productions are orderly.
pub proof fn lemma_orderly(kind: SyntaxKind)
    ensures
        orderly(production(kind)),
{
    if kind == SyntaxKind::RULE_DECL {
        reveal(production);
        lemma_orderly_rule_decl();
    } else {
        lemma_local(kind);
        lemma_local_orderly(production(kind));
    }
}

/// The parts of an orderly expression are orderly, and only points of recovery
/// forget a failure.
pub proof fn lemma_parts(expr: Expr)
    requires
        orderly(expr),
    ensures
        match expr {
            Expr::Cat(first, second) => {
                &&& orderly(*first)
                &&& orderly(*second)
                &&& keeps_failure(*second) || *second is Recover
            },
            Expr::Opt(inner) => orderly(*inner),
            Expr::Not(inner) => orderly(*inner),
            Expr::IfNext(_, inner) => orderly(*inner),
            Expr::IfNextElse(_, inner, other) => orderly(*inner) && orderly(*other),
            Expr::Many(inner) => orderly(*inner),
            Expr::One(inner) => orderly(*inner),
            Expr::Cached(_, inner) => orderly(*inner),
            _ => true,
        },
{
    match expr {
        Expr::Cat(_, second) => if local(*second) {
            lemma_local_orderly(*second);
        },
        Expr::Opt(inner) => lemma_local_orderly(*inner),
        Expr::Not(inner) => lemma_local_orderly(*inner),
        Expr::IfNext(_, inner) => lemma_local_orderly(*inner),
        Expr::IfNextElse(_, inner, other) => {
            lemma_local_orderly(*inner);
            lemma_local_orderly(*other);
        },
        Expr::Many(inner) => lemma_local_orderly(*inner),
        Expr::One(inner) => lemma_local_orderly(*inner),
        Expr::Cached(_, inner) => lemma_local_orderly(*inner),
        _ => {},
    }
}

/// What follows an optional branch.
pub proof fn lemma_shows_opt(s: State, t: State, shown: Seq<EventView>)
    requires
        s.placed(),
        ahead_of(t, s.enter_opt()),
        shows(s.enter_opt(), t, shown),
    ensures
        t.failed ==> shows(s, t.leave_opt(s), Seq::empty()),
        !t.failed ==> shows(s, t.leave_opt(s), shown),
{
    lemma_enter_opt(s);
    if t.failed {
        lemma_shows_same(s, t.leave_opt(s));
    } else {
        lemma_shows_trivia(s);
        lemma_shows_same(s.trivia(), s.enter_opt());
        lemma_shows_same(t, t.leave_opt(s));
        lemma_shows_more(s, s.trivia(), s.enter_opt(), Seq::empty());
        lemma_shows_more(s, s.enter_opt(), t, shown);
        lemma_shows_more(s, t, t.leave_opt(s), shown);
    }
}

/// What parsing an expression shows is what the expression describes: all of
/// it, or only some if the parser fails.
#[verifier::rlimit(40)]
pub proof fn lemma_eval_shows(expr: Expr, s: State, depth: nat) -> (shown: Seq<EventView>)
    requires
        s.placed(),
        orderly(expr),
        eval(expr, s, depth) is Some,
    ensures
        shows(s, eval(expr, s, depth)->0, shown),
        s.failed && keeps_failure(expr) ==> shown.len() == 0,
        !s.failed && !(eval(expr, s, depth)->0).failed ==> derives(expr, shown, depth),
        !s.failed && (eval(expr, s, depth)->0).failed ==> cut(expr, shown, depth),
    decreases depth, expr,
{
    let none = Seq::<EventView>::empty();
    let end = eval(expr, s, depth)->0;
    lemma_shows_same(s, s);
    lemma_derives_step(expr, depth);
    lemma_parts(expr);
    match expr {
        Expr::Expect(set, description) => {
            let shown = lemma_shows_expect(s, set, description);
            lemma_derives_expect(set, description, shown, depth);
            shown
        },
        Expr::HexPatternMode | Expr::HexJumpMode | Expr::Recover => {
            lemma_shows_same(s, end);
            none
        },
        Expr::Sync(set) => {
            lemma_shows_sync(s, set);
            lemma_sync(s, set);
            none
        },
        Expr::Cat(first, second) => {
            lemma_eval_ahead(*first, s, depth);
            let t = eval(*first, s, depth)->0;
            let a = lemma_eval_shows(*first, s, depth);
            let b = lemma_eval_shows(*second, t, depth);
            lemma_shows_trans(s, t, end, a, b);
            lemma_derives_cat(*first, *second, a, b, depth);
            if s.failed && keeps_failure(*first) {
                lemma_eval_keeps_failure(*first, s, depth);
            }
            if t.failed && keeps_failure(*second) {
                lemma_eval_keeps_failure(*second, t, depth);
                assert(a + b =~= a);
            }
            if *second == Expr::Recover {
                assert(b =~= none) by {
                    assert(end.out.events.skip(t.out.events.len() as int) =~= none);
                    lemma_tidy_none();
                }
                assert(a + b =~= a);
            }
            a + b
        },
        Expr::Node(kind, inner) => {
            lemma_begin(s, kind);
            lemma_eval_ahead(*inner, s.begin(kind), depth);
            let t = eval(*inner, s.begin(kind), depth)->0;
            let inside = lemma_eval_shows(*inner, s.begin(kind), depth);
            lemma_trivia(s);
            lemma_shows_trivia(s);
            lemma_shows_close(s.trivia(), kind, t, inside);
            if s.failed && keeps_failure(*inner) {
                lemma_eval_keeps_failure(*inner, s.begin(kind), depth);
            }
            let shown = if t.failed {
                none
            } else {
                seq![EventView::Begin(kind)] + inside + seq![EventView::End(kind)]
            };
            lemma_shows_more(s, s.trivia(), end, shown);
            if !s.failed && !t.failed {
                lemma_derives_node(kind, *inner, inside, depth);
            }
            shown
        },
        Expr::Opt(inner) => if s.failed {
            none
        } else {
            lemma_enter_opt(s);
            lemma_eval_ahead(*inner, s.enter_opt(), depth);
            let t = eval(*inner, s.enter_opt(), depth)->0;
            let shown = lemma_eval_shows(*inner, s.enter_opt(), depth);
            lemma_shows_opt(s, t, shown);
            lemma_derives_inner(expr, *inner, shown, depth);
            if t.failed {
                none
            } else {
                shown
            }
        },
        Expr::Not(inner) => {
            if !s.failed {
                lemma_enter_not(s);
                lemma_eval_ahead(*inner, s.enter_not(), depth);
                lemma_shows_same(s, end);
            }
            none
        },
        Expr::IfNext(set, inner) => if !s.failed && (relevant_after(s.src, s.cursor) matches Some(
            token,
        ) && kind_in(set, token.id) is Some) {
            lemma_trivia(s);
            lemma_shows_trivia(s);
            let shown = lemma_eval_shows(*inner, s.trivia(), depth);
            lemma_shows_more(s, s.trivia(), end, shown);
            lemma_derives_inner(expr, *inner, shown, depth);
            shown
        } else {
            lemma_shows_same(s, end);
            none
        },
        Expr::IfNextElse(set, inner, other) => if s.failed {
            none
        } else if s.sees(set) {
            lemma_trivia(s);
            lemma_shows_trivia(s);
            let shown = lemma_eval_shows(*inner, s.trivia(), depth);
            lemma_shows_more(s, s.trivia(), end, shown);
            lemma_derives_inner(expr, *inner, shown, depth);
            shown
        } else {
            lemma_shows_same(s, s.missed(set));
            let shown = lemma_eval_shows(*other, s.missed(set), depth);
            lemma_shows_more(s, s.missed(set), end, shown);
            lemma_derives_inner(expr, *other, shown, depth);
            shown
        },
        Expr::Many(inner) => if s.failed {
            none
        } else {
            lemma_enter_opt(s);
            lemma_eval_ahead(*inner, s.enter_opt(), depth);
            let t = eval(*inner, s.enter_opt(), depth)->0;
            let first = lemma_eval_shows(*inner, s.enter_opt(), depth);
            lemma_shows_opt(s, t, first);
            if t.failed {
                none
            } else {
                let u = t.leave_opt(s);
                let others = lemma_eval_shows(expr, u, (depth - 1) as nat);
                lemma_shows_trans(s, u, end, first, others);
                lemma_many_ok(*inner, u, (depth - 1) as nat);
                lemma_derives_many(*inner, first, others, depth);
                first + others
            }
        },
        Expr::One(inner) => if s.failed {
            none
        } else {
            lemma_trivia(s);
            lemma_shows_trivia(s);
            let shown = lemma_eval_shows(*inner, s.trivia(), depth);
            lemma_shows_more(s, s.trivia(), end, shown);
            lemma_derives_inner(expr, *inner, shown, depth);
            shown
        },
        Expr::Cached(kind, inner) => if s.cache.contains((s.cursor.index, code(kind))) {
            lemma_shows_same(s, end);
            none
        } else {
            let t = eval(*inner, s, depth)->0;
            let shown = lemma_eval_shows(*inner, s, depth);
            lemma_shows_same(t, end);
            lemma_shows_more(s, t, end, shown);
            lemma_derives_inner(expr, *inner, shown, depth);
            shown
        },
        Expr::Alt(exprs) => {
            let (t, matched) = eval_alt(exprs, s, depth)->0;
            lemma_eval_alt_ahead(exprs, s, depth);
            let shown = lemma_eval_alt_shows(exprs, s, depth);
            if matched {
                if s.failed {
                    lemma_eval_alt_failed(exprs, s, depth);
                }
                lemma_derives_alt(exprs, shown, depth);
                shown
            } else {
                lemma_handle_errors(State { failed: true, ..t });
                lemma_shows_same(s, end);
                none
            }
        },
        Expr::Rule(kind) => {
            lemma_orderly(kind);
            lemma_productions(kind);
            let shown = lemma_eval_shows(production(kind), s, (depth - 1) as nat);
            lemma_derives_rule(kind, shown, depth);
            shown
        },
    }
}

/// A repetition does not fail.
proof fn lemma_many_ok(inner: Expr, s: State, depth: nat)
    requires
        s.placed(),
        !s.failed,
        eval(n_or_more(0, inner), s, depth) is Some,
    ensures
        !(eval(n_or_more(0, inner), s, depth)->0).failed,
    decreases depth,
{
    lemma_enter_opt(s);
    lemma_eval_ahead(inner, s.enter_opt(), depth);
    let t = eval(inner, s.enter_opt(), depth)->0;
    if !t.failed {
        lemma_many_ok(inner, t.leave_opt(s), (depth - 1) as nat);
    }
}

proof fn lemma_eval_alt_shows(exprs: Seq<Expr>, s: State, depth: nat) -> (shown: Seq<EventView>)
    requires
        s.placed(),
        all_local(exprs),
        eval_alt(exprs, s, depth) is Some,
    ensures
        shows(s, (eval_alt(exprs, s, depth)->0).0, shown),
        (eval_alt(exprs, s, depth)->0).1 ==> derives_any(exprs, shown, depth),
    decreases depth, exprs,
{
    lemma_shows_same(s, s);
    if exprs.len() == 0 {
        Seq::empty()
    } else {
        lemma_eval_alt_ahead(exprs.drop_last(), s, depth);
        let (t, matched) = eval_alt(exprs.drop_last(), s, depth)->0;
        let before = lemma_eval_alt_shows(exprs.drop_last(), s, depth);
        lemma_derives_alt(exprs, before, depth);
        if matched || t.failed {
            before
        } else {
            lemma_local_orderly(exprs.last());
            lemma_enter_opt(t);
            lemma_eval_ahead(exprs.last(), t.enter_opt(), depth);
            let u = eval(exprs.last(), t.enter_opt(), depth)->0;
            let shown = lemma_eval_shows(exprs.last(), t.enter_opt(), depth);
            lemma_derives_alt(exprs, shown, depth);
            lemma_shows_opt(t, u, shown);
            assert(u.leave_opt(s) == u.leave_opt(t));
            lemma_shows_same(s, t);
            if u.failed {
                lemma_shows_more(s, t, u.leave_opt(t), Seq::empty());
                Seq::empty()
            } else {
                lemma_shows_more(s, t, u.leave_opt(t), shown);
                shown
            }
        }
    }
}

/// Whatever the production, if it fits, what it adds to the output is, outside
/// of error nodes and trivia aside, what the production describes, but for what
/// has been cut short before a point of recovery.
pub proof fn lemma_valid(kind: SyntaxKind, s: State, t: State)
    requires
        s.placed(),
        !s.failed,
        parses(Expr::Rule(kind), s, t),
        !t.failed,
    ensures
        exists|depth: nat|
            derives(
                Expr::Rule(kind),
                outside(t.out.events.skip(s.out.events.len() as int)),
                depth,
            ),
{
    let depth = choose|depth: nat| #[trigger] eval(Expr::Rule(kind), s, depth) == Some(t);
    let shown = lemma_eval_shows(Expr::Rule(kind), s, depth);
    assert(derives(Expr::Rule(kind), shown, depth));
}

} // verus!
