//! Where no error is reported, nothing has been left out.
//!
//! A rule goes on after something in it is not as it should be. Here it is shown
//! that this does not happen without an error, so that a rule without errors has
//! all the parts that the grammar describes.

use crate::event::EventView;
use crate::grammar;
use crate::grammar::{alt, if_next, n_or_more, node, one, production, token, Expr};
use crate::laws::frame::{
    ahead_of, lemma_ahead_refl, lemma_ahead_trans, lemma_begin, lemma_close, lemma_enter_not,
    lemma_enter_opt, lemma_eval_ahead, lemma_eval_alt_ahead, lemma_expect, lemma_flush_errors,
    lemma_handle_errors, lemma_skip_trivia, lemma_skip_until, lemma_sync, lemma_take, lemma_trivia,
};
use crate::laws::progress::lemma_eval_alt_failed;
use crate::laws::valid::{
    all_local, derives, derives_any, group_local, lemma_eval_shows, lemma_local,
    lemma_local_orderly, lemma_orderly, lemma_parts, lemma_shows_close, lemma_shows_more,
    lemma_shows_same, lemma_shows_sync, lemma_shows_trans, lemma_shows_trivia, lemma_valid, local,
    one_of, orderly, outside, shows,
};
use crate::semantics::{eval, eval_alt, parses};
use crate::state::{code, error_events, greatest, is_greatest, key_le, kind_in, State};
use crate::syntax_kind::{kind_of, SyntaxKind};
use crate::token::is_trivia_id;
use crate::token_stream::{lemma_lex, relevant_after, token_after};
use crate::tokenizer::lex;
use vstd::prelude::*;

verus! {

/// The events are what the expression describes, from the first part of it to
/// the last one, if `depth` nested productions and repetitions are enough for
/// that.
#[verifier::opaque]
pub open spec fn derives_whole(expr: Expr, events: Seq<EventView>, depth: nat) -> bool
    decreases depth, expr,
{
    match expr {
        Expr::Expect(set, _) => one_of(set, events),
        Expr::Cat(first, second) => exists|i: int|
            0 <= i <= events.len() && derives_whole(*first, #[trigger] events.take(i), depth)
                && derives_whole(*second, events.skip(i), depth),
        Expr::Node(kind, inner) => {
            &&& events.len() >= 2
            &&& events[0] == EventView::Begin(kind)
            &&& events.last() == EventView::End(kind)
            &&& derives_whole(*inner, events.drop_first().drop_last(), depth)
        },
        Expr::Opt(inner) => events.len() == 0 || derives_whole(*inner, events, depth),
        Expr::IfNext(_, inner) => events.len() == 0 || derives_whole(*inner, events, depth),
        Expr::IfNextElse(_, inner, other) => {
            derives_whole(*inner, events, depth) || derives_whole(*other, events, depth)
        },
        Expr::Many(inner) => {
            ||| events.len() == 0
            ||| depth > 0 && exists|i: int|
                0 <= i <= events.len() && derives_whole(*inner, #[trigger] events.take(i), depth)
                    && derives_whole(expr, events.skip(i), (depth - 1) as nat)
        },
        Expr::One(inner) => derives_whole(*inner, events, depth),
        Expr::Cached(_, inner) => derives_whole(*inner, events, depth),
        Expr::Alt(exprs) => derives_any_whole(exprs, events, depth),
        Expr::Rule(kind) => {
            depth > 0 && derives_whole(production(kind), events, (depth - 1) as nat)
        },
        _ => events.len() == 0,
    }
}

/// The events are what one of the expressions describes.
#[verifier::opaque]
pub open spec fn derives_any_whole(exprs: Seq<Expr>, events: Seq<EventView>, depth: nat) -> bool
    decreases depth, exprs,
{
    exprs.len() > 0 && (derives_whole(exprs.last(), events, depth) || derives_any_whole(
        exprs.drop_last(),
        events,
        depth,
    ))
}

/// Without points of recovery there is nothing that could have been cut short.
pub proof fn lemma_local_whole(expr: Expr, events: Seq<EventView>, depth: nat)
    requires
        local(expr),
        derives(expr, events, depth),
    ensures
        derives_whole(expr, events, depth),
    decreases depth, expr,
{
    reveal(derives);
    reveal(derives_any);
    reveal(derives_whole);
    reveal(derives_any_whole);
    match expr {
        Expr::Cat(first, second) => {
            assert(local(*second));
            let i = choose|i: int|
                0 <= i <= events.len() && derives(*first, #[trigger] events.take(i), depth)
                    && derives(*second, events.skip(i), depth);
            lemma_local_whole(*first, events.take(i), depth);
            lemma_local_whole(*second, events.skip(i), depth);
        },
        Expr::Node(_, inner) => {
            lemma_local_whole(*inner, events.drop_first().drop_last(), depth);
        },
        Expr::Opt(inner) => if events.len() > 0 {
            lemma_local_whole(*inner, events, depth);
        },
        Expr::IfNext(_, inner) => if events.len() > 0 {
            lemma_local_whole(*inner, events, depth);
        },
        Expr::IfNextElse(_, inner, other) => if derives(*inner, events, depth) {
            lemma_local_whole(*inner, events, depth);
        } else {
            lemma_local_whole(*other, events, depth);
        },
        Expr::Many(inner) => if events.len() > 0 {
            let i = choose|i: int|
                0 <= i <= events.len() && derives(*inner, #[trigger] events.take(i), depth)
                    && derives(expr, events.skip(i), (depth - 1) as nat);
            lemma_local_whole(*inner, events.take(i), depth);
            lemma_local_whole(expr, events.skip(i), (depth - 1) as nat);
        },
        Expr::One(inner) => lemma_local_whole(*inner, events, depth),
        Expr::Cached(_, inner) => lemma_local_whole(*inner, events, depth),
        Expr::Alt(exprs) => lemma_local_any_whole(exprs, events, depth),
        Expr::Rule(kind) => {
            lemma_local(kind);
            lemma_local_whole(production(kind), events, (depth - 1) as nat);
        },
        _ => {},
    }
}

proof fn lemma_local_any_whole(exprs: Seq<Expr>, events: Seq<EventView>, depth: nat)
    requires
        all_local(exprs),
        derives_any(exprs, events, depth),
    ensures
        derives_any_whole(exprs, events, depth),
    decreases depth, exprs,
{
    reveal(derives_any);
    reveal(derives_any_whole);
    reveal(derives);
    reveal(derives_whole);
    if derives(exprs.last(), events, depth) {
        lemma_local_whole(exprs.last(), events, depth);
    } else {
        lemma_local_any_whole(exprs.drop_last(), events, depth);
    }
}

/// Whatever the production, but for the one of rules, if it fits, what it adds to
/// the output is, outside of error nodes and trivia aside, all that the production
/// describes.
pub proof fn lemma_whole_production(kind: SyntaxKind, s: State, t: State)
    requires
        s.placed(),
        !s.failed,
        kind != SyntaxKind::RULE_DECL,
        parses(Expr::Rule(kind), s, t),
        !t.failed,
    ensures
        exists|depth: nat|
            derives_whole(
                Expr::Rule(kind),
                outside(t.out.events.skip(s.out.events.len() as int)),
                depth,
            ),
{
    let shown = outside(t.out.events.skip(s.out.events.len() as int));
    lemma_valid(kind, s, t);
    let depth = choose|depth: nat| derives(Expr::Rule(kind), shown, depth);
    lemma_local_whole(Expr::Rule(kind), shown, depth);
}

proof fn lemma_whole_cat(
    first: Expr,
    second: Expr,
    a: Seq<EventView>,
    b: Seq<EventView>,
    depth: nat,
)
    requires
        derives_whole(first, a, depth),
        derives_whole(second, b, depth),
    ensures
        derives_whole(first.and(second), a + b, depth),
{
    reveal(derives_whole);
    assert((a + b).take(a.len() as int) =~= a);
    assert((a + b).skip(a.len() as int) =~= b);
}

proof fn lemma_whole_node(kind: SyntaxKind, inner: Expr, events: Seq<EventView>, depth: nat)
    requires
        derives_whole(inner, events, depth),
    ensures
        derives_whole(
            node(kind, inner),
            seq![EventView::Begin(kind)] + events + seq![EventView::End(kind)],
            depth,
        ),
{
    reveal(derives_whole);
    let all = seq![EventView::Begin(kind)] + events + seq![EventView::End(kind)];
    assert(all.drop_first().drop_last() =~= events);
}

/// Some keys have a last one.
pub proof fn lemma_greatest(keys: Set<(usize, usize)>, key: (usize, usize))
    requires
        keys.contains(key),
    ensures
        greatest(keys) is Some,
    decreases usize::MAX - key.0, usize::MAX - key.1,
{
    if !is_greatest(keys, key) {
        let other = choose|other: (usize, usize)| #[trigger]
            keys.contains(other) && !key_le(other, key);
        lemma_greatest(keys, other);
    }
}

/// Among the events from some place on there is an error.
pub open spec fn has_error(events: Seq<EventView>, from: int) -> bool {
    exists|i: int| from <= i < events.len() && (#[trigger] events[i]) is Error
}

/// An error has been reported, or will be.
spec fn marked(s: State, from: int) -> bool {
    s.pending.len() > 0 || has_error(s.out.events, from)
}

/// There is nothing but trivia left.
spec fn ended(s: State) -> bool {
    relevant_after(s.src, s.cursor) is None
}

/// Something was expected somewhere.
spec fn has_notes(s: State) -> bool {
    exists|key: (usize, usize)| #[trigger] s.expected.contains_key(key)
}

/// The later state has the notes that the earlier one has, and the same errors.
spec fn quiet(earlier: State, later: State) -> bool {
    &&& later.pending == earlier.pending
    &&& forall|key: (usize, usize)| #[trigger]
        earlier.expected.contains_key(key) ==> later.expected.contains_key(key)
}

/// The errors of an earlier state are still there.
proof fn lemma_marked(s: State, t: State, from: int)
    requires
        ahead_of(t, s),
        0 <= from,
        marked(s, from),
        s.pending.len() > 0 ==> marked(t, from),
    ensures
        marked(t, from),
{
    if s.pending.len() == 0 {
        let i = choose|i: int| from <= i < s.out.events.len() && (#[trigger] s.out.events[i])
            is Error;
        let n = s.out.events.len() as int;
        assert(t.out.events.take(n)[i] == t.out.events[i]);
    }
}

/// The pending errors go to the output.
proof fn lemma_flushed(s: State, from: int)
    requires
        0 <= from <= s.out.events.len(),
        marked(s, from),
    ensures
        has_error(s.flush_errors().out.events, from),
{
    let n = s.out.events.len() as int;
    let events = s.flush_errors().out.events;
    if s.pending.len() > 0 {
        assert(events[n] == error_events(s.pending)[0]);
    } else {
        let i = choose|i: int| from <= i < n && (#[trigger] s.out.events[i]) is Error;
        assert(events[i] == s.out.events[i]);
    }
}

/// What was expected turns into an error, unless an optional branch is open.
proof fn lemma_handled(s: State)
    ensures
        s.in_opt ==> s.handle_errors() == s,
        s.pending.len() > 0 ==> s.handle_errors().pending.len() > 0,
        !s.in_opt && has_notes(s) ==> s.handle_errors().pending.len() > 0,
{
    reveal(State::handle_errors);
    if has_notes(s) {
        let key = choose|key: (usize, usize)| #[trigger] s.expected.contains_key(key);
        lemma_greatest(s.expected.dom(), key);
    }
}

/// Skipping trivia leaves the errors alone, and what comes after it is next.
pub proof fn lemma_trivia_quiet(s: State)
    requires
        s.placed(),
    ensures
        s.skip_trivia().pending == s.pending,
        s.skip_trivia().expected == s.expected,
        s.trivia().pending == s.pending,
        s.trivia().expected == s.expected,
        s.trivia().in_opt == s.in_opt,
        s.trivia().in_not == s.in_not,
        relevant_after(s.src, s.skip_trivia().cursor) == relevant_after(s.src, s.cursor),
        relevant_after(s.src, s.trivia().cursor) == relevant_after(s.src, s.cursor),
    decreases s.rest(),
{
    lemma_lex(s.src, s.cursor);
    lemma_trivia(s);
    if let Some((token, _)) = lex(s.src, s.cursor) {
        if is_trivia_id(token.id) {
            lemma_take(s, kind_of(token.id));
            lemma_trivia_quiet(s.bump());
        }
    }
}

/// Expecting a token.
proof fn lemma_expect_reports(
    s: State,
    set: Seq<SyntaxKind>,
    description: Option<Seq<char>>,
    from: int,
)
    requires
        s.placed(),
        0 <= from <= s.out.events.len(),
    ensures
        ({
            let t = s.expect(set, description);
            &&& marked(s, from) ==> marked(t, from)
            &&& s.in_opt ==> quiet(s, t)
            &&& !s.failed && t.failed && !s.in_not && s.in_opt && !ended(s) ==> has_notes(t)
            &&& !s.failed && t.failed && !s.in_not && !s.in_opt ==> marked(t, from) || ended(t)
            &&& !s.failed && !t.failed && !s.in_opt && marked(s, from) ==> has_error(
                t.out.events,
                from,
            )
            &&& ended(s) ==> ended(t) && t.failed
        }),
{
    reveal(State::expect);
    let t = s.expect(set, description);
    lemma_expect(s, set, description);
    if !s.failed {
        if let Some(token) = relevant_after(s.src, s.cursor) {
            let key = token.span.key_of();
            let unexpected = State { unexpected: s.unexpected.insert(key), ..s };
            let noted = s.note_expected(key, set, description);
            assert(noted.expected.contains_key(key));
            lemma_handled(unexpected);
            lemma_handle_errors(unexpected);
            lemma_handled(noted);
            lemma_handle_errors(noted);
            if let Some(kind) = kind_in(set, token.id) {
                let before = if s.in_not {
                    unexpected.handle_errors()
                } else {
                    s
                };
                lemma_trivia(before);
                lemma_trivia_quiet(before);
                let taken = before.trivia().take(kind);
                lemma_take(before.trivia(), kind);
                lemma_ahead_trans(before, before.trivia(), taken);
                if marked(s, from) {
                    lemma_marked(s, taken, from);
                    lemma_flushed(taken, from);
                }
            } else {
                assert(s.in_not || !s.in_opt || t.expected.contains_key(key));
                if marked(s, from) {
                    lemma_marked(s, t, from);
                }
            }
        }
    }
}

/// Starting a node.
proof fn lemma_begin_reports(s: State, kind: SyntaxKind, from: int)
    requires
        s.placed(),
        0 <= from <= s.out.events.len(),
    ensures
        marked(s, from) ==> marked(s.begin(kind), from),
        quiet(s, s.begin(kind)),
        ended(s) == ended(s.begin(kind)),
        from <= s.begin(kind).out.events.len(),
        s.failed ==> s.begin(kind).cursor == s.cursor,
{
    let start = s.trivia();
    lemma_trivia(s);
    lemma_trivia_quiet(s);
    if marked(s, from) {
        lemma_marked(s, start, from);
        if s.pending.len() == 0 {
            let i = choose|i: int|
                from <= i < start.out.events.len() && (#[trigger] start.out.events[i]) is Error;
            assert(s.begin(kind).out.events[i] == start.out.events[i]);
        }
    }
}

/// Ending a node.
proof fn lemma_end_reports(s: State, from: int)
    requires
        s.placed(),
        s.out.open.len() > 0,
        0 <= from,
    ensures
        marked(s, from) ==> marked(s.end(), from),
        has_error(s.out.events, from) ==> has_error(s.end().out.events, from),
        quiet(s, s.end()),
{
    let at = s.out.open.last();
    assert(at == s.out.open[s.out.open.len() - 1]);
    if has_error(s.out.events, from) {
        let i = choose|i: int| from <= i < s.out.events.len() && (#[trigger] s.out.events[i])
            is Error;
        assert(i != at);
        assert(s.end().out.events[i] == s.out.events[i]);
    }
}

/// Within an optional branch nothing is reported, and no note is lost.
proof fn lemma_eval_quiet(expr: Expr, s: State, depth: nat)
    requires
        s.placed(),
        s.in_opt,
        local(expr),
        eval(expr, s, depth) is Some,
    ensures
        quiet(s, eval(expr, s, depth)->0),
    decreases depth, expr,
{
    lemma_trivia(s);
    lemma_trivia_quiet(s);
    match expr {
        Expr::Expect(set, description) => {
            lemma_expect_reports(s, set, description, 0);
        },
        Expr::Cat(first, second) => {
            lemma_eval_ahead(*first, s, depth);
            lemma_eval_quiet(*first, s, depth);
            lemma_eval_quiet(*second, eval(*first, s, depth)->0, depth);
        },
        Expr::Node(kind, inner) => {
            lemma_begin(s, kind);
            lemma_begin_reports(s, kind, 0);
            lemma_eval_ahead(*inner, s.begin(kind), depth);
            lemma_eval_quiet(*inner, s.begin(kind), depth);
        },
        Expr::Opt(inner) => if !s.failed {
            lemma_enter_opt(s);
            lemma_eval_quiet(*inner, s.enter_opt(), depth);
        },
        Expr::Not(inner) => if !s.failed {
            lemma_enter_not(s);
            lemma_eval_quiet(*inner, s.enter_not(), depth);
        },
        Expr::IfNext(set, inner) => if !s.failed && s.sees(set) {
            lemma_eval_quiet(*inner, s.trivia(), depth);
        },
        Expr::IfNextElse(set, inner, other) => if !s.failed {
            if s.sees(set) {
                lemma_eval_quiet(*inner, s.trivia(), depth);
            } else {
                assert(quiet(s, s.missed(set)));
                lemma_eval_quiet(*other, s.missed(set), depth);
            }
        },
        Expr::Many(inner) => if !s.failed {
            lemma_enter_opt(s);
            lemma_eval_ahead(*inner, s.enter_opt(), depth);
            lemma_eval_quiet(*inner, s.enter_opt(), depth);
            let t = eval(*inner, s.enter_opt(), depth)->0;
            if !t.failed {
                lemma_eval_quiet(expr, t.leave_opt(s), (depth - 1) as nat);
                }
        },
        Expr::One(inner) => if !s.failed {
            lemma_eval_quiet(*inner, s.trivia(), depth);
        },
        Expr::Cached(kind, inner) => if !s.cache.contains((s.cursor.index, code(kind))) {
            lemma_eval_quiet(*inner, s, depth);
        },
        Expr::Alt(exprs) => {
            lemma_eval_alt_ahead(exprs, s, depth);
            lemma_eval_alt_quiet(exprs, s, depth);
            let (t, _) = eval_alt(exprs, s, depth)->0;
            lemma_handled(State { failed: true, ..t });
        },
        Expr::Rule(kind) => {
            lemma_local(kind);
            lemma_eval_quiet(production(kind), s, (depth - 1) as nat);
        },
        _ => {},
    }
}

/// While alternatives are tried nothing is reported, and no note is lost.
proof fn lemma_eval_alt_quiet(exprs: Seq<Expr>, s: State, depth: nat)
    requires
        s.placed(),
        all_local(exprs),
        eval_alt(exprs, s, depth) is Some,
    ensures
        quiet(s, (eval_alt(exprs, s, depth)->0).0),
    decreases depth, exprs,
{
    if exprs.len() > 0 {
        lemma_eval_alt_ahead(exprs.drop_last(), s, depth);
        lemma_eval_alt_quiet(exprs.drop_last(), s, depth);
        let (t, matched) = eval_alt(exprs.drop_last(), s, depth)->0;
        if !matched && !t.failed {
            lemma_trivia(t);
            lemma_trivia_quiet(t);
            lemma_enter_opt(t);
            lemma_eval_quiet(exprs.last(), t.enter_opt(), depth);
        }
    }
}

/// One of the expressions is a token.
pub open spec fn offers_token(exprs: Seq<Expr>) -> bool
    decreases exprs.len(),
{
    exprs.len() > 0 && (exprs.last() is Expect || offers_token(exprs.drop_last()))
}

/// If no alternative fits, what was expected is noted.
proof fn lemma_alt_notes(exprs: Seq<Expr>, s: State, depth: nat)
    requires
        s.placed(),
        !s.failed,
        !s.in_not,
        !ended(s),
        all_local(exprs),
        offers_token(exprs),
        eval_alt(exprs, s, depth) is Some,
    ensures
        !(eval_alt(exprs, s, depth)->0).1 ==> has_notes((eval_alt(exprs, s, depth)->0).0),
    decreases exprs.len(),
{
    lemma_eval_alt_ahead(exprs.drop_last(), s, depth);
    let (t, matched) = eval_alt(exprs.drop_last(), s, depth)->0;
    if !matched {
        lemma_trivia(t);
        lemma_trivia_quiet(t);
        lemma_enter_opt(t);
        let start = t.enter_opt();
        let u = eval(exprs.last(), start, depth)->0;
        lemma_eval_quiet(exprs.last(), start, depth);
        if let Expr::Expect(set, description) = exprs.last() {
            lemma_expect_reports(start, set, description, 0);
        } else {
            lemma_alt_notes(exprs.drop_last(), s, depth);
            let key = choose|key: (usize, usize)| #[trigger] t.expected.contains_key(key);
            assert(u.expected.contains_key(key));
        }
        if u.failed {
            let key = choose|key: (usize, usize)| #[trigger] u.expected.contains_key(key);
            assert(u.leave_opt(s).expected.contains_key(key));
        }
    }
}

/// A parser that has failed stays where it is, and keeps its errors.
proof fn lemma_eval_failed(expr: Expr, s: State, depth: nat)
    requires
        s.placed(),
        s.failed,
        local(expr),
        eval(expr, s, depth) is Some,
    ensures
        ({
            let t = eval(expr, s, depth)->0;
            &&& t.failed
            &&& t.cursor == s.cursor
            &&& s.pending.len() > 0 ==> t.pending.len() > 0
        }),
    decreases depth, expr,
{
    match expr {
        Expr::Expect(set, description) => lemma_expect(s, set, description),
        Expr::Cat(first, second) => {
            lemma_eval_ahead(*first, s, depth);
            lemma_eval_failed(*first, s, depth);
            lemma_eval_failed(*second, eval(*first, s, depth)->0, depth);
        },
        Expr::Node(kind, inner) => {
            lemma_begin(s, kind);
            lemma_eval_failed(*inner, s.begin(kind), depth);
        },
        Expr::Cached(kind, inner) => if !s.cache.contains((s.cursor.index, code(kind))) {
            lemma_eval_failed(*inner, s, depth);
        },
        Expr::Alt(exprs) => {
            lemma_eval_alt_failed(exprs, s, depth);
            lemma_handled(s);
            lemma_handle_errors(s);
        },
        Expr::Rule(kind) => {
            lemma_local(kind);
            lemma_eval_failed(production(kind), s, (depth - 1) as nat);
        },
        _ => {},
    }
}

/// The productions that are parsed while no optional branch is open.
pub open spec fn is_outer(kind: SyntaxKind) -> bool {
    match kind {
        SyntaxKind::RULE_TAGS
        | SyntaxKind::META_BLK
        | SyntaxKind::META_DEF
        | SyntaxKind::PATTERNS_BLK
        | SyntaxKind::PATTERN_DEF
        | SyntaxKind::CONDITION_BLK
        | SyntaxKind::BOOLEAN_EXPR
        | SyntaxKind::BOOLEAN_TERM => true,
        _ => false,
    }
}

/// If the expression fails outside of optional branches there is an error,
/// unless the source has ended. For this, one of the alternatives that it has
/// must be a token, for which there is a note if nothing fits.
pub open spec fn reports(expr: Expr) -> bool
    decreases expr,
{
    match expr {
        Expr::Expect(_, _) => true,
        Expr::Cat(first, second) => reports(*first) && reports(*second),
        Expr::Node(_, inner) => reports(*inner),
        Expr::Opt(_) => true,
        Expr::IfNext(_, inner) => reports(*inner),
        Expr::Many(_) => true,
        Expr::One(inner) => reports(*inner),
        Expr::Alt(exprs) => offers_token(exprs),
        Expr::Rule(kind) => is_outer(kind),
        _ => false,
    }
}

pub broadcast proof fn lemma_reports_and(a: Expr, b: Expr)
    ensures
        #[trigger] reports(a.and(b)) == (reports(a) && reports(b)),
{
}

pub broadcast proof fn lemma_reports_node(kind: SyntaxKind, a: Expr)
    ensures
        #[trigger] reports(node(kind, a)) == reports(a),
{
}

pub broadcast proof fn lemma_reports_one(a: Expr)
    ensures
        #[trigger] reports(one(a)) == reports(a),
{
}

pub broadcast proof fn lemma_reports_if_next(set: Seq<SyntaxKind>, a: Expr)
    ensures
        #[trigger] reports(if_next(set, a)) == reports(a),
{
}

pub broadcast proof fn lemma_reports_alt(exprs: Seq<Expr>)
    ensures
        #[trigger] reports(alt(exprs)) == offers_token(exprs),
{
}

pub broadcast proof fn lemma_reports_many(n: nat, a: Expr)
    requires
        reports(a),
    ensures
        #[trigger] reports(n_or_more(n, a)),
    decreases n,
{
    if n > 0 {
        lemma_reports_many((n - 1) as nat, a);
        lemma_reports_one(a);
        lemma_reports_and(one(a), n_or_more((n - 1) as nat, a));
    }
}

pub broadcast proof fn lemma_reports_any(a: Expr)
    ensures
        #[trigger] reports(n_or_more(0, a)),
{
}

pub broadcast proof fn lemma_offers(exprs: Seq<Expr>, expr: Expr)
    ensures
        #[trigger] offers_token(exprs.push(expr)) == (expr is Expect || offers_token(exprs)),
{
    assert(exprs.push(expr).drop_last() =~= exprs);
}

pub broadcast group group_reports {
    lemma_reports_and,
    lemma_reports_node,
    lemma_reports_one,
    lemma_reports_if_next,
    lemma_reports_alt,
    lemma_reports_many,
    lemma_reports_any,
    lemma_offers,
}

proof fn lemma_reports_blocks()
    ensures
        reports(grammar::rule_tags()),
        reports(grammar::meta_blk()),
        reports(grammar::meta_def()),
        reports(grammar::patterns_blk()),
        reports(grammar::pattern_def()),
{
    broadcast use group_reports;

    reveal(grammar::rule_tags);
    reveal(grammar::meta_blk);
    reveal(grammar::meta_def);
    reveal(grammar::patterns_blk);
    reveal(grammar::pattern_def);
}

proof fn lemma_reports_conditions()
    ensures
        reports(grammar::condition_blk()),
        reports(grammar::boolean_expr()),
        reports(grammar::boolean_term()),
{
    broadcast use group_reports;

    reveal(grammar::condition_blk);
    reveal(grammar::boolean_expr);
    reveal(grammar::boolean_term);
}

/// The productions that are parsed while no optional branch is open report
/// their failures.
pub proof fn lemma_reports(kind: SyntaxKind)
    requires
        is_outer(kind),
    ensures
        reports(production(kind)),
{
    reveal(production);
    lemma_reports_blocks();
    lemma_reports_conditions();
}

/// Outside of optional branches, a failure comes with an error, unless the
/// source has ended.
proof fn lemma_eval_reports(expr: Expr, s: State, depth: nat, from: int)
    requires
        s.placed(),
        !s.failed,
        !s.in_opt,
        !s.in_not,
        0 <= from <= s.out.events.len(),
        local(expr),
        reports(expr),
        eval(expr, s, depth) is Some,
    ensures
        ({
            let t = eval(expr, s, depth)->0;
            &&& marked(s, from) ==> marked(t, from)
            &&& t.failed ==> marked(t, from) || ended(t)
        }),
    decreases depth, expr,
{
    let end = eval(expr, s, depth)->0;
    lemma_eval_ahead(expr, s, depth);
    lemma_trivia(s);
    lemma_trivia_quiet(s);
    match expr {
        Expr::Expect(set, description) => lemma_expect_reports(s, set, description, from),
        Expr::Cat(first, second) => {
            let t = eval(*first, s, depth)->0;
            lemma_eval_ahead(*first, s, depth);
            lemma_eval_reports(*first, s, depth, from);
            lemma_eval_ahead(*second, t, depth);
            if t.failed {
                lemma_eval_failed(*second, t, depth);
                if marked(t, from) {
                    lemma_marked(t, end, from);
                }
            } else {
                lemma_eval_reports(*second, t, depth, from);
            }
        },
        Expr::Node(kind, inner) => {
            lemma_begin(s, kind);
            lemma_begin_reports(s, kind, from);
            lemma_eval_ahead(*inner, s.begin(kind), depth);
            lemma_eval_reports(*inner, s.begin(kind), depth, from);
            lemma_end_reports(eval(*inner, s.begin(kind), depth)->0, from);
        },
        Expr::Opt(inner) => {
            lemma_enter_opt(s);
            lemma_eval_quiet(*inner, s.enter_opt(), depth);
            if marked(s, from) {
                lemma_marked(s, end, from);
            }
        },
        Expr::IfNext(set, inner) => if s.sees(set) {
            if marked(s, from) {
                lemma_marked(s, s.trivia(), from);
            }
            lemma_eval_reports(*inner, s.trivia(), depth, from);
        },
        Expr::Many(inner) => {
            lemma_enter_opt(s);
            lemma_eval_ahead(*inner, s.enter_opt(), depth);
            lemma_eval_quiet(*inner, s.enter_opt(), depth);
            let t = eval(*inner, s.enter_opt(), depth)->0;
            let u = t.leave_opt(s);
            if marked(s, from) {
                lemma_marked(s, u, from);
            }
            if !t.failed {
                lemma_eval_reports(expr, u, (depth - 1) as nat, from);
            }
        },
        Expr::One(inner) => {
            if marked(s, from) {
                lemma_marked(s, s.trivia(), from);
            }
            lemma_eval_reports(*inner, s.trivia(), depth, from);
        },
        Expr::Alt(exprs) => {
            let (t, matched) = eval_alt(exprs, s, depth)->0;
            lemma_eval_alt_ahead(exprs, s, depth);
            lemma_eval_alt_quiet(exprs, s, depth);
            if !matched {
                let failed = State { failed: true, ..t };
                lemma_handled(failed);
                lemma_handle_errors(failed);
                if !ended(s) {
                    lemma_alt_notes(exprs, s, depth);
                    let key = choose|key: (usize, usize)| #[trigger] t.expected.contains_key(key);
                    assert(failed.expected.contains_key(key));
                }
            }
            if marked(s, from) {
                lemma_marked(s, end, from);
            }
        },
        Expr::Rule(kind) => {
            lemma_local(kind);
            lemma_reports(kind);
            lemma_eval_reports(production(kind), s, (depth - 1) as nat, from);
        },
        _ => {},
    }
}

/// Skipping tokens leaves the pending errors alone.
pub proof fn lemma_skip_until_quiet(s: State, set: Seq<SyntaxKind>)
    requires
        s.placed(),
    ensures
        s.skip_until(set).pending == s.pending,
    decreases s.rest(),
{
    lemma_lex(s.src, s.cursor);
    if let Some((token, _)) = lex(s.src, s.cursor) {
        if kind_in(set, token.id) is None {
            lemma_take(s, kind_of(token.id));
            lemma_skip_until_quiet(s.bump(), set);
        }
    }
}

/// Tokens are not skipped without an error.
proof fn lemma_sync_reports(s: State, set: Seq<SyntaxKind>, from: int)
    requires
        s.placed(),
        !s.in_opt,
        0 <= from <= s.out.events.len(),
    ensures
        marked(s, from) ==> marked(s.sync(set), from),
        ended(s) && !s.failed ==> ended(s.sync(set)),
{
    reveal(State::sync);
    let t = s.sync(set);
    lemma_sync(s, set);
    lemma_trivia(s);
    lemma_trivia_quiet(s);
    lemma_skip_trivia(s);
    let start = s.trivia();
    if let Some(token) = token_after(start.src, start.cursor) {
        if kind_in(set, token.id) is None {
            let key = token.span.key_of();
            let noted = start.note_expected(key, set, None);
            assert(noted.expected.contains_key(key));
            lemma_ahead_refl(noted);
            lemma_handled(noted);
            lemma_handle_errors(noted);
            lemma_flush_errors(noted);
            let reported = if noted.pending.len() == 0 {
                noted.handle_errors()
            } else {
                noted.flush_errors()
            };
            if noted.pending.len() > 0 {
                lemma_flushed(noted, from);
            }
            assert(marked(reported, from));
            let opened = State { out: reported.out.begin(SyntaxKind::ERROR), ..reported };
            reported.out.lemma_begin(SyntaxKind::ERROR);
            lemma_skip_until(opened, set);
            lemma_skip_until_quiet(opened, set);
            lemma_close(reported, SyntaxKind::ERROR, opened.skip_until(set));
            lemma_marked(reported, t, from);
        }
    }
    if marked(s, from) {
        lemma_marked(s, t, from);
    }
}

/// A part that follows others in a rule.
spec fn is_part(expr: Expr) -> bool {
    match expr {
        Expr::Recover | Expr::Sync(_) | Expr::Expect(_, _) => true,
        Expr::IfNext(_, _) => local(expr) && reports(expr),
        Expr::Rule(kind) => kind == SyntaxKind::CONDITION_BLK,
        _ => false,
    }
}

/// The expression is made of parts that report their failures. Where tokens are
/// skipped, a failure has been forgotten just before.
spec fn has_parts(expr: Expr) -> bool
    decreases expr,
{
    match expr {
        Expr::Cat(first, second) => {
            &&& has_parts(*first)
            &&& is_part(*second)
            &&& *second is Sync ==> (*first matches Expr::Cat(_, last) && *last is Recover)
        },
        _ => local(expr) && reports(expr),
    }
}

broadcast proof fn lemma_has_parts(a: Expr, b: Expr)
    ensures
        #[trigger] has_parts(a.and(b)) == (has_parts(a) && is_part(b) && (b is Sync ==> (
        a matches Expr::Cat(_, last) && *last is Recover))),
{
}

/// What is next at the end of a source is neither found nor skipped.
proof fn lemma_part_ended(expr: Expr, s: State, depth: nat)
    requires
        s.placed(),
        !s.in_opt,
        is_part(expr),
        expr is Sync ==> !s.failed,
        ended(s),
        eval(expr, s, depth) is Some,
    ensures
        ended(eval(expr, s, depth)->0),
{
    match expr {
        Expr::Expect(set, description) => lemma_expect_reports(s, set, description, 0),
        Expr::Sync(set) => lemma_sync_reports(s, set, 0),
        Expr::Rule(kind) => {
            let condition = token(seq![SyntaxKind::CONDITION_KW]);
            let colon = token(seq![SyntaxKind::COLON]);
            let boolean = one(Expr::Rule(SyntaxKind::BOOLEAN_EXPR));
            let inner = condition.and(colon).and(boolean);
            assert(production(kind) == node(kind, inner)) by {
                reveal(production);
                reveal(grammar::condition_blk);
            }
            let less = (depth - 1) as nat;
            let begun = s.begin(kind);
            lemma_begin(s, kind);
            lemma_begin_reports(s, kind, 0);
            lemma_expect_reports(begun, seq![SyntaxKind::CONDITION_KW], None, 0);
            lemma_expect(begun, seq![SyntaxKind::CONDITION_KW], None);
            let t = eval(condition, begun, less)->0;
            lemma_expect(t, seq![SyntaxKind::COLON], None);
            assert(eval(colon, t, less) == Some(t));
            assert(eval(condition.and(colon), begun, less) == Some(t));
            assert(eval(boolean, t, less) == Some(t));
            assert(eval(inner, begun, less) == Some(t));
            assert(eval(node(kind, inner), s, less) == Some(t.end()));
        },
        _ => {},
    }
}

/// Errors are not lost.
proof fn lemma_part_marked(expr: Expr, s: State, depth: nat, from: int)
    requires
        s.placed(),
        !s.in_opt,
        !s.in_not,
        0 <= from <= s.out.events.len(),
        is_part(expr),
        marked(s, from),
        eval(expr, s, depth) is Some,
    ensures
        marked(eval(expr, s, depth)->0, from),
{
    lemma_eval_ahead(expr, s, depth);
    match expr {
        Expr::Recover => {},
        Expr::Sync(set) => lemma_sync_reports(s, set, from),
        _ => if s.failed {
            lemma_eval_failed(expr, s, depth);
            lemma_marked(s, eval(expr, s, depth)->0, from);
        } else {
            lemma_eval_reports(expr, s, depth, from);
        },
    }
}

/// A part that does not come with an error shows all that it describes.
proof fn lemma_part_whole(expr: Expr, s: State, depth: nat, from: int) -> (shown: Seq<EventView>)
    requires
        s.placed(),
        !s.failed,
        !s.in_opt,
        !s.in_not,
        0 <= from <= s.out.events.len(),
        is_part(expr) || (local(expr) && reports(expr)),
        eval(expr, s, depth) is Some,
    ensures
        ({
            let t = eval(expr, s, depth)->0;
            &&& shows(s, t, shown)
            &&& marked(t, from) || ended(t) || (!t.failed && derives_whole(expr, shown, depth))
        }),
{
    let t = eval(expr, s, depth)->0;
    match expr {
        Expr::Recover => {
            reveal(derives_whole);
            lemma_shows_same(s, t);
            Seq::empty()
        },
        Expr::Sync(set) => {
            reveal(derives_whole);
            lemma_sync(s, set);
            lemma_shows_sync(s, set);
            Seq::empty()
        },
        _ => {
            lemma_local_orderly(expr);
            lemma_eval_reports(expr, s, depth, from);
            let shown = lemma_eval_shows(expr, s, depth);
            if !t.failed {
                lemma_local_whole(expr, shown, depth);
            }
            shown
        },
    }
}

/// Parts that do not come with an error show all that they describe.
proof fn lemma_parts_whole(expr: Expr, s: State, depth: nat, from: int) -> (shown: Seq<EventView>)
    requires
        s.placed(),
        !s.failed,
        !s.in_opt,
        !s.in_not,
        0 <= from <= s.out.events.len(),
        has_parts(expr),
        orderly(expr),
        eval(expr, s, depth) is Some,
    ensures
        ({
            let t = eval(expr, s, depth)->0;
            &&& shows(s, t, shown)
            &&& marked(t, from) || ended(t) || (!t.failed && derives_whole(expr, shown, depth))
        }),
    decreases expr,
{
    match expr {
        Expr::Cat(first, second) => {
            let t = eval(*first, s, depth)->0;
            let end = eval(*second, t, depth)->0;
            lemma_parts(expr);
            lemma_eval_ahead(*first, s, depth);
            let a = lemma_parts_whole(*first, s, depth, from);
            if marked(t, from) {
                lemma_part_marked(*second, t, depth, from);
                let b = lemma_eval_shows(*second, t, depth);
                lemma_shows_trans(s, t, end, a, b);
                a + b
            } else if ended(t) {
                if let Expr::Cat(x, last) = *first {
                    assert(eval(*last, eval(*x, s, depth)->0, depth) == Some(t));
                }
                lemma_part_ended(*second, t, depth);
                let b = lemma_eval_shows(*second, t, depth);
                lemma_shows_trans(s, t, end, a, b);
                a + b
            } else {
                let b = lemma_part_whole(*second, t, depth, from);
                lemma_shows_trans(s, t, end, a, b);
                if !end.failed && derives_whole(*second, b, depth) {
                    lemma_whole_cat(*first, *second, a, b, depth);
                }
                a + b
            }
        },
        _ => lemma_part_whole(expr, s, depth, from),
    }
}

proof fn lemma_rule_parts()
    ensures
        has_parts(grammar::rule_parts()),
{
    broadcast use {group_local, group_reports, lemma_has_parts};

    reveal(grammar::rule_parts);
    reveal(grammar::rule_blocks);
    reveal(grammar::rule_header);
}

/// A rule for which no error is reported is whole: what it adds to the output
/// is, outside of error nodes and trivia aside, all that the production of
/// rules describes.
pub proof fn lemma_whole_rule(s: State, t: State)
    requires
        s.placed(),
        !s.failed,
        !s.in_opt,
        !s.in_not,
        parses(Expr::Rule(SyntaxKind::RULE_DECL), s, t),
        !t.failed,
        forall|i: int|
            s.out.events.len() <= i < t.out.events.len() ==> !(#[trigger] t.out.events[i]
                is Error),
    ensures
        exists|depth: nat|
            derives_whole(
                Expr::Rule(SyntaxKind::RULE_DECL),
                outside(t.out.events.skip(s.out.events.len() as int)),
                depth,
            ),
{
    let kind = SyntaxKind::RULE_DECL;
    let from = s.out.events.len() as int;
    let depth = choose|depth: nat| #[trigger] eval(Expr::Rule(kind), s, depth) == Some(t);
    let less = (depth - 1) as nat;
    let parts = grammar::rule_parts();
    let set = seq![SyntaxKind::R_BRACE];
    let inner = parts.token(set);
    assert(production(kind) == node(kind, inner)) by {
        reveal(production);
        reveal(grammar::rule_decl);
    }
    lemma_orderly(kind);
    lemma_parts(inner);
    lemma_rule_parts();
    let begun = s.begin(kind);
    lemma_begin(s, kind);
    lemma_begin_reports(s, kind, from);
    assert(eval(node(kind, inner), s, less) == Some(t));
    assert(eval(inner, begun, less) is Some);
    assert(eval(parts, begun, less) is Some);
    let u = eval(parts, begun, less)->0;
    let a = lemma_parts_whole(parts, begun, less, from);
    lemma_eval_ahead(parts, begun, less);
    let v = u.expect(set, None);
    lemma_expect(u, set, None);
    lemma_expect_reports(u, set, None, from);
    assert(eval(token(set), u, less) == Some(v));
    assert(eval(inner, begun, less) == Some(v));
    lemma_eval_ahead(inner, begun, less);
    lemma_end_reports(v, from);
    assert(!marked(u, from));
    lemma_local_orderly(token(set));
    let b = lemma_eval_shows(token(set), u, less);
    lemma_local_whole(token(set), b, less);
    lemma_whole_cat(parts, token(set), a, b, less);
    lemma_shows_trans(begun, u, v, a, b);
    lemma_whole_node(kind, inner, a + b, less);
    lemma_trivia(s);
    lemma_shows_trivia(s);
    lemma_shows_close(s.trivia(), kind, v, a + b);
    let shown = seq![EventView::Begin(kind)] + (a + b) + seq![EventView::End(kind)];
    lemma_shows_more(s, s.trivia(), t, shown);
    assert(derives_whole(Expr::Rule(kind), shown, depth)) by {
        reveal(derives_whole);
    }
}

} // verus!
