//! What holds of the ways in which expressions are combined.

use crate::collections::has_key;
use crate::cst::without_errors;
use crate::event::EventView;
use crate::grammar::{alt, if_next, not, opt, token, Expr};
use crate::laws::frame::{
    lemma_enter_not, lemma_enter_opt, lemma_expect, lemma_handle_errors, lemma_parses_ahead,
    lemma_skip_trivia, lemma_take, lemma_tries_ahead, lemma_trivia,
};
use crate::semantics::{
    eval, lemma_alt, lemma_deterministic, lemma_opt_split, lemma_tries_skip, parses, tries,
};
use crate::state::{error_events, kind_in, State};
use crate::syntax_kind::{kind_of, SyntaxKind};
use crate::token::is_trivia_id;
use crate::token_stream::{lemma_lex, relevant_after};
use crate::tokenizer::lex;
use vstd::prelude::*;

verus! {

/// An optional expression never fails. If the expression does, the parser is
/// back where it was, with the same output.
pub proof fn lemma_opt_forgives(expr: Expr, s: State, t: State)
    requires
        s.placed(),
        !s.failed,
        parses(opt(expr), s, t),
    ensures
        !t.failed,
        forall|u: State| #[trigger]
            parses(expr, s.enter_opt(), u) && u.failed ==> t.cursor == s.cursor && t.out == s.out,
{
    lemma_enter_opt(s);
    let v = lemma_opt_split(expr, s, t);
    lemma_parses_ahead(expr, s.enter_opt(), v);
    assert forall|u: State| #[trigger] parses(expr, s.enter_opt(), u) && u.failed implies t.cursor
        == s.cursor && t.out == s.out by {
        lemma_deterministic(expr, s.enter_opt(), u, v);
    }
}

/// A negated expression fails where the expression does not, and the other way
/// round. Either way it consumes nothing and adds nothing to the output.
pub proof fn lemma_not_negates(expr: Expr, s: State, t: State)
    requires
        s.placed(),
        !s.failed,
        parses(not(expr), s, t),
    ensures
        t.cursor == s.cursor,
        t.out == s.out,
        forall|u: State| #[trigger]
            parses(expr, s.enter_not(), u) ==> t.failed == !u.failed,
{
    let depth = choose|depth: nat| #[trigger] eval(not(expr), s, depth) == Some(t);
    let v = eval(expr, s.enter_not(), depth)->0;
    assert(parses(expr, s.enter_not(), v));
    lemma_enter_not(s);
    lemma_parses_ahead(expr, s.enter_not(), v);
    assert forall|u: State| #[trigger] parses(expr, s.enter_not(), u) implies t.failed
        == !u.failed by {
        lemma_deterministic(expr, s.enter_not(), u, v);
    }
}

/// Once an alternative fits, the ones after it make no difference.
pub proof fn lemma_first_match(exprs: Seq<Expr>, n: int, s: State, t: State)
    requires
        0 <= n <= exprs.len(),
        tries(exprs.take(n), s, t, true),
    ensures
        parses(alt(exprs), s, t),
{
    lemma_later_alternatives(exprs, n, exprs.len() as int, s, t);
    assert(exprs.take(exprs.len() as int) =~= exprs);
    lemma_alt(exprs, s, t, true);
}

proof fn lemma_later_alternatives(exprs: Seq<Expr>, n: int, m: int, s: State, t: State)
    requires
        0 <= n <= m <= exprs.len(),
        tries(exprs.take(n), s, t, true),
    ensures
        tries(exprs.take(m), s, t, true),
    decreases m - n,
{
    if n < m {
        lemma_later_alternatives(exprs, n, m - 1, s, t);
        assert(exprs.take(m) =~= exprs.take(m - 1).push(exprs[m - 1]));
        lemma_tries_skip(exprs.take(m - 1), exprs[m - 1], s, t, true);
    }
}

/// An alternative that does not fit leaves the parser where it was, with the
/// same output, for the next one.
pub proof fn lemma_no_match_yet(exprs: Seq<Expr>, s: State, t: State)
    requires
        s.placed(),
        tries(exprs, s, t, false),
    ensures
        t.cursor == s.cursor,
        t.out == s.out,
        t.failed == s.failed,
{
    lemma_tries_ahead(exprs, s, t, false);
}

/// There is at most one error for each place.
pub open spec fn one_per_place(errors: Seq<((usize, usize), Seq<char>)>) -> bool {
    forall|i: int, j: int|
        0 <= i < j < errors.len() ==> (#[trigger] errors[i]).0 != (#[trigger] errors[j]).0
}

/// Only the first error for a place is taken into account.
pub proof fn lemma_first_error(s: State, key: (usize, usize), message: Seq<char>)
    requires
        one_per_place(s.pending),
    ensures
        one_per_place(s.report(key, message).pending),
        has_key(s.report(key, message).pending, key),
        has_key(s.pending, key) ==> s.report(key, message) == s,
        !has_key(s.pending, key) ==> s.report(key, message).pending == s.pending.push(
            (key, message),
        ),
{
    let t = s.report(key, message);
    if !has_key(s.pending, key) {
        assert(t.pending[s.pending.len() as int].0 == key);
        assert forall|i: int, j: int| 0 <= i < j < t.pending.len() implies (
        #[trigger] t.pending[i]).0 != (#[trigger] t.pending[j]).0 by {
            assert(t.pending[i] == s.pending[i]);
            if j < s.pending.len() {
                assert(t.pending[j] == s.pending[j]);
            }
        }
    }
}

/// Errors after some events.
proof fn lemma_only_errors(
    events: Seq<EventView>,
    errors: Seq<((usize, usize), Seq<char>)>,
)
    ensures
        without_errors(events + error_events(errors)) == without_errors(events),
    decreases errors.len(),
{
    let all = events + error_events(errors);
    if errors.len() == 0 {
        assert(all =~= events);
    } else {
        lemma_only_errors(events, errors.drop_last());
        assert(all.drop_last() =~= events + error_events(errors.drop_last()));
    }
}

/// What a token that is found does: it is consumed, with the trivia in front
/// of it.
proof fn lemma_found(s: State, set: Seq<SyntaxKind>)
    requires
        s.placed(),
        !s.failed,
        relevant_after(s.src, s.cursor) matches Some(token) && kind_in(set, token.id) is Some,
    ensures
        ({
            let kind = kind_in(set, relevant_after(s.src, s.cursor)->0.id)->0;
            let t = s.expect(set, None);
            &&& !t.failed
            &&& t.cursor == s.trivia().take(kind).cursor
            &&& without_errors(t.out.events) == without_errors(s.trivia().take(kind).out.events)
        }),
{
    reveal(State::expect);
    let key = relevant_after(s.src, s.cursor)->0.span.key_of();
    let kind = kind_in(set, relevant_after(s.src, s.cursor)->0.id)->0;
    let unexpected = State { unexpected: s.unexpected.insert(key), ..s };
    lemma_handle_errors(unexpected);
    let noted = if s.in_not {
        unexpected.handle_errors()
    } else {
        s
    };
    lemma_trivia_same(s, noted);
    lemma_trivia(s);
    lemma_trivia(noted);
    let taken = noted.trivia().take(kind);
    lemma_take(noted.trivia(), kind);
    lemma_only_errors(taken.out.events, taken.pending);
}

/// Skipping trivia does not depend on the notes of the parser.
proof fn lemma_trivia_same(s: State, t: State)
    requires
        s.placed(),
        t.src == s.src,
        t.cursor == s.cursor,
        t.out == s.out,
        t.failed == s.failed,
    ensures
        t.trivia().cursor == s.trivia().cursor,
        t.trivia().out == s.trivia().out,
        t.skip_trivia().cursor == s.skip_trivia().cursor,
        t.skip_trivia().out == s.skip_trivia().out,
    decreases s.rest(),
{
    lemma_lex(s.src, s.cursor);
    if let Some((next, _)) = lex(s.src, s.cursor) {
        if is_trivia_id(next.id) {
            lemma_take(s, kind_of(next.id));
            lemma_trivia_same(
                State { failed: false, ..s }.bump(),
                State { failed: false, ..t }.bump(),
            );
            lemma_skip_failed(s);
            lemma_skip_failed(t);
        }
    }
}

/// Skipping trivia does not depend on whether the parser has failed.
proof fn lemma_skip_failed(s: State)
    requires
        s.src.len() <= usize::MAX,
    ensures
        (State { failed: false, ..s }).skip_trivia() == (State {
            failed: false,
            ..s.skip_trivia()
        }),
    decreases s.rest(),
{
    lemma_lex(s.src, s.cursor);
    if let Some((next, _)) = lex(s.src, s.cursor) {
        if is_trivia_id(next.id) {
            lemma_skip_failed(s.bump());
        }
    }
}

/// A token that is taken if it is next, and an optional token, are logically
/// the same: the parser ends at the same place, and with the same output but
/// for errors.
pub proof fn lemma_if_next_is_opt(set: Seq<SyntaxKind>, s: State, t: State, u: State)
    requires
        s.placed(),
        !s.failed,
        parses(if_next(set, token(set)), s, t),
        parses(opt(token(set)), s, u),
    ensures
        !t.failed && !u.failed,
        t.cursor == u.cursor,
        without_errors(t.out.events) == without_errors(u.out.events),
{
    let a = choose|depth: nat| #[trigger] eval(if_next(set, token(set)), s, depth) == Some(t);
    let b = choose|depth: nat| #[trigger] eval(opt(token(set)), s, depth) == Some(u);
    let entered = s.enter_opt();
    let trimmed = s.trivia();
    lemma_trivia(s);
    lemma_skip_trivia(s);
    lemma_enter_opt(s);
    lemma_expect(entered, set, None);
    let v = entered.expect(set, None);
    assert(eval(token(set), entered, b) == Some(v));
    assert(u == v.leave_opt(s));
    match relevant_after(s.src, s.cursor) {
        Some(next) if kind_in(set, next.id) is Some => {
            lemma_relevant_trimmed(s);
            lemma_found(trimmed, set);
            lemma_found(entered, set);
            lemma_trivia_same(trimmed, entered);
            lemma_trivia(trimmed);
            lemma_trivia(entered);
            assert(eval(token(set), trimmed, a) == Some(t));
        },
        _ => {
            lemma_relevant_trimmed(s);
            assert(v.failed) by {
                reveal(State::expect);
                if let Some(next) = relevant_after(entered.src, entered.cursor) {
                    lemma_handle_errors(entered.note_expected(next.span.key_of(), set, None));
                }
            }
        },
    }
}

/// The next token that matters is the same after skipping trivia.
proof fn lemma_relevant_trimmed(s: State)
    requires
        s.placed(),
    ensures
        relevant_after(s.src, s.skip_trivia().cursor) == relevant_after(s.src, s.cursor),
    decreases s.rest(),
{
    lemma_lex(s.src, s.cursor);
    if let Some((next, _)) = lex(s.src, s.cursor) {
        if is_trivia_id(next.id) {
            lemma_take(s, kind_of(next.id));
            lemma_relevant_trimmed(s.bump());
        }
    }
}

} // verus!
