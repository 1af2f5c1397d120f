//! No error is reported where everything fits.

use crate::event::EventView;
use crate::grammar;
use crate::grammar::{node, production, token, Expr};
use crate::laws::cache::lemma_empty_cache;
use crate::laws::frame::{
    ahead_of, lemma_ahead_trans, lemma_begin, lemma_close, lemma_enter_not, lemma_enter_opt,
    lemma_eval_ahead, lemma_eval_alt_ahead, lemma_handle_errors, lemma_skip_cache,
    lemma_skip_trivia, lemma_take, lemma_trivia,
};
use crate::laws::outcome::{
    goes_on, group_plain, lemma_eval_reads, lemma_plain_cache, lemma_ready_trivia, plain,
};
use crate::laws::progress::lemma_eval_keeps_failure;
use crate::laws::reading::{
    at_end, end_of, join, lemma_reading_and, lemma_reading_node, lemma_reading_recover,
    lemma_reading_rule, lemma_reading_sync, nothing, reading, sees, skip, within, Reading,
};
use crate::laws::valid::{
    all_local, group_local, lemma_local, lemma_local_orderly, lemma_shows_close, lemma_shows_more,
    lemma_shows_same, lemma_shows_trans, lemma_shows_trivia, local, outside, shows,
};
use crate::laws::whole::{group_reports, lemma_reports, reports};
use crate::semantics::{eval, eval_alt, parses};
use crate::state::{code, error_events, kind_in, State};
use crate::syntax_kind::{kind_of, SyntaxKind};
use crate::token::is_trivia_id;
use crate::token_stream::{lemma_lex, relevant_after};
use crate::tokenizer::lex;
use vstd::prelude::*;

verus! {

/// No error has been found since the earlier state.
pub open spec fn silent(earlier: State, later: State) -> bool {
    &&& later.pending == earlier.pending
    &&& forall|i: int|
        earlier.out.events.len() <= i < later.out.events.len() ==> !(
        #[trigger] later.out.events[i] is Error)
}

pub proof fn lemma_silent_trans(s: State, t: State, u: State)
    requires
        silent(s, t),
        silent(t, u),
        ahead_of(u, t),
    ensures
        silent(s, u),
{
    let n = t.out.events.len() as int;
    assert forall|i: int| s.out.events.len() <= i < u.out.events.len() implies !(
    #[trigger] u.out.events[i] is Error) by {
        if i < n {
            assert(u.out.events.take(n)[i] == u.out.events[i]);
            assert(!(t.out.events[i] is Error));
        }
    }
}

proof fn lemma_silent_take(s: State, kind: SyntaxKind)
    ensures
        silent(s, s.take(kind)),
{
}

pub proof fn lemma_silent_trivia(s: State)
    requires
        s.placed(),
    ensures
        silent(s, s.skip_trivia()),
        silent(s, s.trivia()),
    decreases s.rest(),
{
    lemma_lex(s.src, s.cursor);
    if let Some((token, _)) = lex(s.src, s.cursor) {
        if is_trivia_id(token.id) {
            lemma_take(s, kind_of(token.id));
            lemma_silent_trivia(s.bump());
            lemma_skip_trivia(s.bump());
            lemma_silent_trans(s, s.bump(), s.skip_trivia());
        }
    }
}

/// Expecting a token: within an optional branch nothing is reported, nor if the
/// token is found.
proof fn lemma_silent_expect(s: State, set: Seq<SyntaxKind>, description: Option<Seq<char>>)
    requires
        s.placed(),
    ensures
        s.in_opt ==> silent(s, s.expect(set, description)),
        !s.in_not && s.pending.len() == 0 && !s.expect(set, description).failed ==> silent(
            s,
            s.expect(set, description),
        ),
{
    reveal(State::expect);
    reveal(State::handle_errors);
    if !s.failed {
        if let Some(next) = relevant_after(s.src, s.cursor) {
            let key = next.span.key_of();
            if let Some(kind) = kind_in(set, next.id) {
                let unexpected = State { unexpected: s.unexpected.insert(key), ..s };
                lemma_handle_errors(unexpected);
                let noted = if s.in_not {
                    unexpected.handle_errors()
                } else {
                    s
                };
                lemma_trivia(noted);
                lemma_silent_trivia(noted);
                let trimmed = noted.trivia();
                lemma_silent_take(trimmed, kind);
                lemma_take(trimmed, kind);
                lemma_silent_trans(noted, trimmed, trimmed.take(kind));
                let taken = trimmed.take(kind);
                if s.pending.len() == 0 && !s.in_not {
                    assert(s.pending =~= Seq::empty());
                    assert(error_events(taken.pending) =~= Seq::empty());
                    assert(taken.out.events + error_events(taken.pending) =~= taken.out.events);
                }
            }
        }
    }
}

/// A node.
proof fn lemma_silent_node(s: State, kind: SyntaxKind, t: State)
    requires
        s.placed(),
        ahead_of(t, s.begin(kind)),
        silent(s.begin(kind), t),
    ensures
        silent(s, t.end()),
{
    let begun = s.begin(kind);
    lemma_trivia(s);
    lemma_silent_trivia(s);
    lemma_begin(s, kind);
    lemma_close(s.trivia(), kind, t);
    let n = begun.out.events.len() as int;
    assert forall|i: int| s.out.events.len() <= i < t.end().out.events.len() implies !(
    #[trigger] t.end().out.events[i] is Error) by {
        if i < t.out.events.len() && i != t.out.open.last() {
            assert(t.end().out.events[i] == t.out.events[i]);
            if i < n {
                assert(t.out.events.take(n)[i] == t.out.events[i]);
                if i < n - 1 {
                    assert(begun.out.events[i] == s.trivia().out.events[i]);
                }
            } else {
                assert(!(t.out.events[i] is Error));
            }
        }
    }
}

/// Within an optional branch nothing is reported.
#[verifier::rlimit(30)]
pub proof fn lemma_eval_silent(expr: Expr, s: State, depth: nat)
    requires
        s.placed(),
        s.in_opt,
        local(expr),
        eval(expr, s, depth) is Some,
    ensures
        silent(s, eval(expr, s, depth)->0),
    decreases depth, expr,
{
    let end = eval(expr, s, depth)->0;
    lemma_trivia(s);
    lemma_silent_trivia(s);
    match expr {
        Expr::Expect(set, description) => lemma_silent_expect(s, set, description),
        Expr::Cat(first, second) => {
            let t = eval(*first, s, depth)->0;
            lemma_eval_ahead(*first, s, depth);
            lemma_eval_silent(*first, s, depth);
            lemma_eval_ahead(*second, t, depth);
            lemma_eval_silent(*second, t, depth);
            lemma_silent_trans(s, t, end);
        },
        Expr::Node(kind, inner) => {
            lemma_begin(s, kind);
            lemma_eval_ahead(*inner, s.begin(kind), depth);
            lemma_eval_silent(*inner, s.begin(kind), depth);
            lemma_silent_node(s, kind, eval(*inner, s.begin(kind), depth)->0);
        },
        Expr::Opt(inner) => if !s.failed {
            lemma_enter_opt(s);
            let t = eval(*inner, s.enter_opt(), depth)->0;
            lemma_eval_ahead(*inner, s.enter_opt(), depth);
            lemma_eval_silent(*inner, s.enter_opt(), depth);
            lemma_silent_trans(s, s.enter_opt(), t);
        },
        Expr::Not(inner) => if !s.failed {
            lemma_enter_not(s);
            lemma_eval_ahead(*inner, s.enter_not(), depth);
            lemma_eval_silent(*inner, s.enter_not(), depth);
        },
        Expr::IfNext(set, inner) => if !s.failed && s.sees(set) {
            lemma_eval_ahead(*inner, s.trivia(), depth);
            lemma_eval_silent(*inner, s.trivia(), depth);
            lemma_silent_trans(s, s.trivia(), end);
        },
        Expr::IfNextElse(set, inner, other) => if !s.failed {
            if s.sees(set) {
                lemma_eval_ahead(*inner, s.trivia(), depth);
                lemma_eval_silent(*inner, s.trivia(), depth);
                lemma_silent_trans(s, s.trivia(), end);
            } else {
                lemma_eval_ahead(*other, s.missed(set), depth);
                lemma_eval_silent(*other, s.missed(set), depth);
            }
        },
        Expr::Many(inner) => if !s.failed {
            lemma_enter_opt(s);
            let t = eval(*inner, s.enter_opt(), depth)->0;
            lemma_eval_ahead(*inner, s.enter_opt(), depth);
            lemma_eval_silent(*inner, s.enter_opt(), depth);
            if !t.failed {
                let u = t.leave_opt(s);
                lemma_silent_trans(s, s.enter_opt(), t);
                lemma_eval_ahead(expr, u, (depth - 1) as nat);
                lemma_eval_silent(expr, u, (depth - 1) as nat);
                lemma_silent_trans(s, u, end);
            }
        },
        Expr::One(inner) => if !s.failed {
            lemma_eval_ahead(*inner, s.trivia(), depth);
            lemma_eval_silent(*inner, s.trivia(), depth);
            lemma_silent_trans(s, s.trivia(), end);
        },
        Expr::Cached(kind, inner) => if !s.cache.contains((s.cursor.index, code(kind))) {
            lemma_eval_silent(*inner, s, depth);
        },
        Expr::Alt(exprs) => {
            let (t, _) = eval_alt(exprs, s, depth)->0;
            lemma_eval_alt_ahead(exprs, s, depth);
            lemma_eval_alt_silent(exprs, s, depth);
            reveal(State::handle_errors);
        },
        Expr::Rule(kind) => {
            lemma_local(kind);
            lemma_eval_silent(production(kind), s, (depth - 1) as nat);
        },
        _ => {},
    }
}

/// While alternatives are tried nothing is reported.
proof fn lemma_eval_alt_silent(exprs: Seq<Expr>, s: State, depth: nat)
    requires
        s.placed(),
        all_local(exprs),
        eval_alt(exprs, s, depth) is Some,
    ensures
        silent(s, (eval_alt(exprs, s, depth)->0).0),
    decreases depth, exprs,
{
    if exprs.len() > 0 {
        let (t, matched) = eval_alt(exprs.drop_last(), s, depth)->0;
        lemma_eval_alt_ahead(exprs.drop_last(), s, depth);
        lemma_eval_alt_silent(exprs.drop_last(), s, depth);
        if !matched && !t.failed {
            lemma_trivia(t);
            lemma_silent_trivia(t);
            lemma_enter_opt(t);
            let u = eval(exprs.last(), t.enter_opt(), depth)->0;
            lemma_eval_ahead(exprs.last(), t.enter_opt(), depth);
            lemma_eval_silent(exprs.last(), t.enter_opt(), depth);
            lemma_silent_trans(t, t.enter_opt(), u);
            assert(u.leave_opt(s) == u.leave_opt(t));
            lemma_silent_trans(s, t, u.leave_opt(t));
        }
    }
}

/// Outside of optional branches nothing is reported if the expression fits.
#[verifier::rlimit(30)]
proof fn lemma_eval_flawless(expr: Expr, s: State, depth: nat)
    requires
        s.placed(),
        !s.failed,
        !s.in_opt,
        !s.in_not,
        s.pending.len() == 0,
        local(expr),
        reports(expr),
        eval(expr, s, depth) is Some,
        !(eval(expr, s, depth)->0).failed,
    ensures
        silent(s, eval(expr, s, depth)->0),
    decreases depth, expr,
{
    let end = eval(expr, s, depth)->0;
    lemma_trivia(s);
    lemma_silent_trivia(s);
    match expr {
        Expr::Expect(set, description) => lemma_silent_expect(s, set, description),
        Expr::Cat(first, second) => {
            let t = eval(*first, s, depth)->0;
            lemma_eval_ahead(*first, s, depth);
            lemma_eval_ahead(*second, t, depth);
            if t.failed {
                lemma_local_orderly(*second);
                lemma_eval_keeps_failure(*second, t, depth);
            } else {
                lemma_eval_flawless(*first, s, depth);
                lemma_eval_flawless(*second, t, depth);
                lemma_silent_trans(s, t, end);
            }
        },
        Expr::Node(kind, inner) => {
            lemma_begin(s, kind);
            lemma_eval_ahead(*inner, s.begin(kind), depth);
            lemma_eval_flawless(*inner, s.begin(kind), depth);
            lemma_silent_node(s, kind, eval(*inner, s.begin(kind), depth)->0);
        },
        Expr::Opt(inner) => {
            lemma_enter_opt(s);
            let t = eval(*inner, s.enter_opt(), depth)->0;
            lemma_eval_ahead(*inner, s.enter_opt(), depth);
            lemma_eval_silent(*inner, s.enter_opt(), depth);
            lemma_silent_trans(s, s.enter_opt(), t);
        },
        Expr::IfNext(set, inner) => if s.sees(set) {
            lemma_eval_ahead(*inner, s.trivia(), depth);
            lemma_eval_flawless(*inner, s.trivia(), depth);
            lemma_silent_trans(s, s.trivia(), end);
        },
        Expr::Many(inner) => {
            lemma_enter_opt(s);
            let t = eval(*inner, s.enter_opt(), depth)->0;
            lemma_eval_ahead(*inner, s.enter_opt(), depth);
            lemma_eval_silent(*inner, s.enter_opt(), depth);
            if !t.failed {
                let u = t.leave_opt(s);
                lemma_silent_trans(s, s.enter_opt(), t);
                lemma_eval_ahead(expr, u, (depth - 1) as nat);
                lemma_eval_flawless(expr, u, (depth - 1) as nat);
                lemma_silent_trans(s, u, end);
            }
        },
        Expr::One(inner) => {
            lemma_eval_ahead(*inner, s.trivia(), depth);
            lemma_eval_flawless(*inner, s.trivia(), depth);
            lemma_silent_trans(s, s.trivia(), end);
        },
        Expr::Alt(exprs) => {
            lemma_eval_alt_ahead(exprs, s, depth);
            lemma_eval_alt_silent(exprs, s, depth);
            let (t, matched) = eval_alt(exprs, s, depth)->0;
            lemma_handle_errors(State { failed: true, ..t });
        },
        Expr::Rule(kind) => {
            lemma_local(kind);
            lemma_reports(kind);
            lemma_eval_flawless(production(kind), s, (depth - 1) as nat);
        },
        _ => {},
    }
}

/// A part of a rule that has nothing to do with the condition.
spec fn is_plain_part(expr: Expr) -> bool {
    expr is Recover || expr is Sync || (local(expr) && reports(expr) && plain(expr))
}

/// The expression is made of such parts.
spec fn has_plain_parts(expr: Expr) -> bool
    decreases expr,
{
    match expr {
        Expr::Cat(first, second) => has_plain_parts(*first) && is_plain_part(*second),
        _ => is_plain_part(expr),
    }
}

broadcast proof fn lemma_has_plain_parts(a: Expr, b: Expr)
    ensures
        #[trigger] has_plain_parts(a.and(b)) == (has_plain_parts(a) && is_plain_part(b)),
{
}

/// Parsing has gone on without an error.
spec fn goes_well(s: State, t: State, reading: Option<Reading>) -> bool {
    goes_on(s, t, reading) && silent(s, t)
}

/// A part that is read as something is parsed without an error.
proof fn lemma_part_goes_well(expr: Expr, s: State, depth: nat)
    requires
        s.placed(),
        !s.failed,
        !s.in_opt,
        !s.in_not,
        s.pending.len() == 0,
        is_plain_part(expr),
        eval(expr, s, depth) is Some,
        reading(expr, s.src, s.cursor) matches Some(Reading::Fits(_, _)),
    ensures
        goes_well(s, eval(expr, s, depth)->0, reading(expr, s.src, s.cursor)),
        (eval(expr, s, depth)->0).cache == s.cache,
{
    let t = eval(expr, s, depth)->0;
    reveal(nothing);
    match expr {
        Expr::Recover => {
            lemma_reading_recover(s.src, s.cursor);
            lemma_shows_same(s, t);
        },
        Expr::Sync(set) => {
            reveal(State::sync);
            reveal(sees);
            reveal(at_end);
            lemma_reading_sync(set, s.src, s.cursor);
            lemma_ready_trivia(s, None);
            lemma_skip_trivia(s);
            lemma_skip_cache(s);
            lemma_silent_trivia(s);
            lemma_shows_trivia(s);
        },
        _ => {
            lemma_eval_reads(expr, s, depth, None);
            lemma_eval_flawless(expr, s, depth);
            lemma_plain_cache(expr, s, depth);
        },
    }
}

/// Something that is read after something else.
proof fn lemma_goes_well_trans(first: Expr, second: Expr, s: State, t: State, u: State)
    requires
        ahead_of(u, t),
        reading(first.and(second), s.src, s.cursor) matches Some(Reading::Fits(_, _)),
        goes_well(s, t, reading(first, s.src, s.cursor)),
        goes_well(t, u, reading(second, s.src, end_of(reading(first, s.src, s.cursor)))),
    ensures
        goes_well(s, u, reading(first.and(second), s.src, s.cursor)),
{
    reveal(join);
    lemma_reading_and(first, second, s.src, s.cursor);
    let a = reading(first, s.src, s.cursor);
    let b = reading(second, s.src, end_of(a));
    lemma_shows_trans(s, t, u, a->0->Fits_1, b->0->Fits_1);
    lemma_silent_trans(s, t, u);
}

/// What fits is made of what fits.
proof fn lemma_both_fit(first: Expr, second: Expr, s: State)
    requires
        reading(first.and(second), s.src, s.cursor) matches Some(Reading::Fits(_, _)),
    ensures
        reading(first, s.src, s.cursor) matches Some(Reading::Fits(_, _)),
        reading(second, s.src, end_of(reading(first, s.src, s.cursor))) matches Some(
            Reading::Fits(_, _),
        ),
{
    reveal(join);
    lemma_reading_and(first, second, s.src, s.cursor);
}

/// Parts that are read as something are parsed without an error.
proof fn lemma_parts_go_well(expr: Expr, s: State, depth: nat)
    requires
        s.placed(),
        !s.failed,
        !s.in_opt,
        !s.in_not,
        s.pending.len() == 0,
        has_plain_parts(expr),
        eval(expr, s, depth) is Some,
        reading(expr, s.src, s.cursor) matches Some(Reading::Fits(_, _)),
    ensures
        goes_well(s, eval(expr, s, depth)->0, reading(expr, s.src, s.cursor)),
        (eval(expr, s, depth)->0).cache == s.cache,
    decreases expr,
{
    match expr {
        Expr::Cat(first, second) => {
            let t = eval(*first, s, depth)->0;
            let u = eval(*second, t, depth)->0;
            assert(expr == (*first).and(*second));
            lemma_both_fit(*first, *second, s);
            lemma_eval_ahead(*first, s, depth);
            lemma_parts_go_well(*first, s, depth);
            lemma_eval_ahead(*second, t, depth);
            lemma_part_goes_well(*second, t, depth);
            lemma_goes_well_trans(*first, *second, s, t, u);
        },
        _ => lemma_part_goes_well(expr, s, depth),
    }
}

proof fn lemma_blocks()
    ensures
        has_plain_parts(grammar::rule_blocks()),
{
    broadcast use {group_local, group_reports, group_plain, lemma_has_plain_parts};

    reveal(grammar::rule_blocks);
    reveal(grammar::rule_header);
}

/// One more part.
proof fn lemma_next_part(first: Expr, second: Expr, s: State, t: State, depth: nat) -> (u: State)
    requires
        s.placed(),
        !s.failed,
        !s.in_opt,
        !s.in_not,
        s.pending.len() == 0,
        is_plain_part(second),
        ahead_of(t, s),
        eval(first, s, depth) == Some(t),
        eval(first.and(second), s, depth) is Some,
        goes_well(s, t, reading(first, s.src, s.cursor)),
        reading(first.and(second), s.src, s.cursor) matches Some(Reading::Fits(_, _)),
    ensures
        eval(first.and(second), s, depth) == Some(u),
        ahead_of(u, s),
        u.cache == t.cache,
        goes_well(s, u, reading(first.and(second), s.src, s.cursor)),
{
    let u = eval(second, t, depth)->0;
    lemma_both_fit(first, second, s);
    lemma_eval_ahead(second, t, depth);
    lemma_part_goes_well(second, t, depth);
    lemma_goes_well_trans(first, second, s, t, u);
    lemma_ahead_trans(s, t, u);
    u
}

/// A rule, up to the closing brace.
proof fn lemma_rule_parts_go_well(s: State, depth: nat)
    requires
        s.placed(),
        !s.failed,
        !s.in_opt,
        !s.in_not,
        s.pending.len() == 0,
        s.cache == Set::<(usize, usize)>::empty(),
        eval(grammar::rule_parts(), s, depth) is Some,
        reading(grammar::rule_parts(), s.src, s.cursor) matches Some(Reading::Fits(_, _)),
    ensures
        goes_well(
            s,
            eval(grammar::rule_parts(), s, depth)->0,
            reading(grammar::rule_parts(), s.src, s.cursor),
        ),
{
    let a = grammar::rule_blocks();
    let sync = Expr::Sync(seq![SyntaxKind::CONDITION_KW]);
    let b = a.and(Expr::Recover);
    let c = b.and(sync);
    let condition = Expr::Rule(SyntaxKind::CONDITION_BLK);
    let d = c.and(condition);
    let e = d.and(Expr::Recover);
    let last = Expr::Sync(seq![SyntaxKind::R_BRACE]);
    assert(grammar::rule_parts() == e.and(last)) by {
        reveal(grammar::rule_parts);
    }
    lemma_both_fit(e, last, s);
    lemma_both_fit(d, Expr::Recover, s);
    lemma_both_fit(c, condition, s);
    lemma_both_fit(b, sync, s);
    lemma_both_fit(a, Expr::Recover, s);
    assert(eval(e, s, depth) is Some);
    assert(eval(d, s, depth) is Some);
    assert(eval(c, s, depth) is Some);
    assert(eval(b, s, depth) is Some);
    assert(eval(a, s, depth) is Some);
    lemma_blocks();
    lemma_eval_ahead(a, s, depth);
    lemma_parts_go_well(a, s, depth);
    let t = lemma_next_part(a, Expr::Recover, s, eval(a, s, depth)->0, depth);
    let u = lemma_next_part(b, sync, s, t, depth);
    let v = eval(condition, u, depth)->0;
    lemma_eval_ahead(condition, u, depth);
    lemma_empty_cache(u);
    lemma_eval_reads(condition, u, depth, Some(u.cursor));
    lemma_eval_flawless(condition, u, depth);
    lemma_goes_well_trans(c, condition, s, u, v);
    lemma_ahead_trans(s, u, v);
    let w = lemma_next_part(d, Expr::Recover, s, v, depth);
    let x = lemma_next_part(e, last, s, w, depth);
}

/// A rule that is read as one is parsed without an error, and nothing of it is
/// left out. The parser has to be where an item can start: it remembers nothing,
/// and no error is pending.
pub proof fn lemma_rule_outcome(s: State, t: State)
    requires
        s.placed(),
        !s.failed,
        !s.in_opt,
        !s.in_not,
        s.pending.len() == 0,
        s.cache == Set::<(usize, usize)>::empty(),
        parses(Expr::Rule(SyntaxKind::RULE_DECL), s, t),
        reading(Expr::Rule(SyntaxKind::RULE_DECL), s.src, s.cursor) matches Some(
            Reading::Fits(_, _),
        ),
    ensures
        !t.failed,
        silent(s, t),
        reading(Expr::Rule(SyntaxKind::RULE_DECL), s.src, s.cursor) == Some(
            Reading::Fits(t.cursor, outside(t.out.events.skip(s.out.events.len() as int))),
        ),
        shows(s, t, outside(t.out.events.skip(s.out.events.len() as int))),
{
    let kind = SyntaxKind::RULE_DECL;
    let depth = choose|depth: nat| #[trigger] eval(Expr::Rule(kind), s, depth) == Some(t);
    let less = (depth - 1) as nat;
    let parts = grammar::rule_parts();
    let brace = token(seq![SyntaxKind::R_BRACE]);
    let inner = parts.and(brace);
    assert(production(kind) == node(kind, inner)) by {
        reveal(production);
        reveal(grammar::rule_decl);
    }
    reveal(within);
    lemma_reading_rule(kind, s.src, s.cursor);
    lemma_reading_node(kind, inner, s.src, s.cursor);
    lemma_begin(s, kind);
    lemma_trivia(s);
    lemma_silent_trivia(s);
    lemma_ready_trivia(s, None);
    lemma_skip_cache(s);
    let begun = s.begin(kind);
    assert(eval(node(kind, inner), s, less) == Some(t));
    assert(eval(inner, begun, less) is Some);
    assert(eval(parts, begun, less) is Some);
    lemma_both_fit(parts, brace, begun);
    lemma_eval_ahead(parts, begun, less);
    lemma_rule_parts_go_well(begun, less);
    let u = lemma_next_part(parts, brace, begun, eval(parts, begun, less)->0, less);
    lemma_silent_node(s, kind, u);
    let inside = reading(inner, s.src, begun.cursor)->0->Fits_1;
    lemma_shows_trivia(s);
    lemma_shows_close(s.trivia(), kind, u, inside);
    lemma_shows_more(
        s,
        s.trivia(),
        t,
        seq![EventView::Begin(kind)] + inside + seq![EventView::End(kind)],
    );
}

/// An import statement that is read as one is parsed without an error.
pub proof fn lemma_import_outcome(s: State, t: State)
    requires
        s.placed(),
        !s.failed,
        !s.in_opt,
        !s.in_not,
        s.pending.len() == 0,
        parses(Expr::Rule(SyntaxKind::IMPORT_STMT), s, t),
    ensures
        match reading(Expr::Rule(SyntaxKind::IMPORT_STMT), s.src, s.cursor) {
            Some(Reading::Fits(next, events)) => {
                &&& !t.failed
                &&& silent(s, t)
                &&& t.cursor == next
                &&& shows(s, t, events)
            },
            Some(Reading::Fails) => t.failed,
            None => false,
        },
{
    broadcast use {group_reports, group_plain};

    let kind = SyntaxKind::IMPORT_STMT;
    let depth = choose|depth: nat| #[trigger] eval(Expr::Rule(kind), s, depth) == Some(t);
    lemma_eval_reads(Expr::Rule(kind), s, depth, None);
    if !t.failed {
        lemma_local(kind);
        assert(reports(production(kind))) by {
            reveal(production);
            reveal(grammar::import_stmt);
        }
        lemma_eval_flawless(production(kind), s, (depth - 1) as nat);
    }
}

} // verus!
