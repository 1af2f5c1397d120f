//! What parsing an expression leaves as it was.

use crate::grammar::{production, Expr};
use crate::semantics::{eval, eval_alt, parses, tries};
use crate::state::{code, error_events, kind_in, State};
use crate::syntax_kind::SyntaxKind;
use crate::syntax_stream::lemma_kept;
use crate::token_stream::{lemma_lex, relevant_after};
use crate::tokenizer::{in_source, lex};
use vstd::prelude::*;

verus! {

impl State {
    /// The place is within the source, and the open nodes within the output.
    pub open spec fn placed(self) -> bool {
        in_source(self.src, self.cursor) && self.out.wf()
    }
}

/// The later state is ahead of the earlier one: no token has been given back,
/// the events that were there are still there, and so are the open nodes.
pub open spec fn ahead_of(later: State, earlier: State) -> bool {
    &&& later.placed()
    &&& later.src == earlier.src
    &&& earlier.cursor.pos <= later.cursor.pos
    &&& earlier.in_opt == later.in_opt
    &&& earlier.in_not == later.in_not
    &&& earlier.out.open == later.out.open
    &&& earlier.out.events.len() <= later.out.events.len()
    &&& later.out.events.take(earlier.out.events.len() as int) == earlier.out.events
}

pub proof fn lemma_ahead_refl(s: State)
    requires
        s.placed(),
    ensures
        ahead_of(s, s),
{
    assert(s.out.events.take(s.out.events.len() as int) =~= s.out.events);
}

pub proof fn lemma_ahead_trans(s: State, t: State, u: State)
    requires
        ahead_of(t, s),
        ahead_of(u, t),
    ensures
        ahead_of(u, s),
{
    assert(u.out.events.take(s.out.events.len() as int) =~= u.out.events.take(
        t.out.events.len() as int,
    ).take(s.out.events.len() as int));
}

/// Taking a token.
pub proof fn lemma_take(s: State, kind: SyntaxKind)
    requires
        s.placed(),
    ensures
        ahead_of(s.take(kind), s),
        s.take(kind).failed == s.failed,
        s.cursor.pos < s.src.len() ==> s.cursor.pos < s.take(kind).cursor.pos,
{
    lemma_lex(s.src, s.cursor);
    lemma_ahead_refl(s);
    if let Some((token, next)) = lex(s.src, s.cursor) {
        let event = crate::event::EventView::Token(kind, token.span);
        s.out.lemma_push(event);
        assert(s.out.events.push(event).take(s.out.events.len() as int) =~= s.out.events);
    }
}

/// Skipping trivia.
pub proof fn lemma_skip_trivia(s: State)
    requires
        s.placed(),
    ensures
        ahead_of(s.skip_trivia(), s),
        s.skip_trivia().failed == s.failed,
        relevant_after(s.src, s.cursor) == crate::token_stream::token_after(
            s.src,
            s.skip_trivia().cursor,
        ),
    decreases s.rest(),
{
    lemma_lex(s.src, s.cursor);
    lemma_ahead_refl(s);
    if let Some((token, next)) = lex(s.src, s.cursor) {
        if crate::token::is_trivia_id(token.id) {
            lemma_take(s, crate::syntax_kind::kind_of(token.id));
            lemma_skip_trivia(s.bump());
            lemma_ahead_trans(s, s.bump(), s.skip_trivia());
        }
    }
}

/// Skipping trivia, unless the parser has failed.
pub proof fn lemma_trivia(s: State)
    requires
        s.placed(),
    ensures
        ahead_of(s.trivia(), s),
        s.trivia().failed == s.failed,
{
    lemma_ahead_refl(s);
    lemma_skip_trivia(s);
}

/// Skipping tokens.
pub proof fn lemma_skip_until(s: State, set: Seq<SyntaxKind>)
    requires
        s.placed(),
    ensures
        ahead_of(s.skip_until(set), s),
        s.skip_until(set).failed == s.failed,
    decreases s.rest(),
{
    lemma_lex(s.src, s.cursor);
    lemma_ahead_refl(s);
    if let Some((token, next)) = lex(s.src, s.cursor) {
        if kind_in(set, token.id) is None {
            lemma_take(s, crate::syntax_kind::kind_of(token.id));
            lemma_skip_until(s.bump(), set);
            lemma_ahead_trans(s, s.bump(), s.skip_until(set));
        }
    }
}

/// Handling errors.
pub proof fn lemma_handle_errors(s: State)
    requires
        s.placed(),
    ensures
        ahead_of(s.handle_errors(), s),
        s.handle_errors().failed == s.failed,
        s.handle_errors().cursor == s.cursor,
        s.handle_errors().out == s.out,
        s.handle_errors().cache == s.cache,
{
    reveal(State::handle_errors);
    lemma_ahead_refl(s);
}

/// Flushing errors.
pub proof fn lemma_flush_errors(s: State)
    requires
        s.placed(),
    ensures
        ahead_of(s.flush_errors(), s),
        s.flush_errors().failed == s.failed,
        s.flush_errors().cursor == s.cursor,
        s.flush_errors().cache == s.cache,
{
    s.out.lemma_append(error_events(s.pending));
    assert((s.out.events + error_events(s.pending)).take(s.out.events.len() as int)
        =~= s.out.events);
}

/// Expecting a token: if it is found, it is consumed.
pub proof fn lemma_expect(s: State, set: Seq<SyntaxKind>, description: Option<Seq<char>>)
    requires
        s.placed(),
    ensures
        ahead_of(s.expect(set, description), s),
        s.failed ==> s.expect(set, description) == s,
        !s.expect(set, description).failed ==> s.cursor.pos < s.expect(
            set,
            description,
        ).cursor.pos,
        s.expect(set, description).cache == s.cache,
{
    reveal(State::expect);
    lemma_ahead_refl(s);
    if !s.failed {
        if let Some(token) = relevant_after(s.src, s.cursor) {
            let key = token.span.key_of();
            let unexpected = State { unexpected: s.unexpected.insert(key), ..s };
            lemma_ahead_refl(unexpected);
            lemma_handle_errors(unexpected);
            let expected = s.note_expected(key, set, description);
            lemma_ahead_refl(expected);
            lemma_handle_errors(expected);
            if let Some(kind) = kind_in(set, token.id) {
                let noted = if s.in_not {
                    unexpected.handle_errors()
                } else {
                    s
                };
                lemma_ahead_refl(noted);
                lemma_skip_trivia(noted);
                let trimmed = noted.trivia();
                lemma_lex(trimmed.src, trimmed.cursor);
                lemma_take(trimmed, kind);
                lemma_ahead_trans(noted, trimmed, trimmed.take(kind));
                lemma_flush_errors(trimmed.take(kind));
                lemma_ahead_trans(noted, trimmed.take(kind), trimmed.take(kind).flush_errors());
                lemma_skip_cache(noted);
            }
        }
    }
}

pub proof fn lemma_skip_cache(s: State)
    requires
        s.placed(),
    ensures
        s.skip_trivia().cache == s.cache,
    decreases s.rest(),
{
    lemma_lex(s.src, s.cursor);
    if let Some((token, next)) = lex(s.src, s.cursor) {
        if crate::token::is_trivia_id(token.id) {
            lemma_take(s, crate::syntax_kind::kind_of(token.id));
            lemma_skip_cache(s.bump());
        }
    }
}

/// Skipping tokens under an error node.
pub proof fn lemma_sync(s: State, set: Seq<SyntaxKind>)
    requires
        s.placed(),
    ensures
        ahead_of(s.sync(set), s),
        s.sync(set).failed == s.failed,
{
    reveal(State::sync);
    lemma_trivia(s);
    let start = s.trivia();
    if let Some(token) = crate::token_stream::token_after(start.src, start.cursor) {
        if kind_in(set, token.id) is None {
            let noted = start.note_expected(token.span.key_of(), set, None);
            lemma_ahead_refl(noted);
            lemma_handle_errors(noted);
            lemma_flush_errors(noted);
            let reported = if noted.pending.len() == 0 {
                noted.handle_errors()
            } else {
                noted.flush_errors()
            };
            let opened = State { out: reported.out.begin(SyntaxKind::ERROR), ..reported };
            reported.out.lemma_begin(SyntaxKind::ERROR);
            lemma_skip_until(opened, set);
            let skipped = opened.skip_until(set);
            lemma_close(reported, SyntaxKind::ERROR, skipped);
            let closed = State { out: skipped.out.end(), ..skipped };
            assert(ahead_of(noted, start));
            lemma_ahead_trans(start, reported, closed);
            lemma_ahead_trans(s, start, closed);
        }
    }
}

/// Ending a node that started in an earlier state.
pub proof fn lemma_close(s: State, kind: SyntaxKind, t: State)
    requires
        s.placed(),
        ahead_of(t, State { out: s.out.begin(kind), ..s }),
    ensures
        ahead_of(State { out: t.out.end(), ..t }, s),
        ahead_of(State { out: t.out.end_with_error(), ..t }, s),
        t.out.open.len() > 0,
        t.out.open.last() == s.out.events.len(),
        t.out.events[s.out.events.len() as int] == crate::event::EventView::Begin(kind),
{
    let begun = s.out.begin(kind);
    let n = s.out.events.len() as int;
    assert(t.out.open.last() == n);
    assert(t.out.events[n] == t.out.events.take(begun.events.len() as int)[n]);
    t.out.lemma_end();
    assert(t.out.open.drop_last() =~= s.out.open);
    assert(t.out.end().events.take(n) =~= s.out.events) by {
        assert(begun.events.take(n) =~= s.out.events);
        assert(t.out.end().events.take(n) =~= t.out.events.take(begun.events.len() as int).take(n));
    }
    assert(t.out.end_with_error().events.take(n) =~= t.out.end().events.take(n));
}

/// Going back to an earlier state.
pub proof fn lemma_restore(s: State, t: State)
    requires
        s.placed(),
        ahead_of(t, s),
    ensures
        t.restore(s).cursor == s.cursor,
        t.restore(s).out == s.out,
        ahead_of(t.restore(s), s),
{
    let len = s.out.events.len() as int;
    assert(t.out.open + Seq::<int>::empty() =~= t.out.open);
    assert forall|i: int| 0 <= i < s.out.open.len() implies #[trigger] s.out.open[i] < len by {}
    lemma_kept(s.out.open, Seq::empty(), len);
    assert(t.out.truncate(len) =~= s.out);
    lemma_ahead_refl(s);
}

/// An optional branch.
pub proof fn lemma_enter_opt(s: State)
    requires
        s.placed(),
    ensures
        s.enter_opt().placed(),
        s.enter_opt().failed == s.failed,
        s.enter_opt().src == s.src,
        s.cursor.pos <= s.enter_opt().cursor.pos,
        forall|t: State| #[trigger]
            ahead_of(t, s.enter_opt()) ==> {
                &&& ahead_of(t.leave_opt(s), s)
                &&& ahead_of(State { in_opt: s.in_opt, failed: false, ..t }, s)
                &&& !t.leave_opt(s).failed
                &&& t.failed ==> t.leave_opt(s).cursor == s.cursor && t.leave_opt(s).out == s.out
                &&& !t.failed ==> t.leave_opt(s) == (State { in_opt: s.in_opt, ..t })
            },
{
    lemma_trivia(s);
    assert forall|t: State| #[trigger] ahead_of(t, s.enter_opt()) implies {
        &&& ahead_of(t.leave_opt(s), s)
        &&& ahead_of(State { in_opt: s.in_opt, failed: false, ..t }, s)
        &&& !t.leave_opt(s).failed
        &&& t.failed ==> t.leave_opt(s).cursor == s.cursor && t.leave_opt(s).out == s.out
        &&& !t.failed ==> t.leave_opt(s) == (State { in_opt: s.in_opt, ..t })
    } by {
        let left = State { in_opt: s.in_opt, ..t };
        assert(ahead_of(left, s.trivia()));
        lemma_ahead_trans(s, s.trivia(), left);
        lemma_ahead_trans(s, s.trivia(), left.recover());
        if t.failed {
            lemma_restore(s, left.recover());
        }
    }
}

/// A negated branch.
pub proof fn lemma_enter_not(s: State)
    requires
        s.placed(),
    ensures
        s.enter_not().placed(),
        s.enter_not().failed == s.failed,
        s.enter_not().src == s.src,
        s.cursor.pos <= s.enter_not().cursor.pos,
        forall|t: State| #[trigger]
            ahead_of(t, s.enter_not()) ==> {
                &&& ahead_of(t.leave_not(s), s)
                &&& ahead_of(State { in_not: s.in_not, failed: !t.failed, ..t }, s)
                &&& t.leave_not(s).failed == !t.failed
                &&& t.leave_not(s).cursor == s.cursor
                &&& t.leave_not(s).out == s.out
            },
{
    lemma_trivia(s);
    assert forall|t: State| #[trigger] ahead_of(t, s.enter_not()) implies {
        &&& ahead_of(t.leave_not(s), s)
        &&& ahead_of(State { in_not: s.in_not, failed: !t.failed, ..t }, s)
        &&& t.leave_not(s).failed == !t.failed
        &&& t.leave_not(s).cursor == s.cursor
        &&& t.leave_not(s).out == s.out
    } by {
        let left = State { in_not: s.in_not, failed: !t.failed, ..t };
        assert(ahead_of(left, s.trivia()));
        lemma_ahead_trans(s, s.trivia(), left);
        lemma_restore(s, left);
    }
}

/// Starting a node.
pub proof fn lemma_begin(s: State, kind: SyntaxKind)
    requires
        s.placed(),
    ensures
        s.begin(kind).placed(),
        s.begin(kind).failed == s.failed,
        s.begin(kind).src == s.src,
        s.begin(kind).in_opt == s.in_opt,
        s.begin(kind).in_not == s.in_not,
        s.cursor.pos <= s.begin(kind).cursor.pos,
        forall|t: State| #[trigger]
            ahead_of(t, s.begin(kind)) ==> {
                &&& ahead_of(t.end(), s)
                &&& t.out.open.len() > 0
            },
{
    lemma_trivia(s);
    s.trivia().out.lemma_begin(kind);
    assert forall|t: State| #[trigger] ahead_of(t, s.begin(kind)) implies {
        &&& ahead_of(t.end(), s)
        &&& t.out.open.len() > 0
    } by {
        lemma_close(s.trivia(), kind, t);
        lemma_ahead_trans(s, s.trivia(), t.end());
    }
}

/// Parsing an expression takes the parser ahead.
#[verifier::rlimit(30)]
pub proof fn lemma_eval_ahead(expr: Expr, s: State, depth: nat)
    requires
        s.placed(),
        eval(expr, s, depth) is Some,
    ensures
        ahead_of(eval(expr, s, depth)->0, s),
    decreases depth, expr,
{
    lemma_ahead_refl(s);
    match expr {
        Expr::Expect(set, description) => lemma_expect(s, set, description),
        Expr::Sync(set) => lemma_sync(s, set),
        Expr::Cat(first, second) => {
            lemma_eval_ahead(*first, s, depth);
            let t = eval(*first, s, depth)->0;
            lemma_eval_ahead(*second, t, depth);
            lemma_ahead_trans(s, t, eval(*second, t, depth)->0);
        },
        Expr::Node(kind, inner) => {
            lemma_begin(s, kind);
            lemma_eval_ahead(*inner, s.begin(kind), depth);
        },
        Expr::Opt(inner) => if !s.failed {
            lemma_enter_opt(s);
            lemma_eval_ahead(*inner, s.enter_opt(), depth);
        },
        Expr::Not(inner) => if !s.failed {
            lemma_enter_not(s);
            lemma_eval_ahead(*inner, s.enter_not(), depth);
        },
        Expr::IfNext(set, inner) => if !s.failed {
            if let Some(token) = relevant_after(s.src, s.cursor) {
                if kind_in(set, token.id) is Some {
                    lemma_trivia(s);
                    lemma_eval_ahead(*inner, s.trivia(), depth);
                    lemma_ahead_trans(s, s.trivia(), eval(*inner, s.trivia(), depth)->0);
                }
            }
        },
        Expr::IfNextElse(set, inner, other) => if !s.failed {
            if s.sees(set) {
                lemma_trivia(s);
                lemma_eval_ahead(*inner, s.trivia(), depth);
                lemma_ahead_trans(s, s.trivia(), eval(*inner, s.trivia(), depth)->0);
            } else {
                lemma_eval_ahead(*other, s.missed(set), depth);
            }
        },
        Expr::Many(inner) => if !s.failed {
            lemma_enter_opt(s);
            lemma_eval_ahead(*inner, s.enter_opt(), depth);
            let t = eval(*inner, s.enter_opt(), depth)->0;
            if !t.failed {
                let u = t.leave_opt(s);
                lemma_eval_ahead(expr, u, (depth - 1) as nat);
                lemma_ahead_trans(s, u, eval(expr, u, (depth - 1) as nat)->0);
            }
        },
        Expr::One(inner) => if !s.failed {
            lemma_trivia(s);
            lemma_eval_ahead(*inner, s.trivia(), depth);
            lemma_ahead_trans(s, s.trivia(), eval(*inner, s.trivia(), depth)->0);
        },
        Expr::Cached(kind, inner) => if !s.cache.contains((s.cursor.index, code(kind))) {
            lemma_eval_ahead(*inner, s, depth);
        },
        Expr::Alt(exprs) => {
            lemma_eval_alt_ahead(exprs, s, depth);
            let (t, matched) = eval_alt(exprs, s, depth)->0;
            if !matched {
                let failed = State { failed: true, ..t };
                lemma_handle_errors(failed);
            }
        },
        Expr::Rule(kind) => lemma_eval_ahead(production(kind), s, (depth - 1) as nat),
        _ => {},
    }
}

/// Trying alternatives takes the parser ahead.
pub proof fn lemma_eval_alt_ahead(exprs: Seq<Expr>, s: State, depth: nat)
    requires
        s.placed(),
        eval_alt(exprs, s, depth) is Some,
    ensures
        ({
            let (t, matched) = eval_alt(exprs, s, depth)->0;
            &&& ahead_of(t, s)
            &&& matched ==> !t.failed
            &&& !matched ==> t.cursor == s.cursor && t.out == s.out && t.failed == s.failed
        }),
    decreases depth, exprs,
{
    lemma_ahead_refl(s);
    if exprs.len() > 0 {
        lemma_eval_alt_ahead(exprs.drop_last(), s, depth);
        let (t, matched) = eval_alt(exprs.drop_last(), s, depth)->0;
        if !matched && !t.failed {
            lemma_enter_opt(t);
            lemma_eval_ahead(exprs.last(), t.enter_opt(), depth);
            let u = eval(exprs.last(), t.enter_opt(), depth)->0;
            assert(u.leave_opt(s) == u.leave_opt(t));
            lemma_ahead_trans(s, t, u.leave_opt(t));
        }
    }
}

/// Parsing an expression takes the parser ahead.
pub proof fn lemma_parses_ahead(expr: Expr, s: State, t: State)
    requires
        s.placed(),
        parses(expr, s, t),
    ensures
        ahead_of(t, s),
{
    let depth = choose|depth: nat| #[trigger] eval(expr, s, depth) == Some(t);
    lemma_eval_ahead(expr, s, depth);
}

/// Trying alternatives takes the parser ahead.
pub proof fn lemma_tries_ahead(exprs: Seq<Expr>, s: State, t: State, matched: bool)
    requires
        s.placed(),
        tries(exprs, s, t, matched),
    ensures
        ahead_of(t, s),
        matched ==> !t.failed,
        !matched ==> t.cursor == s.cursor && t.out == s.out && t.failed == s.failed,
{
    let depth = choose|depth: nat| #[trigger] eval_alt(exprs, s, depth) == Some((t, matched));
    lemma_eval_alt_ahead(exprs, s, depth);
}

} // verus!
