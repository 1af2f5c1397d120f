//! What it means to parse an expression of the grammar.

use crate::grammar::{
    alt, cached, if_next, if_next_else, n_or_more, node, not, one, opt, production, Expr,
};
use crate::state::{code, kind_in, State};
use crate::syntax_kind::SyntaxKind;
use crate::token_stream::relevant_after;
use crate::tokenizer::Mode;
use vstd::prelude::*;

verus! {

/// The state in which the parser ends if it parses an expression, if `depth`
/// nested productions and repetitions are enough for that.
pub open spec fn eval(expr: Expr, s: State, depth: nat) -> Option<State>
    decreases depth, expr,
{
    match expr {
        Expr::Expect(set, description) => Some(s.expect(set, description)),
        Expr::HexPatternMode => Some(s.enter(Mode::HexPattern)),
        Expr::HexJumpMode => Some(s.enter(Mode::HexJump)),
        Expr::Recover => Some(s.recover()),
        Expr::Sync(set) => Some(s.sync(set)),
        Expr::Cat(first, second) => match eval(*first, s, depth) {
            Some(t) => eval(*second, t, depth),
            None => None,
        },
        Expr::Node(kind, inner) => match eval(*inner, s.begin(kind), depth) {
            Some(t) => Some(t.end()),
            None => None,
        },
        Expr::Opt(inner) => if s.failed {
            Some(s)
        } else {
            match eval(*inner, s.enter_opt(), depth) {
                Some(t) => Some(t.leave_opt(s)),
                None => None,
            }
        },
        Expr::Not(inner) => if s.failed {
            Some(s)
        } else {
            match eval(*inner, s.enter_not(), depth) {
                Some(t) => Some(t.leave_not(s)),
                None => None,
            }
        },
        Expr::IfNext(set, inner) => if s.failed {
            Some(s)
        } else {
            match relevant_after(s.src, s.cursor) {
                None => Some(s),
                Some(token) => if kind_in(set, token.id) is Some {
                    eval(*inner, s.trivia(), depth)
                } else {
                    Some(s.note_expected(token.span.key_of(), set, None))
                },
            }
        },
        Expr::IfNextElse(set, inner, other) => if s.failed {
            Some(s)
        } else if s.sees(set) {
            eval(*inner, s.trivia(), depth)
        } else {
            eval(*other, s.missed(set), depth)
        },
        Expr::Many(inner) => if s.failed {
            Some(s)
        } else if depth == 0 {
            None
        } else {
            match eval(*inner, s.enter_opt(), depth) {
                Some(t) => if t.failed {
                    Some(t.leave_opt(s))
                } else {
                    eval(expr, t.leave_opt(s), (depth - 1) as nat)
                },
                None => None,
            }
        },
        Expr::One(inner) => if s.failed {
            Some(s)
        } else {
            eval(*inner, s.trivia(), depth)
        },
        Expr::Cached(kind, inner) => if s.cache.contains((s.cursor.index, code(kind))) {
            Some(State { failed: true, ..s })
        } else {
            match eval(*inner, s, depth) {
                Some(t) => Some(t.cache_failure(s.cursor.index, kind)),
                None => None,
            }
        },
        Expr::Alt(exprs) => match eval_alt(exprs, s, depth) {
            Some((t, matched)) => Some(
                if matched {
                    t
                } else {
                    t.no_match()
                },
            ),
            None => None,
        },
        Expr::Rule(kind) => if depth == 0 {
            None
        } else {
            eval(production(kind), s, (depth - 1) as nat)
        },
    }
}

/// The state in which the parser is after trying some alternatives in order,
/// and whether one of them fits. One that does not leaves the parser where the
/// alternatives started, and one that does makes the others be left out.
pub open spec fn eval_alt(exprs: Seq<Expr>, s: State, depth: nat) -> Option<(State, bool)>
    decreases depth, exprs,
{
    if exprs.len() == 0 {
        Some((s, false))
    } else {
        match eval_alt(exprs.drop_last(), s, depth) {
            Some((t, matched)) => if matched || t.failed {
                Some((t, matched))
            } else {
                match eval(exprs.last(), t.enter_opt(), depth) {
                    Some(u) => Some((u.leave_opt(s), !u.failed)),
                    None => None,
                }
            },
            None => None,
        }
    }
}

/// Parsing an expression takes the parser from a state to another one.
pub open spec fn parses(expr: Expr, s: State, t: State) -> bool {
    exists|depth: nat| #[trigger] eval(expr, s, depth) == Some(t)
}

/// Trying some alternatives takes the parser from a state to another one, and
/// one of them fits or not.
pub open spec fn tries(exprs: Seq<Expr>, s: State, t: State, matched: bool) -> bool {
    exists|depth: nat| #[trigger] eval_alt(exprs, s, depth) == Some((t, matched))
}

/// More depth than needed makes no difference.
pub proof fn lemma_depth(expr: Expr, s: State, less: nat, more: nat)
    requires
        less <= more,
        eval(expr, s, less) is Some,
    ensures
        eval(expr, s, more) == eval(expr, s, less),
    decreases less, expr,
{
    match expr {
        Expr::Cat(first, second) => {
            lemma_depth(*first, s, less, more);
            lemma_depth(*second, eval(*first, s, less)->0, less, more);
        },
        Expr::Node(kind, inner) => lemma_depth(*inner, s.begin(kind), less, more),
        Expr::Opt(inner) => if !s.failed {
            lemma_depth(*inner, s.enter_opt(), less, more);
        },
        Expr::Not(inner) => if !s.failed {
            lemma_depth(*inner, s.enter_not(), less, more);
        },
        Expr::IfNext(set, inner) => if !s.failed {
            if let Some(token) = relevant_after(s.src, s.cursor) {
                if kind_in(set, token.id) is Some {
                    lemma_depth(*inner, s.trivia(), less, more);
                }
            }
        },
        Expr::IfNextElse(set, inner, other) => if !s.failed {
            if s.sees(set) {
                lemma_depth(*inner, s.trivia(), less, more);
            } else {
                lemma_depth(*other, s.missed(set), less, more);
            }
        },
        Expr::Many(inner) => if !s.failed {
            lemma_depth(*inner, s.enter_opt(), less, more);
            let t = eval(*inner, s.enter_opt(), less)->0;
            if !t.failed {
                lemma_depth(expr, t.leave_opt(s), (less - 1) as nat, (more - 1) as nat);
            }
        },
        Expr::One(inner) => if !s.failed {
            lemma_depth(*inner, s.trivia(), less, more);
        },
        Expr::Cached(kind, inner) => if !s.cache.contains((s.cursor.index, code(kind))) {
            lemma_depth(*inner, s, less, more);
        },
        Expr::Alt(exprs) => lemma_alt_depth(exprs, s, less, more),
        Expr::Rule(kind) => lemma_depth(
            production(kind),
            s,
            (less - 1) as nat,
            (more - 1) as nat,
        ),
        _ => {},
    }
}

/// More depth than needed makes no difference.
pub proof fn lemma_alt_depth(exprs: Seq<Expr>, s: State, less: nat, more: nat)
    requires
        less <= more,
        eval_alt(exprs, s, less) is Some,
    ensures
        eval_alt(exprs, s, more) == eval_alt(exprs, s, less),
    decreases less, exprs,
{
    if exprs.len() > 0 {
        lemma_alt_depth(exprs.drop_last(), s, less, more);
        let (t, matched) = eval_alt(exprs.drop_last(), s, less)->0;
        if !matched && !t.failed {
            lemma_depth(exprs.last(), t.enter_opt(), less, more);
        }
    }
}

/// Parsing an expression from a state has only one outcome.
pub proof fn lemma_deterministic(expr: Expr, s: State, t: State, u: State)
    requires
        parses(expr, s, t),
        parses(expr, s, u),
    ensures
        t == u,
{
    let a = choose|depth: nat| #[trigger] eval(expr, s, depth) == Some(t);
    let b = choose|depth: nat| #[trigger] eval(expr, s, depth) == Some(u);
    if a <= b {
        lemma_depth(expr, s, a, b);
    } else {
        lemma_depth(expr, s, b, a);
    }
}

/// An expression of one step.
pub proof fn lemma_step(expr: Expr, s: State)
    requires
        eval(expr, s, 0) is Some,
    ensures
        parses(expr, s, eval(expr, s, 0)->0),
{
}

/// An expression followed by another one.
pub broadcast proof fn lemma_cat(first: Expr, second: Expr, s: State, t: State, u: State)
    requires
        #[trigger] parses(first, s, t),
        #[trigger] parses(second, t, u),
    ensures
        parses(#[trigger] first.and(second), s, u),
{
    let a = choose|depth: nat| #[trigger] eval(first, s, depth) == Some(t);
    let b = choose|depth: nat| #[trigger] eval(second, t, depth) == Some(u);
    let depth = if a <= b {
        b
    } else {
        a
    };
    lemma_depth(first, s, a, depth);
    lemma_depth(second, t, b, depth);
    assert(eval(first.and(second), s, depth) == Some(u));
}

/// A node.
pub proof fn lemma_node(kind: SyntaxKind, inner: Expr, s: State, t: State)
    requires
        parses(inner, s.begin(kind), t),
    ensures
        parses(node(kind, inner), s, t.end()),
{
    let depth = choose|depth: nat| #[trigger] eval(inner, s.begin(kind), depth) == Some(t);
    assert(eval(node(kind, inner), s, depth) == Some(t.end()));
}

/// An optional expression.
pub proof fn lemma_opt(inner: Expr, s: State, t: State)
    requires
        !s.failed,
        parses(inner, s.enter_opt(), t),
    ensures
        parses(opt(inner), s, t.leave_opt(s)),
{
    let depth = choose|depth: nat| #[trigger] eval(inner, s.enter_opt(), depth) == Some(t);
    assert(eval(opt(inner), s, depth) == Some(t.leave_opt(s)));
}

/// A negated expression.
pub proof fn lemma_not(inner: Expr, s: State, t: State)
    requires
        !s.failed,
        parses(inner, s.enter_not(), t),
    ensures
        parses(not(inner), s, t.leave_not(s)),
{
    let depth = choose|depth: nat| #[trigger] eval(inner, s.enter_not(), depth) == Some(t);
    assert(eval(not(inner), s, depth) == Some(t.leave_not(s)));
}

/// An expression that the next token decides on.
pub proof fn lemma_if_next(set: Seq<SyntaxKind>, inner: Expr, s: State, t: State)
    requires
        !s.failed,
        relevant_after(s.src, s.cursor) matches Some(token) && kind_in(set, token.id) is Some,
        parses(inner, s.trivia(), t),
    ensures
        parses(if_next(set, inner), s, t),
{
    let depth = choose|depth: nat| #[trigger] eval(inner, s.trivia(), depth) == Some(t);
    assert(eval(if_next(set, inner), s, depth) == Some(t));
}

/// One of two expressions, between which the next token decides.
pub proof fn lemma_if_next_else(
    set: Seq<SyntaxKind>,
    inner: Expr,
    other: Expr,
    s: State,
    t: State,
)
    requires
        !s.failed,
        s.sees(set) ==> parses(inner, s.trivia(), t),
        !s.sees(set) ==> parses(other, s.missed(set), t),
    ensures
        parses(if_next_else(set, inner, other), s, t),
{
    let depth = if s.sees(set) {
        choose|depth: nat| #[trigger] eval(inner, s.trivia(), depth) == Some(t)
    } else {
        choose|depth: nat| #[trigger] eval(other, s.missed(set), depth) == Some(t)
    };
    assert(eval(if_next_else(set, inner, other), s, depth) == Some(t));
}

/// An expression, unless the parser has failed.
pub proof fn lemma_one(inner: Expr, s: State, t: State)
    requires
        !s.failed,
        parses(inner, s.trivia(), t),
    ensures
        parses(one(inner), s, t),
{
    let depth = choose|depth: nat| #[trigger] eval(inner, s.trivia(), depth) == Some(t);
    assert(eval(one(inner), s, depth) == Some(t));
}

/// The last round of a repetition.
pub proof fn lemma_many_done(inner: Expr, s: State, t: State)
    requires
        !s.failed,
        parses(inner, s.enter_opt(), t),
        t.failed,
    ensures
        parses(n_or_more(0, inner), s, t.leave_opt(s)),
{
    let depth = choose|depth: nat| #[trigger] eval(inner, s.enter_opt(), depth) == Some(t);
    lemma_depth(inner, s.enter_opt(), depth, depth + 1);
    assert(eval(n_or_more(0, inner), s, depth + 1) == Some(t.leave_opt(s)));
}

/// A round of a repetition that is not the last one.
pub proof fn lemma_many_more(inner: Expr, s: State, t: State, u: State)
    requires
        !s.failed,
        parses(inner, s.enter_opt(), t),
        !t.failed,
        parses(n_or_more(0, inner), t.leave_opt(s), u),
    ensures
        parses(n_or_more(0, inner), s, u),
{
    let many = n_or_more(0, inner);
    let v = t.leave_opt(s);
    let a = choose|depth: nat| #[trigger] eval(inner, s.enter_opt(), depth) == Some(t);
    let b = choose|depth: nat| #[trigger] eval(many, v, depth) == Some(u);
    let depth = if a <= b {
        b
    } else {
        a
    };
    lemma_depth(inner, s.enter_opt(), a, depth + 1);
    lemma_depth(many, v, b, depth);
    assert(eval(many, s, depth + 1) == Some(u));
}

/// An expression that is not known to fail.
pub proof fn lemma_cached(kind: SyntaxKind, inner: Expr, s: State, t: State)
    requires
        !s.cache.contains((s.cursor.index, code(kind))),
        parses(inner, s, t),
    ensures
        parses(cached(kind, inner), s, t.cache_failure(s.cursor.index, kind)),
{
    let depth = choose|depth: nat| #[trigger] eval(inner, s, depth) == Some(t);
    assert(eval(cached(kind, inner), s, depth) == Some(
        t.cache_failure(s.cursor.index, kind),
    ));
}

/// No alternative has been tried.
pub proof fn lemma_tries_none(s: State)
    ensures
        tries(Seq::empty(), s, s, false),
{
    assert(eval_alt(Seq::empty(), s, 0) == Some((s, false)));
}

/// One more alternative is left out.
pub proof fn lemma_tries_skip(exprs: Seq<Expr>, expr: Expr, s: State, t: State, matched: bool)
    requires
        tries(exprs, s, t, matched),
        matched || t.failed,
    ensures
        tries(exprs.push(expr), s, t, matched),
{
    let depth = choose|depth: nat| #[trigger] eval_alt(exprs, s, depth) == Some((t, matched));
    assert(exprs.push(expr).drop_last() =~= exprs);
    assert(eval_alt(exprs.push(expr), s, depth) == Some((t, matched)));
}

/// One more alternative is tried.
pub proof fn lemma_tries_more(exprs: Seq<Expr>, expr: Expr, s: State, t: State, u: State)
    requires
        tries(exprs, s, t, false),
        !t.failed,
        parses(expr, t.enter_opt(), u),
    ensures
        tries(exprs.push(expr), s, u.leave_opt(s), !u.failed),
{
    let a = choose|depth: nat| #[trigger] eval_alt(exprs, s, depth) == Some((t, false));
    let b = choose|depth: nat| #[trigger] eval(expr, t.enter_opt(), depth) == Some(u);
    let depth = if a <= b {
        b
    } else {
        a
    };
    lemma_alt_depth(exprs, s, a, depth);
    lemma_depth(expr, t.enter_opt(), b, depth);
    assert(exprs.push(expr).drop_last() =~= exprs);
    assert(eval_alt(exprs.push(expr), s, depth) == Some((u.leave_opt(s), !u.failed)));
}

/// All the alternatives have been tried or left out.
pub proof fn lemma_alt(exprs: Seq<Expr>, s: State, t: State, matched: bool)
    requires
        tries(exprs, s, t, matched),
    ensures
        parses(
            alt(exprs),
            s,
            if matched {
                t
            } else {
                t.no_match()
            },
        ),
{
    let depth = choose|depth: nat| #[trigger] eval_alt(exprs, s, depth) == Some((t, matched));
    assert(eval(alt(exprs), s, depth) == Some(
        if matched {
            t
        } else {
            t.no_match()
        },
    ));
}

/// The expression of a production.
pub proof fn lemma_rule(kind: SyntaxKind, s: State, t: State)
    requires
        parses(production(kind), s, t),
    ensures
        parses(Expr::Rule(kind), s, t),
{
    let depth = choose|depth: nat| #[trigger] eval(production(kind), s, depth) == Some(t);
    assert(eval(Expr::Rule(kind), s, depth + 1) == Some(t));
}

/// The state between an expression and the one that follows it.
pub proof fn lemma_cat_split(first: Expr, second: Expr, s: State, u: State) -> (t: State)
    requires
        parses(first.and(second), s, u),
    ensures
        parses(first, s, t),
        parses(second, t, u),
{
    let depth = choose|depth: nat| #[trigger] eval(first.and(second), s, depth) == Some(u);
    let t = eval(first, s, depth)->0;
    assert(eval(second, t, depth) == Some(u));
    t
}

/// The state before the end of a node.
pub proof fn lemma_node_split(kind: SyntaxKind, inner: Expr, s: State, u: State) -> (t: State)
    requires
        parses(node(kind, inner), s, u),
    ensures
        parses(inner, s.begin(kind), t),
        u == t.end(),
{
    let depth = choose|depth: nat| #[trigger] eval(node(kind, inner), s, depth) == Some(u);
    eval(inner, s.begin(kind), depth)->0
}

/// The state before the end of an optional expression.
pub proof fn lemma_opt_split(inner: Expr, s: State, u: State) -> (t: State)
    requires
        !s.failed,
        parses(opt(inner), s, u),
    ensures
        parses(inner, s.enter_opt(), t),
        u == t.leave_opt(s),
{
    let depth = choose|depth: nat| #[trigger] eval(opt(inner), s, depth) == Some(u);
    eval(inner, s.enter_opt(), depth)->0
}

/// A production is its expression.
pub proof fn lemma_rule_split(kind: SyntaxKind, s: State, t: State)
    requires
        parses(Expr::Rule(kind), s, t),
    ensures
        parses(production(kind), s, t),
{
    let depth = choose|depth: nat| #[trigger] eval(Expr::Rule(kind), s, depth) == Some(t);
    assert(eval(production(kind), s, (depth - 1) as nat) == Some(t));
}

} // verus!
