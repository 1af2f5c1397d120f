//! Remembering failures changes nothing but the time that parsing takes.
//!
//! Conditions are parsed with a cache of the primary expressions that are known
//! to fail. Here it is shown that, with the cache or without it, the same texts
//! are accepted, and that what failed at a token is not tried there again.

use crate::grammar;
use crate::grammar::{
    alt, cached, described, if_next, if_next_else, n_or_more, node, not, one, opt, production,
    token, Expr,
};
use crate::laws::frame::{
    lemma_begin, lemma_enter_not, lemma_enter_opt, lemma_eval_ahead, lemma_eval_alt_ahead,
    lemma_expect, lemma_flush_errors, lemma_handle_errors, lemma_skip_cache, lemma_skip_trivia,
    lemma_take, lemma_trivia,
};
use crate::laws::progress::lemma_eval_alt_failed;
use crate::semantics::{eval, eval_alt, lemma_rule_split, parses};
use crate::state::{code, kind_in, State};
use crate::syntax_kind::{kind_of, SyntaxKind};
use crate::token::is_trivia_id;
use crate::token_stream::{further, lemma_further, lemma_lex, relevant_after, token_after};
use crate::tokenizer::{in_source, lex, Cursor};
use vstd::prelude::*;

verus! {

/// Whether an expression fits at some place, and where it ends if it does.
pub enum Verdict {
    Fits(Cursor),
    Fails,
}

/// The place after the trivia tokens that follow another one.
pub open spec fn after_trivia(src: Seq<u8>, at: Cursor) -> Cursor
    decreases src.len() - at.pos,
    when src.len() <= usize::MAX
{
    proof {
        lemma_lex(src, at);
    }
    match lex(src, at) {
        Some((token, next)) => if is_trivia_id(token.id) {
            after_trivia(src, next)
        } else {
            at
        },
        None => at,
    }
}

/// The place after the next token that is not trivia.
pub open spec fn after_relevant(src: Seq<u8>, at: Cursor) -> Cursor {
    match lex(src, after_trivia(src, at)) {
        Some((_, next)) => next,
        None => after_trivia(src, at),
    }
}

/// The next token that is not trivia is in the set.
pub open spec fn is_next(src: Seq<u8>, at: Cursor, set: Seq<SyntaxKind>) -> bool {
    relevant_after(src, at) matches Some(token) && kind_in(set, token.id) is Some
}

/// What an expression does at some place, without a cache and without a note
/// of what was expected, if `depth` nested productions and repetitions are
/// enough to tell.
pub open spec fn judge(expr: Expr, src: Seq<u8>, at: Cursor, depth: nat) -> Option<Verdict>
    decreases depth, expr,
{
    let start = after_trivia(src, at);
    match expr {
        Expr::Expect(set, _) => Some(
            if is_next(src, at, set) {
                Verdict::Fits(after_relevant(src, at))
            } else {
                Verdict::Fails
            },
        ),
        Expr::Cat(first, second) => match judge(*first, src, at, depth) {
            Some(Verdict::Fits(next)) => judge(*second, src, next, depth),
            other => other,
        },
        Expr::Node(_, inner) => judge(*inner, src, start, depth),
        Expr::Opt(inner) => match judge(*inner, src, start, depth) {
            Some(Verdict::Fails) => Some(Verdict::Fits(at)),
            other => other,
        },
        Expr::Not(inner) => match judge(*inner, src, start, depth) {
            Some(Verdict::Fails) => Some(Verdict::Fits(at)),
            Some(Verdict::Fits(_)) => Some(Verdict::Fails),
            None => None,
        },
        Expr::IfNext(set, inner) => if is_next(src, at, set) {
            judge(*inner, src, start, depth)
        } else {
            Some(Verdict::Fits(at))
        },
        Expr::IfNextElse(set, inner, other) => if is_next(src, at, set) {
            judge(*inner, src, start, depth)
        } else {
            judge(*other, src, at, depth)
        },
        Expr::Many(inner) => if depth == 0 {
            None
        } else {
            match judge(*inner, src, start, depth) {
                Some(Verdict::Fits(next)) => judge(expr, src, next, (depth - 1) as nat),
                Some(Verdict::Fails) => Some(Verdict::Fits(at)),
                None => None,
            }
        },
        Expr::One(inner) => judge(*inner, src, start, depth),
        Expr::Cached(_, inner) => judge(*inner, src, at, depth),
        Expr::Alt(exprs) => judge_alt(exprs, src, at, depth),
        Expr::Rule(kind) => if depth == 0 {
            None
        } else {
            judge(production(kind), src, at, (depth - 1) as nat)
        },
        _ => None,
    }
}

/// What the first of some expressions that fits does.
pub open spec fn judge_alt(
    exprs: Seq<Expr>,
    src: Seq<u8>,
    at: Cursor,
    depth: nat,
) -> Option<Verdict>
    decreases depth, exprs,
{
    if exprs.len() == 0 {
        Some(Verdict::Fails)
    } else {
        match judge_alt(exprs.drop_last(), src, at, depth) {
            Some(Verdict::Fails) => judge(exprs.last(), src, after_trivia(src, at), depth),
            other => other,
        }
    }
}

/// What an expression does at some place.
pub open spec fn judged(expr: Expr, src: Seq<u8>, at: Cursor, verdict: Verdict) -> bool {
    exists|depth: nat| #[trigger] judge(expr, src, at, depth) == Some(verdict)
}

/// What the first of some expressions that fits does.
pub open spec fn judged_alt(exprs: Seq<Expr>, src: Seq<u8>, at: Cursor, verdict: Verdict) -> bool {
    exists|depth: nat| #[trigger] judge_alt(exprs, src, at, depth) == Some(verdict)
}

/// More depth than needed makes no difference.
proof fn lemma_judge_depth(expr: Expr, src: Seq<u8>, at: Cursor, less: nat, more: nat)
    requires
        less <= more,
        judge(expr, src, at, less) is Some,
    ensures
        judge(expr, src, at, more) == judge(expr, src, at, less),
    decreases less, expr,
{
    let start = after_trivia(src, at);
    match expr {
        Expr::Cat(first, second) => {
            lemma_judge_depth(*first, src, at, less, more);
            if let Some(Verdict::Fits(next)) = judge(*first, src, at, less) {
                lemma_judge_depth(*second, src, next, less, more);
            }
        },
        Expr::Node(_, inner) => lemma_judge_depth(*inner, src, start, less, more),
        Expr::Opt(inner) => lemma_judge_depth(*inner, src, start, less, more),
        Expr::Not(inner) => lemma_judge_depth(*inner, src, start, less, more),
        Expr::IfNext(set, inner) => if is_next(src, at, set) {
            lemma_judge_depth(*inner, src, start, less, more);
        },
        Expr::IfNextElse(set, inner, other) => if is_next(src, at, set) {
            lemma_judge_depth(*inner, src, start, less, more);
        } else {
            lemma_judge_depth(*other, src, at, less, more);
        },
        Expr::Many(inner) => {
            lemma_judge_depth(*inner, src, start, less, more);
            if let Some(Verdict::Fits(next)) = judge(*inner, src, start, less) {
                lemma_judge_depth(expr, src, next, (less - 1) as nat, (more - 1) as nat);
            }
        },
        Expr::One(inner) => lemma_judge_depth(*inner, src, start, less, more),
        Expr::Cached(_, inner) => lemma_judge_depth(*inner, src, at, less, more),
        Expr::Alt(exprs) => lemma_judge_alt_depth(exprs, src, at, less, more),
        Expr::Rule(kind) => lemma_judge_depth(
            production(kind),
            src,
            at,
            (less - 1) as nat,
            (more - 1) as nat,
        ),
        _ => {},
    }
}

proof fn lemma_judge_alt_depth(exprs: Seq<Expr>, src: Seq<u8>, at: Cursor, less: nat, more: nat)
    requires
        less <= more,
        judge_alt(exprs, src, at, less) is Some,
    ensures
        judge_alt(exprs, src, at, more) == judge_alt(exprs, src, at, less),
    decreases less, exprs,
{
    if exprs.len() > 0 {
        lemma_judge_alt_depth(exprs.drop_last(), src, at, less, more);
        if judge_alt(exprs.drop_last(), src, at, less) == Some(Verdict::Fails) {
            lemma_judge_depth(exprs.last(), src, after_trivia(src, at), less, more);
        }
    }
}

/// There is one verdict only.
pub proof fn lemma_judged(expr: Expr, src: Seq<u8>, at: Cursor, a: Verdict, b: Verdict)
    requires
        judged(expr, src, at, a),
        judged(expr, src, at, b),
    ensures
        a == b,
{
    let m = choose|depth: nat| #[trigger] judge(expr, src, at, depth) == Some(a);
    let n = choose|depth: nat| #[trigger] judge(expr, src, at, depth) == Some(b);
    if m <= n {
        lemma_judge_depth(expr, src, at, m, n);
    } else {
        lemma_judge_depth(expr, src, at, n, m);
    }
}

/// An expression of one step.
proof fn lemma_judged_step(expr: Expr, src: Seq<u8>, at: Cursor)
    requires
        judge(expr, src, at, 0) is Some,
    ensures
        judged(expr, src, at, judge(expr, src, at, 0)->0),
{
}

/// An expression followed by another one.
proof fn lemma_judged_cat(first: Expr, second: Expr, src: Seq<u8>, at: Cursor, verdict: Verdict)
    requires
        judged(first, src, at, verdict),
    ensures
        verdict is Fails ==> judged(first.and(second), src, at, Verdict::Fails),
        forall|other: Verdict|
            verdict is Fits && #[trigger] judged(second, src, verdict->0, other) ==> judged(
                first.and(second),
                src,
                at,
                other,
            ),
{
    let m = choose|depth: nat| #[trigger] judge(first, src, at, depth) == Some(verdict);
    if verdict is Fails {
        assert(judge(first.and(second), src, at, m) == Some(Verdict::Fails));
    }
    assert forall|other: Verdict|
        verdict is Fits && #[trigger] judged(second, src, verdict->0, other) implies judged(
        first.and(second),
        src,
        at,
        other,
    ) by {
        let n = choose|depth: nat| #[trigger]
            judge(second, src, verdict->0, depth) == Some(other);
        let depth = if m <= n {
            n
        } else {
            m
        };
        lemma_judge_depth(first, src, at, m, depth);
        lemma_judge_depth(second, src, verdict->0, n, depth);
        assert(judge(first.and(second), src, at, depth) == Some(other));
    }
}

/// Expressions with one within them.
proof fn lemma_judged_inner(
    expr: Expr,
    inner: Expr,
    src: Seq<u8>,
    at: Cursor,
    verdict: Verdict,
)
    requires
        match expr {
            Expr::Node(_, e) => *e == inner,
            Expr::Opt(e) => *e == inner,
            Expr::Not(e) => *e == inner,
            Expr::IfNext(set, e) => *e == inner && is_next(src, at, set),
            Expr::One(e) => *e == inner,
            _ => false,
        },
        judged(inner, src, after_trivia(src, at), verdict),
    ensures
        expr is Node || expr is IfNext || expr is One || (expr is Opt && verdict is Fits)
            ==> judged(expr, src, at, verdict),
        expr is Opt && verdict is Fails ==> judged(expr, src, at, Verdict::Fits(at)),
        expr is Not && verdict is Fails ==> judged(expr, src, at, Verdict::Fits(at)),
        expr is Not && verdict is Fits ==> judged(expr, src, at, Verdict::Fails),
{
    let start = after_trivia(src, at);
    let depth = choose|depth: nat| #[trigger] judge(inner, src, start, depth) == Some(verdict);
    assert(judge(expr, src, at, depth) is Some);
}

/// One of two expressions, between which the next token decides.
proof fn lemma_judged_either(
    set: Seq<SyntaxKind>,
    inner: Expr,
    other: Expr,
    src: Seq<u8>,
    at: Cursor,
    verdict: Verdict,
)
    requires
        is_next(src, at, set) ==> judged(inner, src, after_trivia(src, at), verdict),
        !is_next(src, at, set) ==> judged(other, src, at, verdict),
    ensures
        judged(if_next_else(set, inner, other), src, at, verdict),
{
    let start = after_trivia(src, at);
    let depth = if is_next(src, at, set) {
        choose|depth: nat| #[trigger] judge(inner, src, start, depth) == Some(verdict)
    } else {
        choose|depth: nat| #[trigger] judge(other, src, at, depth) == Some(verdict)
    };
    assert(judge(if_next_else(set, inner, other), src, at, depth) == Some(verdict));
}

proof fn lemma_judged_cached(
    kind: SyntaxKind,
    inner: Expr,
    src: Seq<u8>,
    at: Cursor,
    verdict: Verdict,
)
    requires
        judged(inner, src, at, verdict),
    ensures
        judged(cached(kind, inner), src, at, verdict),
{
    let depth = choose|depth: nat| #[trigger] judge(inner, src, at, depth) == Some(verdict);
    assert(judge(cached(kind, inner), src, at, depth) == Some(verdict));
}

proof fn lemma_judged_rule(kind: SyntaxKind, src: Seq<u8>, at: Cursor, verdict: Verdict)
    requires
        judged(production(kind), src, at, verdict),
    ensures
        judged(Expr::Rule(kind), src, at, verdict),
{
    let depth = choose|depth: nat| #[trigger]
        judge(production(kind), src, at, depth) == Some(verdict);
    assert(judge(Expr::Rule(kind), src, at, depth + 1) == Some(verdict));
}

proof fn lemma_judged_many(inner: Expr, src: Seq<u8>, at: Cursor, verdict: Verdict)
    requires
        judged(inner, src, after_trivia(src, at), verdict),
    ensures
        verdict is Fails ==> judged(n_or_more(0, inner), src, at, Verdict::Fits(at)),
        forall|other: Verdict|
            verdict is Fits && #[trigger] judged(n_or_more(0, inner), src, verdict->0, other)
                ==> judged(n_or_more(0, inner), src, at, other),
{
    let many = n_or_more(0, inner);
    let start = after_trivia(src, at);
    let m = choose|depth: nat| #[trigger] judge(inner, src, start, depth) == Some(verdict);
    if verdict is Fails {
        lemma_judge_depth(inner, src, start, m, m + 1);
        assert(judge(many, src, at, m + 1) == Some(Verdict::Fits(at)));
    }
    assert forall|other: Verdict|
        verdict is Fits && #[trigger] judged(many, src, verdict->0, other) implies judged(
        many,
        src,
        at,
        other,
    ) by {
        let n = choose|depth: nat| #[trigger] judge(many, src, verdict->0, depth) == Some(other);
        let depth = if m <= n {
            n
        } else {
            m
        };
        lemma_judge_depth(inner, src, start, m, depth + 1);
        lemma_judge_depth(many, src, verdict->0, n, depth);
        assert(judge(many, src, at, depth + 1) == Some(other));
    }
}

proof fn lemma_judged_alt(exprs: Seq<Expr>, src: Seq<u8>, at: Cursor, verdict: Verdict)
    requires
        judged_alt(exprs, src, at, verdict),
    ensures
        judged(alt(exprs), src, at, verdict),
{
    let depth = choose|depth: nat| #[trigger] judge_alt(exprs, src, at, depth) == Some(verdict);
    assert(judge(alt(exprs), src, at, depth) == Some(verdict));
}

proof fn lemma_judged_alt_more(exprs: Seq<Expr>, src: Seq<u8>, at: Cursor, verdict: Verdict)
    requires
        exprs.len() > 0,
        judged_alt(exprs.drop_last(), src, at, verdict),
    ensures
        verdict is Fits ==> judged_alt(exprs, src, at, verdict),
        forall|other: Verdict|
            verdict is Fails && #[trigger] judged(exprs.last(), src, after_trivia(src, at), other)
                ==> judged_alt(exprs, src, at, other),
{
    let start = after_trivia(src, at);
    let m = choose|depth: nat| #[trigger]
        judge_alt(exprs.drop_last(), src, at, depth) == Some(verdict);
    if verdict is Fits {
        assert(judge_alt(exprs, src, at, m) == Some(verdict));
    }
    assert forall|other: Verdict|
        verdict is Fails && #[trigger] judged(exprs.last(), src, start, other) implies judged_alt(
        exprs,
        src,
        at,
        other,
    ) by {
        let n = choose|depth: nat| #[trigger] judge(exprs.last(), src, start, depth) == Some(other);
        let depth = if m <= n {
            n
        } else {
            m
        };
        lemma_judge_alt_depth(exprs.drop_last(), src, at, m, depth);
        lemma_judge_depth(exprs.last(), src, start, n, depth);
        assert(judge_alt(exprs, src, at, depth) == Some(other));
    }
}

/// The productions that conditions are made of.
pub open spec fn in_conditions(kind: SyntaxKind) -> bool {
    match kind {
        SyntaxKind::CONDITION_BLK
        | SyntaxKind::BOOLEAN_EXPR
        | SyntaxKind::BOOLEAN_TERM
        | SyntaxKind::EXPR
        | SyntaxKind::TERM
        | SyntaxKind::RANGE
        | SyntaxKind::PRIMARY_EXPR
        | SyntaxKind::FOR_EXPR
        | SyntaxKind::OF_EXPR
        | SyntaxKind::QUANTIFIER
        | SyntaxKind::ITERABLE
        | SyntaxKind::BOOLEAN_EXPR_TUPLE
        | SyntaxKind::EXPR_TUPLE
        | SyntaxKind::PATTERN_IDENT_TUPLE => true,
        _ => false,
    }
}

/// A parser that has failed stays as it is, but for its notes.
pub open spec fn inert(expr: Expr) -> bool
    decreases expr,
{
    match expr {
        Expr::Cat(first, second) => inert(*first) && inert(*second),
        Expr::Expect(_, _) => true,
        Expr::Opt(_) => true,
        Expr::Not(_) => true,
        Expr::IfNext(_, _) => true,
        Expr::IfNextElse(_, _, _) => true,
        Expr::Many(_) => true,
        Expr::One(_) => true,
        Expr::Alt(_) => true,
        _ => false,
    }
}

/// The expression is made of productions of conditions, and nothing but primary
/// expressions is remembered. A production that comes after something else is
/// not tried if the parser has failed.
pub open spec fn regular(expr: Expr) -> bool
    decreases expr,
{
    match expr {
        Expr::Expect(_, _) => true,
        Expr::Cat(first, second) => regular(*first) && regular(*second) && inert(*second),
        Expr::Node(_, inner) => regular(*inner),
        Expr::Opt(inner) => regular(*inner),
        Expr::Not(inner) => regular(*inner),
        Expr::IfNext(_, inner) => regular(*inner),
        Expr::IfNextElse(_, inner, other) => regular(*inner) && regular(*other),
        Expr::Many(inner) => regular(*inner),
        Expr::One(inner) => regular(*inner),
        Expr::Cached(kind, inner) => {
            &&& kind == SyntaxKind::PRIMARY_EXPR
            &&& *inner == grammar::primary_node()
            &&& regular(*inner)
        },
        Expr::Alt(exprs) => all_regular(exprs),
        Expr::Rule(kind) => in_conditions(kind),
        _ => false,
    }
}

/// All the expressions are regular.
pub open spec fn all_regular(exprs: Seq<Expr>) -> bool
    decreases exprs,
{
    exprs.len() == 0 || (all_regular(exprs.drop_last()) && regular(exprs.last()))
}

broadcast proof fn lemma_all_regular(exprs: Seq<Expr>, expr: Expr)
    ensures
        #[trigger] all_regular(exprs.push(expr)) == (all_regular(exprs) && regular(expr)),
{
    assert(exprs.push(expr).drop_last() =~= exprs);
}

broadcast proof fn lemma_regular_and(a: Expr, b: Expr)
    ensures
        #[trigger] regular(a.and(b)) == (regular(a) && regular(b) && inert(b)),
{
}

broadcast proof fn lemma_regular_token(set: Seq<SyntaxKind>)
    ensures
        #[trigger] regular(token(set)),
{
}

broadcast proof fn lemma_regular_described(set: Seq<SyntaxKind>, text: Seq<char>)
    ensures
        #[trigger] regular(described(set, text)),
{
}

broadcast proof fn lemma_regular_node(kind: SyntaxKind, a: Expr)
    ensures
        #[trigger] regular(node(kind, a)) == regular(a),
{
}

broadcast proof fn lemma_regular_opt(a: Expr)
    ensures
        #[trigger] regular(opt(a)) == regular(a),
{
}

broadcast proof fn lemma_regular_not(a: Expr)
    ensures
        #[trigger] regular(not(a)) == regular(a),
{
}

broadcast proof fn lemma_regular_if_next(set: Seq<SyntaxKind>, a: Expr)
    ensures
        #[trigger] regular(if_next(set, a)) == regular(a),
{
}

broadcast proof fn lemma_regular_if_next_else(set: Seq<SyntaxKind>, a: Expr, b: Expr)
    ensures
        #[trigger] regular(if_next_else(set, a, b)) == (regular(a) && regular(b)),
{
}

broadcast proof fn lemma_regular_one(a: Expr)
    ensures
        #[trigger] regular(one(a)) == regular(a),
{
}

broadcast proof fn lemma_regular_alt(exprs: Seq<Expr>)
    ensures
        #[trigger] regular(alt(exprs)) == all_regular(exprs),
{
}

broadcast proof fn lemma_regular_cached(kind: SyntaxKind, a: Expr)
    ensures
        #[trigger] regular(cached(kind, a)) == (kind == SyntaxKind::PRIMARY_EXPR && a
            == grammar::primary_node() && regular(a)),
{
}

broadcast proof fn lemma_regular_many(a: Expr)
    ensures
        #[trigger] regular(n_or_more(0, a)) == regular(a),
{
}

broadcast group group_regular {
    lemma_all_regular,
    lemma_regular_and,
    lemma_regular_token,
    lemma_regular_described,
    lemma_regular_node,
    lemma_regular_opt,
    lemma_regular_not,
    lemma_regular_if_next,
    lemma_regular_if_next_else,
    lemma_regular_one,
    lemma_regular_alt,
    lemma_regular_cached,
    lemma_regular_many,
}

broadcast proof fn lemma_inert_token(set: Seq<SyntaxKind>)
    ensures
        #[trigger] inert(token(set)),
{
}

broadcast proof fn lemma_inert_opt(a: Expr)
    ensures
        #[trigger] inert(opt(a)),
{
}

broadcast proof fn lemma_inert_not(a: Expr)
    ensures
        #[trigger] inert(not(a)),
{
}

broadcast proof fn lemma_inert_if_next(set: Seq<SyntaxKind>, a: Expr)
    ensures
        #[trigger] inert(if_next(set, a)),
{
}

broadcast proof fn lemma_inert_if_next_else(set: Seq<SyntaxKind>, a: Expr, b: Expr)
    ensures
        #[trigger] inert(if_next_else(set, a, b)),
{
}

broadcast proof fn lemma_inert_one(a: Expr)
    ensures
        #[trigger] inert(one(a)),
{
}

broadcast proof fn lemma_inert_alt(exprs: Seq<Expr>)
    ensures
        #[trigger] inert(alt(exprs)),
{
}

broadcast proof fn lemma_inert_many(a: Expr)
    ensures
        #[trigger] inert(n_or_more(0, a)),
{
}

broadcast group group_inert {
    lemma_inert_token,
    lemma_inert_opt,
    lemma_inert_not,
    lemma_inert_if_next,
    lemma_inert_if_next_else,
    lemma_inert_one,
    lemma_inert_alt,
    lemma_inert_many,
}

proof fn lemma_regular_booleans()
    ensures
        regular(grammar::condition_blk()),
        regular(grammar::boolean_expr()),
        regular(grammar::boolean_term()),
{
    broadcast use {group_regular, group_inert};

    reveal(grammar::condition_blk);
    reveal(grammar::boolean_expr);
    reveal(grammar::boolean_more);
    reveal(grammar::boolean_term);
    reveal(grammar::anchored_pattern);
    reveal(grammar::prefixed_term);
    reveal(grammar::comparison);
    reveal(grammar::comparison_more);
    reveal(grammar::boolean_group);
}

proof fn lemma_regular_exprs()
    ensures
        regular(grammar::expr()),
        regular(grammar::term()),
        regular(grammar::range()),
{
    broadcast use {group_regular, group_inert};

    reveal(grammar::expr);
    reveal(grammar::expr_more);
    reveal(grammar::term);
    reveal(grammar::index);
    reveal(grammar::arguments);
    reveal(grammar::more_booleans);
    reveal(grammar::range);
}

proof fn lemma_regular_primary()
    ensures
        regular(grammar::primary_expr()),
{
    broadcast use {group_regular, group_inert};

    reveal(grammar::primary_expr);
    reveal(grammar::primary_node);
    reveal(grammar::literal);
    reveal(grammar::pattern_count);
    reveal(grammar::in_range);
    reveal(grammar::pattern_match);
    reveal(grammar::match_index);
    reveal(grammar::negation);
    reveal(grammar::complement);
    reveal(grammar::group);
    reveal(grammar::path);
    reveal(grammar::field);
}

proof fn lemma_regular_quantified()
    ensures
        regular(grammar::for_expr()),
        regular(grammar::of_expr()),
{
    broadcast use {group_regular, group_inert};

    reveal(grammar::for_expr);
    reveal(grammar::for_patterns);
    reveal(grammar::pattern_choice);
    reveal(grammar::for_items);
    reveal(grammar::more_idents);
    reveal(grammar::of_expr);
    reveal(grammar::of_patterns);
    reveal(grammar::anchor);
    reveal(grammar::at_offset);
    reveal(grammar::in_range);
    reveal(grammar::of_booleans);
}

proof fn lemma_regular_quantifiers()
    ensures
        regular(grammar::quantifier()),
        regular(grammar::iterable()),
{
    broadcast use {group_regular, group_inert};

    reveal(grammar::quantifier);
    reveal(grammar::percentage);
    reveal(grammar::exact_count);
    reveal(grammar::iterable);
}

proof fn lemma_regular_tuples()
    ensures
        regular(grammar::boolean_expr_tuple()),
        regular(grammar::expr_tuple()),
        regular(grammar::pattern_ident_tuple()),
{
    broadcast use {group_regular, group_inert};

    reveal(grammar::boolean_expr_tuple);
    reveal(grammar::more_booleans);
    reveal(grammar::expr_tuple);
    reveal(grammar::more_exprs);
    reveal(grammar::pattern_ident_tuple);
    reveal(grammar::more_pattern_idents);
}

/// The productions of conditions are regular.
pub proof fn lemma_regular(kind: SyntaxKind)
    requires
        in_conditions(kind),
    ensures
        regular(production(kind)),
{
    reveal(production);
    lemma_regular_booleans();
    lemma_regular_exprs();
    lemma_regular_primary();
    lemma_regular_quantified();
    lemma_regular_quantifiers();
    lemma_regular_tuples();
}

/// The place is one of those that the parser comes through if it consumes the
/// tokens after another one.
pub open spec fn on_chain(src: Seq<u8>, base: Cursor, at: Cursor) -> bool {
    exists|n: nat| #[trigger] further(src, base, n) == at
}

proof fn lemma_chain_next(src: Seq<u8>, base: Cursor, at: Cursor)
    requires
        in_source(src, base),
        on_chain(src, base, at),
    ensures
        lex(src, at) matches Some((_, next)) ==> on_chain(src, base, next),
{
    let n = choose|n: nat| #[trigger] further(src, base, n) == at;
    lemma_further(src, base, n);
    if let Some((_, next)) = lex(src, at) {
        assert(further(src, base, n + 1) == next);
    }
}

pub proof fn lemma_chain_trivia(src: Seq<u8>, base: Cursor, at: Cursor)
    requires
        in_source(src, base),
        on_chain(src, base, at),
    ensures
        on_chain(src, base, after_trivia(src, at)),
    decreases src.len() - at.pos,
{
    lemma_lex(src, at);
    if let Some((token, next)) = lex(src, at) {
        if is_trivia_id(token.id) {
            lemma_chain_next(src, base, at);
            lemma_chain_trivia(src, base, next);
        }
    }
}

/// The number of tokens grows along the way.
proof fn lemma_chain_index(src: Seq<u8>, base: Cursor, m: nat, n: nat)
    requires
        in_source(src, base),
        m <= n,
    ensures
        further(src, base, m).index <= further(src, base, n).index,
        further(src, base, m).index == further(src, base, n).index ==> further(src, base, m)
            == further(src, base, n),
    decreases n,
{
    if m < n {
        let before = (n - 1) as nat;
        lemma_chain_index(src, base, m, before);
        lemma_further(src, base, before);
        lemma_lex(src, further(src, base, before));
    }
}

/// Two places on the way with the same number of tokens before them are the
/// same.
proof fn lemma_chain_unique(src: Seq<u8>, base: Cursor, a: Cursor, b: Cursor)
    requires
        in_source(src, base),
        on_chain(src, base, a),
        on_chain(src, base, b),
        a.index == b.index,
    ensures
        a == b,
{
    let m = choose|n: nat| #[trigger] further(src, base, n) == a;
    let n = choose|n: nat| #[trigger] further(src, base, n) == b;
    if m <= n {
        lemma_chain_index(src, base, m, n);
    } else {
        lemma_chain_index(src, base, n, m);
    }
}

/// What is remembered is true: where the cache has a primary expression, none
/// fits.
pub open spec fn remembers(src: Seq<u8>, cache: Set<(usize, usize)>, base: Cursor) -> bool {
    forall|at: Cursor| #[trigger]
        on_chain(src, base, at) && cache.contains((at.index, code(SyntaxKind::PRIMARY_EXPR)))
            ==> judged(grammar::primary_node(), src, at, Verdict::Fails)
}

/// The parser is on its way from a place, and what it remembers is true.
pub open spec fn sound(s: State, base: Cursor) -> bool {
    &&& in_source(s.src, base)
    &&& on_chain(s.src, base, s.cursor)
    &&& remembers(s.src, s.cache, base)
}

/// Skipping trivia.
pub proof fn lemma_trivia_place(s: State)
    requires
        s.placed(),
    ensures
        s.skip_trivia().cursor == after_trivia(s.src, s.cursor),
        s.skip_trivia().cache == s.cache,
        s.skip_trivia().src == s.src,
    decreases s.rest(),
{
    lemma_lex(s.src, s.cursor);
    lemma_skip_trivia(s);
    lemma_skip_cache(s);
    if let Some((token, _)) = lex(s.src, s.cursor) {
        if is_trivia_id(token.id) {
            lemma_take(s, kind_of(token.id));
            lemma_trivia_place(s.bump());
        }
    }
}

/// Expecting a token.
proof fn lemma_expect_judged(
    s: State,
    set: Seq<SyntaxKind>,
    description: Option<Seq<char>>,
    base: Cursor,
) -> (verdict: Verdict)
    requires
        s.placed(),
        !s.failed,
        sound(s, base),
    ensures
        judged(Expr::Expect(set, description), s.src, s.cursor, verdict),
        sound(s.expect(set, description), base),
        s.expect(set, description).failed == verdict is Fails,
        verdict is Fits ==> verdict->0 == s.expect(set, description).cursor,
{
    let expr = Expr::Expect(set, description);
    let t = s.expect(set, description);
    lemma_judged_step(expr, s.src, s.cursor);
    lemma_expect(s, set, description);
    reveal(State::expect);
    if let Some(next) = relevant_after(s.src, s.cursor) {
        let key = next.span.key_of();
        lemma_handle_errors(s.note_expected(key, set, description));
        if let Some(kind) = kind_in(set, next.id) {
            let unexpected = State { unexpected: s.unexpected.insert(key), ..s };
            lemma_handle_errors(unexpected);
            let noted = if s.in_not {
                unexpected.handle_errors()
            } else {
                s
            };
            lemma_trivia(noted);
            lemma_trivia_place(noted);
            lemma_take(noted.trivia(), kind);
            lemma_flush_errors(noted.trivia().take(kind));
            lemma_chain_trivia(s.src, base, s.cursor);
            lemma_chain_next(s.src, base, after_trivia(s.src, s.cursor));
        }
    }
    if is_next(s.src, s.cursor, set) {
        Verdict::Fits(after_relevant(s.src, s.cursor))
    } else {
        Verdict::Fails
    }
}

/// A parser that has failed does nothing.
proof fn lemma_inert(expr: Expr, s: State, depth: nat)
    requires
        s.failed,
        inert(expr),
        eval(expr, s, depth) is Some,
    ensures
        ({
            let t = eval(expr, s, depth)->0;
            &&& t.failed
            &&& t.cursor == s.cursor
            &&& t.cache == s.cache
            &&& t.src == s.src
        }),
    decreases depth, expr,
{
    match expr {
        Expr::Expect(set, description) => {
            reveal(State::expect);
        },
        Expr::Cat(first, second) => {
            lemma_inert(*first, s, depth);
            lemma_inert(*second, eval(*first, s, depth)->0, depth);
        },
        Expr::Alt(exprs) => {
            lemma_eval_alt_failed(exprs, s, depth);
            reveal(State::handle_errors);
        },
        _ => {},
    }
}

/// With the cache, an expression does what it does without it.
#[verifier::rlimit(40)]
pub proof fn lemma_eval_judged(expr: Expr, s: State, depth: nat, base: Cursor) -> (verdict: Verdict)
    requires
        s.placed(),
        !s.failed,
        regular(expr),
        sound(s, base),
        eval(expr, s, depth) is Some,
    ensures
        judged(expr, s.src, s.cursor, verdict),
        sound(eval(expr, s, depth)->0, base),
        (eval(expr, s, depth)->0).failed == verdict is Fails,
        verdict is Fits ==> verdict->0 == (eval(expr, s, depth)->0).cursor,
    decreases depth, expr,
{
    let src = s.src;
    let at = s.cursor;
    let end = eval(expr, s, depth)->0;
    lemma_trivia(s);
    lemma_trivia_place(s);
    lemma_chain_trivia(src, base, at);
    match expr {
        Expr::Expect(set, description) => lemma_expect_judged(s, set, description, base),
        Expr::Cat(first, second) => {
            lemma_eval_ahead(*first, s, depth);
            let t = eval(*first, s, depth)->0;
            let v = lemma_eval_judged(*first, s, depth, base);
            lemma_judged_cat(*first, *second, src, at, v);
            if t.failed {
                lemma_inert(*second, t, depth);
                v
            } else {
                lemma_eval_judged(*second, t, depth, base)
            }
        },
        Expr::Node(kind, inner) => {
            lemma_begin(s, kind);
            lemma_eval_ahead(*inner, s.begin(kind), depth);
            let v = lemma_eval_judged(*inner, s.begin(kind), depth, base);
            lemma_judged_inner(expr, *inner, src, at, v);
            v
        },
        Expr::Opt(inner) => {
            lemma_enter_opt(s);
            lemma_eval_ahead(*inner, s.enter_opt(), depth);
            let t = eval(*inner, s.enter_opt(), depth)->0;
            let v = lemma_eval_judged(*inner, s.enter_opt(), depth, base);
            lemma_judged_inner(expr, *inner, src, at, v);
            if t.failed {
                Verdict::Fits(at)
            } else {
                v
            }
        },
        Expr::Not(inner) => {
            lemma_enter_not(s);
            lemma_eval_ahead(*inner, s.enter_not(), depth);
            let t = eval(*inner, s.enter_not(), depth)->0;
            let v = lemma_eval_judged(*inner, s.enter_not(), depth, base);
            lemma_judged_inner(expr, *inner, src, at, v);
            if t.failed {
                Verdict::Fits(at)
            } else {
                Verdict::Fails
            }
        },
        Expr::IfNext(set, inner) => if is_next(src, at, set) {
            let v = lemma_eval_judged(*inner, s.trivia(), depth, base);
            lemma_judged_inner(expr, *inner, src, at, v);
            v
        } else {
            lemma_judged_step(expr, src, at);
            Verdict::Fits(at)
        },
        Expr::IfNextElse(set, inner, other) => {
            let v = if s.sees(set) {
                lemma_eval_judged(*inner, s.trivia(), depth, base)
            } else {
                lemma_eval_judged(*other, s.missed(set), depth, base)
            };
            lemma_judged_either(set, *inner, *other, src, at, v);
            v
        },
        Expr::Many(inner) => {
            lemma_enter_opt(s);
            lemma_eval_ahead(*inner, s.enter_opt(), depth);
            let t = eval(*inner, s.enter_opt(), depth)->0;
            let v = lemma_eval_judged(*inner, s.enter_opt(), depth, base);
            lemma_judged_many(*inner, src, at, v);
            if t.failed {
                Verdict::Fits(at)
            } else {
                lemma_eval_judged(expr, t.leave_opt(s), (depth - 1) as nat, base)
            }
        },
        Expr::One(inner) => {
            let v = lemma_eval_judged(*inner, s.trivia(), depth, base);
            lemma_judged_inner(expr, *inner, src, at, v);
            v
        },
        Expr::Cached(kind, inner) => if s.cache.contains((s.cursor.index, code(kind))) {
            lemma_judged_cached(kind, *inner, src, at, Verdict::Fails);
            Verdict::Fails
        } else {
            lemma_eval_ahead(*inner, s, depth);
            let t = eval(*inner, s, depth)->0;
            let v = lemma_eval_judged(*inner, s, depth, base);
            lemma_judged_cached(kind, *inner, src, at, v);
            assert forall|other: Cursor| #[trigger]
                on_chain(src, base, other) && end.cache.contains(
                    (other.index, code(SyntaxKind::PRIMARY_EXPR)),
                ) implies judged(grammar::primary_node(), src, other, Verdict::Fails) by {
                if other.index == at.index && t.failed {
                    lemma_chain_unique(src, base, other, at);
                }
            }
            v
        },
        Expr::Alt(exprs) => {
            lemma_eval_alt_ahead(exprs, s, depth);
            let (t, matched) = eval_alt(exprs, s, depth)->0;
            let v = lemma_eval_alt_judged(exprs, s, depth, base);
            lemma_judged_alt(exprs, src, at, v);
            lemma_handle_errors(State { failed: true, ..t });
            v
        },
        Expr::Rule(kind) => {
            lemma_regular(kind);
            let v = lemma_eval_judged(production(kind), s, (depth - 1) as nat, base);
            lemma_judged_rule(kind, src, at, v);
            v
        },
        _ => Verdict::Fails,
    }
}

pub proof fn lemma_eval_alt_judged(
    exprs: Seq<Expr>,
    s: State,
    depth: nat,
    base: Cursor,
) -> (verdict: Verdict)
    requires
        s.placed(),
        !s.failed,
        all_regular(exprs),
        sound(s, base),
        eval_alt(exprs, s, depth) is Some,
    ensures
        judged_alt(exprs, s.src, s.cursor, verdict),
        sound((eval_alt(exprs, s, depth)->0).0, base),
        (eval_alt(exprs, s, depth)->0).1 == verdict is Fits,
        verdict is Fits ==> verdict->0 == (eval_alt(exprs, s, depth)->0).0.cursor,
    decreases depth, exprs,
{
    let src = s.src;
    let at = s.cursor;
    if exprs.len() == 0 {
        assert(judge_alt(exprs, src, at, 0) == Some(Verdict::Fails));
        Verdict::Fails
    } else {
        lemma_eval_alt_ahead(exprs.drop_last(), s, depth);
        let (t, matched) = eval_alt(exprs.drop_last(), s, depth)->0;
        let v = lemma_eval_alt_judged(exprs.drop_last(), s, depth, base);
        lemma_judged_alt_more(exprs, src, at, v);
        if matched {
            v
        } else {
            lemma_trivia(t);
            lemma_trivia_place(t);
            lemma_chain_trivia(src, base, at);
            lemma_enter_opt(t);
            lemma_eval_ahead(exprs.last(), t.enter_opt(), depth);
            let u = eval(exprs.last(), t.enter_opt(), depth)->0;
            let w = lemma_eval_judged(exprs.last(), t.enter_opt(), depth, base);
            assert(u.leave_opt(s) == u.leave_opt(t));
            w
        }
    }
}

/// Whatever a parser remembers of a condition, if it is true, makes no
/// difference: a production of conditions fits where it would without a cache,
/// and ends at the same place. What the parser remembers afterwards is still
/// true.
pub proof fn lemma_cache_is_sound(kind: SyntaxKind, s: State, t: State, base: Cursor)
    requires
        in_conditions(kind),
        s.placed(),
        !s.failed,
        sound(s, base),
        parses(Expr::Rule(kind), s, t),
    ensures
        sound(t, base),
        t.failed ==> judged(Expr::Rule(kind), s.src, s.cursor, Verdict::Fails),
        !t.failed ==> judged(Expr::Rule(kind), s.src, s.cursor, Verdict::Fits(t.cursor)),
{
    let depth = choose|depth: nat| #[trigger] eval(Expr::Rule(kind), s, depth) == Some(t);
    let verdict = lemma_eval_judged(Expr::Rule(kind), s, depth, base);
}

/// Skipping tokens leaves the cache alone.
proof fn lemma_skip_until_cache(s: State, set: Seq<SyntaxKind>)
    requires
        s.placed(),
    ensures
        s.skip_until(set).cache == s.cache,
    decreases s.rest(),
{
    lemma_lex(s.src, s.cursor);
    if let Some((token, _)) = lex(s.src, s.cursor) {
        if kind_in(set, token.id) is None {
            lemma_take(s, kind_of(token.id));
            lemma_skip_until_cache(s.bump(), set);
        }
    }
}

/// Skipping tokens under an error node leaves the cache alone.
proof fn lemma_sync_cache(s: State, set: Seq<SyntaxKind>)
    requires
        s.placed(),
    ensures
        s.sync(set).cache == s.cache,
{
    reveal(State::sync);
    lemma_trivia(s);
    lemma_skip_cache(s);
    let start = s.trivia();
    lemma_lex(start.src, start.cursor);
    if let Some(token) = token_after(start.src, start.cursor) {
        if kind_in(set, token.id) is None {
            let noted = start.note_expected(token.span.key_of(), set, None);
            lemma_handle_errors(noted);
            lemma_flush_errors(noted);
            let reported = if noted.pending.len() == 0 {
                noted.handle_errors()
            } else {
                noted.flush_errors()
            };
            reported.out.lemma_begin(SyntaxKind::ERROR);
            lemma_skip_until_cache(
                State { out: reported.out.begin(SyntaxKind::ERROR), ..reported },
                set,
            );
        }
    }
}

proof fn lemma_eval_cache_grows(expr: Expr, s: State, depth: nat)
    requires
        s.placed(),
        eval(expr, s, depth) is Some,
    ensures
        s.cache.subset_of((eval(expr, s, depth)->0).cache),
    decreases depth, expr,
{
    lemma_trivia(s);
    lemma_skip_cache(s);
    match expr {
        Expr::Expect(set, description) => lemma_expect(s, set, description),
        Expr::HexPatternMode | Expr::HexJumpMode | Expr::Recover => {},
        Expr::Sync(set) => lemma_sync_cache(s, set),
        Expr::Cat(first, second) => {
            lemma_eval_ahead(*first, s, depth);
            lemma_eval_cache_grows(*first, s, depth);
            lemma_eval_cache_grows(*second, eval(*first, s, depth)->0, depth);
        },
        Expr::Node(kind, inner) => {
            lemma_begin(s, kind);
            lemma_eval_cache_grows(*inner, s.begin(kind), depth);
        },
        Expr::Opt(inner) => if !s.failed {
            lemma_enter_opt(s);
            lemma_eval_cache_grows(*inner, s.enter_opt(), depth);
        },
        Expr::Not(inner) => if !s.failed {
            lemma_enter_not(s);
            lemma_eval_cache_grows(*inner, s.enter_not(), depth);
        },
        Expr::IfNext(set, inner) => if !s.failed {
            if let Some(token) = relevant_after(s.src, s.cursor) {
                if kind_in(set, token.id) is Some {
                    lemma_eval_cache_grows(*inner, s.trivia(), depth);
                }
            }
        },
        Expr::IfNextElse(set, inner, other) => if !s.failed {
            if s.sees(set) {
                lemma_eval_cache_grows(*inner, s.trivia(), depth);
            } else {
                lemma_eval_cache_grows(*other, s.missed(set), depth);
            }
        },
        Expr::Many(inner) => if !s.failed {
            lemma_enter_opt(s);
            lemma_eval_ahead(*inner, s.enter_opt(), depth);
            lemma_eval_cache_grows(*inner, s.enter_opt(), depth);
            let t = eval(*inner, s.enter_opt(), depth)->0;
            if !t.failed {
                lemma_eval_cache_grows(expr, t.leave_opt(s), (depth - 1) as nat);
            }
        },
        Expr::One(inner) => if !s.failed {
            lemma_eval_cache_grows(*inner, s.trivia(), depth);
        },
        Expr::Cached(kind, inner) => if !s.cache.contains((s.cursor.index, code(kind))) {
            lemma_eval_cache_grows(*inner, s, depth);
        },
        Expr::Alt(exprs) => {
            lemma_eval_alt_ahead(exprs, s, depth);
            lemma_eval_alt_cache_grows(exprs, s, depth);
            let (t, _) = eval_alt(exprs, s, depth)->0;
            lemma_handle_errors(State { failed: true, ..t });
        },
        Expr::Rule(kind) => lemma_eval_cache_grows(production(kind), s, (depth - 1) as nat),
    }
}

proof fn lemma_eval_alt_cache_grows(exprs: Seq<Expr>, s: State, depth: nat)
    requires
        s.placed(),
        eval_alt(exprs, s, depth) is Some,
    ensures
        s.cache.subset_of((eval_alt(exprs, s, depth)->0).0.cache),
    decreases depth, exprs,
{
    if exprs.len() > 0 {
        lemma_eval_alt_ahead(exprs.drop_last(), s, depth);
        lemma_eval_alt_cache_grows(exprs.drop_last(), s, depth);
        let (t, matched) = eval_alt(exprs.drop_last(), s, depth)->0;
        if !matched && !t.failed {
            lemma_trivia(t);
            lemma_skip_cache(t);
            lemma_enter_opt(t);
            lemma_eval_cache_grows(exprs.last(), t.enter_opt(), depth);
        }
    }
}

/// Nothing that the parser remembers is forgotten while it parses an
/// expression.
pub proof fn lemma_cache_grows(expr: Expr, s: State, t: State)
    requires
        s.placed(),
        parses(expr, s, t),
    ensures
        s.cache.subset_of(t.cache),
{
    let depth = choose|depth: nat| #[trigger] eval(expr, s, depth) == Some(t);
    lemma_eval_cache_grows(expr, s, depth);
}

/// Of two expressions that are parsed under the same name at the same token,
/// with nothing forgotten in between:
///
/// - the first one is parsed, if nothing of that name is known to fail there;
/// - if the parser has failed with it, the second one is not parsed: the parser
///   fails, and everything else stays as it is, so that no token is consumed
///   and no event is emitted;
/// - if it has not, it remembers nothing but what the expression itself left,
///   and the second one is parsed unless something of that name is known to
///   fail there by now.
pub proof fn lemma_cached_twice(
    kind: SyntaxKind,
    first: Expr,
    second: Expr,
    s: State,
    t: State,
    u: State,
    v: State,
)
    requires
        !s.cache.contains((s.cursor.index, code(kind))),
        parses(cached(kind, first), s, t),
        u.cursor.index == s.cursor.index,
        t.cache.subset_of(u.cache),
        parses(cached(kind, second), u, v),
    ensures
        exists|w: State| #[trigger]
            parses(first, s, w) && t == w.cache_failure(s.cursor.index, kind),
        t.failed ==> t.cache.contains((s.cursor.index, code(kind))) && v == (State {
            failed: true,
            ..u
        }),
        !t.failed ==> parses(first, s, t),
        !u.cache.contains((s.cursor.index, code(kind))) ==> exists|w: State| #[trigger]
            parses(second, u, w) && v == w.cache_failure(s.cursor.index, kind),
{
    let m = choose|depth: nat| #[trigger] eval(cached(kind, first), s, depth) == Some(t);
    let n = choose|depth: nat| #[trigger] eval(cached(kind, second), u, depth) == Some(v);
    let w = eval(first, s, m)->0;
    assert(parses(first, s, w));
    if !u.cache.contains((s.cursor.index, code(kind))) {
        let x = eval(second, u, n)->0;
        assert(parses(second, u, x));
    }
}

/// A primary expression that fails at a token fails whenever it is parsed there
/// again, consuming no token and emitting no event, as long as nothing is
/// forgotten. One that fits is not known to fail there, and if it is parsed
/// there again it fits again and ends at the same place.
pub proof fn lemma_primary_expr_twice(s: State, t: State, u: State, v: State, base: Cursor)
    requires
        s.placed(),
        !s.failed,
        sound(s, base),
        parses(Expr::Rule(SyntaxKind::PRIMARY_EXPR), s, t),
        u.src == s.src,
        u.cursor == s.cursor,
        u.placed(),
        !u.failed,
        sound(u, base),
        t.cache.subset_of(u.cache),
        parses(Expr::Rule(SyntaxKind::PRIMARY_EXPR), u, v),
    ensures
        t.failed ==> v == (State { failed: true, ..u }),
        !t.failed ==> {
            let entry = (s.cursor.index, code(SyntaxKind::PRIMARY_EXPR));
            &&& !t.cache.contains(entry)
            &&& !u.cache.contains(entry)
            &&& !v.failed
            &&& v.cursor == t.cursor
        },
{
    let kind = SyntaxKind::PRIMARY_EXPR;
    let node = grammar::primary_node();
    let at = s.cursor;
    lemma_cache_is_sound(kind, s, t, base);
    lemma_cache_is_sound(kind, u, v, base);
    lemma_rule_split(kind, s, t);
    lemma_rule_split(kind, u, v);
    assert(production(kind) == cached(kind, node)) by {
        reveal(production);
        reveal(grammar::primary_expr);
    }
    if t.failed {
        let m = choose|depth: nat| #[trigger] eval(cached(kind, node), s, depth) == Some(t);
        let n = choose|depth: nat| #[trigger] eval(cached(kind, node), u, depth) == Some(v);
        assert(t.cache.contains((at.index, code(kind))));
    } else {
        let fits = Verdict::Fits(t.cursor);
        if u.cache.contains((at.index, code(kind))) {
            lemma_judged_cached(kind, node, s.src, at, Verdict::Fails);
            lemma_judged_rule(kind, s.src, at, Verdict::Fails);
            lemma_judged(Expr::Rule(kind), s.src, at, fits, Verdict::Fails);
        }
        if v.failed {
            lemma_judged(Expr::Rule(kind), s.src, at, fits, Verdict::Fails);
        } else {
            lemma_judged(Expr::Rule(kind), s.src, at, fits, Verdict::Fits(v.cursor));
        }
    }
}

/// A parser that remembers nothing is sound wherever it is.
pub proof fn lemma_empty_cache(s: State)
    requires
        s.placed(),
        s.cache == Set::<(usize, usize)>::empty(),
    ensures
        sound(s, s.cursor),
{
    assert(further(s.src, s.cursor, 0) == s.cursor);
}

} // verus!
