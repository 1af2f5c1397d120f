//! Parsing ends, whatever the source is.

use crate::grammar;
use crate::grammar::{
    alt, cached, if_next, if_next_else, n_or_more, node, not, one, opt, production, Expr,
};
use crate::laws::frame::{
    lemma_begin, lemma_enter_not, lemma_enter_opt, lemma_parses_ahead, lemma_tries_ahead,
    lemma_trivia,
};
use crate::laws::progress::{
    consumes, group_shapes, keeps_failure, lemma_consumes, lemma_keeps_failure,
};
use crate::semantics::{
    eval, lemma_alt, lemma_cached, lemma_cat, lemma_if_next, lemma_if_next_else, lemma_many_done,
    lemma_many_more,
    lemma_node, lemma_not, lemma_one, lemma_opt, lemma_rule, lemma_step, lemma_tries_more,
    lemma_tries_none, lemma_tries_skip, parses, tries,
};
use crate::state::{code, kind_in, State};
use crate::syntax_kind::SyntaxKind;
use crate::token_stream::relevant_after;
use vstd::prelude::*;

verus! {

/// More than the rank of any production.
pub open spec fn top() -> nat {
    7
}

/// The productions that can be tried before any token is consumed by the one
/// of a kind have a lower rank than it.
pub open spec fn rank(kind: SyntaxKind) -> nat {
    match kind {
        SyntaxKind::BOOLEAN_EXPR => 6,
        SyntaxKind::BOOLEAN_TERM => 5,
        SyntaxKind::OF_EXPR => 4,
        SyntaxKind::QUANTIFIER | SyntaxKind::ITERABLE => 3,
        SyntaxKind::EXPR => 2,
        SyntaxKind::TERM => 1,
        SyntaxKind::RULE_DECL | SyntaxKind::PATTERN_MODS | SyntaxKind::HEX_SUB_PATTERN => 1,
        _ => 0,
    }
}

/// The productions that the expression tries before consuming a token have a
/// rank below the given one, and what it repeats consumes tokens. If `free`, a
/// token has been consumed already, unless the parser has failed.
pub open spec fn fits(expr: Expr, below: nat, free: bool) -> bool
    decreases expr,
{
    let inside = if free {
        top()
    } else {
        below
    };
    match expr {
        Expr::Cat(first, second) => {
            &&& fits(*first, below, free)
            &&& fits(*second, below, (free && keeps_failure(*first)) || consumes(*first))
        },
        Expr::Node(_, inner) => fits(*inner, below, free),
        Expr::Opt(inner) => fits(*inner, inside, false),
        Expr::Not(inner) => fits(*inner, inside, false),
        Expr::IfNext(_, inner) => fits(*inner, inside, false),
        Expr::IfNextElse(_, inner, other) => {
            &&& fits(*inner, inside, false)
            &&& fits(*other, inside, false)
        },
        Expr::Many(inner) => consumes(*inner) && fits(*inner, inside, false),
        Expr::One(inner) => fits(*inner, inside, false),
        Expr::Cached(_, inner) => fits(*inner, below, free),
        Expr::Alt(exprs) => all_fit(exprs, inside),
        Expr::Rule(kind) => rank(kind) < below,
        _ => true,
    }
}

/// All the expressions fit.
pub open spec fn all_fit(exprs: Seq<Expr>, below: nat) -> bool
    decreases exprs,
{
    exprs.len() == 0 || (all_fit(exprs.drop_last(), below) && fits(exprs.last(), below, false))
}

broadcast proof fn lemma_all_fit(exprs: Seq<Expr>, expr: Expr, below: nat)
    ensures
        #[trigger] all_fit(exprs.push(expr), below) == (all_fit(exprs, below) && fits(
            expr,
            below,
            false,
        )),
{
    assert(exprs.push(expr).drop_last() =~= exprs);
}

broadcast proof fn lemma_fit_and(a: Expr, b: Expr, below: nat, free: bool)
    ensures
        #[trigger] fits(a.and(b), below, free) == (fits(a, below, free) && fits(
            b,
            below,
            (free && keeps_failure(a)) || consumes(a),
        )),
{
}

broadcast proof fn lemma_fit_node(kind: SyntaxKind, a: Expr, below: nat, free: bool)
    ensures
        #[trigger] fits(node(kind, a), below, free) == fits(a, below, free),
{
}

broadcast proof fn lemma_fit_opt(a: Expr, below: nat, free: bool)
    ensures
        #[trigger] fits(opt(a), below, free) == fits(a, if free { top() } else { below }, false),
{
}

broadcast proof fn lemma_fit_not(a: Expr, below: nat, free: bool)
    ensures
        #[trigger] fits(not(a), below, free) == fits(a, if free { top() } else { below }, false),
{
}

broadcast proof fn lemma_fit_if_next(set: Seq<SyntaxKind>, a: Expr, below: nat, free: bool)
    ensures
        #[trigger] fits(if_next(set, a), below, free) == fits(
            a,
            if free { top() } else { below },
            false,
        ),
{
}

broadcast proof fn lemma_fit_if_next_else(
    set: Seq<SyntaxKind>,
    a: Expr,
    b: Expr,
    below: nat,
    free: bool,
)
    ensures
        #[trigger] fits(if_next_else(set, a, b), below, free) == (fits(
            a,
            if free { top() } else { below },
            false,
        ) && fits(b, if free { top() } else { below }, false)),
{
}

broadcast proof fn lemma_fit_one(a: Expr, below: nat, free: bool)
    ensures
        #[trigger] fits(one(a), below, free) == fits(a, if free { top() } else { below }, false),
{
}

broadcast proof fn lemma_fit_cached(kind: SyntaxKind, a: Expr, below: nat, free: bool)
    ensures
        #[trigger] fits(cached(kind, a), below, free) == fits(a, below, free),
{
}

broadcast proof fn lemma_fit_alt(exprs: Seq<Expr>, below: nat, free: bool)
    ensures
        #[trigger] fits(alt(exprs), below, free) == all_fit(
            exprs,
            if free { top() } else { below },
        ),
{
}

broadcast proof fn lemma_fit_many(n: nat, a: Expr, below: nat, free: bool)
    requires
        consumes(a),
        fits(a, if free { top() } else { below }, false),
        fits(a, top(), false),
    ensures
        #[trigger] fits(n_or_more(n, a), below, free),
    decreases n,
{
    if n > 0 {
        lemma_fit_many((n - 1) as nat, a, below, true);
        lemma_fit_one(a, below, free);
        lemma_fit_and(one(a), n_or_more((n - 1) as nat, a), below, free);
    }
}

broadcast group group_fits {
    lemma_all_fit,
    lemma_fit_and,
    lemma_fit_node,
    lemma_fit_opt,
    lemma_fit_not,
    lemma_fit_if_next,
    lemma_fit_if_next_else,
    lemma_fit_one,
    lemma_fit_cached,
    lemma_fit_alt,
    lemma_fit_many,
}

proof fn lemma_fit_declarations()
    ensures
        fits(grammar::import_stmt(), rank(SyntaxKind::IMPORT_STMT), false),
        fits(grammar::rule_decl(), rank(SyntaxKind::RULE_DECL), false),
        fits(grammar::rule_mods(), rank(SyntaxKind::RULE_MODS), false),
        fits(grammar::rule_tags(), rank(SyntaxKind::RULE_TAGS), false),
        fits(grammar::condition_blk(), rank(SyntaxKind::CONDITION_BLK), false),
{
    broadcast use {group_fits, group_shapes};

    reveal(grammar::import_stmt);
    reveal(grammar::rule_decl);
    reveal(grammar::rule_parts);
    reveal(grammar::rule_blocks);
    reveal(grammar::rule_header);
    reveal(grammar::rule_mods);
    reveal(grammar::private_mods);
    reveal(grammar::global_mods);
    reveal(grammar::rule_tags);
    reveal(grammar::condition_blk);
}

proof fn lemma_fit_blocks()
    ensures
        fits(grammar::meta_blk(), rank(SyntaxKind::META_BLK), false),
        fits(grammar::meta_def(), rank(SyntaxKind::META_DEF), false),
        fits(grammar::patterns_blk(), rank(SyntaxKind::PATTERNS_BLK), false),
        fits(grammar::pattern_def(), rank(SyntaxKind::PATTERN_DEF), false),
        fits(grammar::pattern_mods(), rank(SyntaxKind::PATTERN_MODS), false),
{
    broadcast use {group_fits, group_shapes};

    reveal(grammar::meta_blk);
    reveal(grammar::meta_def);
    reveal(grammar::signed_number);
    reveal(grammar::patterns_blk);
    reveal(grammar::pattern_def);
    reveal(grammar::pattern_mods);
}

proof fn lemma_fit_modifiers()
    ensures
        fits(grammar::pattern_mod(), rank(SyntaxKind::PATTERN_MOD), false),
{
    broadcast use {group_fits, group_shapes};

    reveal(grammar::pattern_mod);
    reveal(grammar::plain_mod);
    reveal(grammar::base64_mod);
    reveal(grammar::base64_alphabet);
    reveal(grammar::xor_mod);
    reveal(grammar::xor_range);
    reveal(grammar::xor_upper_bound);
}

proof fn lemma_fit_hex()
    ensures
        fits(grammar::hex_pattern(), rank(SyntaxKind::HEX_PATTERN), false),
        fits(grammar::hex_sub_pattern(), rank(SyntaxKind::HEX_SUB_PATTERN), false),
        fits(grammar::hex_alternative(), rank(SyntaxKind::HEX_ALTERNATIVE), false),
        fits(grammar::hex_jump(), rank(SyntaxKind::HEX_JUMP), false),
{
    broadcast use {group_fits, group_shapes};

    reveal(grammar::hex_pattern);
    reveal(grammar::hex_sub_pattern);
    reveal(grammar::hex_item);
    reveal(grammar::hex_more);
    reveal(grammar::hex_alternative);
    reveal(grammar::hex_branch);
    reveal(grammar::hex_jump);
    reveal(grammar::jump_bounds);
}

proof fn lemma_fit_booleans()
    ensures
        fits(grammar::boolean_expr(), rank(SyntaxKind::BOOLEAN_EXPR), false),
        fits(grammar::boolean_term(), rank(SyntaxKind::BOOLEAN_TERM), false),
{
    broadcast use {group_fits, group_shapes};

    reveal(grammar::boolean_expr);
    reveal(grammar::boolean_more);
    reveal(grammar::boolean_term);
    reveal(grammar::anchored_pattern);
    reveal(grammar::prefixed_term);
    reveal(grammar::comparison);
    reveal(grammar::comparison_more);
    reveal(grammar::boolean_group);
}

proof fn lemma_fit_exprs()
    ensures
        fits(grammar::expr(), rank(SyntaxKind::EXPR), false),
        fits(grammar::term(), rank(SyntaxKind::TERM), false),
        fits(grammar::range(), rank(SyntaxKind::RANGE), false),
{
    broadcast use {group_fits, group_shapes};

    reveal(grammar::expr);
    reveal(grammar::expr_more);
    reveal(grammar::term);
    reveal(grammar::index);
    reveal(grammar::arguments);
    reveal(grammar::more_booleans);
    reveal(grammar::range);
}

proof fn lemma_fit_primary()
    ensures
        fits(grammar::primary_expr(), rank(SyntaxKind::PRIMARY_EXPR), false),
{
    broadcast use {group_fits, group_shapes};

    reveal(grammar::primary_expr);
    reveal(grammar::primary_node);
    reveal(grammar::literal);
    reveal(grammar::pattern_count);
    reveal(grammar::in_range);
    reveal(grammar::pattern_match);
    reveal(grammar::match_index);
    reveal(grammar::negation);
    reveal(grammar::complement);
    reveal(grammar::group);
    reveal(grammar::path);
    reveal(grammar::field);
}

proof fn lemma_fit_quantified()
    ensures
        fits(grammar::for_expr(), rank(SyntaxKind::FOR_EXPR), false),
        fits(grammar::of_expr(), rank(SyntaxKind::OF_EXPR), false),
{
    broadcast use {group_fits, group_shapes};

    reveal(grammar::for_expr);
    reveal(grammar::for_patterns);
    reveal(grammar::pattern_choice);
    reveal(grammar::for_items);
    reveal(grammar::more_idents);
    reveal(grammar::of_expr);
    reveal(grammar::of_patterns);
    reveal(grammar::anchor);
    reveal(grammar::at_offset);
    reveal(grammar::in_range);
    reveal(grammar::of_booleans);
}

proof fn lemma_fit_quantifiers()
    ensures
        fits(grammar::quantifier(), rank(SyntaxKind::QUANTIFIER), false),
        fits(grammar::iterable(), rank(SyntaxKind::ITERABLE), false),
{
    broadcast use {group_fits, group_shapes};

    reveal(grammar::quantifier);
    reveal(grammar::percentage);
    reveal(grammar::exact_count);
    reveal(grammar::iterable);
}

proof fn lemma_fit_tuples()
    ensures
        fits(grammar::boolean_expr_tuple(), rank(SyntaxKind::BOOLEAN_EXPR_TUPLE), false),
        fits(grammar::expr_tuple(), rank(SyntaxKind::EXPR_TUPLE), false),
        fits(grammar::pattern_ident_tuple(), rank(SyntaxKind::PATTERN_IDENT_TUPLE), false),
{
    broadcast use {group_fits, group_shapes};

    reveal(grammar::boolean_expr_tuple);
    reveal(grammar::more_booleans);
    reveal(grammar::expr_tuple);
    reveal(grammar::more_exprs);
    reveal(grammar::pattern_ident_tuple);
    reveal(grammar::more_pattern_idents);
}

/// The production of a kind tries only productions of a lower rank before it
/// consumes a token.
proof fn lemma_fit(kind: SyntaxKind)
    ensures
        fits(production(kind), rank(kind), false),
        rank(kind) < top(),
{
    reveal(production);
    lemma_fit_alt(Seq::empty(), 0, false);
    lemma_fit_declarations();
    lemma_fit_blocks();
    lemma_fit_modifiers();
    lemma_fit_hex();
    lemma_fit_booleans();
    lemma_fit_exprs();
    lemma_fit_primary();
    lemma_fit_quantified();
    lemma_fit_quantifiers();
    lemma_fit_tuples();
}

/// A higher bound on the ranks is met too.
proof fn lemma_fits_more(expr: Expr, below: nat, free: bool)
    requires
        fits(expr, below, free),
        below <= top(),
    ensures
        fits(expr, top(), free),
    decreases expr,
{
    let inside = if free {
        top()
    } else {
        below
    };
    match expr {
        Expr::Cat(first, second) => {
            lemma_fits_more(*first, below, free);
            lemma_fits_more(
                *second,
                below,
                (free && keeps_failure(*first)) || consumes(*first),
            );
        },
        Expr::Node(_, inner) => lemma_fits_more(*inner, below, free),
        Expr::Opt(inner) => lemma_fits_more(*inner, inside, false),
        Expr::Not(inner) => lemma_fits_more(*inner, inside, false),
        Expr::IfNext(_, inner) => lemma_fits_more(*inner, inside, false),
        Expr::IfNextElse(_, inner, other) => {
            lemma_fits_more(*inner, inside, false);
            lemma_fits_more(*other, inside, false);
        },
        Expr::Many(inner) => lemma_fits_more(*inner, inside, false),
        Expr::One(inner) => lemma_fits_more(*inner, inside, false),
        Expr::Cached(_, inner) => lemma_fits_more(*inner, below, free),
        Expr::Alt(exprs) => lemma_all_fit_more(exprs, inside),
        _ => {},
    }
}

proof fn lemma_all_fit_more(exprs: Seq<Expr>, below: nat)
    requires
        all_fit(exprs, below),
        below <= top(),
    ensures
        all_fit(exprs, top()),
    decreases exprs,
{
    if exprs.len() > 0 {
        lemma_all_fit_more(exprs.drop_last(), below);
        lemma_fits_more(exprs.last(), below, false);
    }
}

/// An expression that is tried within another one ends: either its productions
/// have a lower rank, or a token has been consumed.
proof fn lemma_inside_ends(expr: Expr, s: State, n: nat, below: nat, free: bool) -> (t: State)
    requires
        s.placed(),
        !s.failed,
        s.rest() <= n,
        free ==> s.rest() < n,
        below <= top(),
        fits(
            expr,
            if free {
                top()
            } else {
                below
            },
            false,
        ),
    ensures
        parses(expr, s, t),
    decreases n, below, expr, 1nat,
{
    if free {
        lemma_ends(expr, s, s.rest(), top(), false)
    } else {
        lemma_ends(expr, s, n, below, false)
    }
}

/// Parsing an expression ends, if it fits.
#[verifier::rlimit(40)]
proof fn lemma_ends(expr: Expr, s: State, n: nat, below: nat, free: bool) -> (t: State)
    requires
        s.placed(),
        s.rest() <= n,
        free ==> s.failed || s.rest() < n,
        below <= top(),
        fits(expr, below, free),
    ensures
        parses(expr, s, t),
    decreases n, below, expr, 0nat,
{
    match expr {
        Expr::Cat(first, second) => {
            let t = lemma_ends(*first, s, n, below, free);
            lemma_parses_ahead(*first, s, t);
            if s.failed && keeps_failure(*first) {
                lemma_keeps_failure(*first, s, t);
            }
            if consumes(*first) {
                lemma_consumes(*first, s, t);
            }
            let u = lemma_ends(
                *second,
                t,
                n,
                below,
                (free && keeps_failure(*first)) || consumes(*first),
            );
            lemma_cat(*first, *second, s, t, u);
            u
        },
        Expr::Node(kind, inner) => {
            lemma_begin(s, kind);
            let t = lemma_ends(*inner, s.begin(kind), n, below, free);
            lemma_node(kind, *inner, s, t);
            t.end()
        },
        Expr::Opt(inner) => if s.failed {
            lemma_step(expr, s);
            s
        } else {
            lemma_enter_opt(s);
            let t = lemma_inside_ends(*inner, s.enter_opt(), n, below, free);
            lemma_opt(*inner, s, t);
            t.leave_opt(s)
        },
        Expr::Not(inner) => if s.failed {
            lemma_step(expr, s);
            s
        } else {
            lemma_enter_not(s);
            let t = lemma_inside_ends(*inner, s.enter_not(), n, below, free);
            lemma_not(*inner, s, t);
            t.leave_not(s)
        },
        Expr::IfNext(set, inner) => if !s.failed && (relevant_after(s.src, s.cursor) matches Some(
            token,
        ) && kind_in(set, token.id) is Some) {
            lemma_trivia(s);
            let t = lemma_inside_ends(*inner, s.trivia(), n, below, free);
            lemma_if_next(set, *inner, s, t);
            t
        } else {
            lemma_step(expr, s);
            eval(expr, s, 0)->0
        },
        Expr::IfNextElse(set, inner, other) => if s.failed {
            lemma_step(expr, s);
            s
        } else {
            let t = if s.sees(set) {
                lemma_trivia(s);
                lemma_inside_ends(*inner, s.trivia(), n, below, free)
            } else {
                lemma_inside_ends(*other, s.missed(set), n, below, free)
            };
            lemma_if_next_else(set, *inner, *other, s, t);
            t
        },
        Expr::Many(inner) => if s.failed {
            lemma_step(expr, s);
            s
        } else {
            lemma_enter_opt(s);
            let t = lemma_inside_ends(*inner, s.enter_opt(), n, below, free);
            lemma_parses_ahead(*inner, s.enter_opt(), t);
            lemma_consumes(*inner, s.enter_opt(), t);
            if t.failed {
                lemma_many_done(*inner, s, t);
                t.leave_opt(s)
            } else {
                let next = t.leave_opt(s);
                lemma_fits_more(
                    *inner,
                    if free {
                        top()
                    } else {
                        below
                    },
                    false,
                );
                let u = lemma_ends(expr, next, next.rest(), top(), false);
                lemma_many_more(*inner, s, t, u);
                u
            }
        },
        Expr::One(inner) => if s.failed {
            lemma_step(expr, s);
            s
        } else {
            lemma_trivia(s);
            let t = lemma_inside_ends(*inner, s.trivia(), n, below, free);
            lemma_one(*inner, s, t);
            t
        },
        Expr::Cached(kind, inner) => if s.cache.contains((s.cursor.index, code(kind))) {
            lemma_step(expr, s);
            eval(expr, s, 0)->0
        } else {
            let t = lemma_ends(*inner, s, n, below, free);
            lemma_cached(kind, *inner, s, t);
            t.cache_failure(s.cursor.index, kind)
        },
        Expr::Alt(exprs) => {
            let (t, matched) = lemma_alt_ends(exprs, s, n, below, free);
            lemma_alt(exprs, s, t, matched);
            if matched {
                t
            } else {
                t.no_match()
            }
        },
        Expr::Rule(kind) => {
            lemma_fit(kind);
            let t = lemma_ends(production(kind), s, n, rank(kind), false);
            lemma_rule(kind, s, t);
            t
        },
        _ => {
            lemma_step(expr, s);
            eval(expr, s, 0)->0
        },
    }
}

/// Trying some alternatives ends, if they fit.
proof fn lemma_alt_ends(exprs: Seq<Expr>, s: State, n: nat, below: nat, free: bool) -> (result: (
    State,
    bool,
))
    requires
        s.placed(),
        s.rest() <= n,
        free ==> s.failed || s.rest() < n,
        below <= top(),
        all_fit(
            exprs,
            if free {
                top()
            } else {
                below
            },
        ),
    ensures
        tries(exprs, s, result.0, result.1),
    decreases n, below, exprs, 0nat,
{
    if exprs.len() == 0 {
        lemma_tries_none(s);
        assert(exprs =~= Seq::empty());
        (s, false)
    } else {
        let others = exprs.drop_last();
        let expr = exprs.last();
        assert(exprs =~= others.push(expr));
        let (t, matched) = lemma_alt_ends(others, s, n, below, free);
        lemma_tries_ahead(others, s, t, matched);
        if matched || t.failed {
            lemma_tries_skip(others, expr, s, t, matched);
            (t, matched)
        } else {
            lemma_enter_opt(t);
            let u = lemma_inside_ends(expr, t.enter_opt(), n, below, free);
            lemma_tries_more(others, expr, s, t, u);
            (u.leave_opt(s), !u.failed)
        }
    }
}

/// Every production has a result, whatever the source is and wherever the
/// parser is in it: parsing always ends.
pub proof fn lemma_total(kind: SyntaxKind, s: State)
    requires
        s.placed(),
    ensures
        exists|t: State| parses(Expr::Rule(kind), s, t),
{
    lemma_fit(kind);
    let t = lemma_ends(Expr::Rule(kind), s, s.rest(), top(), false);
    assert(parses(Expr::Rule(kind), s, t));
}

} // verus!
