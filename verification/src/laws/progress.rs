//! Expressions that do not fit without consuming a token.

use crate::grammar;
use crate::grammar::{alt, cached, n_or_more, node, one, production, Expr};
use crate::laws::frame::{
    lemma_begin, lemma_enter_opt, lemma_eval_ahead, lemma_eval_alt_ahead, lemma_expect,
    lemma_handle_errors, lemma_sync, lemma_trivia,
};
use crate::semantics::{eval, eval_alt, parses, tries};
use crate::state::{code, State};
use crate::syntax_kind::SyntaxKind;
use vstd::prelude::*;

verus! {

/// A parser that has failed is still so after the expression.
pub open spec fn keeps_failure(expr: Expr) -> bool
    decreases expr,
{
    match expr {
        Expr::Recover => false,
        Expr::Cat(first, second) => keeps_failure(*first) && keeps_failure(*second),
        Expr::Node(_, inner) => keeps_failure(*inner),
        Expr::Cached(_, inner) => keeps_failure(*inner),
        Expr::Rule(kind) => kind != SyntaxKind::RULE_DECL,
        _ => true,
    }
}

/// The expression does not fit without consuming a token.
pub open spec fn consumes(expr: Expr) -> bool
    decreases expr,
{
    match expr {
        Expr::Expect(_, _) => true,
        Expr::Cat(first, second) => consumes(*second) || (consumes(*first) && keeps_failure(
            *second,
        )),
        Expr::Node(_, inner) => consumes(*inner),
        Expr::One(inner) => consumes(*inner),
        Expr::Cached(_, inner) => consumes(*inner),
        Expr::Alt(exprs) => all_consume(exprs),
        Expr::Rule(_) => true,
        _ => false,
    }
}

/// None of the expressions fits without consuming a token.
pub open spec fn all_consume(exprs: Seq<Expr>) -> bool
    decreases exprs,
{
    exprs.len() == 0 || (all_consume(exprs.drop_last()) && consumes(exprs.last()))
}

pub broadcast proof fn lemma_all_consume(exprs: Seq<Expr>, expr: Expr)
    ensures
        #[trigger] all_consume(exprs.push(expr)) == (all_consume(exprs) && consumes(expr)),
{
    assert(exprs.push(expr).drop_last() =~= exprs);
}

pub broadcast proof fn lemma_and(a: Expr, b: Expr)
    ensures
        #![trigger a.and(b)]
        keeps_failure(a.and(b)) == (keeps_failure(a) && keeps_failure(b)),
        consumes(a.and(b)) == (consumes(b) || (consumes(a) && keeps_failure(b))),
{
}

pub broadcast proof fn lemma_node(kind: SyntaxKind, a: Expr)
    ensures
        #![trigger node(kind, a)]
        keeps_failure(node(kind, a)) == keeps_failure(a),
        consumes(node(kind, a)) == consumes(a),
{
}

pub broadcast proof fn lemma_one(a: Expr)
    ensures
        #![trigger one(a)]
        keeps_failure(one(a)),
        consumes(one(a)) == consumes(a),
{
}

pub broadcast proof fn lemma_cached(kind: SyntaxKind, a: Expr)
    ensures
        #![trigger cached(kind, a)]
        keeps_failure(cached(kind, a)) == keeps_failure(a),
        consumes(cached(kind, a)) == consumes(a),
{
}

pub broadcast proof fn lemma_alt(exprs: Seq<Expr>)
    ensures
        #![trigger alt(exprs)]
        keeps_failure(alt(exprs)),
        consumes(alt(exprs)) == all_consume(exprs),
{
}

pub broadcast proof fn lemma_n_or_more(n: nat, a: Expr)
    ensures
        #![trigger n_or_more(n, a)]
        keeps_failure(n_or_more(n, a)),
        n > 0 && consumes(a) ==> consumes(n_or_more(n, a)),
    decreases n,
{
    if n > 0 {
        lemma_n_or_more((n - 1) as nat, a);
        lemma_one(a);
        lemma_and(one(a), n_or_more((n - 1) as nat, a));
    }
}

pub broadcast group group_shapes {
    lemma_all_consume,
    lemma_and,
    lemma_node,
    lemma_one,
    lemma_cached,
    lemma_alt,
    lemma_n_or_more,
}

proof fn lemma_header()
    ensures
        keeps_failure(grammar::import_stmt()) && consumes(grammar::import_stmt()),
        keeps_failure(grammar::rule_mods()) && consumes(grammar::rule_mods()),
        keeps_failure(grammar::rule_tags()) && consumes(grammar::rule_tags()),
        keeps_failure(grammar::condition_blk()) && consumes(grammar::condition_blk()),
{
    broadcast use group_shapes;

    reveal(grammar::import_stmt);
    reveal(grammar::rule_mods);
    reveal(grammar::private_mods);
    reveal(grammar::global_mods);
    reveal(grammar::rule_tags);
    reveal(grammar::condition_blk);
}

proof fn lemma_meta()
    ensures
        keeps_failure(grammar::meta_blk()) && consumes(grammar::meta_blk()),
        keeps_failure(grammar::meta_def()) && consumes(grammar::meta_def()),
        keeps_failure(grammar::patterns_blk()) && consumes(grammar::patterns_blk()),
        keeps_failure(grammar::pattern_def()) && consumes(grammar::pattern_def()),
{
    broadcast use group_shapes;

    reveal(grammar::meta_blk);
    reveal(grammar::meta_def);
    reveal(grammar::signed_number);
    reveal(grammar::patterns_blk);
    reveal(grammar::pattern_def);
}

proof fn lemma_mods()
    ensures
        keeps_failure(grammar::pattern_mods()) && consumes(grammar::pattern_mods()),
        keeps_failure(grammar::pattern_mod()) && consumes(grammar::pattern_mod()),
{
    broadcast use group_shapes;

    reveal(grammar::pattern_mods);
    reveal(grammar::pattern_mod);
    reveal(grammar::plain_mod);
    reveal(grammar::base64_mod);
    reveal(grammar::base64_alphabet);
    reveal(grammar::xor_mod);
    reveal(grammar::xor_range);
    reveal(grammar::xor_upper_bound);
}

proof fn lemma_hex()
    ensures
        keeps_failure(grammar::hex_pattern()) && consumes(grammar::hex_pattern()),
        keeps_failure(grammar::hex_sub_pattern()) && consumes(grammar::hex_sub_pattern()),
        keeps_failure(grammar::hex_alternative()) && consumes(grammar::hex_alternative()),
        keeps_failure(grammar::hex_jump()) && consumes(grammar::hex_jump()),
{
    broadcast use group_shapes;

    reveal(grammar::hex_pattern);
    reveal(grammar::hex_sub_pattern);
    reveal(grammar::hex_item);
    reveal(grammar::hex_more);
    reveal(grammar::hex_alternative);
    reveal(grammar::hex_branch);
    reveal(grammar::hex_jump);
    reveal(grammar::jump_bounds);
}

proof fn lemma_booleans()
    ensures
        keeps_failure(grammar::boolean_expr()) && consumes(grammar::boolean_expr()),
        keeps_failure(grammar::boolean_term()) && consumes(grammar::boolean_term()),
{
    broadcast use group_shapes;

    reveal(grammar::boolean_expr);
    reveal(grammar::boolean_more);
    reveal(grammar::boolean_term);
    reveal(grammar::anchored_pattern);
    reveal(grammar::prefixed_term);
    reveal(grammar::comparison);
    reveal(grammar::comparison_more);
    reveal(grammar::boolean_group);
}

proof fn lemma_exprs()
    ensures
        keeps_failure(grammar::expr()) && consumes(grammar::expr()),
        keeps_failure(grammar::term()) && consumes(grammar::term()),
        keeps_failure(grammar::range()) && consumes(grammar::range()),
{
    broadcast use group_shapes;

    reveal(grammar::expr);
    reveal(grammar::expr_more);
    reveal(grammar::term);
    reveal(grammar::index);
    reveal(grammar::arguments);
    reveal(grammar::more_booleans);
    reveal(grammar::range);
}

proof fn lemma_primary()
    ensures
        keeps_failure(grammar::primary_expr()) && consumes(grammar::primary_expr()),
{
    broadcast use group_shapes;

    reveal(grammar::primary_expr);
    reveal(grammar::primary_node);
    reveal(grammar::literal);
    reveal(grammar::pattern_count);
    reveal(grammar::in_range);
    reveal(grammar::pattern_match);
    reveal(grammar::match_index);
    reveal(grammar::negation);
    reveal(grammar::complement);
    reveal(grammar::group);
    reveal(grammar::path);
    reveal(grammar::field);
}

proof fn lemma_quantified()
    ensures
        keeps_failure(grammar::for_expr()) && consumes(grammar::for_expr()),
        keeps_failure(grammar::of_expr()) && consumes(grammar::of_expr()),
        keeps_failure(grammar::quantifier()) && consumes(grammar::quantifier()),
{
    broadcast use group_shapes;

    reveal(grammar::for_expr);
    reveal(grammar::for_patterns);
    reveal(grammar::pattern_choice);
    reveal(grammar::for_items);
    reveal(grammar::more_idents);
    reveal(grammar::of_expr);
    reveal(grammar::of_patterns);
    reveal(grammar::anchor);
    reveal(grammar::at_offset);
    reveal(grammar::in_range);
    reveal(grammar::of_booleans);
    reveal(grammar::quantifier);
    reveal(grammar::percentage);
    reveal(grammar::exact_count);
}

proof fn lemma_tuples()
    ensures
        keeps_failure(grammar::iterable()) && consumes(grammar::iterable()),
        keeps_failure(grammar::boolean_expr_tuple()) && consumes(grammar::boolean_expr_tuple()),
        keeps_failure(grammar::expr_tuple()) && consumes(grammar::expr_tuple()),
        keeps_failure(grammar::pattern_ident_tuple()) && consumes(grammar::pattern_ident_tuple()),
{
    broadcast use group_shapes;

    reveal(grammar::iterable);
    reveal(grammar::boolean_expr_tuple);
    reveal(grammar::more_booleans);
    reveal(grammar::expr_tuple);
    reveal(grammar::more_exprs);
    reveal(grammar::pattern_ident_tuple);
    reveal(grammar::more_pattern_idents);
}

proof fn lemma_rule_decl()
    ensures
        consumes(grammar::rule_decl()),
{
    broadcast use group_shapes;

    reveal(grammar::rule_decl);
    reveal(grammar::rule_parts);
    reveal(grammar::rule_blocks);
    reveal(grammar::rule_header);
}

/// Of the productions, only the one of rules forgets a failure, and none fits
/// without consuming a token.
pub proof fn lemma_productions(kind: SyntaxKind)
    ensures
        kind != SyntaxKind::RULE_DECL ==> keeps_failure(production(kind)),
        consumes(production(kind)),
{
    reveal(production);
    lemma_alt(Seq::empty());
    lemma_rule_decl();
    lemma_header();
    lemma_meta();
    lemma_mods();
    lemma_hex();
    lemma_booleans();
    lemma_exprs();
    lemma_primary();
    lemma_quantified();
    lemma_tuples();
}

/// A parser that has failed is still so after an expression that keeps
/// failures.
pub proof fn lemma_eval_keeps_failure(expr: Expr, s: State, depth: nat)
    requires
        s.placed(),
        s.failed,
        keeps_failure(expr),
        eval(expr, s, depth) is Some,
    ensures
        (eval(expr, s, depth)->0).failed,
    decreases depth, expr,
{
    match expr {
        Expr::Expect(set, description) => lemma_expect(s, set, description),
        Expr::Sync(set) => lemma_sync(s, set),
        Expr::Cat(first, second) => {
            lemma_eval_keeps_failure(*first, s, depth);
            lemma_eval_ahead(*first, s, depth);
            lemma_eval_keeps_failure(*second, eval(*first, s, depth)->0, depth);
        },
        Expr::Node(kind, inner) => {
            lemma_begin(s, kind);
            lemma_eval_keeps_failure(*inner, s.begin(kind), depth);
        },
        Expr::Cached(kind, inner) => if !s.cache.contains((s.cursor.index, code(kind))) {
            lemma_eval_keeps_failure(*inner, s, depth);
        },
        Expr::Alt(exprs) => {
            lemma_eval_alt_ahead(exprs, s, depth);
            let (t, matched) = eval_alt(exprs, s, depth)->0;
            lemma_eval_alt_failed(exprs, s, depth);
            lemma_handle_errors(State { failed: true, ..t });
        },
        Expr::Rule(kind) => {
            lemma_productions(kind);
            lemma_eval_keeps_failure(production(kind), s, (depth - 1) as nat);
        },
        _ => {},
    }
}

/// A parser that has failed does not try any alternative.
pub proof fn lemma_eval_alt_failed(exprs: Seq<Expr>, s: State, depth: nat)
    requires
        s.failed,
    ensures
        eval_alt(exprs, s, depth) == Some((s, false)),
    decreases exprs.len(),
{
    if exprs.len() > 0 {
        lemma_eval_alt_failed(exprs.drop_last(), s, depth);
    }
}

/// An expression that consumes tokens either fails or consumes one.
#[verifier::rlimit(30)]
proof fn lemma_eval_consumes(expr: Expr, s: State, depth: nat)
    requires
        s.placed(),
        consumes(expr),
        eval(expr, s, depth) is Some,
    ensures
        (eval(expr, s, depth)->0).failed || s.cursor.pos < (eval(expr, s, depth)->0).cursor.pos,
    decreases depth, expr,
{
    match expr {
        Expr::Expect(set, description) => lemma_expect(s, set, description),
        Expr::Cat(first, second) => {
            lemma_eval_ahead(*first, s, depth);
            let t = eval(*first, s, depth)->0;
            lemma_eval_ahead(*second, t, depth);
            if consumes(*second) {
                lemma_eval_consumes(*second, t, depth);
            } else {
                lemma_eval_consumes(*first, s, depth);
                if t.failed {
                    lemma_eval_keeps_failure(*second, t, depth);
                }
            }
        },
        Expr::Node(kind, inner) => {
            lemma_begin(s, kind);
            lemma_eval_consumes(*inner, s.begin(kind), depth);
        },
        Expr::One(inner) => if !s.failed {
            lemma_trivia(s);
            lemma_eval_consumes(*inner, s.trivia(), depth);
        },
        Expr::Cached(kind, inner) => if !s.cache.contains((s.cursor.index, code(kind))) {
            lemma_eval_consumes(*inner, s, depth);
        },
        Expr::Alt(exprs) => {
            lemma_eval_alt_consumes(exprs, s, depth);
            lemma_eval_alt_ahead(exprs, s, depth);
            let (t, matched) = eval_alt(exprs, s, depth)->0;
            lemma_handle_errors(State { failed: true, ..t });
        },
        Expr::Rule(kind) => {
            lemma_productions(kind);
            lemma_eval_consumes(production(kind), s, (depth - 1) as nat);
        },
        _ => {},
    }
}

proof fn lemma_eval_alt_consumes(exprs: Seq<Expr>, s: State, depth: nat)
    requires
        s.placed(),
        all_consume(exprs),
        eval_alt(exprs, s, depth) is Some,
    ensures
        (eval_alt(exprs, s, depth)->0).1 ==> s.cursor.pos < (eval_alt(
            exprs,
            s,
            depth,
        )->0).0.cursor.pos,
    decreases depth, exprs,
{
    if exprs.len() > 0 {
        lemma_eval_alt_consumes(exprs.drop_last(), s, depth);
        lemma_eval_alt_ahead(exprs.drop_last(), s, depth);
        let (t, matched) = eval_alt(exprs.drop_last(), s, depth)->0;
        if !matched && !t.failed {
            lemma_enter_opt(t);
            lemma_eval_consumes(exprs.last(), t.enter_opt(), depth);
        }
    }
}

/// A parser that has failed is still so after an expression that keeps
/// failures.
pub proof fn lemma_keeps_failure(expr: Expr, s: State, t: State)
    requires
        s.placed(),
        s.failed,
        keeps_failure(expr),
        parses(expr, s, t),
    ensures
        t.failed,
{
    let depth = choose|depth: nat| #[trigger] eval(expr, s, depth) == Some(t);
    lemma_eval_keeps_failure(expr, s, depth);
}

/// An expression that consumes tokens either fails or consumes one.
pub proof fn lemma_consumes(expr: Expr, s: State, t: State)
    requires
        s.placed(),
        consumes(expr),
        parses(expr, s, t),
    ensures
        t.failed || s.cursor.pos < t.cursor.pos,
{
    let depth = choose|depth: nat| #[trigger] eval(expr, s, depth) == Some(t);
    lemma_eval_consumes(expr, s, depth);
}

/// A parser that has failed does not try any alternative.
pub proof fn lemma_tries_failed(exprs: Seq<Expr>, s: State, t: State, matched: bool)
    requires
        s.failed,
        tries(exprs, s, t, matched),
    ensures
        t == s,
        !matched,
{
    let depth = choose|depth: nat| #[trigger] eval_alt(exprs, s, depth) == Some((t, matched));
    lemma_eval_alt_failed(exprs, s, depth);
}

} // verus!
