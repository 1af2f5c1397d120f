//! A parser that comes to a place goes on as the place is read.

use crate::event::EventView;
use crate::grammar;
use crate::grammar::{
    alt, cached, if_next, if_next_else, n_or_more, node, one, opt, production, Expr,
};
use crate::laws::cache::{
    after_relevant, after_trivia, all_regular, in_conditions, is_next, judge, judge_alt,
    lemma_chain_trivia, lemma_eval_alt_judged, lemma_eval_judged, lemma_regular, lemma_trivia_place,
    on_chain, regular, sound, Verdict,
};
use crate::laws::frame::{
    lemma_begin, lemma_enter_not, lemma_enter_opt, lemma_eval_ahead, lemma_eval_alt_ahead,
    lemma_expect, lemma_flush_errors, lemma_handle_errors, lemma_skip_cache, lemma_skip_trivia,
    lemma_take, lemma_trivia,
};
use crate::laws::progress::lemma_eval_keeps_failure;
use crate::laws::reading::{
    join, lemma_reading, lemma_reading_alt, lemma_reading_and, lemma_reading_cached,
    lemma_reading_if_next, lemma_reading_if_next_else, lemma_reading_many, lemma_reading_mode,
    lemma_reading_no_alt, lemma_reading_node, lemma_reading_not, lemma_reading_one,
    lemma_reading_opt, lemma_reading_rule, nothing, or_else, read, read_alt, read_token, reading,
    sees, skip, unless, within, Reading,
};
use crate::laws::valid::{
    all_local, lemma_local, lemma_local_orderly, lemma_shows_close, lemma_shows_expect,
    lemma_shows_more, lemma_shows_opt, lemma_shows_same, lemma_shows_trans, lemma_shows_trivia,
    local, outside, shows,
};
use crate::semantics::{eval, eval_alt, parses};
use crate::state::{code, kind_in, State};
use crate::syntax_kind::SyntaxKind;
use crate::token_stream::relevant_after;
use crate::tokenizer::Cursor;
use vstd::prelude::*;

verus! {

/// What is known of an expression without its nodes and tokens goes for its
/// reading.
proof fn lemma_judge_read(expr: Expr, src: Seq<u8>, at: Cursor, depth: nat)
    requires
        local(expr),
        judge(expr, src, at, depth) is Some,
    ensures
        match judge(expr, src, at, depth)->0 {
            Verdict::Fits(next) => read(expr, src, at, depth) matches Some(Reading::Fits(end, _))
                && end == next,
            Verdict::Fails => read(expr, src, at, depth) == Some(Reading::Fails),
        },
    decreases depth, expr,
{
    reveal(skip);
    reveal(sees);
    reveal(join);
    reveal(or_else);
    reveal(nothing);
    reveal(unless);
    reveal(within);
    reveal(read_token);
    let start = after_trivia(src, at);
    match expr {
        Expr::Cat(first, second) => {
            assert(local(*second));
            lemma_judge_read(*first, src, at, depth);
            if let Some(Verdict::Fits(next)) = judge(*first, src, at, depth) {
                lemma_judge_read(*second, src, next, depth);
            }
        },
        Expr::Node(_, inner) => lemma_judge_read(*inner, src, start, depth),
        Expr::Opt(inner) => lemma_judge_read(*inner, src, start, depth),
        Expr::Not(inner) => lemma_judge_read(*inner, src, start, depth),
        Expr::IfNext(set, inner) => if is_next(src, at, set) {
            lemma_judge_read(*inner, src, start, depth);
        },
        Expr::IfNextElse(set, inner, other) => if is_next(src, at, set) {
            lemma_judge_read(*inner, src, start, depth);
        } else {
            lemma_judge_read(*other, src, at, depth);
        },
        Expr::Many(inner) => {
            lemma_judge_read(*inner, src, start, depth);
            if let Some(Verdict::Fits(next)) = judge(*inner, src, start, depth) {
                lemma_judge_read(expr, src, next, (depth - 1) as nat);
            }
        },
        Expr::One(inner) => lemma_judge_read(*inner, src, start, depth),
        Expr::Cached(_, inner) => lemma_judge_read(*inner, src, at, depth),
        Expr::Alt(exprs) => lemma_judge_read_alt(exprs, src, at, depth),
        Expr::Rule(kind) => {
            lemma_local(kind);
            lemma_judge_read(production(kind), src, at, (depth - 1) as nat);
        },
        _ => {},
    }
}

proof fn lemma_judge_read_alt(exprs: Seq<Expr>, src: Seq<u8>, at: Cursor, depth: nat)
    requires
        all_local(exprs),
        judge_alt(exprs, src, at, depth) is Some,
    ensures
        match judge_alt(exprs, src, at, depth)->0 {
            Verdict::Fits(next) => read_alt(exprs, src, at, depth) matches Some(
                Reading::Fits(end, _),
            ) && end == next,
            Verdict::Fails => read_alt(exprs, src, at, depth) == Some(Reading::Fails),
        },
    decreases depth, exprs,
{
    reveal(skip);
    if exprs.len() > 0 {
        lemma_judge_read_alt(exprs.drop_last(), src, at, depth);
        if judge_alt(exprs.drop_last(), src, at, depth) == Some(Verdict::Fails) {
            lemma_judge_read(exprs.last(), src, after_trivia(src, at), depth);
        }
    }
}

/// The productions that are not part of conditions.
pub open spec fn is_plain(kind: SyntaxKind) -> bool {
    match kind {
        SyntaxKind::IMPORT_STMT
        | SyntaxKind::RULE_MODS
        | SyntaxKind::RULE_TAGS
        | SyntaxKind::META_BLK
        | SyntaxKind::META_DEF
        | SyntaxKind::PATTERNS_BLK
        | SyntaxKind::PATTERN_DEF
        | SyntaxKind::PATTERN_MODS
        | SyntaxKind::PATTERN_MOD
        | SyntaxKind::HEX_PATTERN
        | SyntaxKind::HEX_SUB_PATTERN
        | SyntaxKind::HEX_ALTERNATIVE
        | SyntaxKind::HEX_JUMP => true,
        _ => false,
    }
}

/// The expression has nothing to do with conditions: no failure is remembered.
pub open spec fn plain(expr: Expr) -> bool
    decreases expr,
{
    match expr {
        Expr::Cat(first, second) => plain(*first) && plain(*second),
        Expr::Node(_, inner) => plain(*inner),
        Expr::Opt(inner) => plain(*inner),
        Expr::Not(inner) => plain(*inner),
        Expr::IfNext(_, inner) => plain(*inner),
        Expr::IfNextElse(_, inner, other) => plain(*inner) && plain(*other),
        Expr::Many(inner) => plain(*inner),
        Expr::One(inner) => plain(*inner),
        Expr::Cached(_, _) => false,
        Expr::Alt(exprs) => all_plain(exprs),
        Expr::Rule(kind) => is_plain(kind),
        Expr::Recover | Expr::Sync(_) => false,
        _ => true,
    }
}

pub open spec fn all_plain(exprs: Seq<Expr>) -> bool
    decreases exprs,
{
    exprs.len() == 0 || (all_plain(exprs.drop_last()) && plain(exprs.last()))
}

pub broadcast proof fn lemma_all_plain(exprs: Seq<Expr>, expr: Expr)
    ensures
        #[trigger] all_plain(exprs.push(expr)) == (all_plain(exprs) && plain(expr)),
{
    assert(exprs.push(expr).drop_last() =~= exprs);
}

pub broadcast proof fn lemma_plain_and(a: Expr, b: Expr)
    ensures
        #[trigger] plain(a.and(b)) == (plain(a) && plain(b)),
{
}

pub broadcast proof fn lemma_plain_node(kind: SyntaxKind, a: Expr)
    ensures
        #[trigger] plain(node(kind, a)) == plain(a),
{
}

pub broadcast proof fn lemma_plain_opt(a: Expr)
    ensures
        #[trigger] plain(opt(a)) == plain(a),
{
}

pub broadcast proof fn lemma_plain_if_next(set: Seq<SyntaxKind>, a: Expr)
    ensures
        #[trigger] plain(if_next(set, a)) == plain(a),
{
}

pub broadcast proof fn lemma_plain_one(a: Expr)
    ensures
        #[trigger] plain(one(a)) == plain(a),
{
}

pub broadcast proof fn lemma_plain_alt(exprs: Seq<Expr>)
    ensures
        #[trigger] plain(alt(exprs)) == all_plain(exprs),
{
}

pub broadcast proof fn lemma_plain_many(n: nat, a: Expr)
    requires
        plain(a),
    ensures
        #[trigger] plain(n_or_more(n, a)),
    decreases n,
{
    if n > 0 {
        lemma_plain_many((n - 1) as nat, a);
        lemma_plain_one(a);
        lemma_plain_and(one(a), n_or_more((n - 1) as nat, a));
    }
}

pub broadcast group group_plain {
    lemma_all_plain,
    lemma_plain_and,
    lemma_plain_node,
    lemma_plain_opt,
    lemma_plain_if_next,
    lemma_plain_one,
    lemma_plain_alt,
    lemma_plain_many,
}

proof fn lemma_plain_blocks()
    ensures
        plain(grammar::import_stmt()),
        plain(grammar::rule_mods()),
        plain(grammar::rule_tags()),
        plain(grammar::meta_blk()),
        plain(grammar::meta_def()),
        plain(grammar::patterns_blk()),
        plain(grammar::pattern_def()),
        plain(grammar::pattern_mods()),
{
    broadcast use group_plain;

    reveal(grammar::import_stmt);
    reveal(grammar::rule_mods);
    reveal(grammar::private_mods);
    reveal(grammar::global_mods);
    reveal(grammar::rule_tags);
    reveal(grammar::meta_blk);
    reveal(grammar::meta_def);
    reveal(grammar::signed_number);
    reveal(grammar::patterns_blk);
    reveal(grammar::pattern_def);
    reveal(grammar::pattern_mods);
}

proof fn lemma_plain_patterns()
    ensures
        plain(grammar::pattern_mod()),
        plain(grammar::hex_pattern()),
        plain(grammar::hex_sub_pattern()),
        plain(grammar::hex_alternative()),
        plain(grammar::hex_jump()),
{
    broadcast use group_plain;

    reveal(grammar::pattern_mod);
    reveal(grammar::plain_mod);
    reveal(grammar::base64_mod);
    reveal(grammar::base64_alphabet);
    reveal(grammar::xor_mod);
    reveal(grammar::xor_range);
    reveal(grammar::xor_upper_bound);
    reveal(grammar::hex_pattern);
    reveal(grammar::hex_sub_pattern);
    reveal(grammar::hex_item);
    reveal(grammar::hex_more);
    reveal(grammar::hex_alternative);
    reveal(grammar::hex_branch);
    reveal(grammar::hex_jump);
    reveal(grammar::jump_bounds);
}

proof fn lemma_plain(kind: SyntaxKind)
    requires
        is_plain(kind),
    ensures
        plain(production(kind)),
{
    reveal(production);
    lemma_plain_blocks();
    lemma_plain_patterns();
}

/// What is not part of a condition leaves the cache alone.
pub proof fn lemma_plain_cache(expr: Expr, s: State, depth: nat)
    requires
        s.placed(),
        plain(expr),
        eval(expr, s, depth) is Some,
    ensures
        (eval(expr, s, depth)->0).cache == s.cache,
    decreases depth, expr,
{
    lemma_trivia(s);
    lemma_skip_cache(s);
    match expr {
        Expr::Expect(set, description) => lemma_expect(s, set, description),
        Expr::Cat(first, second) => {
            lemma_eval_ahead(*first, s, depth);
            lemma_plain_cache(*first, s, depth);
            lemma_plain_cache(*second, eval(*first, s, depth)->0, depth);
        },
        Expr::Node(kind, inner) => {
            lemma_begin(s, kind);
            lemma_plain_cache(*inner, s.begin(kind), depth);
        },
        Expr::Opt(inner) => if !s.failed {
            lemma_enter_opt(s);
            lemma_plain_cache(*inner, s.enter_opt(), depth);
        },
        Expr::Not(inner) => if !s.failed {
            lemma_enter_not(s);
            lemma_plain_cache(*inner, s.enter_not(), depth);
        },
        Expr::IfNext(set, inner) => if !s.failed && s.sees(set) {
            lemma_plain_cache(*inner, s.trivia(), depth);
        },
        Expr::IfNextElse(set, inner, other) => if !s.failed {
            if s.sees(set) {
                lemma_plain_cache(*inner, s.trivia(), depth);
            } else {
                lemma_plain_cache(*other, s.missed(set), depth);
            }
        },
        Expr::Many(inner) => if !s.failed {
            lemma_enter_opt(s);
            lemma_eval_ahead(*inner, s.enter_opt(), depth);
            lemma_plain_cache(*inner, s.enter_opt(), depth);
            let t = eval(*inner, s.enter_opt(), depth)->0;
            if !t.failed {
                lemma_plain_cache(expr, t.leave_opt(s), (depth - 1) as nat);
            }
        },
        Expr::One(inner) => if !s.failed {
            lemma_plain_cache(*inner, s.trivia(), depth);
        },
        Expr::Alt(exprs) => {
            lemma_eval_alt_ahead(exprs, s, depth);
            lemma_plain_alt_cache(exprs, s, depth);
            let (t, _) = eval_alt(exprs, s, depth)->0;
            lemma_handle_errors(State { failed: true, ..t });
        },
        Expr::Rule(kind) => {
            lemma_plain(kind);
            lemma_plain_cache(production(kind), s, (depth - 1) as nat);
        },
        _ => {},
    }
}

proof fn lemma_plain_alt_cache(exprs: Seq<Expr>, s: State, depth: nat)
    requires
        s.placed(),
        all_plain(exprs),
        eval_alt(exprs, s, depth) is Some,
    ensures
        (eval_alt(exprs, s, depth)->0).0.cache == s.cache,
    decreases depth, exprs,
{
    if exprs.len() > 0 {
        lemma_eval_alt_ahead(exprs.drop_last(), s, depth);
        lemma_plain_alt_cache(exprs.drop_last(), s, depth);
        let (t, matched) = eval_alt(exprs.drop_last(), s, depth)->0;
        if !matched && !t.failed {
            lemma_trivia(t);
            lemma_skip_cache(t);
            lemma_enter_opt(t);
            lemma_plain_cache(exprs.last(), t.enter_opt(), depth);
        }
    }
}

/// Either the expression is of conditions, and what the parser remembers since a
/// place is true, or it is not of conditions.
pub open spec fn ready(expr: Expr, s: State, base: Option<Cursor>) -> bool {
    match base {
        Some(base) => regular(expr) && sound(s, base),
        None => plain(expr),
    }
}

spec fn all_ready(exprs: Seq<Expr>, s: State, base: Option<Cursor>) -> bool {
    match base {
        Some(base) => all_regular(exprs) && sound(s, base),
        None => all_plain(exprs),
    }
}

/// Skipping trivia.
pub proof fn lemma_ready_trivia(s: State, base: Option<Cursor>)
    requires
        s.placed(),
    ensures
        s.skip_trivia().cursor == skip(s.src, s.cursor),
        base matches Some(base) && sound(s, base) ==> sound(s.trivia(), base->0),
{
    reveal(skip);
    lemma_trivia(s);
    lemma_trivia_place(s);
    if let Some(base) = base {
        if sound(s, base) {
            lemma_chain_trivia(s.src, base, s.cursor);
        }
    }
}

/// Expecting a token.
proof fn lemma_expect_place(s: State, set: Seq<SyntaxKind>, description: Option<Seq<char>>)
    requires
        s.placed(),
        !s.failed,
    ensures
        s.expect(set, description).failed == !is_next(s.src, s.cursor, set),
        is_next(s.src, s.cursor, set) ==> s.expect(set, description).cursor == after_relevant(
            s.src,
            s.cursor,
        ),
{
    reveal(State::expect);
    if let Some(next) = relevant_after(s.src, s.cursor) {
        let key = next.span.key_of();
        lemma_handle_errors(s.note_expected(key, set, description));
        if let Some(kind) = kind_in(set, next.id) {
            let unexpected = State { unexpected: s.unexpected.insert(key), ..s };
            lemma_handle_errors(unexpected);
            let noted = if s.in_not {
                unexpected.handle_errors()
            } else {
                s
            };
            lemma_trivia(noted);
            lemma_trivia_place(noted);
            lemma_skip_trivia(noted);
            lemma_take(noted.trivia(), kind);
            lemma_flush_errors(noted.trivia().take(kind));
        }
    }
}

/// The expression that comes next is read as the parser goes on.
pub open spec fn goes_on(s: State, t: State, reading: Option<Reading>) -> bool {
    match reading {
        Some(Reading::Fits(next, events)) => !t.failed && t.cursor == next && shows(s, t, events),
        Some(Reading::Fails) => t.failed,
        None => false,
    }
}

/// Parsing an expression has the outcome that its reading says.
#[verifier::rlimit(60)]
#[verifier::spinoff_prover]
pub proof fn lemma_eval_reads(expr: Expr, s: State, depth: nat, base: Option<Cursor>)
    requires
        s.placed(),
        !s.failed,
        local(expr),
        ready(expr, s, base),
        eval(expr, s, depth) is Some,
    ensures
        goes_on(s, eval(expr, s, depth)->0, reading(expr, s.src, s.cursor)),
        base matches Some(b) ==> sound(eval(expr, s, depth)->0, b),
    decreases depth, expr,
{
    reveal(join);
    reveal(or_else);
    reveal(nothing);
    reveal(unless);
    reveal(within);
    let src = s.src;
    let at = s.cursor;
    let start = skip(src, at);
    let end = eval(expr, s, depth)->0;
    let none = Seq::<EventView>::empty();
    lemma_trivia(s);
    lemma_ready_trivia(s, base);
    lemma_shows_same(s, s);
    lemma_shows_trivia(s);
    if let Some(b) = base {
        let verdict = lemma_eval_judged(expr, s, depth, b);
    }
    match expr {
        Expr::Expect(set, description) => {
            lemma_expect_place(s, set, description);
            let shown = lemma_shows_expect(s, set, description);
            reveal(read_token);
            lemma_reading(expr, src, at, 0);
        },
        Expr::HexPatternMode | Expr::HexJumpMode => {
            lemma_reading_mode(src, at);
            lemma_shows_same(s, end);
        },
        Expr::Cat(first, second) => {
            assert(local(*second));
            let t = eval(*first, s, depth)->0;
            lemma_eval_ahead(*first, s, depth);
            lemma_eval_reads(*first, s, depth, base);
            assert(expr == (*first).and(*second));
            lemma_reading_and(*first, *second, src, at);
            if t.failed {
                lemma_local_orderly(*second);
                lemma_eval_keeps_failure(*second, t, depth);
            } else {
                lemma_eval_reads(*second, t, depth, base);
                let a = reading(*first, src, at)->0->Fits_1;
                if let Some(Reading::Fits(_, b)) = reading(*second, src, t.cursor) {
                    lemma_shows_trans(s, t, end, a, b);
                }
            }
        },
        Expr::Node(kind, inner) => {
            lemma_begin(s, kind);
            let begun = s.begin(kind);
            lemma_eval_ahead(*inner, begun, depth);
            lemma_eval_reads(*inner, begun, depth, base);
            assert(expr == node(kind, *inner));
            lemma_reading_node(kind, *inner, src, at);
            let t = eval(*inner, begun, depth)->0;
            if let Some(Reading::Fits(_, inside)) = reading(*inner, src, start) {
                lemma_shows_close(s.trivia(), kind, t, inside);
                lemma_shows_more(
                    s,
                    s.trivia(),
                    end,
                    seq![EventView::Begin(kind)] + inside + seq![EventView::End(kind)],
                );
            }
        },
        Expr::Opt(inner) => {
            lemma_enter_opt(s);
            lemma_eval_ahead(*inner, s.enter_opt(), depth);
            lemma_eval_reads(*inner, s.enter_opt(), depth, base);
            assert(expr == opt(*inner));
            lemma_reading_opt(*inner, src, at);
            let t = eval(*inner, s.enter_opt(), depth)->0;
            if let Some(Reading::Fits(_, shown)) = reading(*inner, src, start) {
                lemma_shows_opt(s, t, shown);
            } else {
                lemma_shows_same(s, end);
            }
        },
        Expr::Not(inner) => {
            lemma_enter_not(s);
            lemma_eval_ahead(*inner, s.enter_not(), depth);
            lemma_eval_reads(*inner, s.enter_not(), depth, base);
            assert(expr == grammar::not(*inner));
            lemma_reading_not(*inner, src, at);
            lemma_shows_same(s, end);
        },
        Expr::IfNext(set, inner) => {
            reveal(sees);
            assert(expr == if_next(set, *inner));
            lemma_reading_if_next(set, *inner, src, at);
            if s.sees(set) {
                lemma_eval_reads(*inner, s.trivia(), depth, base);
                if let Some(Reading::Fits(_, shown)) = reading(*inner, src, start) {
                    lemma_shows_more(s, s.trivia(), end, shown);
                }
            } else {
                lemma_shows_same(s, end);
            }
        },
        Expr::IfNextElse(set, inner, other) => {
            reveal(sees);
            assert(expr == if_next_else(set, *inner, *other));
            lemma_reading_if_next_else(set, *inner, *other, src, at);
            if s.sees(set) {
                lemma_eval_reads(*inner, s.trivia(), depth, base);
                if let Some(Reading::Fits(_, shown)) = reading(*inner, src, start) {
                    lemma_shows_more(s, s.trivia(), end, shown);
                }
            } else {
                lemma_shows_same(s, s.missed(set));
                lemma_eval_reads(*other, s.missed(set), depth, base);
                if let Some(Reading::Fits(_, shown)) = reading(*other, src, at) {
                    lemma_shows_more(s, s.missed(set), end, shown);
                }
            }
        },
        Expr::Many(inner) => {
            lemma_enter_opt(s);
            lemma_eval_ahead(*inner, s.enter_opt(), depth);
            lemma_eval_reads(*inner, s.enter_opt(), depth, base);
            assert(expr == n_or_more(0, *inner));
            lemma_reading_many(*inner, src, at);
            let t = eval(*inner, s.enter_opt(), depth)->0;
            if let Some(Reading::Fits(next, a)) = reading(*inner, src, start) {
                let u = t.leave_opt(s);
                lemma_shows_opt(s, t, a);
                lemma_eval_reads(expr, u, (depth - 1) as nat, base);
                if let Some(Reading::Fits(_, b)) = reading(expr, src, next) {
                    lemma_shows_trans(s, u, end, a, b);
                }
            } else {
                lemma_shows_same(s, end);
            }
        },
        Expr::One(inner) => {
            assert(expr == one(*inner));
            lemma_reading_one(*inner, src, at);
            lemma_eval_reads(*inner, s.trivia(), depth, base);
            if let Some(Reading::Fits(_, shown)) = reading(*inner, src, start) {
                lemma_shows_more(s, s.trivia(), end, shown);
            }
        },
        Expr::Cached(kind, inner) => {
            assert(expr == cached(kind, *inner));
            lemma_reading_cached(kind, *inner, src, at);
            if s.cache.contains((s.cursor.index, code(kind))) {
                assert(on_chain(src, base->0, at));
                let n = choose|n: nat| #[trigger] judge(*inner, src, at, n) == Some(Verdict::Fails);
                lemma_judge_read(*inner, src, at, n);
                lemma_reading(*inner, src, at, n);
            } else {
                let t = eval(*inner, s, depth)->0;
                lemma_eval_reads(*inner, s, depth, base);
                if let Some(Reading::Fits(_, shown)) = reading(*inner, src, at) {
                    lemma_shows_same(t, end);
                    lemma_shows_more(s, t, end, shown);
                }
            }
        },
        Expr::Alt(exprs) => {
            let (t, matched) = eval_alt(exprs, s, depth)->0;
            lemma_eval_alt_ahead(exprs, s, depth);
            lemma_eval_alt_reads(exprs, s, depth, base);
            lemma_handle_errors(State { failed: true, ..t });
            assert(expr == alt(exprs));
        },
        Expr::Rule(kind) => {
            lemma_local(kind);
            if base is Some {
                lemma_regular(kind);
            } else {
                lemma_plain(kind);
            }
            lemma_reading_rule(kind, src, at);
            lemma_eval_reads(production(kind), s, (depth - 1) as nat, base);
        },
        _ => {},
    }
}

proof fn lemma_eval_alt_reads(exprs: Seq<Expr>, s: State, depth: nat, base: Option<Cursor>)
    requires
        s.placed(),
        !s.failed,
        all_local(exprs),
        all_ready(exprs, s, base),
        eval_alt(exprs, s, depth) is Some,
    ensures
        ({
            let (t, matched) = eval_alt(exprs, s, depth)->0;
            match reading(alt(exprs), s.src, s.cursor) {
                Some(Reading::Fits(next, events)) => matched && t.cursor == next && shows(
                    s,
                    t,
                    events,
                ),
                Some(Reading::Fails) => !matched,
                None => false,
            }
        }),
    decreases depth, exprs,
{
    reveal(or_else);
    let src = s.src;
    let at = s.cursor;
    lemma_shows_same(s, s);
    if exprs.len() == 0 {
        assert(exprs =~= Seq::empty());
        lemma_reading_no_alt(src, at);
    } else {
        let others = exprs.drop_last();
        let (t, matched) = eval_alt(others, s, depth)->0;
        lemma_eval_alt_ahead(others, s, depth);
        lemma_eval_alt_reads(others, s, depth, base);
        assert(others.push(exprs.last()) =~= exprs);
        lemma_reading_alt(others, exprs.last(), src, at);
        if !matched {
            if let Some(b) = base {
                let verdict = lemma_eval_alt_judged(others, s, depth, b);
            }
            lemma_trivia(t);
            lemma_ready_trivia(t, base);
            lemma_enter_opt(t);
            lemma_eval_ahead(exprs.last(), t.enter_opt(), depth);
            lemma_eval_reads(exprs.last(), t.enter_opt(), depth, base);
            let u = eval(exprs.last(), t.enter_opt(), depth)->0;
            assert(u.leave_opt(s) == u.leave_opt(t));
            if let Some(Reading::Fits(_, shown)) = reading(exprs.last(), src, skip(src, at)) {
                lemma_shows_opt(t, u, shown);
                lemma_shows_same(s, t);
                lemma_shows_more(s, t, u.leave_opt(t), shown);
            }
        }
    }
}

/// What is read as a production of conditions is what the parser does there, if
/// what it remembers is true.
pub proof fn lemma_condition_outcome(kind: SyntaxKind, s: State, t: State, base: Cursor)
    requires
        in_conditions(kind),
        s.placed(),
        !s.failed,
        sound(s, base),
        parses(Expr::Rule(kind), s, t),
    ensures
        sound(t, base),
        match reading(Expr::Rule(kind), s.src, s.cursor) {
            Some(Reading::Fits(next, events)) => {
                &&& !t.failed
                &&& t.cursor == next
                &&& outside(t.out.events.skip(s.out.events.len() as int)) == events
            },
            Some(Reading::Fails) => t.failed,
            None => false,
        },
{
    let depth = choose|depth: nat| #[trigger] eval(Expr::Rule(kind), s, depth) == Some(t);
    lemma_eval_reads(Expr::Rule(kind), s, depth, Some(base));
}

/// What is read as another production is what the parser does there, whatever it
/// remembers.
pub proof fn lemma_plain_outcome(kind: SyntaxKind, s: State, t: State)
    requires
        is_plain(kind),
        s.placed(),
        !s.failed,
        parses(Expr::Rule(kind), s, t),
    ensures
        t.cache == s.cache,
        match reading(Expr::Rule(kind), s.src, s.cursor) {
            Some(Reading::Fits(next, events)) => {
                &&& !t.failed
                &&& t.cursor == next
                &&& outside(t.out.events.skip(s.out.events.len() as int)) == events
            },
            Some(Reading::Fails) => t.failed,
            None => false,
        },
{
    let depth = choose|depth: nat| #[trigger] eval(Expr::Rule(kind), s, depth) == Some(t);
    lemma_eval_reads(Expr::Rule(kind), s, depth, None);
    lemma_plain_cache(Expr::Rule(kind), s, depth);
}

} // verus!
