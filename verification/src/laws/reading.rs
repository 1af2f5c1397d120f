//! How a place in a source is read, whatever the parser did before.
//!
//! Parsing changes the state of the parser. What it comes down to is simpler: at
//! a place in the source, a production fits or not, and if it does it ends at
//! some place, and some nodes and tokens are the result. This is its reading. Here
//! it is shown that a parser which comes to a place goes on according to it.

use crate::event::EventView;
use crate::grammar;
use crate::grammar::{
    alt, cached, described, if_next, if_next_else, n_or_more, node, not, one, opt, production,
    token, Expr,
};
use crate::laws::cache::{after_relevant, after_trivia, is_next};
use crate::state::kind_in;
use crate::syntax_kind::{token_id_of, SyntaxKind};
use crate::token::{is_trivia_id, Token, TokenId};
use crate::token_stream::{lemma_lex, relevant_after};
use crate::tokenizer::{lex, Cursor, Mode};
use vstd::prelude::*;

verus! {

/// What an expression is read as at some place. If it fits, it ends at another
/// place, and there are some nodes and tokens for it, trivia aside.
#[verifier::ext_equal]
pub enum Reading {
    Fits(Cursor, Seq<EventView>),
    Fails,
}

/// The place after the trivia tokens that follow another one.
#[verifier::opaque]
pub open spec fn skip(src: Seq<u8>, at: Cursor) -> Cursor {
    after_trivia(src, at)
}

/// The next token that is not trivia is in a set.
#[verifier::opaque]
pub open spec fn sees(src: Seq<u8>, at: Cursor, set: Seq<SyntaxKind>) -> bool {
    is_next(src, at, set)
}

/// There is nothing but trivia left.
#[verifier::opaque]
pub open spec fn at_end(src: Seq<u8>, at: Cursor) -> bool {
    relevant_after(src, at) is None
}

/// Something is read, and then something else after it.
#[verifier::opaque]
pub open spec fn join(first: Option<Reading>, second: Option<Reading>) -> Option<Reading> {
    match (first, second) {
        (Some(Reading::Fits(_, a)), Some(Reading::Fits(end, b))) => Some(Reading::Fits(end, a + b)),
        (Some(Reading::Fits(_, _)), other) => other,
        (other, _) => other,
    }
}

/// Something is read, or something else if it does not fit.
#[verifier::opaque]
pub open spec fn or_else(first: Option<Reading>, second: Option<Reading>) -> Option<Reading> {
    match first {
        Some(Reading::Fails) => second,
        other => other,
    }
}

/// Nothing is read.
#[verifier::opaque]
pub open spec fn nothing(at: Cursor) -> Option<Reading> {
    Some(Reading::Fits(at, Seq::empty()))
}

/// Nothing is read where something does not fit.
#[verifier::opaque]
pub open spec fn unless(inner: Option<Reading>, at: Cursor) -> Option<Reading> {
    match inner {
        Some(Reading::Fails) => Some(Reading::Fits(at, Seq::empty())),
        Some(Reading::Fits(_, _)) => Some(Reading::Fails),
        None => None,
    }
}

/// What is read becomes a node.
#[verifier::opaque]
pub open spec fn within(kind: SyntaxKind, inner: Option<Reading>) -> Option<Reading> {
    match inner {
        Some(Reading::Fits(end, events)) => Some(
            Reading::Fits(
                end,
                seq![EventView::Begin(kind)] + events + seq![EventView::End(kind)],
            ),
        ),
        other => other,
    }
}

/// Where something that fits ends.
pub open spec fn end_of(reading: Option<Reading>) -> Cursor {
    reading->0->Fits_0
}

/// A token of a set.
#[verifier::opaque]
pub open spec fn read_token(set: Seq<SyntaxKind>, src: Seq<u8>, at: Cursor) -> Option<Reading> {
    match relevant_after(src, at) {
        Some(token) => match kind_in(set, token.id) {
            Some(kind) => Some(
                Reading::Fits(after_relevant(src, at), seq![EventView::Token(kind, token.span)]),
            ),
            None => Some(Reading::Fails),
        },
        None => Some(Reading::Fails),
    }
}

/// What an expression is read as at some place, if `depth` nested productions
/// and repetitions are enough to tell. Where the parser would have to recover
/// from a failure, or skip tokens, there is no reading.
pub open spec fn read(expr: Expr, src: Seq<u8>, at: Cursor, depth: nat) -> Option<Reading>
    decreases depth, expr,
{
    let start = skip(src, at);
    match expr {
        Expr::Expect(set, _) => read_token(set, src, at),
        Expr::HexPatternMode => nothing(Cursor { mode: Mode::HexPattern, ..at }),
        Expr::HexJumpMode => nothing(Cursor { mode: Mode::HexJump, ..at }),
        Expr::Recover => nothing(at),
        Expr::Sync(set) => if at_end(src, at) || sees(src, at, set) {
            nothing(start)
        } else {
            None
        },
        Expr::Cat(first, second) => match read(*first, src, at, depth) {
            Some(Reading::Fits(next, a)) => join(
                Some(Reading::Fits(next, a)),
                read(*second, src, next, depth),
            ),
            Some(Reading::Fails) => if *second is Recover {
                None
            } else {
                Some(Reading::Fails)
            },
            None => None,
        },
        Expr::Node(kind, inner) => within(kind, read(*inner, src, start, depth)),
        Expr::Opt(inner) => or_else(read(*inner, src, start, depth), nothing(at)),
        Expr::Not(inner) => unless(read(*inner, src, start, depth), at),
        Expr::IfNext(set, inner) => if sees(src, at, set) {
            read(*inner, src, start, depth)
        } else {
            nothing(at)
        },
        Expr::IfNextElse(set, inner, other) => if sees(src, at, set) {
            read(*inner, src, start, depth)
        } else {
            read(*other, src, at, depth)
        },
        Expr::Many(inner) => if depth == 0 {
            None
        } else {
            match read(*inner, src, start, depth) {
                Some(Reading::Fits(next, a)) => join(
                    Some(Reading::Fits(next, a)),
                    read(expr, src, next, (depth - 1) as nat),
                ),
                Some(Reading::Fails) => nothing(at),
                None => None,
            }
        },
        Expr::One(inner) => read(*inner, src, start, depth),
        Expr::Cached(_, inner) => read(*inner, src, at, depth),
        Expr::Alt(exprs) => read_alt(exprs, src, at, depth),
        Expr::Rule(kind) => if depth == 0 {
            None
        } else {
            read(production(kind), src, at, (depth - 1) as nat)
        },
    }
}

/// What the first of some expressions that fits is read as.
pub open spec fn read_alt(
    exprs: Seq<Expr>,
    src: Seq<u8>,
    at: Cursor,
    depth: nat,
) -> Option<Reading>
    decreases depth, exprs,
{
    if exprs.len() == 0 {
        Some(Reading::Fails)
    } else {
        match read_alt(exprs.drop_last(), src, at, depth) {
            Some(Reading::Fails) => read(exprs.last(), src, skip(src, at), depth),
            other => other,
        }
    }
}

/// What an expression is read as at some place.
pub open spec fn reading(expr: Expr, src: Seq<u8>, at: Cursor) -> Option<Reading> {
    if exists|depth: nat| #[trigger] read(expr, src, at, depth) is Some {
        let depth = choose|depth: nat| #[trigger] read(expr, src, at, depth) is Some;
        read(expr, src, at, depth)
    } else {
        None
    }
}

/// More depth than needed makes no difference.
proof fn lemma_read_depth(expr: Expr, src: Seq<u8>, at: Cursor, less: nat, more: nat)
    requires
        less <= more,
        read(expr, src, at, less) is Some,
    ensures
        read(expr, src, at, more) == read(expr, src, at, less),
    decreases less, expr,
{
    reveal(join);
    reveal(or_else);
    reveal(nothing);
    reveal(within);
    reveal(unless);
    reveal(read_token);
    let start = skip(src, at);
    match expr {
        Expr::Cat(first, second) => {
            lemma_read_depth(*first, src, at, less, more);
            if let Some(Reading::Fits(next, _)) = read(*first, src, at, less) {
                lemma_read_depth(*second, src, next, less, more);
            }
        },
        Expr::Node(_, inner) => lemma_read_depth(*inner, src, start, less, more),
        Expr::Opt(inner) => lemma_read_depth(*inner, src, start, less, more),
        Expr::Not(inner) => lemma_read_depth(*inner, src, start, less, more),
        Expr::IfNext(set, inner) => if sees(src, at, set) {
            lemma_read_depth(*inner, src, start, less, more);
        },
        Expr::IfNextElse(set, inner, other) => if sees(src, at, set) {
            lemma_read_depth(*inner, src, start, less, more);
        } else {
            lemma_read_depth(*other, src, at, less, more);
        },
        Expr::Many(inner) => {
            lemma_read_depth(*inner, src, start, less, more);
            if let Some(Reading::Fits(next, _)) = read(*inner, src, start, less) {
                lemma_read_depth(expr, src, next, (less - 1) as nat, (more - 1) as nat);
            }
        },
        Expr::One(inner) => lemma_read_depth(*inner, src, start, less, more),
        Expr::Cached(_, inner) => lemma_read_depth(*inner, src, at, less, more),
        Expr::Alt(exprs) => lemma_read_alt_depth(exprs, src, at, less, more),
        Expr::Rule(kind) => lemma_read_depth(
            production(kind),
            src,
            at,
            (less - 1) as nat,
            (more - 1) as nat,
        ),
        _ => {},
    }
}

proof fn lemma_read_alt_depth(exprs: Seq<Expr>, src: Seq<u8>, at: Cursor, less: nat, more: nat)
    requires
        less <= more,
        read_alt(exprs, src, at, less) is Some,
    ensures
        read_alt(exprs, src, at, more) == read_alt(exprs, src, at, less),
    decreases less, exprs,
{
    if exprs.len() > 0 {
        lemma_read_alt_depth(exprs.drop_last(), src, at, less, more);
        if read_alt(exprs.drop_last(), src, at, less) == Some(Reading::Fails) {
            lemma_read_depth(exprs.last(), src, skip(src, at), less, more);
        }
    }
}

/// Enough depth gives the reading.
pub proof fn lemma_reading(expr: Expr, src: Seq<u8>, at: Cursor, depth: nat)
    requires
        read(expr, src, at, depth) is Some,
    ensures
        reading(expr, src, at) == read(expr, src, at, depth),
{
    let other = choose|depth: nat| #[trigger] read(expr, src, at, depth) is Some;
    if depth <= other {
        lemma_read_depth(expr, src, at, depth, other);
    } else {
        lemma_read_depth(expr, src, at, other, depth);
    }
}

/// A depth that is enough, if there is one, and whatever more.
proof fn lemma_enough(expr: Expr, src: Seq<u8>, at: Cursor) -> (depth: nat)
    ensures
        forall|more: nat|
            depth <= more ==> #[trigger] read(expr, src, at, more) == reading(expr, src, at),
{
    if exists|depth: nat| #[trigger] read(expr, src, at, depth) is Some {
        let depth = choose|depth: nat| #[trigger] read(expr, src, at, depth) is Some;
        assert forall|more: nat| depth <= more implies #[trigger] read(expr, src, at, more)
            == reading(expr, src, at) by {
            lemma_read_depth(expr, src, at, depth, more);
        }
        depth
    } else {
        0
    }
}

/// The greater of two numbers.
spec fn most(a: nat, b: nat) -> nat {
    if a <= b {
        b
    } else {
        a
    }
}

pub broadcast proof fn lemma_reading_token(set: Seq<SyntaxKind>, src: Seq<u8>, at: Cursor)
    ensures
        #[trigger] reading(token(set), src, at) == read_token(set, src, at),
{
    reveal(join);
    reveal(or_else);
    reveal(nothing);
    reveal(within);
    reveal(unless);
    reveal(read_token);
    lemma_reading(token(set), src, at, 0);
}

pub broadcast proof fn lemma_reading_described(
    set: Seq<SyntaxKind>,
    text: Seq<char>,
    src: Seq<u8>,
    at: Cursor,
)
    ensures
        #[trigger] reading(described(set, text), src, at) == read_token(set, src, at),
{
    reveal(join);
    reveal(or_else);
    reveal(nothing);
    reveal(within);
    reveal(unless);
    reveal(read_token);
    lemma_reading(described(set, text), src, at, 0);
}

pub broadcast proof fn lemma_reading_mode(src: Seq<u8>, at: Cursor)
    ensures
        #![trigger reading(Expr::HexPatternMode, src, at)]
        #![trigger reading(Expr::HexJumpMode, src, at)]
        reading(Expr::HexPatternMode, src, at) == nothing(Cursor { mode: Mode::HexPattern, ..at }),
        reading(Expr::HexJumpMode, src, at) == nothing(Cursor { mode: Mode::HexJump, ..at }),
{
    reveal(join);
    reveal(or_else);
    reveal(nothing);
    reveal(within);
    reveal(unless);
    reveal(read_token);
    lemma_reading(Expr::HexPatternMode, src, at, 0);
    lemma_reading(Expr::HexJumpMode, src, at, 0);
}

pub broadcast proof fn lemma_reading_recover(src: Seq<u8>, at: Cursor)
    ensures
        #[trigger] reading(Expr::Recover, src, at) == nothing(at),
{
    reveal(join);
    reveal(or_else);
    reveal(nothing);
    reveal(within);
    reveal(unless);
    reveal(read_token);
    lemma_reading(Expr::Recover, src, at, 0);
}

pub broadcast proof fn lemma_reading_sync(set: Seq<SyntaxKind>, src: Seq<u8>, at: Cursor)
    ensures
        #[trigger] reading(Expr::Sync(set), src, at) == (if at_end(src, at) || sees(src, at, set) {
            nothing(skip(src, at))
        } else {
            None
        }),
{
    reveal(join);
    reveal(or_else);
    reveal(nothing);
    reveal(within);
    reveal(unless);
    reveal(read_token);
    let depth = lemma_enough(Expr::Sync(set), src, at);
    assert(read(Expr::Sync(set), src, at, depth) == reading(Expr::Sync(set), src, at));
}

pub broadcast proof fn lemma_reading_and(a: Expr, b: Expr, src: Seq<u8>, at: Cursor)
    ensures
        #[trigger] reading(a.and(b), src, at) == (if b is Recover && reading(a, src, at) == Some(
            Reading::Fails,
        ) {
            None
        } else {
            join(reading(a, src, at), reading(b, src, end_of(reading(a, src, at))))
        }),
{
    reveal(join);
    reveal(or_else);
    reveal(nothing);
    reveal(within);
    reveal(unless);
    reveal(read_token);
    let expr = a.and(b);
    let next = end_of(reading(a, src, at));
    let l = lemma_enough(expr, src, at);
    let m = lemma_enough(a, src, at);
    let n = lemma_enough(b, src, next);
    let depth = most(l, most(m, n));
    assert(read(expr, src, at, depth) == reading(expr, src, at));
    assert(read(a, src, at, depth) == reading(a, src, at));
    assert(read(b, src, next, depth) == reading(b, src, next));
}

pub broadcast proof fn lemma_reading_node(kind: SyntaxKind, a: Expr, src: Seq<u8>, at: Cursor)
    ensures
        #[trigger] reading(node(kind, a), src, at) == within(
            kind,
            reading(a, src, skip(src, at)),
        ),
{
    reveal(join);
    reveal(or_else);
    reveal(nothing);
    reveal(within);
    reveal(unless);
    reveal(read_token);
    lemma_reading_inner(node(kind, a), a, src, at, skip(src, at));
}

/// Expressions with one within them.
proof fn lemma_reading_inner(expr: Expr, inner: Expr, src: Seq<u8>, at: Cursor, start: Cursor)
    ensures
        exists|depth: nat| #[trigger]
            read(expr, src, at, depth) == reading(expr, src, at) && read(inner, src, start, depth)
                == reading(inner, src, start),
{
    let m = lemma_enough(expr, src, at);
    let n = lemma_enough(inner, src, start);
    let depth = most(m, n);
    assert(read(expr, src, at, depth) == reading(expr, src, at));
    assert(read(inner, src, start, depth) == reading(inner, src, start));
}

pub broadcast proof fn lemma_reading_opt(a: Expr, src: Seq<u8>, at: Cursor)
    ensures
        #[trigger] reading(opt(a), src, at) == or_else(
            reading(a, src, skip(src, at)),
            nothing(at),
        ),
{
    reveal(join);
    reveal(or_else);
    reveal(nothing);
    reveal(within);
    reveal(unless);
    reveal(read_token);
    lemma_reading_inner(opt(a), a, src, at, skip(src, at));
}

pub broadcast proof fn lemma_reading_not(a: Expr, src: Seq<u8>, at: Cursor)
    ensures
        #[trigger] reading(not(a), src, at) == unless(reading(a, src, skip(src, at)), at),
{
    reveal(join);
    reveal(or_else);
    reveal(nothing);
    reveal(within);
    reveal(unless);
    reveal(read_token);
    lemma_reading_inner(not(a), a, src, at, skip(src, at));
}

pub broadcast proof fn lemma_reading_if_next(
    set: Seq<SyntaxKind>,
    a: Expr,
    src: Seq<u8>,
    at: Cursor,
)
    ensures
        #[trigger] reading(if_next(set, a), src, at) == (if sees(src, at, set) {
            reading(a, src, skip(src, at))
        } else {
            nothing(at)
        }),
{
    lemma_reading_inner(if_next(set, a), a, src, at, skip(src, at));
}

pub broadcast proof fn lemma_reading_if_next_else(
    set: Seq<SyntaxKind>,
    a: Expr,
    b: Expr,
    src: Seq<u8>,
    at: Cursor,
)
    ensures
        #[trigger] reading(if_next_else(set, a, b), src, at) == (if sees(src, at, set) {
            reading(a, src, skip(src, at))
        } else {
            reading(b, src, at)
        }),
{
    lemma_reading_inner(if_next_else(set, a, b), a, src, at, skip(src, at));
    lemma_reading_inner(if_next_else(set, a, b), b, src, at, at);
}

pub broadcast proof fn lemma_reading_one(a: Expr, src: Seq<u8>, at: Cursor)
    ensures
        #[trigger] reading(one(a), src, at) == reading(a, src, skip(src, at)),
{
    lemma_reading_inner(one(a), a, src, at, skip(src, at));
}

pub broadcast proof fn lemma_reading_cached(kind: SyntaxKind, a: Expr, src: Seq<u8>, at: Cursor)
    ensures
        #[trigger] reading(cached(kind, a), src, at) == reading(a, src, at),
{
    lemma_reading_inner(cached(kind, a), a, src, at, at);
}

pub broadcast proof fn lemma_reading_no_alt(src: Seq<u8>, at: Cursor)
    ensures
        #[trigger] reading(alt(Seq::empty()), src, at) == Some(Reading::Fails),
{
    assert(read_alt(Seq::empty(), src, at, 0) == Some(Reading::Fails));
    lemma_reading(alt(Seq::empty()), src, at, 0);
}

/// The first alternative.
pub broadcast proof fn lemma_reading_first(a: Expr, src: Seq<u8>, at: Cursor)
    ensures
        #[trigger] reading(alt(Seq::empty().push(a)), src, at) == reading(a, src, skip(src, at)),
{
    reveal(or_else);
    lemma_reading_no_alt(src, at);
    lemma_reading_alt(Seq::empty(), a, src, at);
}

pub broadcast proof fn lemma_reading_alt(exprs: Seq<Expr>, a: Expr, src: Seq<u8>, at: Cursor)
    ensures
        #[trigger] reading(alt(exprs.push(a)), src, at) == or_else(
            reading(alt(exprs), src, at),
            reading(a, src, skip(src, at)),
        ),
{
    reveal(join);
    reveal(or_else);
    reveal(nothing);
    reveal(within);
    reveal(unless);
    reveal(read_token);
    let all = alt(exprs.push(a));
    let start = skip(src, at);
    let l = lemma_enough(all, src, at);
    let m = lemma_enough(alt(exprs), src, at);
    let n = lemma_enough(a, src, start);
    let depth = most(l, most(m, n));
    assert(exprs.push(a).drop_last() =~= exprs);
    assert(read(all, src, at, depth) == reading(all, src, at));
    assert(read(alt(exprs), src, at, depth) == reading(alt(exprs), src, at));
    assert(read(a, src, start, depth) == reading(a, src, start));
    assert(read_alt(exprs.push(a), src, at, depth) == reading(all, src, at));
    assert(read_alt(exprs, src, at, depth) == reading(alt(exprs), src, at));
}

/// A round of a repetition, and the others.
pub proof fn lemma_reading_many(a: Expr, src: Seq<u8>, at: Cursor)
    ensures
        reading(n_or_more(0, a), src, at) == (match reading(a, src, skip(src, at)) {
            Some(Reading::Fits(next, _)) => join(
                reading(a, src, skip(src, at)),
                reading(n_or_more(0, a), src, next),
            ),
            Some(Reading::Fails) => nothing(at),
            None => None,
        }),
{
    reveal(join);
    reveal(or_else);
    reveal(nothing);
    reveal(within);
    reveal(unless);
    reveal(read_token);
    let many = n_or_more(0, a);
    let start = skip(src, at);
    let next = end_of(reading(a, src, start));
    let l = lemma_enough(many, src, at);
    let m = lemma_enough(a, src, start);
    let n = lemma_enough(many, src, next);
    let depth = most(l, most(m, n));
    assert(read(many, src, at, depth + 1) == reading(many, src, at));
    assert(read(a, src, start, depth + 1) == reading(a, src, start));
    assert(read(many, src, next, depth) == reading(many, src, next));
}

/// At least one round of a repetition.
pub broadcast proof fn lemma_reading_one_or_more(a: Expr, src: Seq<u8>, at: Cursor)
    ensures
        #[trigger] reading(n_or_more(1, a), src, at) == join(
            reading(a, src, skip(src, at)),
            reading(
                n_or_more(0, a),
                src,
                end_of(reading(a, src, skip(src, at))),
            ),
        ),
{
    reveal(join);
    reveal(or_else);
    reveal(nothing);
    reveal(within);
    reveal(unless);
    reveal(read_token);
    assert(n_or_more(1, a) == one(a).and(n_or_more(0, a)));
    lemma_reading_and(one(a), n_or_more(0, a), src, at);
    lemma_reading_one(a, src, at);
}

pub proof fn lemma_reading_rule(kind: SyntaxKind, src: Seq<u8>, at: Cursor)
    ensures
        reading(Expr::Rule(kind), src, at) == reading(production(kind), src, at),
{
    let rule = Expr::Rule(kind);
    let m = lemma_enough(rule, src, at);
    let n = lemma_enough(production(kind), src, at);
    let depth = most(m, n);
    assert(read(rule, src, at, depth + 1) == reading(rule, src, at));
    assert(read(production(kind), src, at, depth) == reading(production(kind), src, at));
}

/// Trivia are skipped once.
pub broadcast proof fn lemma_skipped(src: Seq<u8>, at: Cursor)
    requires
        src.len() <= usize::MAX,
    ensures
        #[trigger] skip(src, skip(src, at)) == skip(src, at),
{
    reveal(skip);
    lemma_skipped_trivia(src, at);
}

proof fn lemma_skipped_trivia(src: Seq<u8>, at: Cursor)
    requires
        src.len() <= usize::MAX,
    ensures
        after_trivia(src, after_trivia(src, at)) == after_trivia(src, at),
        relevant_after(src, after_trivia(src, at)) == relevant_after(src, at),
        after_relevant(src, after_trivia(src, at)) == after_relevant(src, at),
    decreases src.len() - at.pos,
{
    lemma_lex(src, at);
    if let Some((token, next)) = lex(src, at) {
        if is_trivia_id(token.id) {
            lemma_skipped_trivia(src, next);
        }
    }
}

/// Trivia in front of a token make no difference to what is seen.
pub broadcast proof fn lemma_skipped_sees(src: Seq<u8>, at: Cursor, set: Seq<SyntaxKind>)
    requires
        src.len() <= usize::MAX,
    ensures
        #[trigger] sees(src, skip(src, at), set) == sees(src, at, set),
{
    reveal(skip);
    reveal(sees);
    lemma_skipped_trivia(src, at);
}

/// Trivia in front of a token make no difference.
pub broadcast proof fn lemma_skipped_token(set: Seq<SyntaxKind>, src: Seq<u8>, at: Cursor)
    requires
        src.len() <= usize::MAX,
    ensures
        #[trigger] read_token(set, src, skip(src, at)) == read_token(set, src, at),
{
    reveal(skip);
    reveal(read_token);
    lemma_skipped_trivia(src, at);
}

/// Trivia in front of a production make no difference.
pub broadcast proof fn lemma_skipped_rule(kind: SyntaxKind, src: Seq<u8>, at: Cursor)
    requires
        src.len() <= usize::MAX,
    ensures
        #[trigger] reading(Expr::Rule(kind), src, skip(src, at)) == reading(
            Expr::Rule(kind),
            src,
            at,
        ),
{
    broadcast use {lemma_reading_node, lemma_reading_cached, lemma_reading_no_alt};

    let start = skip(src, at);
    lemma_skipped(src, at);
    lemma_reading_rule(kind, src, at);
    lemma_reading_rule(kind, src, start);
    reveal(production);
    lemma_starts_node(kind);
}

/// A production is a node.
proof fn lemma_starts_node(kind: SyntaxKind)
    ensures
        production(kind) == alt(Seq::empty()) || (exists|a: Expr|
            production(kind) == #[trigger] node(kind, a)) || (exists|a: Expr|
            production(kind) == cached(kind, #[trigger] node(kind, a))),
{
    let expr = production(kind);
    reveal(production);
    reveal(grammar::import_stmt);
    reveal(grammar::rule_decl);
    reveal(grammar::rule_mods);
    reveal(grammar::rule_tags);
    reveal(grammar::meta_blk);
    reveal(grammar::meta_def);
    reveal(grammar::patterns_blk);
    reveal(grammar::pattern_def);
    reveal(grammar::pattern_mods);
    reveal(grammar::pattern_mod);
    reveal(grammar::condition_blk);
    reveal(grammar::hex_pattern);
    reveal(grammar::hex_sub_pattern);
    reveal(grammar::hex_alternative);
    reveal(grammar::hex_jump);
    reveal(grammar::boolean_expr);
    reveal(grammar::boolean_term);
    reveal(grammar::expr);
    reveal(grammar::term);
    reveal(grammar::range);
    reveal(grammar::primary_expr);
    reveal(grammar::primary_node);
    reveal(grammar::for_expr);
    reveal(grammar::of_expr);
    reveal(grammar::quantifier);
    reveal(grammar::iterable);
    reveal(grammar::boolean_expr_tuple);
    reveal(grammar::expr_tuple);
    reveal(grammar::pattern_ident_tuple);
    if kind == SyntaxKind::PRIMARY_EXPR {
        assert(expr == cached(kind, node(kind, *(*expr->Cached_1)->Node_1)));
    } else if expr is Node {
        assert(expr == node(kind, *expr->Node_1));
    }
}

/// The first kind of a set that fits a token.
pub proof fn lemma_kind_found(set: Seq<SyntaxKind>, id: TokenId, i: int)
    requires
        0 <= i < set.len(),
        token_id_of(set[i]) == Some(id),
        forall|j: int| 0 <= j < i ==> token_id_of(#[trigger] set[j]) != Some(id),
    ensures
        kind_in(set, id) == Some(set[i]),
    decreases set.len(),
{
    if i > 0 {
        let others = set.drop_first();
        assert(token_id_of(set[0]) != Some(id));
        assert forall|j: int| 0 <= j < i - 1 implies token_id_of(#[trigger] others[j]) != Some(
            id,
        ) by {
            assert(others[j] == set[j + 1]);
        }
        lemma_kind_found(others, id, i - 1);
    }
}

/// A token that fits no kind of a set.
pub proof fn lemma_kind_missing(set: Seq<SyntaxKind>, id: TokenId)
    requires
        forall|j: int| 0 <= j < set.len() ==> token_id_of(#[trigger] set[j]) != Some(id),
    ensures
        kind_in(set, id) is None,
    decreases set.len(),
{
    if set.len() > 0 {
        let others = set.drop_first();
        assert forall|j: int| 0 <= j < others.len() implies token_id_of(#[trigger] others[j])
            != Some(id) by {
            assert(others[j] == set[j + 1]);
        }
        lemma_kind_missing(others, id);
    }
}

pub broadcast group group_readings {
    lemma_reading_token,
    lemma_reading_described,
    lemma_reading_mode,
    lemma_reading_recover,
    lemma_reading_sync,
    lemma_reading_and,
    lemma_reading_node,
    lemma_reading_opt,
    lemma_reading_not,
    lemma_reading_if_next,
    lemma_reading_if_next_else,
    lemma_reading_one,
    lemma_reading_cached,
    lemma_reading_no_alt,
    lemma_reading_first,
    lemma_reading_alt,
    lemma_reading_one_or_more,
    lemma_skipped,
    lemma_skipped_sees,
    lemma_skipped_token,
    lemma_skipped_rule,
}

/// What is read if a step is repeated as many times as it fits, if `n` times are
/// enough for that.
pub open spec fn rounds(
    step: spec_fn(Cursor) -> Option<Reading>,
    at: Cursor,
    n: nat,
) -> Option<Reading>
    decreases n,
{
    match step(at) {
        Some(Reading::Fits(next, _)) => if n == 0 {
            None
        } else {
            join(step(at), rounds(step, next, (n - 1) as nat))
        },
        Some(Reading::Fails) => nothing(at),
        None => None,
    }
}

/// What is read if a step is repeated as many times as it fits.
pub open spec fn repeated(
    step: spec_fn(Cursor) -> Option<Reading>,
    at: Cursor,
) -> Option<Reading> {
    if exists|n: nat| #[trigger] rounds(step, at, n) is Some {
        let n = choose|n: nat| #[trigger] rounds(step, at, n) is Some;
        rounds(step, at, n)
    } else {
        None
    }
}

/// More rounds than needed make no difference.
proof fn lemma_more_rounds(
    step: spec_fn(Cursor) -> Option<Reading>,
    at: Cursor,
    less: nat,
    more: nat,
)
    requires
        less <= more,
        rounds(step, at, less) is Some,
    ensures
        rounds(step, at, more) == rounds(step, at, less),
    decreases less,
{
    reveal(join);
    reveal(or_else);
    reveal(nothing);
    reveal(within);
    reveal(unless);
    reveal(read_token);
    if let Some(Reading::Fits(next, _)) = step(at) {
        lemma_more_rounds(step, next, (less - 1) as nat, (more - 1) as nat);
    }
}

/// Enough rounds give what is read.
pub proof fn lemma_rounds(step: spec_fn(Cursor) -> Option<Reading>, at: Cursor, n: nat)
    requires
        rounds(step, at, n) is Some,
    ensures
        repeated(step, at) == rounds(step, at, n),
{
    reveal(join);
    reveal(or_else);
    reveal(nothing);
    reveal(within);
    reveal(unless);
    reveal(read_token);
    let other = choose|n: nat| #[trigger] rounds(step, at, n) is Some;
    if n <= other {
        lemma_more_rounds(step, at, n, other);
    } else {
        lemma_more_rounds(step, at, other, n);
    }
}

/// The first round, and the others. A step that does not fit ends the repetition
/// where it is.
pub proof fn lemma_round(step: spec_fn(Cursor) -> Option<Reading>, at: Cursor)
    ensures
        repeated(step, at) == (match step(at) {
            Some(Reading::Fits(next, _)) => join(step(at), repeated(step, next)),
            Some(Reading::Fails) => nothing(at),
            None => None,
        }),
{
    reveal(join);
    reveal(or_else);
    reveal(nothing);
    reveal(within);
    reveal(unless);
    reveal(read_token);
    match step(at) {
        Some(Reading::Fits(next, _)) => {
            if exists|n: nat| #[trigger] rounds(step, at, n) is Some {
                let n = choose|n: nat| #[trigger] rounds(step, at, n) is Some;
                lemma_rounds(step, next, (n - 1) as nat);
            } else if exists|n: nat| #[trigger] rounds(step, next, n) is Some {
                let n = choose|n: nat| #[trigger] rounds(step, next, n) is Some;
                assert(rounds(step, at, n + 1) is Some);
            }
        },
        Some(Reading::Fails) => lemma_rounds(step, at, 0),
        None => if exists|n: nat| #[trigger] rounds(step, at, n) is Some {
            let n = choose|n: nat| #[trigger] rounds(step, at, n) is Some;
        },
    }
}

proof fn lemma_read_rounds(
    a: Expr,
    src: Seq<u8>,
    at: Cursor,
    step: spec_fn(Cursor) -> Option<Reading>,
    depth: nat,
)
    requires
        forall|c: Cursor| #[trigger] step(c) == reading(a, src, skip(src, c)),
        read(n_or_more(0, a), src, at, depth) is Some,
    ensures
        rounds(step, at, depth) is Some,
    decreases depth,
{
    reveal(join);
    reveal(or_else);
    reveal(nothing);
    reveal(within);
    reveal(unless);
    reveal(read_token);
    let start = skip(src, at);
    assert(read(a, src, start, depth) is Some);
    lemma_reading(a, src, start, depth);
    assert(step(at) == reading(a, src, start));
    if let Some(Reading::Fits(next, _)) = step(at) {
        lemma_read_rounds(a, src, next, step, (depth - 1) as nat);
    }
}

proof fn lemma_rounds_read(
    a: Expr,
    src: Seq<u8>,
    at: Cursor,
    step: spec_fn(Cursor) -> Option<Reading>,
    n: nat,
)
    requires
        forall|c: Cursor| #[trigger] step(c) == reading(a, src, skip(src, c)),
        rounds(step, at, n) is Some,
    ensures
        reading(n_or_more(0, a), src, at) == rounds(step, at, n),
    decreases n,
{
    reveal(join);
    reveal(or_else);
    reveal(nothing);
    reveal(within);
    reveal(unless);
    reveal(read_token);
    lemma_reading_many(a, src, at);
    assert(step(at) == reading(a, src, skip(src, at)));
    if let Some(Reading::Fits(next, _)) = step(at) {
        assert(rounds(step, next, (n - 1) as nat) is Some);
        lemma_rounds_read(a, src, next, step, (n - 1) as nat);
    }
}

/// A repetition is read round by round.
pub proof fn lemma_repeated(
    a: Expr,
    src: Seq<u8>,
    at: Cursor,
    step: spec_fn(Cursor) -> Option<Reading>,
)
    requires
        forall|c: Cursor| #[trigger] step(c) == reading(a, src, skip(src, c)),
    ensures
        reading(n_or_more(0, a), src, at) == repeated(step, at),
{
    reveal(join);
    reveal(or_else);
    reveal(nothing);
    reveal(within);
    reveal(unless);
    reveal(read_token);
    let many = n_or_more(0, a);
    if exists|depth: nat| #[trigger] read(many, src, at, depth) is Some {
        let depth = choose|depth: nat| #[trigger] read(many, src, at, depth) is Some;
        lemma_read_rounds(a, src, at, step, depth);
        lemma_rounds_read(a, src, at, step, depth);
        lemma_rounds(step, at, depth);
    } else if exists|n: nat| #[trigger] rounds(step, at, n) is Some {
        let n = choose|n: nat| #[trigger] rounds(step, at, n) is Some;
        lemma_rounds_read(a, src, at, step, n);
    }
}

} // verus!
