//! What holds of a source file, and of the items that it is made of.

use crate::event::EventView;
use crate::grammar;
use crate::grammar::{if_next, inner_of, node, opt, production, token, Expr};
use crate::item::{after_next, events_from, events_of, parses_item, parses_next};
use crate::laws::frame::{
    ahead_of, lemma_ahead_refl, lemma_ahead_trans, lemma_begin, lemma_close, lemma_enter_opt,
    lemma_expect, lemma_flush_errors, lemma_handle_errors, lemma_parses_ahead, lemma_skip_trivia,
    lemma_skip_until, lemma_sync, lemma_take, lemma_trivia,
};
use crate::laws::progress::lemma_consumes;
use crate::laws::shape::{
    complete, covered, extends, lemma_complete, lemma_complete_node, lemma_complete_none,
    lemma_complete_one, lemma_extends, lemma_extends_close, lemma_extends_flush, lemma_extends_same,
    lemma_extends_take, lemma_extends_trans, lemma_extends_trivia, opened,
};
use crate::laws::totality::lemma_total;
use crate::message::expecting_item;
use crate::semantics::{
    eval, lemma_cat_split, lemma_deterministic, lemma_node_split, lemma_opt_split, lemma_rule_split,
    parses,
};
use crate::state::{kind_in, State};
use crate::syntax_kind::{kind_of, SyntaxKind};
use crate::token::{description_of, is_trivia_id, TokenId};
use crate::token_stream::{lemma_lex, relevant_after, token_after};
use vstd::prelude::*;

verus! {

/// The next item leaves the parser in one state only.
pub proof fn lemma_next_deterministic(s: State, t: State, u: State)
    requires
        parses_next(s, t),
        parses_next(s, u),
    ensures
        t == u,
{
    let a = choose|a: State| #[trigger] parses_item(s.trivia(), a) && t == a.leave_item();
    let b = choose|b: State| #[trigger] parses_item(s.trivia(), b) && u == b.leave_item();
    if let Some(token) = token_after(s.trivia().src, s.trivia().cursor) {
        match token.id {
            TokenId::IMPORT_KW => lemma_deterministic(
                Expr::Rule(SyntaxKind::IMPORT_STMT),
                s.trivia(),
                a,
                b,
            ),
            TokenId::GLOBAL_KW | TokenId::PRIVATE_KW | TokenId::RULE_KW => lemma_deterministic(
                Expr::Rule(SyntaxKind::RULE_DECL),
                s.trivia(),
                a,
                b,
            ),
            _ => {},
        }
    }
}

/// An expected token that is there is consumed.
proof fn lemma_expect_found(s: State, set: Seq<SyntaxKind>)
    requires
        s.placed(),
        !s.failed,
        relevant_after(s.src, s.cursor) matches Some(token) && kind_in(set, token.id) is Some,
    ensures
        s.cursor.pos < s.expect(set, None).cursor.pos,
{
    reveal(State::expect);
    let token = relevant_after(s.src, s.cursor)->0;
    let kind = kind_in(set, token.id)->0;
    let unexpected = State { unexpected: s.unexpected.insert(token.span.key_of()), ..s };
    lemma_handle_errors(unexpected);
    let noted = if s.in_not {
        unexpected.handle_errors()
    } else {
        s
    };
    lemma_trivia(noted);
    lemma_take(noted.trivia(), kind);
    lemma_flush_errors(noted.trivia().take(kind));
    lemma_expect(s, set, None);
}

/// An expected token that is not there leaves the parser where it is.
proof fn lemma_expect_missing(s: State, set: Seq<SyntaxKind>)
    requires
        s.placed(),
    ensures
        s.expect(set, None).failed ==> s.expect(set, None).cursor == s.cursor,
{
    reveal(State::expect);
    if !s.failed {
        if let Some(token) = relevant_after(s.src, s.cursor) {
            let key = token.span.key_of();
            lemma_handle_errors(s.note_expected(key, set, None));
            if let Some(kind) = kind_in(set, token.id) {
                let unexpected = State { unexpected: s.unexpected.insert(key), ..s };
                lemma_handle_errors(unexpected);
                let noted = if s.in_not {
                    unexpected.handle_errors()
                } else {
                    s
                };
                lemma_trivia(noted);
                lemma_take(noted.trivia(), kind);
                lemma_flush_errors(noted.trivia().take(kind));
            }
        }
    }
}

/// An import statement consumes the keyword that it starts with.
proof fn lemma_import_consumes(s: State, u: State)
    requires
        s.placed(),
        !s.failed,
        token_after(s.src, s.cursor) matches Some(token) && token.id == TokenId::IMPORT_KW,
        parses(Expr::Rule(SyntaxKind::IMPORT_STMT), s, u),
    ensures
        s.cursor.pos < u.cursor.pos,
{
    reveal(production);
    reveal(grammar::import_stmt);
    let kind = SyntaxKind::IMPORT_STMT;
    let set = seq![SyntaxKind::IMPORT_KW];
    let first = token(set);
    let second = token(seq![SyntaxKind::STRING_LIT]);
    lemma_rule_split(kind, s, u);
    let t = lemma_node_split(kind, first.and(second), s, u);
    let start = s.begin(kind);
    let m = lemma_cat_split(first, second, start, t);
    lemma_begin(s, kind);
    assert(kind_in(set, TokenId::IMPORT_KW) == Some(SyntaxKind::IMPORT_KW));
    lemma_expect_found(start, set);
    assert(m == start.expect(set, None)) by {
        let depth = choose|depth: nat| #[trigger]
            eval(first, start, depth) == Some(m);
    }
    lemma_expect(start, set, None);
    lemma_parses_ahead(second, m, t);
}

/// The expression goes on with another one, or with some others.
spec fn starts_with(expr: Expr, prefix: Expr) -> bool
    decreases expr,
{
    expr == prefix || match expr {
        Expr::Cat(first, _) => starts_with(*first, prefix),
        _ => false,
    }
}

broadcast proof fn lemma_starts_with(a: Expr, b: Expr, prefix: Expr)
    requires
        #[trigger] starts_with(a, prefix),
    ensures
        starts_with(#[trigger] a.and(b), prefix),
{
}

/// The brace of a rule comes after its header.
proof fn lemma_header()
    ensures
        production(SyntaxKind::RULE_DECL) == node(
            SyntaxKind::RULE_DECL,
            inner_of(production(SyntaxKind::RULE_DECL)),
        ),
        starts_with(
            inner_of(production(SyntaxKind::RULE_DECL)),
            grammar::rule_header().recover_and_sync(seq![SyntaxKind::L_BRACE]),
        ),
{
    broadcast use lemma_starts_with;

    reveal(production);
    reveal(grammar::rule_decl);
    reveal(grammar::rule_parts);
    reveal(grammar::rule_blocks);
    let prefix = grammar::rule_header().recover_and_sync(seq![SyntaxKind::L_BRACE]);
    assert(starts_with(prefix, prefix));
}

/// The state between the start of an expression and the rest of it.
proof fn lemma_prefix(expr: Expr, prefix: Expr, s: State, u: State) -> (t: State)
    requires
        s.placed(),
        starts_with(expr, prefix),
        parses(expr, s, u),
    ensures
        parses(prefix, s, t),
        ahead_of(u, t),
    decreases expr,
{
    if expr == prefix {
        lemma_parses_ahead(expr, s, u);
        lemma_ahead_refl(u);
        u
    } else {
        let first = *expr->Cat_0;
        let second = *expr->Cat_1;
        assert(expr == first.and(second));
        let m = lemma_cat_split(first, second, s, u);
        let t = lemma_prefix(first, prefix, s, m);
        lemma_parses_ahead(first, s, m);
        lemma_parses_ahead(second, m, u);
        lemma_ahead_trans(t, m, u);
        t
    }
}

/// Parsing what a rule starts with either consumes a token or leaves the parser
/// where it was.
proof fn lemma_header_step(s: State, t: State)
    requires
        s.placed(),
        !s.failed,
        parses(grammar::rule_header(), s, t),
    ensures
        ahead_of(t, s),
        s.cursor.pos < t.cursor.pos || t.cursor == s.cursor,
{
    let mods = Expr::Rule(SyntaxKind::RULE_MODS);
    let tags = if_next(seq![SyntaxKind::COLON], Expr::Rule(SyntaxKind::RULE_TAGS));
    let keyword = seq![SyntaxKind::RULE_KW];
    let ident = seq![SyntaxKind::IDENT];
    let a = opt(mods);
    let b = a.token(keyword);
    let c = b.token(ident);
    reveal(grammar::rule_header);
    lemma_parses_ahead(c.and(tags), s, t);
    let after_c = lemma_cat_split(c, tags, s, t);
    let after_b = lemma_cat_split(b, token(ident), s, after_c);
    let after_a = lemma_cat_split(a, token(keyword), s, after_b);
    lemma_parses_ahead(a, s, after_a);
    let u = lemma_opt_split(mods, s, after_a);
    lemma_enter_opt(s);
    lemma_parses_ahead(mods, s.enter_opt(), u);
    lemma_consumes(mods, s.enter_opt(), u);
    lemma_token_step(keyword, after_a, after_b);
    lemma_token_step(ident, after_b, after_c);
    lemma_parses_ahead(tags, after_c, t);
    if after_c.failed {
        assert(t == after_c) by {
            let depth = choose|depth: nat| #[trigger] eval(tags, after_c, depth) == Some(t);
        }
    }
}

/// A rule declaration consumes a token: if none of those that it is made of,
/// then the ones that are skipped up to the opening brace.
proof fn lemma_rule_consumes(s: State, u: State)
    requires
        s.placed(),
        !s.failed,
        token_after(s.src, s.cursor) matches Some(token) && token.id != TokenId::L_BRACE
            && !is_trivia_id(token.id),
        parses(Expr::Rule(SyntaxKind::RULE_DECL), s, u),
    ensures
        s.cursor.pos < u.cursor.pos,
{
    lemma_header();
    let kind = SyntaxKind::RULE_DECL;
    let brace = seq![SyntaxKind::L_BRACE];
    let header = grammar::rule_header();
    let recovered = header.and(Expr::Recover);
    let synced = recovered.and(Expr::Sync(brace));
    let inner = inner_of(production(kind));
    lemma_rule_split(kind, s, u);
    let end = lemma_node_split(kind, inner, s, u);
    let start = s.begin(kind);
    lemma_begin(s, kind);
    let c = lemma_prefix(inner, synced, start, end);
    let b = lemma_cat_split(recovered, Expr::Sync(brace), start, c);
    let a = lemma_cat_split(header, Expr::Recover, start, b);
    lemma_header_step(start, a);
    assert(b == a.recover()) by {
        let depth = choose|depth: nat| #[trigger] eval(Expr::Recover, a, depth) == Some(b);
    }
    assert(c == b.sync(brace)) by {
        let depth = choose|depth: nat| #[trigger] eval(Expr::Sync(brace), b, depth) == Some(c);
    }
    lemma_sync(b, brace);
    if b.cursor.pos == start.cursor.pos {
        assert(b.cursor == s.cursor);
        assert(kind_in(brace, token_after(s.src, s.cursor)->0.id) is None) by {
            reveal_with_fuel(kind_in, 2);
        }
        lemma_sync_consumes(b, brace);
    }
}

/// Expecting a token.
proof fn lemma_token_step(set: Seq<SyntaxKind>, s: State, t: State)
    requires
        s.placed(),
        parses(token(set), s, t),
    ensures
        ahead_of(t, s),
        t.failed ==> t.cursor == s.cursor,
        !t.failed ==> s.cursor.pos < t.cursor.pos,
{
    let depth = choose|depth: nat| #[trigger]
        eval(token(set), s, depth) == Some(t);
    lemma_expect(s, set, None);
    lemma_expect_missing(s, set);
}

/// Skipping tokens consumes the first one, if it is not in the set.
proof fn lemma_sync_consumes(s: State, set: Seq<SyntaxKind>)
    requires
        s.placed(),
        token_after(s.src, s.cursor) matches Some(token) && kind_in(set, token.id) is None
            && !is_trivia_id(token.id),
    ensures
        s.cursor.pos < s.sync(set).cursor.pos,
{
    reveal(State::sync);
    let token = token_after(s.src, s.cursor)->0;
    let noted = s.note_expected(token.span.key_of(), set, None);
    lemma_handle_errors(noted);
    lemma_flush_errors(noted);
    let reported = if noted.pending.len() == 0 {
        noted.handle_errors()
    } else {
        noted.flush_errors()
    };
    let opened = State { out: reported.out.begin(SyntaxKind::ERROR), ..reported };
    reported.out.lemma_begin(SyntaxKind::ERROR);
    lemma_lex(opened.src, opened.cursor);
    lemma_take(opened, kind_of(token.id));
    lemma_skip_until(opened.bump(), set);
}

/// Rejecting a token consumes it.
proof fn lemma_reject(s: State)
    requires
        s.placed(),
        token_after(s.src, s.cursor) is Some,
    ensures
        ({
            let t = s.reject(token_after(s.src, s.cursor)->0);
            &&& ahead_of(t, s)
            &&& extends(t, s)
            &&& s.cursor.pos < t.cursor.pos
        }),
{
    let token = token_after(s.src, s.cursor)->0;
    let error = EventView::Error(expecting_item(description_of(token.id)), token.span);
    let reported = State { out: s.out.push(error), ..s };
    s.out.lemma_push(error);
    let begun = State { out: reported.out.begin(SyntaxKind::ERROR), ..reported };
    reported.out.lemma_begin(SyntaxKind::ERROR);
    lemma_lex(s.src, s.cursor);
    lemma_take(begun, kind_of(token.id));
    lemma_extends_take(begun, kind_of(token.id));
    let taken = begun.bump();
    lemma_close(reported, SyntaxKind::ERROR, taken);
    lemma_extends_close(reported, SyntaxKind::ERROR, taken);
    let closed = State { out: taken.out.end(), ..taken };
    assert(reported.out.events.take(s.out.events.len() as int) =~= s.out.events);
    assert(reported.out.events.skip(s.out.events.len() as int) =~= seq![error]);
    lemma_complete_one(error, s.cursor.pos as int, s.cursor.pos as int);
    lemma_ahead_trans(s, reported, closed);
    lemma_extends_trans(s, reported, closed);
    lemma_extends_same(closed, s.reject(token));
    lemma_extends_trans(s, closed, s.reject(token));
}

/// Parsing the next item consumes a token. It adds whole nodes to the output,
/// and their tokens cover what has been consumed.
pub proof fn lemma_next(s: State, t: State)
    requires
        s.placed(),
        !s.failed,
        s.cursor.pos < s.src.len(),
        parses_next(s, t),
    ensures
        ahead_of(t, s),
        extends(t, s),
        s.cursor.pos < t.cursor.pos,
        t.out.events.len() > s.out.events.len(),
        !t.failed,
        t.pending.len() == 0,
        t.expected == Map::<(usize, usize), Seq<Seq<char>>>::empty(),
        t.cache == Set::<(usize, usize)>::empty(),
{
    let trimmed = s.trivia();
    let u = choose|u: State| #[trigger] parses_item(trimmed, u) && t == u.leave_item();
    lemma_trivia(s);
    lemma_skip_trivia(s);
    lemma_extends_trivia(s);
    lemma_trimmed(s);
    lemma_lex(trimmed.src, trimmed.cursor);
    match token_after(trimmed.src, trimmed.cursor) {
        None => {
            lemma_ahead_refl(u);
            lemma_ahead_trans(s, trimmed, u);
            lemma_extends_same(trimmed, u);
        },
        Some(token) => match token.id {
            TokenId::IMPORT_KW => {
                lemma_import_consumes(trimmed, u);
                lemma_parses_ahead(Expr::Rule(SyntaxKind::IMPORT_STMT), trimmed, u);
                lemma_extends(Expr::Rule(SyntaxKind::IMPORT_STMT), trimmed, u);
            },
            TokenId::GLOBAL_KW | TokenId::PRIVATE_KW | TokenId::RULE_KW => {
                lemma_rule_consumes(trimmed, u);
                lemma_parses_ahead(Expr::Rule(SyntaxKind::RULE_DECL), trimmed, u);
                lemma_extends(Expr::Rule(SyntaxKind::RULE_DECL), trimmed, u);
            },
            _ => lemma_reject(trimmed),
        },
    }
    lemma_ahead_trans(s, trimmed, u);
    lemma_extends_trans(s, trimmed, u);
    lemma_flush_errors(u);
    lemma_extends_flush(u);
    lemma_ahead_trans(s, u, u.flush_errors());
    lemma_extends_trans(s, u, u.flush_errors());
    lemma_extends_same(u.flush_errors(), t);
    lemma_extends_trans(s, u.flush_errors(), t);
    assert(ahead_of(t, u.flush_errors())) by {
        lemma_ahead_refl(u.flush_errors());
    }
    lemma_ahead_trans(s, u.flush_errors(), t);
    if t.out.events.len() == s.out.events.len() {
        assert(t.out.events.skip(s.out.events.len() as int) =~= Seq::empty());
    }
}

/// After skipping trivia, the next token is not trivia.
proof fn lemma_trimmed(s: State)
    requires
        s.placed(),
    ensures
        token_after(s.src, s.skip_trivia().cursor) matches Some(token)
            ==> !is_trivia_id(token.id),
    decreases s.rest(),
{
    lemma_lex(s.src, s.cursor);
    if let Some(token) = token_after(s.src, s.cursor) {
        if is_trivia_id(token.id) {
            lemma_take(s, kind_of(token.id));
            lemma_trimmed(s.bump());
        }
    }
}

/// There is a next state, whatever follows in the source.
pub proof fn lemma_after_next(s: State)
    requires
        s.placed(),
    ensures
        parses_next(s, after_next(s)),
{
    let trimmed = s.trivia();
    lemma_trivia(s);
    let u = match token_after(trimmed.src, trimmed.cursor) {
        None => State { failed: true, ..trimmed },
        Some(token) => match token.id {
            TokenId::IMPORT_KW => {
                let rule = Expr::Rule(SyntaxKind::IMPORT_STMT);
                lemma_total(SyntaxKind::IMPORT_STMT, trimmed);
                choose|u: State| parses(rule, trimmed, u)
            },
            TokenId::GLOBAL_KW | TokenId::PRIVATE_KW | TokenId::RULE_KW => {
                let rule = Expr::Rule(SyntaxKind::RULE_DECL);
                lemma_total(SyntaxKind::RULE_DECL, trimmed);
                choose|u: State| parses(rule, trimmed, u)
            },
            _ => trimmed.reject(token),
        },
    };
    assert(parses_item(trimmed, u));
    assert(parses_next(s, u.leave_item()));
}

/// The events for the rest of a source describe whole nodes, and their tokens
/// cover it.
pub proof fn lemma_events_from(s: State)
    requires
        s.placed(),
        !s.failed,
        s.out.events.len() == 0,
        s.out.open.len() == 0,
    ensures
        complete(events_from(s), s.cursor.pos as int, s.src.len() as int),
    decreases s.rest(),
{
    if s.cursor.pos < s.src.len() {
        let t = after_next(s);
        lemma_after_next(s);
        lemma_next(s, t);
        assert(t.out.events.skip(0) =~= t.out.events);
        let next = t.drained();
        lemma_events_from(next);
        lemma_complete(
            t.out.events,
            events_from(next),
            s.cursor.pos as int,
            t.cursor.pos as int,
            s.src.len() as int,
        );
    } else {
        lemma_complete_none(s.cursor.pos as int);
    }
}

/// Whatever the source is, the syntax tree is lossless: its tokens cover the
/// source from the start to the end, in order and without gaps. Each node ends
/// with the kind that it started with, and within the node that it started in.
pub proof fn lemma_complete_file(src: Seq<u8>)
    requires
        src.len() <= usize::MAX,
    ensures
        covered(events_of(src), 0) == Some(src.len() as int),
        opened(events_of(src), Seq::empty()) == Some(Seq::<SyntaxKind>::empty()),
{
    let s = State::initial(src);
    lemma_events_from(s);
    lemma_complete_node(SyntaxKind::SOURCE_FILE, events_from(s), 0, src.len() as int);
}

} // verus!
