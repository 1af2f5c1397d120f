//! What is written as the language says is parsed without errors.

use crate::event::EventView;
use crate::grammar::Expr;
use crate::item::{after_next, events_from, events_of, parses_item, parses_next};
use crate::laws::cache::lemma_trivia_place;
use crate::laws::file::{faultless, in_file};
use crate::laws::flawless::{
    lemma_import_outcome, lemma_rule_outcome, lemma_silent_trans, lemma_silent_trivia, silent,
};
use crate::laws::frame::{lemma_parses_ahead, lemma_skip_cache, lemma_skip_trivia, lemma_trivia};
use crate::laws::items::{lemma_after_next, lemma_next};
use crate::laws::language::{if_before, law_import_stmt, law_rule_decl, law_rule_mods, reads};
use crate::laws::reading::{
    join, lemma_skipped_rule, lemma_skipped_token, nothing, or_else, skip, within, Reading,
};
use crate::laws::valid::{
    lemma_shows_more, lemma_shows_same, lemma_shows_trivia, lemma_tidy_cat, lemma_tidy_node,
    lemma_tidy_none, outside, shows, tidy,
};
use crate::laws::words::{is_at, lemma_one_kind};
use crate::state::{error_events, State};
use crate::syntax_kind::SyntaxKind;
use crate::token::TokenId;
use crate::token_stream::{lemma_lex, relevant_after, token_after};
use crate::tokenizer::Cursor;
use vstd::prelude::*;

verus! {

/// An import statement or a rule is read.
pub open spec fn reads_item(src: Seq<u8>, at: Cursor) -> Option<Reading> {
    or_else(reads(SyntaxKind::IMPORT_STMT, src, at), reads(SyntaxKind::RULE_DECL, src, at))
}

/// From a place on, the source is some items, one after another, and nothing else
/// but trivia.
pub open spec fn has_items(src: Seq<u8>, at: Cursor, items: Seq<Seq<EventView>>) -> bool
    decreases items.len(),
{
    if items.len() == 0 {
        relevant_after(src, at) is None
    } else {
        reads_item(src, at) matches Some(Reading::Fits(next, item)) && item == items[0]
            && has_items(src, next, items.drop_first())
    }
}

/// An import statement starts with `import`.
proof fn lemma_import_starts(src: Seq<u8>, at: Cursor)
    requires
        src.len() <= usize::MAX,
    ensures
        reads(SyntaxKind::IMPORT_STMT, src, at) matches Some(Reading::Fits(_, _)) ==> is_at(
            src,
            at,
            TokenId::IMPORT_KW,
        ),
        !is_at(src, at, TokenId::IMPORT_KW) ==> reads(SyntaxKind::IMPORT_STMT, src, at) == Some(
            Reading::Fails,
        ),
{
    reveal(join);
    reveal(within);
    law_import_stmt(src, at);
    lemma_one_kind(src, at, SyntaxKind::IMPORT_KW, TokenId::IMPORT_KW);
}

/// A rule starts with one of its modifiers, or with `rule`.
proof fn lemma_rule_starts(src: Seq<u8>, at: Cursor)
    requires
        src.len() <= usize::MAX,
        reads(SyntaxKind::RULE_DECL, src, at) matches Some(Reading::Fits(_, _)),
    ensures
        is_at(src, at, TokenId::PRIVATE_KW) || is_at(src, at, TokenId::GLOBAL_KW) || is_at(
            src,
            at,
            TokenId::RULE_KW,
        ),
{
    reveal(join);
    reveal(within);
    reveal(or_else);
    reveal(nothing);
    reveal(if_before);
    law_rule_decl(src, at);
    law_rule_mods(src, at);
    lemma_one_kind(src, at, SyntaxKind::PRIVATE_KW, TokenId::PRIVATE_KW);
    lemma_one_kind(src, at, SyntaxKind::GLOBAL_KW, TokenId::GLOBAL_KW);
    lemma_one_kind(src, at, SyntaxKind::RULE_KW, TokenId::RULE_KW);
    lemma_skipped_token(seq![SyntaxKind::RULE_KW], src, at);
}

/// An item that is read as one is what the parser finds next, without an error.
pub proof fn law_next_item(s: State, t: State)
    requires
        s.placed(),
        !s.failed,
        !s.in_opt,
        !s.in_not,
        s.pending.len() == 0,
        s.cache == Set::<(usize, usize)>::empty(),
        parses_next(s, t),
        reads_item(s.src, s.cursor) matches Some(Reading::Fits(_, _)),
    ensures
        silent(s, t),
        reads_item(s.src, s.cursor) == Some(
            Reading::Fits(t.cursor, outside(t.out.events.skip(s.out.events.len() as int))),
        ),
        shows(s, t, outside(t.out.events.skip(s.out.events.len() as int))),
{
    let src = s.src;
    let trimmed = s.trivia();
    let u = choose|u: State| #[trigger] parses_item(trimmed, u) && t == u.leave_item();
    lemma_trivia(s);
    lemma_skip_trivia(s);
    lemma_trivia_place(s);
    lemma_shows_trivia(s);
    lemma_silent_trivia(s);
    lemma_skip_cache(s);
    reveal(or_else);
    lemma_import_starts(src, s.cursor);
    assert(trimmed.cursor == skip(src, s.cursor)) by {
        reveal(skip);
    }
    lemma_skipped_rule(SyntaxKind::IMPORT_STMT, src, s.cursor);
    lemma_skipped_rule(SyntaxKind::RULE_DECL, src, s.cursor);
    if is_at(src, s.cursor, TokenId::IMPORT_KW) {
        if reads(SyntaxKind::IMPORT_STMT, src, s.cursor) == Some(Reading::Fails) {
            lemma_rule_starts(src, s.cursor);
        }
        lemma_import_outcome(trimmed, u);
        lemma_parses_ahead(Expr::Rule(SyntaxKind::IMPORT_STMT), trimmed, u);
    } else {
        lemma_rule_starts(src, s.cursor);
        lemma_rule_outcome(trimmed, u);
        lemma_parses_ahead(Expr::Rule(SyntaxKind::RULE_DECL), trimmed, u);
    }
    lemma_silent_trans(s, trimmed, u);
    assert(u.pending =~= Seq::empty());
    assert(error_events(u.pending) =~= Seq::empty());
    assert(u.out.events + error_events(u.pending) =~= u.out.events);
    assert(t.out.events == u.out.events);
    let shown = outside(u.out.events.skip(trimmed.out.events.len() as int));
    lemma_shows_more(s, trimmed, u, shown);
    lemma_shows_same(u, t);
    lemma_shows_more(s, u, t, shown);
}

/// The rest of a source that is made of items.
proof fn lemma_rest(s: State, items: Seq<Seq<EventView>>)
    requires
        s.placed(),
        !s.failed,
        !s.in_opt,
        !s.in_not,
        s.pending.len() == 0,
        s.cache == Set::<(usize, usize)>::empty(),
        s.out.events.len() == 0,
        s.out.open.len() == 0,
        has_items(s.src, s.cursor, items),
    ensures
        faultless(events_from(s)),
        tidy(events_from(s)),
        outside(events_from(s)) == items.flatten(),
    decreases s.rest(),
{
    lemma_tidy_none();
    if s.cursor.pos < s.src.len() {
        let t = after_next(s);
        lemma_after_next(s);
        lemma_next(s, t);
        let next = t.drained();
        assert(t.out.events.skip(0) =~= t.out.events);
        if items.len() == 0 {
            lemma_only_trivia(s, t);
            lemma_rest(next, items);
            assert(items.flatten() =~= Seq::<EventView>::empty() + items.flatten());
        } else {
            law_next_item(s, t);
            lemma_rest(next, items.drop_first());
            assert(items.flatten() =~= items[0] + items.drop_first().flatten());
        }
        lemma_tidy_cat(t.out.events, events_from(next));
        assert forall|i: int| 0 <= i < events_from(s).len() implies !(#[trigger] events_from(s)[i]
            is Error) by {
            let n = t.out.events.len();
            if i < n {
                assert(events_from(s)[i] == t.out.events[i]);
            } else {
                assert(events_from(s)[i] == events_from(next)[i - n]);
            }
        }
    } else {
        lemma_lex(s.src, s.cursor);
        if items.len() > 0 {
            reveal(or_else);
            lemma_import_starts(s.src, s.cursor);
            if !(reads(SyntaxKind::IMPORT_STMT, s.src, s.cursor) matches Some(
                Reading::Fits(_, _),
            )) {
                lemma_rule_starts(s.src, s.cursor);
            }
        }
        assert(items.flatten() =~= Seq::empty());
    }
}

/// Where there is nothing but trivia left.
proof fn lemma_only_trivia(s: State, t: State)
    requires
        s.placed(),
        !s.failed,
        s.pending.len() == 0,
        parses_next(s, t),
        relevant_after(s.src, s.cursor) is None,
    ensures
        silent(s, t),
        shows(s, t, Seq::empty()),
        relevant_after(t.src, t.cursor) is None,
{
    let none = Seq::<EventView>::empty();
    let trimmed = s.trivia();
    let u = choose|u: State| #[trigger] parses_item(trimmed, u) && t == u.leave_item();
    lemma_trivia(s);
    lemma_skip_trivia(s);
    lemma_shows_trivia(s);
    lemma_silent_trivia(s);
    assert(token_after(trimmed.src, trimmed.cursor) is None);
    assert(u.pending =~= Seq::empty());
    assert(error_events(u.pending) =~= Seq::empty());
    assert(u.out.events + error_events(u.pending) =~= u.out.events);
    lemma_shows_same(trimmed, t);
    lemma_shows_more(s, trimmed, t, none);
}

/// A source that is made of import statements and rules, each of them as the
/// language says, is parsed without errors. The result is a file with these items
/// in it, in order, and nothing else but trivia.
pub proof fn law_source(src: Seq<u8>, items: Seq<Seq<EventView>>)
    requires
        src.len() <= usize::MAX,
        has_items(src, State::initial(src).cursor, items),
    ensures
        faultless(events_of(src)),
        outside(events_of(src)) == in_file(items.flatten()),
{
    let s = State::initial(src);
    lemma_rest(s, items);
    lemma_tidy_node(SyntaxKind::SOURCE_FILE, events_from(s));
    assert forall|i: int| 0 <= i < events_of(src).len() implies !(#[trigger] events_of(src)[i]
        is Error) by {
        if 0 < i < events_of(src).len() - 1 {
            assert(events_of(src)[i] == events_from(s)[i - 1]);
        }
    }
}

} // verus!
