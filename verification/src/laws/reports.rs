//! Which errors are reported, where, and what they say.

use crate::collections::add_text;
use crate::event::EventView;
use crate::grammar::{described, if_next, node, not, opt, token, Expr};
use crate::laws::cache::{after_relevant, lemma_trivia_place};
use crate::laws::flawless::{lemma_eval_silent, lemma_silent_trans, lemma_silent_trivia, silent};
use crate::laws::frame::{
    lemma_begin, lemma_close, lemma_enter_not, lemma_enter_opt, lemma_eval_ahead, lemma_expect,
    lemma_flush_errors, lemma_handle_errors, lemma_parses_ahead, lemma_skip_cache,
    lemma_skip_trivia, lemma_skip_until, lemma_take, lemma_trivia,
};
use crate::laws::reading::{lemma_kind_found, lemma_kind_missing};
use crate::laws::valid::local;
use crate::laws::whole::{lemma_greatest, lemma_skip_until_quiet, lemma_trivia_quiet};
use crate::message::{expecting, expecting_item, joined, lossy_text, unexpected};
use crate::semantics::{eval, lemma_node_split, parses};
use crate::span::Span;
use crate::state::{add_texts, error_events, greatest, is_greatest, key_le, kind_in, text_of, State};
use crate::syntax_kind::{kind_of, token_id_of, SyntaxKind};
use crate::token::{description_of, Token, TokenId};
use crate::token_stream::{lemma_lex, relevant_after, token_after};
use crate::tokenizer::lex;
use vstd::prelude::*;

verus! {

/// What was expected is said with commas and a final `or`, and what was found in
/// quotes.
pub proof fn law_messages(a: Seq<char>, b: Seq<char>, c: Seq<char>, found: Seq<char>)
    ensures
        expecting(seq![a], found) == "expecting "@ + a + ", found `"@ + found + "`"@,
        expecting(seq![a, b], found) == "expecting "@ + a + " or "@ + b + ", found `"@ + found
            + "`"@,
        expecting(seq![a, b, c], found) == "expecting "@ + a + ", "@ + b + " or "@ + c
            + ", found `"@ + found + "`"@,
        unexpected(found) == "unexpected `"@ + found + "`"@,
        expecting_item(found) == "expecting import statement or rule definition, found "@ + found,
{
    assert(seq![a, b].drop_last() =~= seq![a]);
    assert(seq![a, b, c].drop_last() =~= seq![a, b]);
    assert(joined(seq![a], ", "@) == a);
    assert(joined(seq![a, b].drop_last(), ", "@) == a);
    assert(joined(seq![a, b], ", "@) == a + ", "@ + b);
    assert(expecting(seq![a, b], found) =~= "expecting "@ + a + " or "@ + b + ", found `"@ + found
        + "`"@);
    assert(expecting(seq![a, b, c], found) =~= "expecting "@ + a + ", "@ + b + " or "@ + c
        + ", found `"@ + found + "`"@);
}

/// In messages a keyword stands in quotes.
pub proof fn law_names_of_keywords()
    ensures
        description_of(TokenId::ALL_KW) == "`all`"@,
        description_of(TokenId::AND_KW) == "`and`"@,
        description_of(TokenId::ANY_KW) == "`any`"@,
        description_of(TokenId::ASCII_KW) == "`ascii`"@,
        description_of(TokenId::AT_KW) == "`at`"@,
        description_of(TokenId::BASE64_KW) == "`base64`"@,
        description_of(TokenId::BASE64WIDE_KW) == "`base64wide`"@,
        description_of(TokenId::CONDITION_KW) == "`condition`"@,
        description_of(TokenId::CONTAINS_KW) == "`contains`"@,
        description_of(TokenId::DEFINED_KW) == "`defined`"@,
        description_of(TokenId::ENDSWITH_KW) == "`endswith`"@,
        description_of(TokenId::ENTRYPOINT_KW) == "`entrypoint`"@,
        description_of(TokenId::FALSE_KW) == "`false`"@,
        description_of(TokenId::FILESIZE_KW) == "`filesize`"@,
        description_of(TokenId::FOR_KW) == "`for`"@,
        description_of(TokenId::FULLWORD_KW) == "`fullword`"@,
        description_of(TokenId::GLOBAL_KW) == "`global`"@,
        description_of(TokenId::ICONTAINS_KW) == "`icontains`"@,
        description_of(TokenId::IENDSWITH_KW) == "`iendswith`"@,
        description_of(TokenId::IMPORT_KW) == "`import`"@,
        description_of(TokenId::IN_KW) == "`in`"@,
        description_of(TokenId::ISTARTSWITH_KW) == "`istartswith`"@,
        description_of(TokenId::MATCHES_KW) == "`matches`"@,
        description_of(TokenId::META_KW) == "`meta`"@,
        description_of(TokenId::NOCASE_KW) == "`nocase`"@,
        description_of(TokenId::NONE_KW) == "`none`"@,
        description_of(TokenId::NOT_KW) == "`not`"@,
        description_of(TokenId::OF_KW) == "`of`"@,
        description_of(TokenId::OR_KW) == "`or`"@,
        description_of(TokenId::PRIVATE_KW) == "`private`"@,
        description_of(TokenId::RULE_KW) == "`rule`"@,
        description_of(TokenId::STARTSWITH_KW) == "`startswith`"@,
        description_of(TokenId::STRINGS_KW) == "`strings`"@,
        description_of(TokenId::THEM_KW) == "`them`"@,
        description_of(TokenId::TRUE_KW) == "`true`"@,
        description_of(TokenId::WIDE_KW) == "`wide`"@,
        description_of(TokenId::XOR_KW) == "`xor`"@,
{
}

/// So does a sign. Other tokens have a name in words.
pub proof fn law_names_of_other_tokens()
    ensures
        description_of(TokenId::ADD) == "`+`"@,
        description_of(TokenId::ASTERISK) == "`*`"@,
        description_of(TokenId::BITWISE_AND) == "`&`"@,
        description_of(TokenId::BITWISE_NOT) == "`~`"@,
        description_of(TokenId::BITWISE_XOR) == "`^`"@,
        description_of(TokenId::COLON) == "`:`"@,
        description_of(TokenId::COMMA) == "`,`"@,
        description_of(TokenId::DIV) == "`\\`"@,
        description_of(TokenId::DOT) == "`.`"@,
        description_of(TokenId::EQ) == "`==`"@,
        description_of(TokenId::EQUAL) == "`=`"@,
        description_of(TokenId::GE) == "`>=`"@,
        description_of(TokenId::GT) == "`>`"@,
        description_of(TokenId::HYPHEN) == "`-`"@,
        description_of(TokenId::LE) == "`<=`"@,
        description_of(TokenId::LT) == "`<`"@,
        description_of(TokenId::L_BRACE) == "`{`"@,
        description_of(TokenId::L_BRACKET) == "`[`"@,
        description_of(TokenId::L_PAREN) == "`(`"@,
        description_of(TokenId::NE) == "`!=`"@,
        description_of(TokenId::PERCENT) == "`%`"@,
        description_of(TokenId::PIPE) == "`|`"@,
        description_of(TokenId::R_BRACE) == "`}`"@,
        description_of(TokenId::R_BRACKET) == "`]`"@,
        description_of(TokenId::R_PAREN) == "`)`"@,
        description_of(TokenId::SHL) == "`<<`"@,
        description_of(TokenId::SHR) == "`>>`"@,
        description_of(TokenId::COMMENT) == "comment"@,
        description_of(TokenId::FLOAT_LIT) == "float literal"@,
        description_of(TokenId::HEX_BYTE) == "hex byte"@,
        description_of(TokenId::IDENT) == "identifier"@,
        description_of(TokenId::INTEGER_LIT) == "integer literal"@,
        description_of(TokenId::NEWLINE) == "newline"@,
        description_of(TokenId::PATTERN_COUNT) == "pattern count"@,
        description_of(TokenId::PATTERN_IDENT) == "pattern identifier"@,
        description_of(TokenId::PATTERN_LENGTH) == "pattern length"@,
        description_of(TokenId::PATTERN_OFFSET) == "pattern offset"@,
        description_of(TokenId::REGEXP) == "regular expression"@,
        description_of(TokenId::STRING_LIT) == "string literal"@,
        description_of(TokenId::UNKNOWN) == "unknown token"@,
        description_of(TokenId::WHITESPACE) == "whitespace"@,
{
}

/// A state in which nothing has been noted and nothing is to be reported, outside
/// of optional and negated branches.
pub open spec fn is_calm(s: State) -> bool {
    &&& s.placed()
    &&& !s.failed
    &&& !s.in_opt
    &&& !s.in_not
    &&& s.expected == Map::<(usize, usize), Seq<Seq<char>>>::empty()
    &&& s.unexpected == Set::<(usize, usize)>::empty()
    &&& s.pending.len() == 0
}

/// The text of a token.
pub open spec fn text_of_token(src: Seq<u8>, token: Token) -> Seq<char> {
    lossy_text(src.subrange(token.span.start as int, token.span.end as int))
}

/// An error that is about the next token.
proof fn lemma_missing(s: State, set: Seq<SyntaxKind>, description: Option<Seq<char>>, next: Token)
    requires
        is_calm(s),
        relevant_after(s.src, s.cursor) == Some(next),
        kind_in(set, next.id) is None,
    ensures
        ({
            let t = s.expect(set, description);
            let texts = match description {
                Some(text) => add_text(Seq::empty(), text),
                None => add_texts(Seq::empty(), set),
            };
            &&& t.failed
            &&& t.cursor == s.cursor
            &&& t.out == s.out
            &&& t.pending == seq![
                (next.span.key_of(), expecting(texts, text_of_token(s.src, next))),
            ]
        }),
{
    reveal(State::expect);
    reveal(State::handle_errors);
    let key = next.span.key_of();
    let noted = s.note_expected(key, set, description);
    assert(noted.expected.dom().contains(key));
    assert(is_greatest(noted.expected.dom(), key));
    let found = greatest(noted.expected.dom())->0;
    assert(is_greatest(noted.expected.dom(), found));
    assert(found == key);
    assert(greatest(noted.unexpected) is None) by {
        assert forall|other: (usize, usize)| !is_greatest(noted.unexpected, other) by {}
    }
    assert(s.pending =~= Seq::empty());
    assert(s.text_at(key) == text_of_token(s.src, next));
    assert(s.expect(set, description).pending =~= seq![
        (key, expecting(noted.expected[key], s.text_at(key))),
    ]);
}

/// Where a token of one kind is expected and another one is found, the parser
/// fails where it is, and there is an error about the token that is there. It says
/// how the missing one is called and what was found.
pub proof fn law_missing_token(s: State, t: State, kind: SyntaxKind, id: TokenId, next: Token)
    requires
        is_calm(s),
        token_id_of(kind) == Some(id),
        relevant_after(s.src, s.cursor) == Some(next),
        next.id != id,
        parses(token(seq![kind]), s, t),
    ensures
        t.failed,
        t.cursor == s.cursor,
        t.out == s.out,
        t.pending == seq![
            (
                (next.span.start, next.span.end),
                "expecting "@ + description_of(id) + ", found `"@ + text_of_token(s.src, next)
                    + "`"@,
            ),
        ],
{
    let set = seq![kind];
    lemma_kind_missing(set, next.id);
    lemma_missing(s, set, None, next);
    let depth = choose|depth: nat| #[trigger] eval(token(set), s, depth) == Some(t);
    let none = Seq::<Seq<char>>::empty();
    let text = description_of(id);
    assert(text_of(kind) == text);
    assert(set.drop_first() =~= Seq::empty());
    assert(add_text(none, text) =~= seq![text]);
    assert(add_texts(add_text(none, text), set.drop_first()) == add_text(none, text));
    assert(add_texts(none, set) == seq![text]);
    law_messages(text, text, text, text_of_token(s.src, next));
}

/// Where a token of a set is expected that has a description, the error says the
/// description instead.
pub proof fn law_missing_description(
    s: State,
    t: State,
    set: Seq<SyntaxKind>,
    text: Seq<char>,
    next: Token,
)
    requires
        is_calm(s),
        relevant_after(s.src, s.cursor) == Some(next),
        forall|j: int| 0 <= j < set.len() ==> token_id_of(#[trigger] set[j]) != Some(next.id),
        parses(described(set, text), s, t),
    ensures
        t.failed,
        t.cursor == s.cursor,
        t.out == s.out,
        t.pending == seq![
            (
                (next.span.start, next.span.end),
                "expecting "@ + text + ", found `"@ + text_of_token(s.src, next) + "`"@,
            ),
        ],
{
    lemma_kind_missing(set, next.id);
    lemma_missing(s, set, Some(text), next);
    let depth = choose|depth: nat| #[trigger] eval(described(set, text), s, depth) == Some(t);
    assert(add_text(Seq::empty(), text) =~= seq![text]);
    law_messages(text, text, text, text_of_token(s.src, next));
}

/// Something was expected at a place, or a token at it should not be there.
pub open spec fn is_noted(s: State, key: (usize, usize)) -> bool {
    s.expected.contains_key(key) || s.unexpected.contains(key)
}

/// Out of all the places that were noted, the error is about the last one: none
/// starts after it. If something was expected at it, the error says what, and if
/// not, it says that the token should not be there. Nothing is noted afterwards.
pub proof fn law_last_place(s: State, noted: (usize, usize))
    requires
        !s.in_opt,
        s.pending.len() == 0,
        is_noted(s, noted),
    ensures
        ({
            let t = s.handle_errors();
            &&& t.pending.len() == 1
            &&& is_noted(s, t.pending[0].0)
            &&& forall|key: (usize, usize)| #[trigger]
                is_noted(s, key) ==> key.0 <= t.pending[0].0.0
            &&& forall|key: (usize, usize)| #[trigger]
                s.expected.contains_key(key) && key.0 == t.pending[0].0.0
                    ==> s.expected.contains_key(t.pending[0].0) && key.1 <= t.pending[0].0.1
            &&& ({
                let key = t.pending[0].0;
                let found = lossy_text(s.src.subrange(key.0 as int, key.1 as int));
                if s.expected.contains_key(key) && t.pending[0].1 == expecting(
                    s.expected[key],
                    found,
                ) {
                    true
                } else {
                    &&& t.pending[0].1 == unexpected(found)
                    &&& s.unexpected.contains(key)
                    &&& forall|other: (usize, usize)| #[trigger]
                        s.expected.contains_key(other) ==> other.0 < key.0
                }
            })
            &&& forall|key: (usize, usize)| !#[trigger] is_noted(t, key)
        }),
{
    reveal(State::handle_errors);
    let expected = s.expected.dom();
    let t = s.handle_errors();
    if s.expected.contains_key(noted) {
        lemma_greatest(expected, noted);
    } else {
        lemma_greatest(s.unexpected, noted);
    }
    if let Some(key) = greatest(expected) {
        assert(is_greatest(expected, key));
    } else {
        assert forall|key: (usize, usize)| !#[trigger] s.expected.contains_key(key) by {
            if s.expected.contains_key(key) {
                lemma_greatest(expected, key);
            }
        }
    }
    if let Some(key) = greatest(s.unexpected) {
        assert(is_greatest(s.unexpected, key));
    } else {
        assert forall|key: (usize, usize)| !#[trigger] s.unexpected.contains(key) by {
            if s.unexpected.contains(key) {
                lemma_greatest(s.unexpected, key);
            }
        }
    }
    assert(s.pending =~= Seq::empty());
    assert forall|key: (usize, usize)| #[trigger] is_noted(s, key) implies key.0
        <= t.pending[0].0.0 by {
        if s.expected.contains_key(key) {
            assert(expected.contains(key));
        }
    }
    assert forall|key: (usize, usize)| #[trigger]
        s.expected.contains_key(key) && key.0 == t.pending[0].0.0 implies s.expected.contains_key(
        t.pending[0].0,
    ) && key.1 <= t.pending[0].0.1 by {
        assert(expected.contains(key));
    }
    assert forall|other: (usize, usize)| #[trigger] s.expected.contains_key(other) implies key_le(
        other,
        greatest(expected)->0,
    ) by {
        assert(expected.contains(other));
    }
}

/// Within an optional branch nothing is reported, whether the expression fits or
/// not.
pub proof fn law_optional_is_silent(expr: Expr, s: State, t: State)
    requires
        s.placed(),
        !s.failed,
        local(expr),
        parses(opt(expr), s, t),
    ensures
        silent(s, t),
{
    let depth = choose|depth: nat| #[trigger] eval(opt(expr), s, depth) == Some(t);
    let u = eval(expr, s.enter_opt(), depth)->0;
    lemma_enter_opt(s);
    lemma_trivia(s);
    lemma_silent_trivia(s);
    lemma_eval_ahead(expr, s.enter_opt(), depth);
    lemma_eval_silent(expr, s.enter_opt(), depth);
    lemma_silent_trans(s, s.enter_opt(), u);
}

/// A token that is expected and found, outside of optional and negated branches,
/// goes to the output after the trivia in front of it. The errors so far follow
/// it, in order, and what was expected is forgotten.
pub proof fn law_found_token(s: State, t: State, kind: SyntaxKind, next: Token)
    requires
        s.placed(),
        !s.failed,
        !s.in_opt,
        !s.in_not,
        relevant_after(s.src, s.cursor) == Some(next),
        token_id_of(kind) == Some(next.id),
        parses(token(seq![kind]), s, t),
    ensures
        !t.failed,
        t.pending.len() == 0,
        forall|key: (usize, usize)| !#[trigger] t.expected.contains_key(key),
        t.unexpected == s.unexpected,
        t.cache == s.cache,
        t.cursor == after_relevant(s.src, s.cursor),
        ({
            let n = s.trivia().out.events.len() as int;
            &&& t.out.events.len() == n + 1 + s.pending.len()
            &&& t.out.events[n] == EventView::Token(kind, next.span)
            &&& forall|i: int|
                0 <= i < s.pending.len() ==> #[trigger] t.out.events[n + 1 + i]
                    == EventView::Error(
                    s.pending[i].1,
                    Span { start: s.pending[i].0.0, end: s.pending[i].0.1 },
                )
        }),
{
    reveal(State::expect);
    let set = seq![kind];
    let depth = choose|depth: nat| #[trigger] eval(token(set), s, depth) == Some(t);
    lemma_kind_found(set, next.id, 0);
    lemma_trivia(s);
    lemma_skip_trivia(s);
    lemma_trivia_quiet(s);
    lemma_trivia_place(s);
    lemma_unexpected_kept(s);
    let trimmed = s.trivia();
    lemma_lex(trimmed.src, trimmed.cursor);
    lemma_take(trimmed, kind);
    let taken = trimmed.take(kind);
    let n = trimmed.out.events.len() as int;
    assert(t == taken.flush_errors());
    assert(taken.out.events.len() == n + 1);
    assert forall|i: int| 0 <= i < s.pending.len() implies #[trigger] t.out.events[n + 1 + i]
        == EventView::Error(
        s.pending[i].1,
        Span { start: s.pending[i].0.0, end: s.pending[i].0.1 },
    ) by {
        assert(t.out.events[n + 1 + i] == error_events(s.pending)[i]);
    }
}

/// A node has the kind of the production if it fits, and is an error node if it
/// fails.
pub proof fn law_nodes(kind: SyntaxKind, inner: Expr, s: State, t: State)
    requires
        s.placed(),
        parses(node(kind, inner), s, t),
    ensures
        ({
            let n = s.trivia().out.events.len() as int;
            let shown = if t.failed {
                SyntaxKind::ERROR
            } else {
                kind
            };
            &&& t.out.events.len() >= n + 2
            &&& t.out.events[n] == EventView::Begin(shown)
            &&& t.out.events.last() == EventView::End(shown)
        }),
{
    let u = lemma_node_split(kind, inner, s, t);
    let begun = s.begin(kind);
    lemma_begin(s, kind);
    lemma_trivia(s);
    lemma_parses_ahead(inner, begun, u);
    lemma_close(s.trivia(), kind, u);
}

/// The tokens that are skipped end at one of the set, or at the end of the source.
proof fn lemma_skipped_up_to(s: State, set: Seq<SyntaxKind>)
    requires
        s.placed(),
    ensures
        token_after(s.src, s.skip_until(set).cursor) matches Some(token) ==> kind_in(set, token.id)
            is Some,
    decreases s.rest(),
{
    lemma_lex(s.src, s.cursor);
    if let Some((token, _)) = lex(s.src, s.cursor) {
        if kind_in(set, token.id) is None {
            lemma_take(s, kind_of(token.id));
            lemma_skipped_up_to(s.bump(), set);
        }
    }
}

/// The tokens up to one of a set are skipped: afterwards the next token is one of
/// the set, or the source has ended. If it was so before, only trivia are taken. If
/// not, what is skipped is within an error node, and if there was no error yet there
/// is one about the first token that is skipped.
pub proof fn law_sync(s: State, set: Seq<SyntaxKind>)
    requires
        is_calm(s),
    ensures
        ({
            let t = s.sync(set);
            let start = s.trivia();
            let n = start.out.events.len() as int;
            &&& token_after(t.src, t.cursor) matches Some(token) ==> kind_in(set, token.id) is Some
            &&& match token_after(start.src, start.cursor) {
                None => t == start,
                Some(token) => if kind_in(set, token.id) is Some {
                    t == start
                } else {
                    &&& t.out.events.len() >= n + 3
                    &&& t.out.events[n] == EventView::Begin(SyntaxKind::ERROR)
                    &&& t.out.events[n + 1] == EventView::Token(kind_of(token.id), token.span)
                    &&& t.out.events.last() == EventView::End(SyntaxKind::ERROR)
                    &&& t.cursor.pos > start.cursor.pos
                    &&& t.pending == seq![
                        (
                            (token.span.start, token.span.end),
                            expecting(
                                add_texts(Seq::empty(), set),
                                text_of_token(s.src, token),
                            ),
                        ),
                    ]
                },
            }
        }),
{
    reveal(State::sync);
    lemma_trivia(s);
    lemma_trivia_quiet(s);
    lemma_skip_trivia(s);
    let start = s.trivia();
    lemma_lex(start.src, start.cursor);
    if let Some(next) = token_after(start.src, start.cursor) {
        if kind_in(set, next.id) is None {
            let key = next.span.key_of();
            let noted = start.note_expected(key, set, None);
            lemma_unexpected_kept(s);
            lemma_reported(start, set, next);
            lemma_handle_errors(noted);
            let reported = noted.handle_errors();
            let opened = State { out: reported.out.begin(SyntaxKind::ERROR), ..reported };
            reported.out.lemma_begin(SyntaxKind::ERROR);
            lemma_skip_until(opened, set);
            lemma_skipped_up_to(opened, set);
            lemma_skip_until_quiet(opened, set);
            let skipped = opened.skip_until(set);
            lemma_close(reported, SyntaxKind::ERROR, skipped);
            lemma_take(opened, kind_of(next.id));
            lemma_skip_until(opened.bump(), set);
            let m = opened.bump().out.events.len() as int;
            assert(skipped == opened.bump().skip_until(set));
            assert(skipped.out.events.take(m)[m - 1] == skipped.out.events[m - 1]);
        }
    }
}

/// Skipping trivia leaves the tokens alone that should not be there.
proof fn lemma_unexpected_kept(s: State)
    requires
        s.placed(),
    ensures
        s.skip_trivia().unexpected == s.unexpected,
        s.trivia().unexpected == s.unexpected,
    decreases s.rest(),
{
    lemma_lex(s.src, s.cursor);
    if let Some((token, _)) = lex(s.src, s.cursor) {
        if crate::token::is_trivia_id(token.id) {
            lemma_take(s, kind_of(token.id));
            lemma_unexpected_kept(s.bump());
        }
    }
}

/// An error about a token that is to be skipped.
proof fn lemma_reported(s: State, set: Seq<SyntaxKind>, next: Token)
    requires
        is_calm(s),
    ensures
        s.note_expected(next.span.key_of(), set, None).handle_errors().pending == seq![
            (
                next.span.key_of(),
                expecting(add_texts(Seq::empty(), set), text_of_token(s.src, next)),
            ),
        ],
{
    reveal(State::handle_errors);
    let key = next.span.key_of();
    let noted = s.note_expected(key, set, None);
    assert(noted.expected.dom().contains(key));
    assert(is_greatest(noted.expected.dom(), key));
    let found = greatest(noted.expected.dom())->0;
    assert(is_greatest(noted.expected.dom(), found));
    assert(found == key);
    assert(greatest(noted.unexpected) is None) by {
        assert forall|other: (usize, usize)| !is_greatest(noted.unexpected, other) by {}
    }
    assert(s.pending =~= Seq::empty());
    assert(noted.handle_errors().pending =~= seq![
        (key, expecting(add_texts(Seq::empty(), set), s.text_at(key))),
    ]);
}

/// A token that no item starts with is within an error node, after an error about
/// it that says how such tokens are called.
pub proof fn law_rejected_token(s: State, token: Token)
    requires
        s.placed(),
        token_after(s.src, s.cursor) == Some(token),
    ensures
        s.reject(token).failed,
        s.reject(token).cursor.pos > s.cursor.pos,
        s.reject(token).out.events == s.out.events + seq![
            EventView::Error(
                "expecting import statement or rule definition, found "@ + description_of(token.id),
                token.span,
            ),
            EventView::Begin(SyntaxKind::ERROR),
            EventView::Token(kind_of(token.id), token.span),
            EventView::End(SyntaxKind::ERROR),
        ],
{
    lemma_lex(s.src, s.cursor);
    let error = EventView::Error(expecting_item(description_of(token.id)), token.span);
    let reported = State { out: s.out.push(error), ..s };
    s.out.lemma_push(error);
    let begun = State { out: reported.out.begin(SyntaxKind::ERROR), ..reported };
    reported.out.lemma_begin(SyntaxKind::ERROR);
    lemma_take(begun, kind_of(token.id));
    let n = s.out.events.len() as int;
    assert(begun.bump().out.open.last() == n + 1);
    assert(begun.bump().out.events[n + 1] == EventView::Begin(SyntaxKind::ERROR));
    assert(s.reject(token).out.events =~= s.out.events + seq![
        error,
        EventView::Begin(SyntaxKind::ERROR),
        EventView::Token(kind_of(token.id), token.span),
        EventView::End(SyntaxKind::ERROR),
    ]);
}

/// What is noted for a set of tokens is how each of them is called, after what was
/// noted before, and nothing else.
pub proof fn law_all_expected(texts: Seq<Seq<char>>, set: Seq<SyntaxKind>)
    ensures
        ({
            let all = add_texts(texts, set);
            &&& texts.len() <= all.len()
            &&& all.take(texts.len() as int) == texts
            &&& forall|i: int|
                0 <= i < set.len() ==> all.contains(
                    description_of(token_id_of(#[trigger] set[i])->0),
                )
            &&& forall|j: int|
                texts.len() <= j < all.len() ==> exists|i: int|
                    0 <= i < set.len() && #[trigger] all[j] == description_of(
                        token_id_of(#[trigger] set[i])->0,
                    )
        }),
    decreases set.len(),
{
    let all = add_texts(texts, set);
    if set.len() == 0 {
        assert(all.take(texts.len() as int) =~= texts);
    } else {
        let more = add_text(texts, text_of(set[0]));
        let others = set.drop_first();
        law_all_expected(more, others);
        let n = texts.len() as int;
        let m = more.len() as int;
        assert(all.take(n) =~= all.take(m).take(n));
        assert(more.take(n) =~= texts);
        assert(more.contains(text_of(set[0]))) by {
            if !texts.contains(text_of(set[0])) {
                assert(more[n] == text_of(set[0]));
            }
        }
        assert forall|i: int| 0 <= i < set.len() implies all.contains(
            description_of(token_id_of(#[trigger] set[i])->0),
        ) by {
            if i == 0 {
                let k = choose|k: int| 0 <= k < more.len() && more[k] == text_of(set[0]);
                assert(all.take(m)[k] == all[k]);
            } else {
                assert(others[i - 1] == set[i]);
            }
        }
        assert forall|j: int| n <= j < all.len() implies exists|i: int|
            0 <= i < set.len() && #[trigger] all[j] == description_of(
                token_id_of(#[trigger] set[i])->0,
            ) by {
            if j < m {
                assert(all.take(m)[j] == all[j]);
                assert(all[j] == description_of(token_id_of(set[0])->0));
            } else {
                let i = choose|i: int|
                    0 <= i < others.len() && all[j] == description_of(
                        token_id_of(#[trigger] others[i])->0,
                    );
                assert(set[i + 1] == others[i]);
            }
        }
    }
}

/// The tokens of a set are noted in the order that they have in it.
pub proof fn law_expected_in_order(texts: Seq<Seq<char>>, set: Seq<SyntaxKind>, kind: SyntaxKind)
    ensures
        ({
            let before = add_texts(texts, set);
            let text = description_of(token_id_of(kind)->0);
            add_texts(texts, set.push(kind)) == if before.contains(text) {
                before
            } else {
                before.push(text)
            }
        }),
    decreases set.len(),
{
    if set.len() == 0 {
        assert(set.push(kind).drop_first() =~= Seq::empty());
        assert(set.push(kind)[0] == kind);
        assert(add_texts(add_text(texts, text_of(kind)), Seq::empty()) == add_text(
            texts,
            text_of(kind),
        ));
    } else {
        assert(set.push(kind).drop_first() =~= set.drop_first().push(kind));
        assert(set.push(kind)[0] == set[0]);
        law_expected_in_order(add_text(texts, text_of(set[0])), set.drop_first(), kind);
    }
}

/// Where something may follow that starts with a token of a set, and another token
/// is there, the parser stays as it is. It notes that the tokens of the set were
/// expected there, for the case that what follows fails.
pub proof fn law_not_next(s: State, t: State, set: Seq<SyntaxKind>, inner: Expr, next: Token)
    requires
        s.placed(),
        !s.failed,
        relevant_after(s.src, s.cursor) == Some(next),
        forall|j: int| 0 <= j < set.len() ==> token_id_of(#[trigger] set[j]) != Some(next.id),
        parses(if_next(set, inner), s, t),
    ensures
        t == (State { expected: t.expected, ..s }),
        t.expected.contains_key((next.span.start, next.span.end)),
        forall|i: int|
            0 <= i < set.len() ==> t.expected[(next.span.start, next.span.end)].contains(
                description_of(token_id_of(#[trigger] set[i])->0),
            ),
        forall|key: (usize, usize)| #[trigger]
            s.expected.contains_key(key) ==> t.expected.contains_key(key),
{
    let depth = choose|depth: nat| #[trigger] eval(if_next(set, inner), s, depth) == Some(t);
    lemma_kind_missing(set, next.id);
    law_all_expected(s.expected_at(next.span.key_of()), set);
}

/// Where a token must not follow and does, the parser fails where it is, and notes
/// that the token should not be there. Where it does not follow, the parser stays as
/// it is. This is within an optional branch, so that nothing is reported yet.
pub proof fn law_negated_token(s: State, t: State, kind: SyntaxKind, id: TokenId, next: Token)
    requires
        s.placed(),
        !s.failed,
        s.in_opt,
        !s.in_not,
        token_id_of(kind) == Some(id),
        relevant_after(s.src, s.cursor) == Some(next),
        parses(not(token(seq![kind])), s, t),
    ensures
        next.id != id ==> t == s,
        next.id == id ==> t == (State {
            failed: true,
            unexpected: s.unexpected.insert((next.span.start, next.span.end)),
            ..s
        }),
{
    reveal(State::expect);
    reveal(State::handle_errors);
    let set = seq![kind];
    let depth = choose|depth: nat| #[trigger] eval(not(token(set)), s, depth) == Some(t);
    let start = s.enter_not();
    lemma_enter_not(s);
    lemma_trivia(s);
    lemma_trivia_quiet(s);
    lemma_unexpected_kept(s);
    lemma_skip_trivia(s);
    lemma_skip_cache(s);
    let u = start.expect(set, None);
    lemma_expect(start, set, None);
    assert(eval(token(set), start, depth) == Some(u));
    if next.id == id {
        lemma_kind_found(set, id, 0);
        let noted = State {
            unexpected: start.unexpected.insert(next.span.key_of()),
            ..start
        };
        lemma_trivia(noted);
        lemma_trivia_quiet(noted);
        lemma_unexpected_kept(noted);
        lemma_skip_cache(noted);
    } else {
        lemma_kind_missing(set, next.id);
    }
    assert(t.cursor == s.cursor && t.out == s.out);
    assert(t =~= (State { failed: t.failed, unexpected: t.unexpected, ..s }));
}

/// A parser that has failed goes back to work, and nothing else changes.
pub proof fn law_recover(s: State, t: State)
    requires
        parses(Expr::Recover, s, t),
    ensures
        t == (State { failed: false, ..s }),
{
    let depth = choose|depth: nat| #[trigger] eval(Expr::Recover, s, depth) == Some(t);
}

/// Within an optional branch, a token that is expected and found goes to the output
/// after the trivia in front of it, and nothing else changes.
pub proof fn law_found_in_branch(s: State, t: State, kind: SyntaxKind, next: Token)
    requires
        s.placed(),
        !s.failed,
        s.in_opt,
        !s.in_not,
        relevant_after(s.src, s.cursor) == Some(next),
        token_id_of(kind) == Some(next.id),
        parses(token(seq![kind]), s, t),
    ensures
        t == (State {
            cursor: after_relevant(s.src, s.cursor),
            out: s.trivia().out.push(EventView::Token(kind, next.span)),
            ..s
        }),
{
    reveal(State::expect);
    let set = seq![kind];
    let depth = choose|depth: nat| #[trigger] eval(token(set), s, depth) == Some(t);
    lemma_kind_found(set, next.id, 0);
    lemma_trivia(s);
    lemma_skip_trivia(s);
    lemma_trivia_quiet(s);
    lemma_trivia_place(s);
    lemma_unexpected_kept(s);
    assert(t =~= (State {
        cursor: after_relevant(s.src, s.cursor),
        out: s.trivia().out.push(EventView::Token(kind, next.span)),
        ..s
    }));
}

/// Within an optional branch, where a token is expected and another one is found,
/// the parser fails where it is, and notes how the missing one is called. Nothing is
/// reported.
pub proof fn law_missing_in_branch(s: State, t: State, kind: SyntaxKind, id: TokenId, next: Token)
    requires
        s.placed(),
        !s.failed,
        s.in_opt,
        !s.in_not,
        token_id_of(kind) == Some(id),
        relevant_after(s.src, s.cursor) == Some(next),
        next.id != id,
        parses(token(seq![kind]), s, t),
    ensures
        t == (State { failed: true, expected: t.expected, ..s }),
        t.expected.contains_key((next.span.start, next.span.end)),
        t.expected[(next.span.start, next.span.end)].contains(description_of(id)),
        forall|key: (usize, usize)| #[trigger]
            s.expected.contains_key(key) ==> t.expected.contains_key(key),
{
    reveal(State::expect);
    reveal(State::handle_errors);
    let set = seq![kind];
    let depth = choose|depth: nat| #[trigger] eval(token(set), s, depth) == Some(t);
    lemma_kind_missing(set, next.id);
    law_all_expected(s.expected_at(next.span.key_of()), set);
    assert(set[0] == kind);
}

/// Where tokens are to be skipped and there are errors already, these go to the
/// output, in order, before the error node. No other one is added.
pub proof fn law_sync_after_errors(s: State, set: Seq<SyntaxKind>, next: Token)
    requires
        s.placed(),
        !s.failed,
        s.pending.len() > 0,
        relevant_after(s.src, s.cursor) == Some(next),
        kind_in(set, next.id) is None,
    ensures
        ({
            let t = s.sync(set);
            let n = s.trivia().out.events.len() as int;
            let m = n + s.pending.len();
            &&& t.pending.len() == 0
            &&& t.out.events.len() >= m + 3
            &&& forall|i: int|
                0 <= i < s.pending.len() ==> #[trigger] t.out.events[n + i] == EventView::Error(
                    s.pending[i].1,
                    Span { start: s.pending[i].0.0, end: s.pending[i].0.1 },
                )
            &&& t.out.events[m] == EventView::Begin(SyntaxKind::ERROR)
            &&& t.out.events[m + 1] == EventView::Token(kind_of(next.id), next.span)
            &&& t.out.events.last() == EventView::End(SyntaxKind::ERROR)
        }),
{
    reveal(State::sync);
    lemma_trivia(s);
    lemma_trivia_quiet(s);
    lemma_skip_trivia(s);
    let start = s.trivia();
    lemma_lex(start.src, start.cursor);
    let n = start.out.events.len() as int;
    let m = n + s.pending.len();
    let noted = start.note_expected(next.span.key_of(), set, None);
    let reported = noted.flush_errors();
    lemma_flush_errors(noted);
    let opened = State { out: reported.out.begin(SyntaxKind::ERROR), ..reported };
    reported.out.lemma_begin(SyntaxKind::ERROR);
    lemma_skip_until(opened, set);
    lemma_skip_until_quiet(opened, set);
    let skipped = opened.skip_until(set);
    lemma_close(reported, SyntaxKind::ERROR, skipped);
    lemma_take(opened, kind_of(next.id));
    lemma_skip_until(opened.bump(), set);
    assert(skipped == opened.bump().skip_until(set));
    let taken = opened.bump().out.events;
    let k = taken.len() as int;
    assert(skipped.out.events.take(k)[k - 1] == skipped.out.events[k - 1]);
    assert forall|i: int| 0 <= i < s.pending.len() implies #[trigger] s.sync(set).out.events[n + i]
        == EventView::Error(
        s.pending[i].1,
        Span { start: s.pending[i].0.0, end: s.pending[i].0.1 },
    ) by {
        assert(skipped.out.events.take(k)[n + i] == skipped.out.events[n + i]);
        assert(reported.out.events[n + i] == error_events(s.pending)[i]);
    }
}

} // verus!
