//! Tokens, and the streams of the parser.

use yara_syntax::event::Event;
use yara_syntax::message;
use yara_syntax::parser::token_set::{any_of, either, just, TokenSet};
use yara_syntax::span::Span;
use yara_syntax::syntax_kind::SyntaxKind;
use yara_syntax::syntax_stream::SyntaxStream;
use yara_syntax::token::{Token, TokenId};
use yara_syntax::token_stream::TokenStream;
use yara_syntax::tokenizer::{Cursor, Mode, Tokenizer};

/// The tokens of a source in a mode, each with its text.
fn tokens_in(source: &str, mode: Mode) -> Vec<(TokenId, &str)> {
    let tokenizer = Tokenizer::new(source.as_bytes());
    let mut place = Cursor { pos: 0, index: 0, mode };
    let mut tokens = Vec::new();
    while let Some((token, next)) = tokenizer.token_at(place) {
        tokens.push((token.id, &source[token.span.start..token.span.end]));
        assert_eq!(next.pos, token.span.end);
        assert_eq!(next.index, tokens.len());
        place = next;
    }
    tokens
}

#[test]
fn words_and_keywords() {
    assert_eq!(
        tokens_in("rule rules _x $a #a @a !a $", Mode::Normal),
        vec![
            (TokenId::RULE_KW, "rule"),
            (TokenId::WHITESPACE, " "),
            (TokenId::IDENT, "rules"),
            (TokenId::WHITESPACE, " "),
            (TokenId::IDENT, "_x"),
            (TokenId::WHITESPACE, " "),
            (TokenId::PATTERN_IDENT, "$a"),
            (TokenId::WHITESPACE, " "),
            (TokenId::PATTERN_COUNT, "#a"),
            (TokenId::WHITESPACE, " "),
            (TokenId::PATTERN_OFFSET, "@a"),
            (TokenId::WHITESPACE, " "),
            (TokenId::PATTERN_LENGTH, "!a"),
            (TokenId::WHITESPACE, " "),
            (TokenId::PATTERN_IDENT, "$"),
        ]
    );
}

#[test]
fn numbers() {
    for source in ["0", "10", "0x1F", "0o17", "1KB", "2MB", "0x10KB"] {
        assert_eq!(tokens_in(source, Mode::Normal), vec![(TokenId::INTEGER_LIT, source)]);
    }
    assert_eq!(tokens_in("1.5", Mode::Normal), vec![(TokenId::FLOAT_LIT, "1.5")]);
    assert_eq!(
        tokens_in("1..2", Mode::Normal),
        vec![
            (TokenId::INTEGER_LIT, "1"),
            (TokenId::DOT, "."),
            (TokenId::DOT, "."),
            (TokenId::INTEGER_LIT, "2"),
        ]
    );
}

#[test]
fn quoted_texts_and_comments() {
    assert_eq!(
        tokens_in("\"a\\\"b\"/c\\/d/is/* e */// f\r\n", Mode::Normal),
        vec![
            (TokenId::STRING_LIT, "\"a\\\"b\""),
            (TokenId::REGEXP, "/c\\/d/is"),
            (TokenId::COMMENT, "/* e */"),
            (TokenId::COMMENT, "// f"),
            (TokenId::NEWLINE, "\r\n"),
        ]
    );
    assert_eq!(
        tokens_in("\"a\n", Mode::Normal),
        vec![(TokenId::UNKNOWN, "\""), (TokenId::IDENT, "a"), (TokenId::NEWLINE, "\n")]
    );
}

#[test]
fn operators() {
    let ids: Vec<TokenId> =
        tokens_in("==!=<=<<>=>>=<>\\|", Mode::Normal).into_iter().map(|(id, _)| id).collect();
    assert_eq!(
        ids,
        vec![
            TokenId::EQ,
            TokenId::NE,
            TokenId::LE,
            TokenId::SHL,
            TokenId::GE,
            TokenId::SHR,
            TokenId::EQUAL,
            TokenId::LT,
            TokenId::GT,
            TokenId::DIV,
            TokenId::PIPE,
        ]
    );
}

#[test]
fn hex_modes() {
    assert_eq!(
        tokens_in("01~?2(|)[]}01", Mode::HexPattern),
        vec![
            (TokenId::HEX_BYTE, "01"),
            (TokenId::HEX_BYTE, "~?2"),
            (TokenId::L_PAREN, "("),
            (TokenId::PIPE, "|"),
            (TokenId::R_PAREN, ")"),
            (TokenId::L_BRACKET, "["),
            (TokenId::R_BRACKET, "]"),
            (TokenId::R_BRACE, "}"),
            (TokenId::INTEGER_LIT, "01"),
        ]
    );
    assert_eq!(
        tokens_in("10-20]30", Mode::HexJump),
        vec![
            (TokenId::INTEGER_LIT, "10"),
            (TokenId::HYPHEN, "-"),
            (TokenId::INTEGER_LIT, "20"),
            (TokenId::R_BRACKET, "]"),
            (TokenId::HEX_BYTE, "30"),
        ]
    );
}

#[test]
fn token_streams() {
    let mut stream = TokenStream::new(Tokenizer::new(b"a b{01"));
    let a = Token { id: TokenId::IDENT, span: Span { start: 0, end: 1 } };
    let b = Token { id: TokenId::IDENT, span: Span { start: 2, end: 3 } };
    assert_eq!(stream.peek_token(2), Some(b));
    assert_eq!(stream.peek_token(9), None);
    assert_eq!(stream.current_token_index(), 0);
    let start = stream.bookmark();
    assert_eq!(stream.next_token(), Some(a));
    assert!(stream.next_token().unwrap().is_trivia());
    assert_eq!(stream.next_token(), Some(b));
    assert_eq!(stream.next_token().unwrap().id, TokenId::L_BRACE);
    assert_eq!(stream.peek_token(0).unwrap().id, TokenId::INTEGER_LIT);
    stream.enter_hex_pattern_mode();
    assert_eq!(stream.peek_token(0).unwrap().id, TokenId::HEX_BYTE);
    stream.enter_hex_jump_mode();
    assert_eq!(stream.next_token().unwrap().id, TokenId::INTEGER_LIT);
    assert!(!stream.has_more());
    assert_eq!(stream.next_token(), None);
    stream.restore_bookmark(&start);
    assert_eq!(stream.current_token_index(), 0);
    assert_eq!(stream.next_token(), Some(a));
    assert_eq!(stream.source(), b"a b{01");
}

#[test]
fn syntax_streams() {
    let span = Span { start: 0, end: 1 };
    let mut stream = SyntaxStream::new();
    stream.begin(SyntaxKind::RULE_DECL);
    stream.push_token(SyntaxKind::IDENT, span);
    let bookmark = stream.bookmark();
    stream.begin(SyntaxKind::RULE_MODS);
    stream.push_error("wrong".to_string(), span);
    stream.truncate(&bookmark);
    stream.begin(SyntaxKind::RULE_TAGS);
    stream.end();
    stream.end_with_error();
    let mut events = Vec::new();
    while let Some(event) = stream.pop() {
        events.push(event);
    }
    assert_eq!(
        events,
        vec![
            Event::Begin(SyntaxKind::ERROR),
            Event::Token { kind: SyntaxKind::IDENT, span },
            Event::Begin(SyntaxKind::RULE_TAGS),
            Event::End(SyntaxKind::RULE_TAGS),
            Event::End(SyntaxKind::ERROR),
        ]
    );
    assert_eq!(stream.pop(), None);
    assert_eq!((span.start(), span.end()), (0, 1));
}

#[test]
fn token_sets() {
    let span = Span { start: 0, end: 1 };
    let hyphen = Token { id: TokenId::HYPHEN, span };
    let percent = Token { id: TokenId::PERCENT, span };
    let kinds = either(SyntaxKind::SUB, SyntaxKind::MINUS);
    let set = TokenSet(&kinds);
    assert!(!set.is_empty());
    assert!(TokenSet(&[]).is_empty());
    assert_eq!(set.contains(&hyphen), Some(SyntaxKind::SUB));
    assert_eq!(set.contains(&percent), None);
    assert_eq!(TokenSet(&just(SyntaxKind::MOD)).contains(&percent), Some(SyntaxKind::MOD));
    let kinds = any_of(SyntaxKind::MOD, SyntaxKind::IDENT, SyntaxKind::MUL);
    assert_eq!(
        TokenSet(&kinds).token_ids(),
        vec![TokenId::PERCENT, TokenId::IDENT, TokenId::ASTERISK]
    );
}

#[test]
fn kinds_and_tokens() {
    assert_eq!(SyntaxKind::IDENT.token_id(), Some(TokenId::IDENT));
    assert_eq!(SyntaxKind::BITWISE_OR.token_id(), Some(TokenId::PIPE));
    assert_eq!(SyntaxKind::RULE_DECL.token_id(), None);
    assert_eq!(SyntaxKind::of_token(TokenId::PIPE), SyntaxKind::PIPE);
    assert_eq!(TokenId::L_BRACE.description(), "`{`");
    assert_eq!(TokenId::IDENT.description(), "identifier");
}

#[test]
fn messages() {
    assert_eq!(message::expecting_message(&["`a`"], "c"), "expecting `a`, found `c`");
    assert_eq!(message::expecting_message(&["`a`", "`b`"], "c"), "expecting `a` or `b`, found `c`");
    assert_eq!(
        message::expecting_message(&["`a`", "`b`", "x"], "c"),
        "expecting `a`, `b` or x, found `c`"
    );
    assert_eq!(message::unexpected_message("c"), "unexpected `c`");
    assert_eq!(
        message::expecting_item_message("identifier"),
        "expecting import statement or rule definition, found identifier"
    );
}
