//! What is read for given tokens.
//!
//! These laws follow from those of the [language](`crate::laws::language`). They
//! name the tokens one by one.

use crate::event::EventView;
use crate::grammar::Expr;
use crate::laws::cache::{after_relevant, sound};
use crate::laws::language::{
    and_rule, law_boolean_expr, law_pattern_def, law_pattern_mod, law_pattern_mods, law_rule_mods,
    more_pairs, more_rules, reads,
};
use crate::laws::outcome::{lemma_condition_outcome, lemma_plain_outcome};
use crate::laws::reading::{
    join, lemma_kind_found, lemma_kind_missing, lemma_round, nothing, or_else, read_token, repeated,
    within, Reading,
};
use crate::laws::valid::outside;
use crate::semantics::parses;
use crate::span::Span;
use crate::state::State;
use crate::syntax_kind::{kind_of, token_id_of, SyntaxKind};
use crate::token::{Token, TokenId};
use crate::token_stream::relevant_after;
use crate::tokenizer::Cursor;
use vstd::prelude::*;

verus! {

/// The next token that is not trivia is of a certain type.
pub open spec fn is_at(src: Seq<u8>, at: Cursor, id: TokenId) -> bool {
    relevant_after(src, at) matches Some(token) && token.id == id
}

/// Where the next token that is not trivia is.
pub open spec fn span_at(src: Seq<u8>, at: Cursor) -> Span {
    relevant_after(src, at)->0.span
}

/// A node with some tokens and nodes in it.
pub open spec fn node_of(kind: SyntaxKind, events: Seq<EventView>) -> Seq<EventView> {
    seq![EventView::Begin(kind)] + events + seq![EventView::End(kind)]
}

/// The kind of a keyword has the same name: the first half of them.
pub proof fn law_kinds_of_keywords()
    ensures
        token_id_of(SyntaxKind::ALL_KW) == Some(TokenId::ALL_KW),
        token_id_of(SyntaxKind::AND_KW) == Some(TokenId::AND_KW),
        token_id_of(SyntaxKind::ANY_KW) == Some(TokenId::ANY_KW),
        token_id_of(SyntaxKind::ASCII_KW) == Some(TokenId::ASCII_KW),
        token_id_of(SyntaxKind::AT_KW) == Some(TokenId::AT_KW),
        token_id_of(SyntaxKind::BASE64_KW) == Some(TokenId::BASE64_KW),
        token_id_of(SyntaxKind::BASE64WIDE_KW) == Some(TokenId::BASE64WIDE_KW),
        token_id_of(SyntaxKind::CONDITION_KW) == Some(TokenId::CONDITION_KW),
        token_id_of(SyntaxKind::CONTAINS_KW) == Some(TokenId::CONTAINS_KW),
        token_id_of(SyntaxKind::DEFINED_KW) == Some(TokenId::DEFINED_KW),
        token_id_of(SyntaxKind::ENDSWITH_KW) == Some(TokenId::ENDSWITH_KW),
        token_id_of(SyntaxKind::ENTRYPOINT_KW) == Some(TokenId::ENTRYPOINT_KW),
        token_id_of(SyntaxKind::FALSE_KW) == Some(TokenId::FALSE_KW),
        token_id_of(SyntaxKind::FILESIZE_KW) == Some(TokenId::FILESIZE_KW),
        token_id_of(SyntaxKind::FOR_KW) == Some(TokenId::FOR_KW),
        token_id_of(SyntaxKind::FULLWORD_KW) == Some(TokenId::FULLWORD_KW),
        token_id_of(SyntaxKind::GLOBAL_KW) == Some(TokenId::GLOBAL_KW),
        token_id_of(SyntaxKind::ICONTAINS_KW) == Some(TokenId::ICONTAINS_KW),
        kind_of(TokenId::ALL_KW) == SyntaxKind::ALL_KW,
        kind_of(TokenId::AND_KW) == SyntaxKind::AND_KW,
        kind_of(TokenId::ANY_KW) == SyntaxKind::ANY_KW,
        kind_of(TokenId::ASCII_KW) == SyntaxKind::ASCII_KW,
        kind_of(TokenId::AT_KW) == SyntaxKind::AT_KW,
        kind_of(TokenId::BASE64_KW) == SyntaxKind::BASE64_KW,
        kind_of(TokenId::BASE64WIDE_KW) == SyntaxKind::BASE64WIDE_KW,
        kind_of(TokenId::CONDITION_KW) == SyntaxKind::CONDITION_KW,
        kind_of(TokenId::CONTAINS_KW) == SyntaxKind::CONTAINS_KW,
        kind_of(TokenId::DEFINED_KW) == SyntaxKind::DEFINED_KW,
        kind_of(TokenId::ENDSWITH_KW) == SyntaxKind::ENDSWITH_KW,
        kind_of(TokenId::ENTRYPOINT_KW) == SyntaxKind::ENTRYPOINT_KW,
        kind_of(TokenId::FALSE_KW) == SyntaxKind::FALSE_KW,
        kind_of(TokenId::FILESIZE_KW) == SyntaxKind::FILESIZE_KW,
        kind_of(TokenId::FOR_KW) == SyntaxKind::FOR_KW,
        kind_of(TokenId::FULLWORD_KW) == SyntaxKind::FULLWORD_KW,
        kind_of(TokenId::GLOBAL_KW) == SyntaxKind::GLOBAL_KW,
        kind_of(TokenId::ICONTAINS_KW) == SyntaxKind::ICONTAINS_KW,
{
}

/// The kind of a keyword has the same name: the second half of them.
pub proof fn law_kinds_of_other_keywords()
    ensures
        token_id_of(SyntaxKind::IENDSWITH_KW) == Some(TokenId::IENDSWITH_KW),
        token_id_of(SyntaxKind::IMPORT_KW) == Some(TokenId::IMPORT_KW),
        token_id_of(SyntaxKind::IN_KW) == Some(TokenId::IN_KW),
        token_id_of(SyntaxKind::ISTARTSWITH_KW) == Some(TokenId::ISTARTSWITH_KW),
        token_id_of(SyntaxKind::MATCHES_KW) == Some(TokenId::MATCHES_KW),
        token_id_of(SyntaxKind::META_KW) == Some(TokenId::META_KW),
        token_id_of(SyntaxKind::NOCASE_KW) == Some(TokenId::NOCASE_KW),
        token_id_of(SyntaxKind::NONE_KW) == Some(TokenId::NONE_KW),
        token_id_of(SyntaxKind::NOT_KW) == Some(TokenId::NOT_KW),
        token_id_of(SyntaxKind::OF_KW) == Some(TokenId::OF_KW),
        token_id_of(SyntaxKind::OR_KW) == Some(TokenId::OR_KW),
        token_id_of(SyntaxKind::PRIVATE_KW) == Some(TokenId::PRIVATE_KW),
        token_id_of(SyntaxKind::RULE_KW) == Some(TokenId::RULE_KW),
        token_id_of(SyntaxKind::STARTSWITH_KW) == Some(TokenId::STARTSWITH_KW),
        token_id_of(SyntaxKind::STRINGS_KW) == Some(TokenId::STRINGS_KW),
        token_id_of(SyntaxKind::THEM_KW) == Some(TokenId::THEM_KW),
        token_id_of(SyntaxKind::TRUE_KW) == Some(TokenId::TRUE_KW),
        token_id_of(SyntaxKind::WIDE_KW) == Some(TokenId::WIDE_KW),
        token_id_of(SyntaxKind::XOR_KW) == Some(TokenId::XOR_KW),
        kind_of(TokenId::IENDSWITH_KW) == SyntaxKind::IENDSWITH_KW,
        kind_of(TokenId::IMPORT_KW) == SyntaxKind::IMPORT_KW,
        kind_of(TokenId::IN_KW) == SyntaxKind::IN_KW,
        kind_of(TokenId::ISTARTSWITH_KW) == SyntaxKind::ISTARTSWITH_KW,
        kind_of(TokenId::MATCHES_KW) == SyntaxKind::MATCHES_KW,
        kind_of(TokenId::META_KW) == SyntaxKind::META_KW,
        kind_of(TokenId::NOCASE_KW) == SyntaxKind::NOCASE_KW,
        kind_of(TokenId::NONE_KW) == SyntaxKind::NONE_KW,
        kind_of(TokenId::NOT_KW) == SyntaxKind::NOT_KW,
        kind_of(TokenId::OF_KW) == SyntaxKind::OF_KW,
        kind_of(TokenId::OR_KW) == SyntaxKind::OR_KW,
        kind_of(TokenId::PRIVATE_KW) == SyntaxKind::PRIVATE_KW,
        kind_of(TokenId::RULE_KW) == SyntaxKind::RULE_KW,
        kind_of(TokenId::STARTSWITH_KW) == SyntaxKind::STARTSWITH_KW,
        kind_of(TokenId::STRINGS_KW) == SyntaxKind::STRINGS_KW,
        kind_of(TokenId::THEM_KW) == SyntaxKind::THEM_KW,
        kind_of(TokenId::TRUE_KW) == SyntaxKind::TRUE_KW,
        kind_of(TokenId::WIDE_KW) == SyntaxKind::WIDE_KW,
        kind_of(TokenId::XOR_KW) == SyntaxKind::XOR_KW,
{
}

/// The kind of a sign has the same name.
pub proof fn law_kinds_of_signs()
    ensures
        token_id_of(SyntaxKind::ADD) == Some(TokenId::ADD),
        token_id_of(SyntaxKind::ASTERISK) == Some(TokenId::ASTERISK),
        token_id_of(SyntaxKind::BITWISE_AND) == Some(TokenId::BITWISE_AND),
        token_id_of(SyntaxKind::BITWISE_NOT) == Some(TokenId::BITWISE_NOT),
        token_id_of(SyntaxKind::BITWISE_XOR) == Some(TokenId::BITWISE_XOR),
        token_id_of(SyntaxKind::COLON) == Some(TokenId::COLON),
        token_id_of(SyntaxKind::COMMA) == Some(TokenId::COMMA),
        token_id_of(SyntaxKind::DIV) == Some(TokenId::DIV),
        token_id_of(SyntaxKind::DOT) == Some(TokenId::DOT),
        token_id_of(SyntaxKind::EQ) == Some(TokenId::EQ),
        token_id_of(SyntaxKind::EQUAL) == Some(TokenId::EQUAL),
        token_id_of(SyntaxKind::GE) == Some(TokenId::GE),
        token_id_of(SyntaxKind::GT) == Some(TokenId::GT),
        token_id_of(SyntaxKind::HYPHEN) == Some(TokenId::HYPHEN),
        token_id_of(SyntaxKind::LE) == Some(TokenId::LE),
        token_id_of(SyntaxKind::LT) == Some(TokenId::LT),
        token_id_of(SyntaxKind::L_BRACE) == Some(TokenId::L_BRACE),
        token_id_of(SyntaxKind::L_BRACKET) == Some(TokenId::L_BRACKET),
        token_id_of(SyntaxKind::L_PAREN) == Some(TokenId::L_PAREN),
        token_id_of(SyntaxKind::NE) == Some(TokenId::NE),
        token_id_of(SyntaxKind::PERCENT) == Some(TokenId::PERCENT),
        token_id_of(SyntaxKind::PIPE) == Some(TokenId::PIPE),
        token_id_of(SyntaxKind::R_BRACE) == Some(TokenId::R_BRACE),
        token_id_of(SyntaxKind::R_BRACKET) == Some(TokenId::R_BRACKET),
        token_id_of(SyntaxKind::R_PAREN) == Some(TokenId::R_PAREN),
        token_id_of(SyntaxKind::SHL) == Some(TokenId::SHL),
        token_id_of(SyntaxKind::SHR) == Some(TokenId::SHR),
        kind_of(TokenId::ADD) == SyntaxKind::ADD,
        kind_of(TokenId::ASTERISK) == SyntaxKind::ASTERISK,
        kind_of(TokenId::BITWISE_AND) == SyntaxKind::BITWISE_AND,
        kind_of(TokenId::BITWISE_NOT) == SyntaxKind::BITWISE_NOT,
        kind_of(TokenId::BITWISE_XOR) == SyntaxKind::BITWISE_XOR,
        kind_of(TokenId::COLON) == SyntaxKind::COLON,
        kind_of(TokenId::COMMA) == SyntaxKind::COMMA,
        kind_of(TokenId::DIV) == SyntaxKind::DIV,
        kind_of(TokenId::DOT) == SyntaxKind::DOT,
        kind_of(TokenId::EQ) == SyntaxKind::EQ,
        kind_of(TokenId::EQUAL) == SyntaxKind::EQUAL,
        kind_of(TokenId::GE) == SyntaxKind::GE,
        kind_of(TokenId::GT) == SyntaxKind::GT,
        kind_of(TokenId::HYPHEN) == SyntaxKind::HYPHEN,
        kind_of(TokenId::LE) == SyntaxKind::LE,
        kind_of(TokenId::LT) == SyntaxKind::LT,
        kind_of(TokenId::L_BRACE) == SyntaxKind::L_BRACE,
        kind_of(TokenId::L_BRACKET) == SyntaxKind::L_BRACKET,
        kind_of(TokenId::L_PAREN) == SyntaxKind::L_PAREN,
        kind_of(TokenId::NE) == SyntaxKind::NE,
        kind_of(TokenId::PERCENT) == SyntaxKind::PERCENT,
        kind_of(TokenId::PIPE) == SyntaxKind::PIPE,
        kind_of(TokenId::R_BRACE) == SyntaxKind::R_BRACE,
        kind_of(TokenId::R_BRACKET) == SyntaxKind::R_BRACKET,
        kind_of(TokenId::R_PAREN) == SyntaxKind::R_PAREN,
        kind_of(TokenId::SHL) == SyntaxKind::SHL,
        kind_of(TokenId::SHR) == SyntaxKind::SHR,
{
}

/// Where they are operators, some signs have other kinds: a hyphen is a minus sign, a
/// percent sign gives the remainder, an asterisk the product and a bar the bitwise
/// disjunction.
pub proof fn law_kinds_of_operators()
    ensures
        token_id_of(SyntaxKind::MINUS) == Some(TokenId::HYPHEN),
        token_id_of(SyntaxKind::MOD) == Some(TokenId::PERCENT),
        token_id_of(SyntaxKind::MUL) == Some(TokenId::ASTERISK),
        token_id_of(SyntaxKind::SUB) == Some(TokenId::HYPHEN),
        token_id_of(SyntaxKind::BITWISE_OR) == Some(TokenId::PIPE),
{
}

/// The kind of any other token has the same name.
pub proof fn law_kinds_of_other_tokens()
    ensures
        token_id_of(SyntaxKind::COMMENT) == Some(TokenId::COMMENT),
        token_id_of(SyntaxKind::FLOAT_LIT) == Some(TokenId::FLOAT_LIT),
        token_id_of(SyntaxKind::HEX_BYTE) == Some(TokenId::HEX_BYTE),
        token_id_of(SyntaxKind::IDENT) == Some(TokenId::IDENT),
        token_id_of(SyntaxKind::INTEGER_LIT) == Some(TokenId::INTEGER_LIT),
        token_id_of(SyntaxKind::NEWLINE) == Some(TokenId::NEWLINE),
        token_id_of(SyntaxKind::PATTERN_COUNT) == Some(TokenId::PATTERN_COUNT),
        token_id_of(SyntaxKind::PATTERN_IDENT) == Some(TokenId::PATTERN_IDENT),
        token_id_of(SyntaxKind::PATTERN_LENGTH) == Some(TokenId::PATTERN_LENGTH),
        token_id_of(SyntaxKind::PATTERN_OFFSET) == Some(TokenId::PATTERN_OFFSET),
        token_id_of(SyntaxKind::REGEXP) == Some(TokenId::REGEXP),
        token_id_of(SyntaxKind::STRING_LIT) == Some(TokenId::STRING_LIT),
        token_id_of(SyntaxKind::UNKNOWN) == Some(TokenId::UNKNOWN),
        token_id_of(SyntaxKind::WHITESPACE) == Some(TokenId::WHITESPACE),
        kind_of(TokenId::COMMENT) == SyntaxKind::COMMENT,
        kind_of(TokenId::FLOAT_LIT) == SyntaxKind::FLOAT_LIT,
        kind_of(TokenId::HEX_BYTE) == SyntaxKind::HEX_BYTE,
        kind_of(TokenId::IDENT) == SyntaxKind::IDENT,
        kind_of(TokenId::INTEGER_LIT) == SyntaxKind::INTEGER_LIT,
        kind_of(TokenId::NEWLINE) == SyntaxKind::NEWLINE,
        kind_of(TokenId::PATTERN_COUNT) == SyntaxKind::PATTERN_COUNT,
        kind_of(TokenId::PATTERN_IDENT) == SyntaxKind::PATTERN_IDENT,
        kind_of(TokenId::PATTERN_LENGTH) == SyntaxKind::PATTERN_LENGTH,
        kind_of(TokenId::PATTERN_OFFSET) == SyntaxKind::PATTERN_OFFSET,
        kind_of(TokenId::REGEXP) == SyntaxKind::REGEXP,
        kind_of(TokenId::STRING_LIT) == SyntaxKind::STRING_LIT,
        kind_of(TokenId::UNKNOWN) == SyntaxKind::UNKNOWN,
        kind_of(TokenId::WHITESPACE) == SyntaxKind::WHITESPACE,
{
}

/// A token of one kind.
pub proof fn lemma_one_kind(src: Seq<u8>, at: Cursor, kind: SyntaxKind, id: TokenId)
    requires
        token_id_of(kind) == Some(id),
    ensures
        read_token(seq![kind], src, at) == (if is_at(src, at, id) {
            Some(
                Reading::Fits(
                    after_relevant(src, at),
                    seq![EventView::Token(kind, span_at(src, at))],
                ),
            )
        } else {
            Some(Reading::Fails)
        }),
{
    reveal(read_token);
    if let Some(token) = relevant_after(src, at) {
        if token.id == id {
            lemma_kind_found(seq![kind], id, 0);
        } else {
            lemma_kind_missing(seq![kind], token.id);
        }
    }
}

/// An operator, and the boolean term after it.
pub struct Operand {
    /// The kind of the operator.
    pub operator: SyntaxKind,
    /// Where the operator is.
    pub span: Span,
    /// The nodes and tokens of the term.
    pub term: Seq<EventView>,
    /// Where the term ends.
    pub end: Cursor,
}

/// From a place on there are operators and terms: each operator is `and` or `or`,
/// and after the last term there is neither.
pub open spec fn has_operands(src: Seq<u8>, at: Cursor, operands: Seq<Operand>) -> bool
    decreases operands.len(),
{
    if operands.len() == 0 {
        !is_at(src, at, TokenId::AND_KW) && !is_at(src, at, TokenId::OR_KW)
    } else {
        let first = operands[0];
        &&& first.operator == SyntaxKind::AND_KW && is_at(src, at, TokenId::AND_KW)
            || first.operator == SyntaxKind::OR_KW && is_at(src, at, TokenId::OR_KW)
        &&& first.span == span_at(src, at)
        &&& reads(SyntaxKind::BOOLEAN_TERM, src, after_relevant(src, at)) == Some(
            Reading::Fits(first.end, first.term),
        )
        &&& has_operands(src, first.end, operands.drop_first())
    }
}

/// Where the last of some terms ends.
pub open spec fn operands_end(at: Cursor, operands: Seq<Operand>) -> Cursor {
    if operands.len() == 0 {
        at
    } else {
        operands.last().end
    }
}

/// Operators and terms, in turn.
pub open spec fn operands_shown(operands: Seq<Operand>) -> Seq<EventView>
    decreases operands.len(),
{
    if operands.len() == 0 {
        Seq::empty()
    } else {
        let first = operands[0];
        seq![EventView::Token(first.operator, first.span)] + first.term + operands_shown(
            operands.drop_first(),
        )
    }
}

proof fn lemma_operands(src: Seq<u8>, at: Cursor, operands: Seq<Operand>)
    requires
        has_operands(src, at, operands),
    ensures
        repeated(
            more_pairs(
                seq![SyntaxKind::AND_KW, SyntaxKind::OR_KW],
                SyntaxKind::BOOLEAN_TERM,
                src,
            ),
            at,
        ) == Some(Reading::Fits(operands_end(at, operands), operands_shown(operands))),
    decreases operands.len(),
{
    reveal(read_token);
    reveal(join);
    reveal(nothing);
    let set = seq![SyntaxKind::AND_KW, SyntaxKind::OR_KW];
    let step = more_pairs(set, SyntaxKind::BOOLEAN_TERM, src);
    lemma_round(step, at);
    assert(step(at) == and_rule(read_token(set, src, at), SyntaxKind::BOOLEAN_TERM, src));
    if operands.len() > 0 {
        let first = operands[0];
        let others = operands.drop_first();
        lemma_operands(src, first.end, others);
        lemma_kind_found(
            set,
            relevant_after(src, at)->0.id,
            if first.operator == SyntaxKind::AND_KW {
                0
            } else {
                1
            },
        );
        assert(step(at) == Some(
            Reading::Fits(
                first.end,
                seq![EventView::Token(first.operator, first.span)] + first.term,
            ),
        ));
        if others.len() > 0 {
            assert(others.last() == operands.last());
        }
    } else if let Some(token) = relevant_after(src, at) {
        lemma_kind_missing(set, token.id);
    }
}

/// Boolean terms with `and` or `or` between them, as many as there are, are one
/// boolean expression. It has the terms and the operators in it, in order.
pub proof fn law_terms(
    src: Seq<u8>,
    at: Cursor,
    next: Cursor,
    first: Seq<EventView>,
    operands: Seq<Operand>,
)
    requires
        src.len() <= usize::MAX,
        reads(SyntaxKind::BOOLEAN_TERM, src, at) == Some(Reading::Fits(next, first)),
        has_operands(src, next, operands),
    ensures
        reads(SyntaxKind::BOOLEAN_EXPR, src, at) == Some(
            Reading::Fits(
                operands_end(next, operands),
                node_of(SyntaxKind::BOOLEAN_EXPR, first + operands_shown(operands)),
            ),
        ),
{
    reveal(join);
    reveal(within);
    law_boolean_expr(src, at);
    lemma_operands(src, next, operands);
}

/// Two terms with `or` between them are parsed as a boolean expression that has the
/// first term, the operator and the second term in it. The same goes for `and`.
pub proof fn law_two_terms(s: State, t: State, base: Cursor, first: Operand, second: Operand)
    requires
        s.placed(),
        !s.failed,
        sound(s, base),
        reads(SyntaxKind::BOOLEAN_TERM, s.src, s.cursor) == Some(
            Reading::Fits(first.end, first.term),
        ),
        is_at(s.src, first.end, TokenId::OR_KW) && second.operator == SyntaxKind::OR_KW || is_at(
            s.src,
            first.end,
            TokenId::AND_KW,
        ) && second.operator == SyntaxKind::AND_KW,
        second.span == span_at(s.src, first.end),
        reads(SyntaxKind::BOOLEAN_TERM, s.src, after_relevant(s.src, first.end)) == Some(
            Reading::Fits(second.end, second.term),
        ),
        !is_at(s.src, second.end, TokenId::AND_KW),
        !is_at(s.src, second.end, TokenId::OR_KW),
        parses(Expr::Rule(SyntaxKind::BOOLEAN_EXPR), s, t),
    ensures
        !t.failed,
        t.cursor == second.end,
        outside(t.out.events.skip(s.out.events.len() as int)) == node_of(
            SyntaxKind::BOOLEAN_EXPR,
            first.term + seq![EventView::Token(second.operator, second.span)] + second.term,
        ),
{
    let operands = seq![second];
    assert(operands.drop_first() =~= Seq::empty());
    assert(has_operands(s.src, second.end, operands.drop_first()));
    assert(has_operands(s.src, first.end, operands));
    law_terms(s.src, s.cursor, first.end, first.term, operands);
    lemma_condition_outcome(SyntaxKind::BOOLEAN_EXPR, s, t, base);
    assert(operands_shown(operands.drop_first()) =~= Seq::empty());
    assert(first.term + operands_shown(operands) =~= first.term + seq![
        EventView::Token(second.operator, second.span),
    ] + second.term);
}

/// One of the five words that are modifiers without arguments.
pub open spec fn is_plain_word(id: TokenId, kind: SyntaxKind) -> bool {
    ||| id == TokenId::ASCII_KW && kind == SyntaxKind::ASCII_KW
    ||| id == TokenId::WIDE_KW && kind == SyntaxKind::WIDE_KW
    ||| id == TokenId::NOCASE_KW && kind == SyntaxKind::NOCASE_KW
    ||| id == TokenId::PRIVATE_KW && kind == SyntaxKind::PRIVATE_KW
    ||| id == TokenId::FULLWORD_KW && kind == SyntaxKind::FULLWORD_KW
}

/// One of the five words is read as a modifier.
proof fn lemma_plain_word(src: Seq<u8>, at: Cursor, id: TokenId, kind: SyntaxKind)
    requires
        src.len() <= usize::MAX,
        is_at(src, at, id),
        is_plain_word(id, kind),
    ensures
        reads(SyntaxKind::PATTERN_MOD, src, at) == Some(
            Reading::Fits(
                after_relevant(src, at),
                node_of(SyntaxKind::PATTERN_MOD, seq![EventView::Token(kind, span_at(src, at))]),
            ),
        ),
{
    reveal(read_token);
    reveal(or_else);
    reveal(within);
    law_pattern_mod(src, at);
    lemma_kind_found(
        seq![
            SyntaxKind::ASCII_KW,
            SyntaxKind::WIDE_KW,
            SyntaxKind::NOCASE_KW,
            SyntaxKind::PRIVATE_KW,
            SyntaxKind::FULLWORD_KW,
        ],
        id,
        match id {
            TokenId::ASCII_KW => 0,
            TokenId::WIDE_KW => 1,
            TokenId::NOCASE_KW => 2,
            TokenId::PRIVATE_KW => 3,
            _ => 4,
        },
    );
}

/// Each of the five words alone is a modifier of a pattern: `ascii`, `wide`,
/// `nocase`, `private` and `fullword`.
pub proof fn law_plain_modifier(s: State, t: State, id: TokenId, kind: SyntaxKind)
    requires
        s.placed(),
        !s.failed,
        is_at(s.src, s.cursor, id),
        is_plain_word(id, kind),
        parses(Expr::Rule(SyntaxKind::PATTERN_MOD), s, t),
    ensures
        !t.failed,
        t.cursor == after_relevant(s.src, s.cursor),
        outside(t.out.events.skip(s.out.events.len() as int)) == node_of(
            SyntaxKind::PATTERN_MOD,
            seq![EventView::Token(kind, span_at(s.src, s.cursor))],
        ),
{
    lemma_plain_word(s.src, s.cursor, id, kind);
    lemma_plain_outcome(SyntaxKind::PATTERN_MOD, s, t);
}

/// A pattern that is a string, with one of the five words after it and no other
/// modifier, is read as a definition with this modifier.
pub proof fn law_modified_pattern(
    src: Seq<u8>,
    at: Cursor,
    id: TokenId,
    kind: SyntaxKind,
)
    requires
        src.len() <= usize::MAX,
        is_plain_word(id, kind),
        ({
            let equal = after_relevant(src, at);
            let text = after_relevant(src, equal);
            let word = after_relevant(src, text);
            &&& is_at(src, at, TokenId::PATTERN_IDENT)
            &&& is_at(src, equal, TokenId::EQUAL)
            &&& is_at(src, text, TokenId::STRING_LIT)
            &&& is_at(src, word, id)
            &&& reads(SyntaxKind::PATTERN_MOD, src, after_relevant(src, word)) == Some(
                Reading::Fails,
            )
        }),
    ensures
        ({
            let equal = after_relevant(src, at);
            let text = after_relevant(src, equal);
            let word = after_relevant(src, text);
            reads(SyntaxKind::PATTERN_DEF, src, at) == Some(
                Reading::Fits(
                    after_relevant(src, word),
                    node_of(
                        SyntaxKind::PATTERN_DEF,
                        seq![
                            EventView::Token(SyntaxKind::PATTERN_IDENT, span_at(src, at)),
                            EventView::Token(SyntaxKind::EQUAL, span_at(src, equal)),
                            EventView::Token(SyntaxKind::STRING_LIT, span_at(src, text)),
                        ] + node_of(
                            SyntaxKind::PATTERN_MODS,
                            node_of(
                                SyntaxKind::PATTERN_MOD,
                                seq![EventView::Token(kind, span_at(src, word))],
                            ),
                        ),
                    ),
                ),
            )
        }),
{
    reveal(join);
    reveal(nothing);
    reveal(or_else);
    reveal(within);
    let equal = after_relevant(src, at);
    let text = after_relevant(src, equal);
    let word = after_relevant(src, text);
    let a = EventView::Token(SyntaxKind::PATTERN_IDENT, span_at(src, at));
    let b = EventView::Token(SyntaxKind::EQUAL, span_at(src, equal));
    let c = EventView::Token(SyntaxKind::STRING_LIT, span_at(src, text));
    let modifier = node_of(
        SyntaxKind::PATTERN_MOD,
        seq![EventView::Token(kind, span_at(src, word))],
    );
    let step = more_rules(SyntaxKind::PATTERN_MOD, src);
    law_pattern_def(src, at);
    law_pattern_mods(src, word);
    lemma_plain_word(src, word, id, kind);
    lemma_round(step, after_relevant(src, word));
    assert(step(after_relevant(src, word)) == Some(Reading::Fails));
    lemma_one_kind(src, at, SyntaxKind::PATTERN_IDENT, TokenId::PATTERN_IDENT);
    lemma_one_kind(src, equal, SyntaxKind::EQUAL, TokenId::EQUAL);
    lemma_one_kind(src, text, SyntaxKind::STRING_LIT, TokenId::STRING_LIT);
    assert(modifier + Seq::<EventView>::empty() =~= modifier);
    assert(seq![a] + seq![b] + seq![c] =~= seq![a, b, c]);
}

/// The modifiers of a rule are `private`, `global`, `private global` or
/// `global private`, and nothing else: as much of it as there is.
pub proof fn law_rule_modifiers(s: State, t: State)
    requires
        s.placed(),
        !s.failed,
        parses(Expr::Rule(SyntaxKind::RULE_MODS), s, t),
    ensures
        ({
            let next = after_relevant(s.src, s.cursor);
            let private = EventView::Token(SyntaxKind::PRIVATE_KW, span_at(s.src, s.cursor));
            let global = EventView::Token(SyntaxKind::GLOBAL_KW, span_at(s.src, s.cursor));
            let then_private = EventView::Token(SyntaxKind::PRIVATE_KW, span_at(s.src, next));
            let then_global = EventView::Token(SyntaxKind::GLOBAL_KW, span_at(s.src, next));
            let shown = outside(t.out.events.skip(s.out.events.len() as int));
            if is_at(s.src, s.cursor, TokenId::PRIVATE_KW) {
                if is_at(s.src, next, TokenId::GLOBAL_KW) {
                    &&& !t.failed
                    &&& t.cursor == after_relevant(s.src, next)
                    &&& shown == node_of(SyntaxKind::RULE_MODS, seq![private, then_global])
                } else {
                    &&& !t.failed
                    &&& t.cursor == next
                    &&& shown == node_of(SyntaxKind::RULE_MODS, seq![private])
                }
            } else if is_at(s.src, s.cursor, TokenId::GLOBAL_KW) {
                if is_at(s.src, next, TokenId::PRIVATE_KW) {
                    &&& !t.failed
                    &&& t.cursor == after_relevant(s.src, next)
                    &&& shown == node_of(SyntaxKind::RULE_MODS, seq![global, then_private])
                } else {
                    &&& !t.failed
                    &&& t.cursor == next
                    &&& shown == node_of(SyntaxKind::RULE_MODS, seq![global])
                }
            } else {
                t.failed
            }
        }),
{
    reveal(read_token);
    reveal(join);
    reveal(nothing);
    reveal(or_else);
    reveal(within);
    let src = s.src;
    let next = after_relevant(src, s.cursor);
    let private = EventView::Token(SyntaxKind::PRIVATE_KW, span_at(src, s.cursor));
    let global = EventView::Token(SyntaxKind::GLOBAL_KW, span_at(src, s.cursor));
    let then_private = EventView::Token(SyntaxKind::PRIVATE_KW, span_at(src, next));
    let then_global = EventView::Token(SyntaxKind::GLOBAL_KW, span_at(src, next));
    law_rule_mods(src, s.cursor);
    lemma_one_kind(src, s.cursor, SyntaxKind::PRIVATE_KW, TokenId::PRIVATE_KW);
    lemma_one_kind(src, s.cursor, SyntaxKind::GLOBAL_KW, TokenId::GLOBAL_KW);
    lemma_one_kind(src, next, SyntaxKind::PRIVATE_KW, TokenId::PRIVATE_KW);
    lemma_one_kind(src, next, SyntaxKind::GLOBAL_KW, TokenId::GLOBAL_KW);
    lemma_plain_outcome(SyntaxKind::RULE_MODS, s, t);
    assert(seq![private] + seq![then_global] =~= seq![private, then_global]);
    assert(seq![global] + seq![then_private] =~= seq![global, then_private]);
    assert(seq![private] + Seq::<EventView>::empty() =~= seq![private]);
    assert(seq![global] + Seq::<EventView>::empty() =~= seq![global]);
}

} // verus!
