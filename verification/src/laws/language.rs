//! What the language is made of, token by token.
//!
//! For each production there is a law that says how a place in a source is read:
//! which tokens must be there, in which order, and what the result is. The laws
//! speak of tokens and of other productions only.

use crate::event::EventView;
use crate::grammar;
use crate::grammar::{n_or_more, production, Expr};
use crate::laws::reading::{
    at_end, end_of, group_readings, join, lemma_reading_and, lemma_reading_recover,
    lemma_reading_rule, lemma_reading_sync, lemma_repeated, nothing, or_else, read_token, reading,
    repeated, sees, skip, unless, within, Reading,
};
use crate::syntax_kind::SyntaxKind;
use crate::tokenizer::{Cursor, Mode};
use vstd::prelude::*;

verus! {

/// What a production is read as at some place.
pub open spec fn reads(kind: SyntaxKind, src: Seq<u8>, at: Cursor) -> Option<Reading> {
    reading(Expr::Rule(kind), src, at)
}

/// Something is read, and then a token of a set.
pub open spec fn and_token(
    first: Option<Reading>,
    set: Seq<SyntaxKind>,
    src: Seq<u8>,
) -> Option<Reading> {
    join(first, read_token(set, src, end_of(first)))
}

/// Something is read, and then a production.
pub open spec fn and_rule(
    first: Option<Reading>,
    kind: SyntaxKind,
    src: Seq<u8>,
) -> Option<Reading> {
    join(first, reads(kind, src, end_of(first)))
}

/// Something is read, and then a token of a set, or nothing.
pub open spec fn and_maybe_token(
    first: Option<Reading>,
    set: Seq<SyntaxKind>,
    src: Seq<u8>,
) -> Option<Reading> {
    join(first, or_else(read_token(set, src, end_of(first)), nothing(end_of(first))))
}

/// Something is read, and then a production, or nothing.
pub open spec fn and_maybe_rule(
    first: Option<Reading>,
    kind: SyntaxKind,
    src: Seq<u8>,
) -> Option<Reading> {
    join(first, or_else(reads(kind, src, end_of(first)), nothing(end_of(first))))
}

/// One more token of a set.
pub open spec fn more_tokens(
    set: Seq<SyntaxKind>,
    src: Seq<u8>,
) -> spec_fn(Cursor) -> Option<Reading> {
    |c: Cursor| read_token(set, src, c)
}

/// One more production.
pub open spec fn more_rules(
    kind: SyntaxKind,
    src: Seq<u8>,
) -> spec_fn(Cursor) -> Option<Reading> {
    |c: Cursor| reads(kind, src, c)
}

/// One more token of a set, with a production after it.
pub open spec fn more_pairs(
    set: Seq<SyntaxKind>,
    kind: SyntaxKind,
    src: Seq<u8>,
) -> spec_fn(Cursor) -> Option<Reading> {
    |c: Cursor| and_rule(read_token(set, src, c), kind, src)
}

/// One more token of a set, with a token of another set after it.
pub open spec fn more_token_pairs(
    set: Seq<SyntaxKind>,
    other: Seq<SyntaxKind>,
    src: Seq<u8>,
) -> spec_fn(Cursor) -> Option<Reading> {
    |c: Cursor| and_token(read_token(set, src, c), other, src)
}

/// An import statement is `import` and a string.
pub proof fn law_import_stmt(src: Seq<u8>, at: Cursor)
    requires
        src.len() <= usize::MAX,
    ensures
        ({
            let a = read_token(seq![SyntaxKind::IMPORT_KW], src, at);
            let b = and_token(a, seq![SyntaxKind::STRING_LIT], src);
            reads(SyntaxKind::IMPORT_STMT, src, at) == within(SyntaxKind::IMPORT_STMT, b)
        }),
{
    broadcast use group_readings;

    lemma_reading_rule(SyntaxKind::IMPORT_STMT, src, at);
    reveal(production);
    reveal(grammar::import_stmt);
}

/// The modifiers of a rule are `private`, which `global` may follow, or `global`,
/// which `private` may follow.
pub proof fn law_rule_mods(src: Seq<u8>, at: Cursor)
    requires
        src.len() <= usize::MAX,
    ensures
        ({
            let a = read_token(seq![SyntaxKind::PRIVATE_KW], src, at);
            let b = read_token(seq![SyntaxKind::GLOBAL_KW], src, at);
            let inner = or_else(
                and_maybe_token(a, seq![SyntaxKind::GLOBAL_KW], src),
                and_maybe_token(b, seq![SyntaxKind::PRIVATE_KW], src),
            );
            reads(SyntaxKind::RULE_MODS, src, at) == within(SyntaxKind::RULE_MODS, inner)
        }),
{
    broadcast use group_readings;

    lemma_reading_rule(SyntaxKind::RULE_MODS, src, at);
    reveal(production);
    reveal(grammar::rule_mods);
    reveal(grammar::private_mods);
    reveal(grammar::global_mods);
}

/// The tags of a rule are a colon and one or more identifiers: as many as there are.
pub proof fn law_rule_tags(src: Seq<u8>, at: Cursor)
    requires
        src.len() <= usize::MAX,
    ensures
        ({
            let a = read_token(seq![SyntaxKind::COLON], src, at);
            let b = read_token(seq![SyntaxKind::IDENT], src, end_of(a));
            let more = repeated(more_tokens(seq![SyntaxKind::IDENT], src), end_of(b));
            reads(SyntaxKind::RULE_TAGS, src, at) == within(
                SyntaxKind::RULE_TAGS,
                join(a, join(b, more)),
            )
        }),
{
    broadcast use group_readings;

    lemma_reading_rule(SyntaxKind::RULE_TAGS, src, at);
    reveal(production);
    reveal(grammar::rule_tags);
    let a = read_token(seq![SyntaxKind::COLON], src, at);
    let b = read_token(seq![SyntaxKind::IDENT], src, end_of(a));
    lemma_repeated(
        grammar::token(seq![SyntaxKind::IDENT]),
        src,
        end_of(b),
        more_tokens(seq![SyntaxKind::IDENT], src),
    );
}

/// The metadata of a rule is `meta`, a colon and one or more definitions.
pub proof fn law_meta_blk(src: Seq<u8>, at: Cursor)
    requires
        src.len() <= usize::MAX,
    ensures
        ({
            let a = and_token(
                read_token(seq![SyntaxKind::META_KW], src, at),
                seq![SyntaxKind::COLON],
                src,
            );
            let b = reads(SyntaxKind::META_DEF, src, end_of(a));
            let more = repeated(more_rules(SyntaxKind::META_DEF, src), end_of(b));
            reads(SyntaxKind::META_BLK, src, at) == within(
                SyntaxKind::META_BLK,
                join(a, join(b, more)),
            )
        }),
{
    broadcast use group_readings;

    lemma_reading_rule(SyntaxKind::META_BLK, src, at);
    reveal(production);
    reveal(grammar::meta_blk);
    let a = and_token(read_token(seq![SyntaxKind::META_KW], src, at), seq![SyntaxKind::COLON], src);
    let b = reads(SyntaxKind::META_DEF, src, end_of(a));
    lemma_repeated(
        Expr::Rule(SyntaxKind::META_DEF),
        src,
        end_of(b),
        more_rules(SyntaxKind::META_DEF, src),
    );
}

/// The patterns of a rule are `strings`, a colon and one or more definitions.
pub proof fn law_patterns_blk(src: Seq<u8>, at: Cursor)
    requires
        src.len() <= usize::MAX,
    ensures
        ({
            let a = and_token(
                read_token(seq![SyntaxKind::STRINGS_KW], src, at),
                seq![SyntaxKind::COLON],
                src,
            );
            let b = reads(SyntaxKind::PATTERN_DEF, src, end_of(a));
            let more = repeated(more_rules(SyntaxKind::PATTERN_DEF, src), end_of(b));
            reads(SyntaxKind::PATTERNS_BLK, src, at) == within(
                SyntaxKind::PATTERNS_BLK,
                join(a, join(b, more)),
            )
        }),
{
    broadcast use group_readings;

    lemma_reading_rule(SyntaxKind::PATTERNS_BLK, src, at);
    reveal(production);
    reveal(grammar::patterns_blk);
    let a = and_token(
        read_token(seq![SyntaxKind::STRINGS_KW], src, at),
        seq![SyntaxKind::COLON],
        src,
    );
    let b = reads(SyntaxKind::PATTERN_DEF, src, end_of(a));
    lemma_repeated(
        Expr::Rule(SyntaxKind::PATTERN_DEF),
        src,
        end_of(b),
        more_rules(SyntaxKind::PATTERN_DEF, src),
    );
}

/// The definition of a value is an identifier, `=` and a number, with a minus sign or
/// not, a string, `true` or `false`.
pub proof fn law_meta_def(src: Seq<u8>, at: Cursor)
    requires
        src.len() <= usize::MAX,
    ensures
        ({
            let a = and_token(
                read_token(seq![SyntaxKind::IDENT], src, at),
                seq![SyntaxKind::EQUAL],
                src,
            );
            let c = skip(src, end_of(a));
            let sign = or_else(read_token(seq![SyntaxKind::MINUS], src, c), nothing(c));
            let number = and_token(sign, seq![SyntaxKind::INTEGER_LIT, SyntaxKind::FLOAT_LIT], src);
            let other = read_token(
                seq![SyntaxKind::STRING_LIT, SyntaxKind::TRUE_KW, SyntaxKind::FALSE_KW],
                src,
                c,
            );
            reads(SyntaxKind::META_DEF, src, at) == within(
                SyntaxKind::META_DEF,
                join(a, or_else(number, other)),
            )
        }),
{
    broadcast use group_readings;

    lemma_reading_rule(SyntaxKind::META_DEF, src, at);
    reveal(production);
    reveal(grammar::meta_def);
    reveal(grammar::signed_number);
}

/// The definition of a pattern is its identifier, `=` and a string, a regular
/// expression or a hex pattern, with modifiers or not.
pub proof fn law_pattern_def(src: Seq<u8>, at: Cursor)
    requires
        src.len() <= usize::MAX,
    ensures
        ({
            let a = and_token(
                read_token(seq![SyntaxKind::PATTERN_IDENT], src, at),
                seq![SyntaxKind::EQUAL],
                src,
            );
            let text = read_token(seq![SyntaxKind::STRING_LIT], src, end_of(a));
            let regexp = read_token(seq![SyntaxKind::REGEXP], src, end_of(a));
            let hex = reads(SyntaxKind::HEX_PATTERN, src, end_of(a));
            let b = join(a, or_else(or_else(text, regexp), hex));
            let c = and_maybe_rule(b, SyntaxKind::PATTERN_MODS, src);
            reads(SyntaxKind::PATTERN_DEF, src, at) == within(SyntaxKind::PATTERN_DEF, c)
        }),
{
    broadcast use group_readings;

    lemma_reading_rule(SyntaxKind::PATTERN_DEF, src, at);
    reveal(production);
    reveal(grammar::pattern_def);
}

/// The modifiers of a pattern are one or more: as many as there are.
pub proof fn law_pattern_mods(src: Seq<u8>, at: Cursor)
    requires
        src.len() <= usize::MAX,
    ensures
        ({
            let a = reads(SyntaxKind::PATTERN_MOD, src, at);
            let more = repeated(more_rules(SyntaxKind::PATTERN_MOD, src), end_of(a));
            reads(SyntaxKind::PATTERN_MODS, src, at) == within(
                SyntaxKind::PATTERN_MODS,
                join(a, more),
            )
        }),
{
    broadcast use group_readings;

    lemma_reading_rule(SyntaxKind::PATTERN_MODS, src, at);
    reveal(production);
    reveal(grammar::pattern_mods);
    let a = reads(SyntaxKind::PATTERN_MOD, src, at);
    lemma_repeated(
        Expr::Rule(SyntaxKind::PATTERN_MOD),
        src,
        end_of(a),
        more_rules(SyntaxKind::PATTERN_MOD, src),
    );
}

/// A modifier is one of five words, `base64` or `base64wide`, which an alphabet in
/// parentheses may follow, or `xor`, which a number or two in parentheses may follow.
pub proof fn law_pattern_mod(src: Seq<u8>, at: Cursor)
    requires
        src.len() <= usize::MAX,
    ensures
        ({
            let word = read_token(
                seq![
                    SyntaxKind::ASCII_KW,
                    SyntaxKind::WIDE_KW,
                    SyntaxKind::NOCASE_KW,
                    SyntaxKind::PRIVATE_KW,
                    SyntaxKind::FULLWORD_KW,
                ],
                src,
                at,
            );
            let base64 = read_token(
                seq![SyntaxKind::BASE64_KW, SyntaxKind::BASE64WIDE_KW],
                src,
                at,
            );
            let open = read_token(seq![SyntaxKind::L_PAREN], src, end_of(base64));
            let alphabet = and_token(
                and_token(open, seq![SyntaxKind::STRING_LIT], src),
                seq![SyntaxKind::R_PAREN],
                src,
            );
            let encoded = join(base64, or_else(alphabet, nothing(end_of(base64))));
            let xor = read_token(seq![SyntaxKind::XOR_KW], src, at);
            let low = and_token(
                read_token(seq![SyntaxKind::L_PAREN], src, end_of(xor)),
                seq![SyntaxKind::INTEGER_LIT],
                src,
            );
            let dash = read_token(seq![SyntaxKind::HYPHEN], src, end_of(low));
            let high = and_token(dash, seq![SyntaxKind::INTEGER_LIT], src);
            let bounds = and_token(
                join(low, or_else(high, nothing(end_of(low)))),
                seq![SyntaxKind::R_PAREN],
                src,
            );
            let mixed = join(xor, or_else(bounds, nothing(end_of(xor))));
            reads(SyntaxKind::PATTERN_MOD, src, at) == within(
                SyntaxKind::PATTERN_MOD,
                or_else(or_else(word, encoded), mixed),
            )
        }),
{
    broadcast use group_readings;

    lemma_reading_rule(SyntaxKind::PATTERN_MOD, src, at);
    reveal(production);
    reveal(grammar::pattern_mod);
    reveal(grammar::plain_mod);
    reveal(grammar::base64_mod);
    reveal(grammar::base64_alphabet);
    reveal(grammar::xor_mod);
    reveal(grammar::xor_range);
    reveal(grammar::xor_upper_bound);
}

/// The condition of a rule is `condition`, a colon and a boolean expression.
pub proof fn law_condition_blk(src: Seq<u8>, at: Cursor)
    requires
        src.len() <= usize::MAX,
    ensures
        ({
            let a = and_token(
                read_token(seq![SyntaxKind::CONDITION_KW], src, at),
                seq![SyntaxKind::COLON],
                src,
            );
            let b = and_rule(a, SyntaxKind::BOOLEAN_EXPR, src);
            reads(SyntaxKind::CONDITION_BLK, src, at) == within(SyntaxKind::CONDITION_BLK, b)
        }),
{
    broadcast use group_readings;

    lemma_reading_rule(SyntaxKind::CONDITION_BLK, src, at);
    reveal(production);
    reveal(grammar::condition_blk);
}

/// A hex pattern is an opening brace, what is read in hex mode, and a closing brace.
pub proof fn law_hex_pattern(src: Seq<u8>, at: Cursor)
    requires
        src.len() <= usize::MAX,
    ensures
        ({
            let a = read_token(seq![SyntaxKind::L_BRACE], src, at);
            let b = join(a, nothing(Cursor { mode: Mode::HexPattern, ..end_of(a) }));
            let c = and_rule(b, SyntaxKind::HEX_SUB_PATTERN, src);
            let d = and_token(c, seq![SyntaxKind::R_BRACE], src);
            reads(SyntaxKind::HEX_PATTERN, src, at) == within(SyntaxKind::HEX_PATTERN, d)
        }),
{
    broadcast use group_readings;

    lemma_reading_rule(SyntaxKind::HEX_PATTERN, src, at);
    reveal(production);
    reveal(grammar::hex_pattern);
}

/// A byte or an alternative of a hex pattern.
pub open spec fn hex_unit(src: Seq<u8>, at: Cursor) -> Option<Reading> {
    or_else(
        read_token(seq![SyntaxKind::HEX_BYTE], src, at),
        reads(SyntaxKind::HEX_ALTERNATIVE, src, at),
    )
}

/// Jumps, as many as there are, and a byte or an alternative.
pub open spec fn more_hex_units(src: Seq<u8>) -> spec_fn(Cursor) -> Option<Reading> {
    |c: Cursor|
        {
            let jumps = repeated(
                more_rules(SyntaxKind::HEX_JUMP, src),
                skip(src, c),
            );
            join(jumps, hex_unit(src, end_of(jumps)))
        }
}

/// The inside of a hex pattern is a byte or an alternative, and others after it,
/// with jumps in between or not.
pub proof fn law_hex_sub_pattern(src: Seq<u8>, at: Cursor)
    requires
        src.len() <= usize::MAX,
    ensures
        ({
            let a = hex_unit(src, at);
            let more = repeated(more_hex_units(src), end_of(a));
            reads(SyntaxKind::HEX_SUB_PATTERN, src, at) == within(
                SyntaxKind::HEX_SUB_PATTERN,
                join(a, more),
            )
        }),
{
    broadcast use group_readings;

    lemma_reading_rule(SyntaxKind::HEX_SUB_PATTERN, src, at);
    reveal(production);
    reveal(grammar::hex_sub_pattern);
    reveal(grammar::hex_item);
    reveal(grammar::hex_more);
    let jump = Expr::Rule(SyntaxKind::HEX_JUMP);
    let step = more_hex_units(src);
    assert forall|c: Cursor| #[trigger] step(c) == reading(
        grammar::hex_more(),
        src,
        skip(src, c),
    ) by {
        lemma_repeated(
            jump,
            src,
            skip(src, c),
            more_rules(SyntaxKind::HEX_JUMP, src),
        );
    }
    lemma_repeated(grammar::hex_more(), src, end_of(hex_unit(src, at)), step);
}

/// An alternative of a hex pattern has one or more branches in parentheses, with a
/// bar between them.
pub proof fn law_hex_alternative(src: Seq<u8>, at: Cursor)
    requires
        src.len() <= usize::MAX,
    ensures
        ({
            let a = and_rule(
                read_token(seq![SyntaxKind::L_PAREN], src, at),
                SyntaxKind::HEX_SUB_PATTERN,
                src,
            );
            let more = repeated(
                more_pairs(seq![SyntaxKind::PIPE], SyntaxKind::HEX_SUB_PATTERN, src),
                end_of(a),
            );
            reads(SyntaxKind::HEX_ALTERNATIVE, src, at) == within(
                SyntaxKind::HEX_ALTERNATIVE,
                and_token(join(a, more), seq![SyntaxKind::R_PAREN], src),
            )
        }),
{
    broadcast use group_readings;

    lemma_reading_rule(SyntaxKind::HEX_ALTERNATIVE, src, at);
    reveal(production);
    reveal(grammar::hex_alternative);
    reveal(grammar::hex_branch);
    let a = and_rule(
        read_token(seq![SyntaxKind::L_PAREN], src, at),
        SyntaxKind::HEX_SUB_PATTERN,
        src,
    );
    lemma_repeated(
        grammar::hex_branch(),
        src,
        end_of(a),
        more_pairs(seq![SyntaxKind::PIPE], SyntaxKind::HEX_SUB_PATTERN, src),
    );
}

/// A jump has, in brackets, two bounds with a dash between them, each of which may be
/// missing, or a number.
pub proof fn law_hex_jump(src: Seq<u8>, at: Cursor)
    requires
        src.len() <= usize::MAX,
    ensures
        ({
            let a = read_token(seq![SyntaxKind::L_BRACKET], src, at);
            let b = join(a, nothing(Cursor { mode: Mode::HexJump, ..end_of(a) }));
            let c = skip(src, end_of(b));
            let low = or_else(read_token(seq![SyntaxKind::INTEGER_LIT], src, c), nothing(c));
            let bounds = and_maybe_token(
                and_token(low, seq![SyntaxKind::HYPHEN], src),
                seq![SyntaxKind::INTEGER_LIT],
                src,
            );
            let d = join(b, or_else(bounds, read_token(seq![SyntaxKind::INTEGER_LIT], src, c)));
            let e = and_token(d, seq![SyntaxKind::R_BRACKET], src);
            reads(SyntaxKind::HEX_JUMP, src, at) == within(SyntaxKind::HEX_JUMP, e)
        }),
{
    broadcast use group_readings;

    lemma_reading_rule(SyntaxKind::HEX_JUMP, src, at);
    reveal(production);
    reveal(grammar::hex_jump);
    reveal(grammar::jump_bounds);
}

/// A boolean expression is one or more terms, with `and` or `or` between them: as
/// many as there are.
pub proof fn law_boolean_expr(src: Seq<u8>, at: Cursor)
    requires
        src.len() <= usize::MAX,
    ensures
        ({
            let a = reads(SyntaxKind::BOOLEAN_TERM, src, at);
            let more = repeated(
                more_pairs(
                    seq![SyntaxKind::AND_KW, SyntaxKind::OR_KW],
                    SyntaxKind::BOOLEAN_TERM,
                    src,
                ),
                end_of(a),
            );
            reads(SyntaxKind::BOOLEAN_EXPR, src, at) == within(
                SyntaxKind::BOOLEAN_EXPR,
                join(a, more),
            )
        }),
{
    broadcast use group_readings;

    lemma_reading_rule(SyntaxKind::BOOLEAN_EXPR, src, at);
    reveal(production);
    reveal(grammar::boolean_expr);
    reveal(grammar::boolean_more);
    lemma_repeated(
        grammar::boolean_more(),
        src,
        end_of(reads(SyntaxKind::BOOLEAN_TERM, src, at)),
        more_pairs(
            seq![SyntaxKind::AND_KW, SyntaxKind::OR_KW],
            SyntaxKind::BOOLEAN_TERM,
            src,
        ),
    );
}

/// Something is read. If a token of a set follows it, the token and a production
/// after it are read too.
pub open spec fn and_if_token(
    first: Option<Reading>,
    set: Seq<SyntaxKind>,
    kind: SyntaxKind,
    src: Seq<u8>,
) -> Option<Reading> {
    join(
        first,
        if sees(src, end_of(first), set) {
            and_rule(read_token(set, src, end_of(first)), kind, src)
        } else {
            nothing(end_of(first))
        },
    )
}

/// A pattern, and where it must be.
proof fn lemma_anchored_pattern(src: Seq<u8>, at: Cursor)
    requires
        src.len() <= usize::MAX,
    ensures
        ({
            let a = read_token(seq![SyntaxKind::PATTERN_IDENT], src, at);
            let b = and_if_token(a, seq![SyntaxKind::AT_KW], SyntaxKind::EXPR, src);
            reading(grammar::anchored_pattern(), src, skip(src, at)) == and_if_token(
                b,
                seq![SyntaxKind::IN_KW],
                SyntaxKind::RANGE,
                src,
            )
        }),
{
    broadcast use group_readings;

    reveal(grammar::anchored_pattern);
}

/// Expressions that are compared with each other.
proof fn lemma_comparison(src: Seq<u8>, at: Cursor)
    requires
        src.len() <= usize::MAX,
    ensures
        ({
            let left = reads(SyntaxKind::EXPR, src, at);
            let more = repeated(
                more_pairs(
                    seq![
                        SyntaxKind::EQ,
                        SyntaxKind::NE,
                        SyntaxKind::LE,
                        SyntaxKind::LT,
                        SyntaxKind::GE,
                        SyntaxKind::GT,
                        SyntaxKind::CONTAINS_KW,
                        SyntaxKind::ICONTAINS_KW,
                        SyntaxKind::STARTSWITH_KW,
                        SyntaxKind::ISTARTSWITH_KW,
                        SyntaxKind::ENDSWITH_KW,
                        SyntaxKind::IENDSWITH_KW,
                        SyntaxKind::MATCHES_KW,
                    ],
                    SyntaxKind::EXPR,
                    src,
                ),
                end_of(left),
            );
            reading(grammar::comparison(), src, skip(src, at)) == join(left, more)
        }),
{
    broadcast use group_readings;

    reveal(grammar::comparison);
    reveal(grammar::comparison_more);
    reveal(grammar::comparison_ops);
    lemma_repeated(
        grammar::comparison_more(),
        src,
        end_of(reads(SyntaxKind::EXPR, src, at)),
        more_pairs(grammar::comparison_ops(), SyntaxKind::EXPR, src),
    );
}

/// A boolean term is the first of these that fits: a pattern, at an offset, in a
/// range, or anywhere; `true` or `false`; `not` or `defined` and a term; a `for`
/// expression; an `of` expression; expressions that are compared with each other;
/// a boolean expression in parentheses.
pub proof fn law_boolean_term(src: Seq<u8>, at: Cursor)
    requires
        src.len() <= usize::MAX,
    ensures
        ({
            let name = read_token(seq![SyntaxKind::PATTERN_IDENT], src, at);
            let offset = and_if_token(name, seq![SyntaxKind::AT_KW], SyntaxKind::EXPR, src);
            let a = and_if_token(offset, seq![SyntaxKind::IN_KW], SyntaxKind::RANGE, src);
            let b = read_token(seq![SyntaxKind::TRUE_KW, SyntaxKind::FALSE_KW], src, at);
            let prefix = read_token(seq![SyntaxKind::NOT_KW, SyntaxKind::DEFINED_KW], src, at);
            let c = and_rule(prefix, SyntaxKind::BOOLEAN_TERM, src);
            let d = reads(SyntaxKind::FOR_EXPR, src, at);
            let e = reads(SyntaxKind::OF_EXPR, src, at);
            let left = reads(SyntaxKind::EXPR, src, at);
            let more = repeated(
                more_pairs(
                    seq![
                        SyntaxKind::EQ,
                        SyntaxKind::NE,
                        SyntaxKind::LE,
                        SyntaxKind::LT,
                        SyntaxKind::GE,
                        SyntaxKind::GT,
                        SyntaxKind::CONTAINS_KW,
                        SyntaxKind::ICONTAINS_KW,
                        SyntaxKind::STARTSWITH_KW,
                        SyntaxKind::ISTARTSWITH_KW,
                        SyntaxKind::ENDSWITH_KW,
                        SyntaxKind::IENDSWITH_KW,
                        SyntaxKind::MATCHES_KW,
                    ],
                    SyntaxKind::EXPR,
                    src,
                ),
                end_of(left),
            );
            let f = join(left, more);
            let open = read_token(seq![SyntaxKind::L_PAREN], src, at);
            let g = and_token(
                and_rule(open, SyntaxKind::BOOLEAN_EXPR, src),
                seq![SyntaxKind::R_PAREN],
                src,
            );
            let inner = or_else(or_else(or_else(or_else(or_else(or_else(a, b), c), d), e), f), g);
            reads(SyntaxKind::BOOLEAN_TERM, src, at) == within(SyntaxKind::BOOLEAN_TERM, inner)
        }),
{
    broadcast use group_readings;

    lemma_reading_rule(SyntaxKind::BOOLEAN_TERM, src, at);
    lemma_anchored_pattern(src, skip(src, at));
    lemma_comparison(src, skip(src, at));
    reveal(production);
    reveal(grammar::boolean_term);
    reveal(grammar::prefixed_term);
    reveal(grammar::boolean_group);
}

/// An expression is one or more terms, with an operator or a dot between them.
pub proof fn law_expr(src: Seq<u8>, at: Cursor)
    requires
        src.len() <= usize::MAX,
    ensures
        ({
            let a = reads(SyntaxKind::TERM, src, at);
            let more = repeated(
                more_pairs(
                    seq![
                        SyntaxKind::ADD,
                        SyntaxKind::SUB,
                        SyntaxKind::MUL,
                        SyntaxKind::DIV,
                        SyntaxKind::MOD,
                        SyntaxKind::SHL,
                        SyntaxKind::SHR,
                        SyntaxKind::BITWISE_AND,
                        SyntaxKind::BITWISE_OR,
                        SyntaxKind::BITWISE_XOR,
                        SyntaxKind::BITWISE_NOT,
                        SyntaxKind::DOT,
                    ],
                    SyntaxKind::TERM,
                    src,
                ),
                end_of(a),
            );
            reads(SyntaxKind::EXPR, src, at) == within(
                SyntaxKind::EXPR,
                join(a, more),
            )
        }),
{
    broadcast use group_readings;

    lemma_reading_rule(SyntaxKind::EXPR, src, at);
    reveal(production);
    reveal(grammar::expr);
    reveal(grammar::expr_more);
    reveal(grammar::term_ops);
    lemma_repeated(
        grammar::expr_more(),
        src,
        end_of(reads(SyntaxKind::TERM, src, at)),
        more_pairs(
            seq![
                SyntaxKind::ADD,
                SyntaxKind::SUB,
                SyntaxKind::MUL,
                SyntaxKind::DIV,
                SyntaxKind::MOD,
                SyntaxKind::SHL,
                SyntaxKind::SHR,
                SyntaxKind::BITWISE_AND,
                SyntaxKind::BITWISE_OR,
                SyntaxKind::BITWISE_XOR,
                SyntaxKind::BITWISE_NOT,
                SyntaxKind::DOT,
            ],
            SyntaxKind::TERM,
            src,
        ),
    );
}

/// A term is a primary expression. An opening bracket after it starts an index, and
/// an opening parenthesis starts arguments, with commas between them.
pub proof fn law_term(src: Seq<u8>, at: Cursor)
    requires
        src.len() <= usize::MAX,
    ensures
        ({
            let a = reads(SyntaxKind::PRIMARY_EXPR, src, at);
            let bracket = read_token(seq![SyntaxKind::L_BRACKET], src, end_of(a));
            let index = reads(SyntaxKind::EXPR, src, end_of(bracket));
            let b = join(
                a,
                if sees(src, end_of(a), seq![SyntaxKind::L_BRACKET]) {
                    join(bracket, and_token(index, seq![SyntaxKind::R_BRACKET], src))
                } else {
                    nothing(end_of(a))
                },
            );
            let paren = read_token(seq![SyntaxKind::L_PAREN], src, end_of(b));
            let start = skip(src, end_of(paren));
            let argument = or_else(reads(SyntaxKind::BOOLEAN_EXPR, src, start), nothing(start));
            let others = repeated(
                more_pairs(seq![SyntaxKind::COMMA], SyntaxKind::BOOLEAN_EXPR, src),
                end_of(argument),
            );
            let c = join(
                b,
                if sees(src, end_of(b), seq![SyntaxKind::L_PAREN]) {
                    join(
                        paren,
                        and_token(join(argument, others), seq![SyntaxKind::R_PAREN], src),
                    )
                } else {
                    nothing(end_of(b))
                },
            );
            reads(SyntaxKind::TERM, src, at) == within(SyntaxKind::TERM, c)
        }),
{
    broadcast use group_readings;

    lemma_reading_rule(SyntaxKind::TERM, src, at);
    reveal(production);
    reveal(grammar::term);
    reveal(grammar::index);
    reveal(grammar::arguments);
    reveal(grammar::more_booleans);
    assert forall|c: Cursor| #[trigger] reading(
        n_or_more(0, grammar::more_booleans()),
        src,
        c,
    ) == repeated(more_pairs(seq![SyntaxKind::COMMA], SyntaxKind::BOOLEAN_EXPR, src), c) by {
        lemma_repeated(
            grammar::more_booleans(),
            src,
            c,
            more_pairs(seq![SyntaxKind::COMMA], SyntaxKind::BOOLEAN_EXPR, src),
        );
    }
}

/// A primary expression is one of these: a literal, `filesize` or `entrypoint`; how
/// many times a pattern is found, in a range or anywhere; where a match is or how
/// long, the match being given by an index or not; a minus sign or a tilde and a
/// term; an expression in parentheses; an identifier and those that follow it,
/// each after a dot.
pub proof fn law_primary_expr(src: Seq<u8>, at: Cursor)
    requires
        src.len() <= usize::MAX,
    ensures
        ({
            let a = read_token(
                seq![
                    SyntaxKind::FLOAT_LIT,
                    SyntaxKind::INTEGER_LIT,
                    SyntaxKind::STRING_LIT,
                    SyntaxKind::REGEXP,
                    SyntaxKind::FILESIZE_KW,
                    SyntaxKind::ENTRYPOINT_KW,
                ],
                src,
                at,
            );
            let count = read_token(seq![SyntaxKind::PATTERN_COUNT], src, at);
            let range = and_rule(
                read_token(seq![SyntaxKind::IN_KW], src, end_of(count)),
                SyntaxKind::RANGE,
                src,
            );
            let b = join(count, or_else(range, nothing(end_of(count))));
            let found = read_token(
                seq![SyntaxKind::PATTERN_OFFSET, SyntaxKind::PATTERN_LENGTH],
                src,
                at,
            );
            let bracket = read_token(seq![SyntaxKind::L_BRACKET], src, end_of(found));
            let index = and_token(
                and_rule(bracket, SyntaxKind::EXPR, src),
                seq![SyntaxKind::R_BRACKET],
                src,
            );
            let c = join(found, or_else(index, nothing(end_of(found))));
            let minus = read_token(seq![SyntaxKind::MINUS], src, at);
            let d = and_rule(minus, SyntaxKind::TERM, src);
            let tilde = read_token(seq![SyntaxKind::BITWISE_NOT], src, at);
            let e = and_rule(tilde, SyntaxKind::TERM, src);
            let open = read_token(seq![SyntaxKind::L_PAREN], src, at);
            let f = and_token(
                and_rule(open, SyntaxKind::EXPR, src),
                seq![SyntaxKind::R_PAREN],
                src,
            );
            let name = read_token(seq![SyntaxKind::IDENT], src, at);
            let fields = repeated(
                more_token_pairs(seq![SyntaxKind::DOT], seq![SyntaxKind::IDENT], src),
                end_of(name),
            );
            let g = join(name, fields);
            let inner = or_else(or_else(or_else(or_else(or_else(or_else(a, b), c), d), e), f), g);
            reads(SyntaxKind::PRIMARY_EXPR, src, at) == within(SyntaxKind::PRIMARY_EXPR, inner)
        }),
{
    broadcast use group_readings;

    lemma_reading_rule(SyntaxKind::PRIMARY_EXPR, src, at);
    reveal(production);
    reveal(grammar::primary_expr);
    reveal(grammar::primary_node);
    reveal(grammar::literal);
    reveal(grammar::pattern_count);
    reveal(grammar::in_range);
    reveal(grammar::pattern_match);
    reveal(grammar::match_index);
    reveal(grammar::negation);
    reveal(grammar::complement);
    reveal(grammar::group);
    reveal(grammar::path);
    reveal(grammar::field);
    lemma_repeated(
        grammar::field(),
        src,
        end_of(read_token(seq![SyntaxKind::IDENT], src, at)),
        more_token_pairs(seq![SyntaxKind::DOT], seq![SyntaxKind::IDENT], src),
    );
}

/// The patterns of a `for` or an `of` expression: `them`, or a list.
pub open spec fn some_patterns(src: Seq<u8>, at: Cursor) -> Option<Reading> {
    or_else(
        read_token(seq![SyntaxKind::THEM_KW], src, at),
        reads(SyntaxKind::PATTERN_IDENT_TUPLE, src, at),
    )
}

/// A `for` expression is `for`, a quantifier, what the loop goes over, a colon and
/// a boolean expression in parentheses. What the loop goes over is `of` and some
/// patterns, or one or more identifiers with commas between them, `in` and
/// something iterable.
pub proof fn law_for_expr(src: Seq<u8>, at: Cursor)
    requires
        src.len() <= usize::MAX,
    ensures
        ({
            let a = and_rule(
                read_token(seq![SyntaxKind::FOR_KW], src, at),
                SyntaxKind::QUANTIFIER,
                src,
            );
            let of = read_token(seq![SyntaxKind::OF_KW], src, end_of(a));
            let patterns = join(of, some_patterns(src, end_of(of)));
            let name = read_token(seq![SyntaxKind::IDENT], src, end_of(a));
            let names = join(
                name,
                repeated(
                    more_token_pairs(seq![SyntaxKind::COMMA], seq![SyntaxKind::IDENT], src),
                    end_of(name),
                ),
            );
            let items = and_rule(
                and_token(names, seq![SyntaxKind::IN_KW], src),
                SyntaxKind::ITERABLE,
                src,
            );
            let b = join(a, or_else(patterns, items));
            let c = and_token(
                and_token(b, seq![SyntaxKind::COLON], src),
                seq![SyntaxKind::L_PAREN],
                src,
            );
            let d = and_token(
                and_rule(c, SyntaxKind::BOOLEAN_EXPR, src),
                seq![SyntaxKind::R_PAREN],
                src,
            );
            reads(SyntaxKind::FOR_EXPR, src, at) == within(SyntaxKind::FOR_EXPR, d)
        }),
{
    broadcast use group_readings;

    lemma_reading_rule(SyntaxKind::FOR_EXPR, src, at);
    reveal(production);
    reveal(grammar::for_expr);
    reveal(grammar::for_patterns);
    reveal(grammar::pattern_choice);
    reveal(grammar::for_items);
    reveal(grammar::more_idents);
    let a = and_rule(
        read_token(seq![SyntaxKind::FOR_KW], src, at),
        SyntaxKind::QUANTIFIER,
        src,
    );
    lemma_repeated(
        grammar::more_idents(),
        src,
        end_of(read_token(seq![SyntaxKind::IDENT], src, end_of(a))),
        more_token_pairs(seq![SyntaxKind::COMMA], seq![SyntaxKind::IDENT], src),
    );
}

/// An `of` expression is a quantifier, `of` and the first of these that fits: some
/// patterns, or a list of boolean expressions. The patterns may have to be at an
/// offset or in a range, but not both: the token that follows them tells which.
/// Neither `at` nor `in` may follow the list.
pub proof fn law_of_expr(src: Seq<u8>, at: Cursor)
    requires
        src.len() <= usize::MAX,
    ensures
        ({
            let a = and_token(
                reads(SyntaxKind::QUANTIFIER, src, at),
                seq![SyntaxKind::OF_KW],
                src,
            );
            let patterns = some_patterns(src, end_of(a));
            let next = end_of(patterns);
            let offset = and_rule(
                read_token(seq![SyntaxKind::AT_KW], src, next),
                SyntaxKind::EXPR,
                src,
            );
            let range = and_rule(
                read_token(seq![SyntaxKind::IN_KW], src, next),
                SyntaxKind::RANGE,
                src,
            );
            let anchor = if sees(src, next, seq![SyntaxKind::AT_KW]) {
                offset
            } else if sees(src, next, seq![SyntaxKind::IN_KW]) {
                range
            } else {
                nothing(next)
            };
            let list = reads(SyntaxKind::BOOLEAN_EXPR_TUPLE, src, end_of(a));
            let unanchored = unless(
                read_token(seq![SyntaxKind::AT_KW, SyntaxKind::IN_KW], src, end_of(list)),
                end_of(list),
            );
            let b = join(a, or_else(join(patterns, anchor), join(list, unanchored)));
            reads(SyntaxKind::OF_EXPR, src, at) == within(SyntaxKind::OF_EXPR, b)
        }),
{
    broadcast use group_readings;

    lemma_reading_rule(SyntaxKind::OF_EXPR, src, at);
    reveal(production);
    reveal(grammar::of_expr);
    reveal(grammar::of_patterns);
    reveal(grammar::pattern_choice);
    reveal(grammar::anchor);
    reveal(grammar::at_offset);
    reveal(grammar::in_range);
    reveal(grammar::of_booleans);
}

/// A quantifier is the first of these that fits: `all`, `none` or `any`; a primary
/// expression and a percent sign; an expression that no percent sign follows.
pub proof fn law_quantifier(src: Seq<u8>, at: Cursor)
    requires
        src.len() <= usize::MAX,
    ensures
        ({
            let a = read_token(
                seq![SyntaxKind::ALL_KW, SyntaxKind::NONE_KW, SyntaxKind::ANY_KW],
                src,
                at,
            );
            let b = and_token(
                reads(SyntaxKind::PRIMARY_EXPR, src, at),
                seq![SyntaxKind::PERCENT],
                src,
            );
            let count = reads(SyntaxKind::EXPR, src, at);
            let exact = unless(
                read_token(seq![SyntaxKind::PERCENT], src, end_of(count)),
                end_of(count),
            );
            let c = join(count, exact);
            reads(SyntaxKind::QUANTIFIER, src, at) == within(
                SyntaxKind::QUANTIFIER,
                or_else(or_else(a, b), c),
            )
        }),
{
    broadcast use group_readings;

    lemma_reading_rule(SyntaxKind::QUANTIFIER, src, at);
    reveal(production);
    reveal(grammar::quantifier);
    reveal(grammar::percentage);
    reveal(grammar::exact_count);
}

/// One more pattern of a list, with an asterisk or not.
pub open spec fn more_patterns(src: Seq<u8>) -> spec_fn(Cursor) -> Option<Reading> {
    |c: Cursor|
        and_maybe_token(
            and_token(
                read_token(seq![SyntaxKind::COMMA], src, c),
                seq![SyntaxKind::PATTERN_IDENT],
                src,
            ),
            seq![SyntaxKind::ASTERISK],
            src,
        )
}

/// A list of patterns has one or more of them in parentheses, each with an asterisk
/// or not, and with commas between them.
pub proof fn law_pattern_ident_tuple(src: Seq<u8>, at: Cursor)
    requires
        src.len() <= usize::MAX,
    ensures
        ({
            let a = and_token(
                read_token(seq![SyntaxKind::L_PAREN], src, at),
                seq![SyntaxKind::PATTERN_IDENT],
                src,
            );
            let b = and_maybe_token(a, seq![SyntaxKind::ASTERISK], src);
            let c = join(b, repeated(more_patterns(src), end_of(b)));
            let d = and_token(c, seq![SyntaxKind::R_PAREN], src);
            reads(SyntaxKind::PATTERN_IDENT_TUPLE, src, at) == within(
                SyntaxKind::PATTERN_IDENT_TUPLE,
                d,
            )
        }),
{
    broadcast use group_readings;

    lemma_reading_rule(SyntaxKind::PATTERN_IDENT_TUPLE, src, at);
    reveal(production);
    reveal(grammar::pattern_ident_tuple);
    reveal(grammar::more_pattern_idents);
    let a = and_token(
        read_token(seq![SyntaxKind::L_PAREN], src, at),
        seq![SyntaxKind::PATTERN_IDENT],
        src,
    );
    let b = and_maybe_token(a, seq![SyntaxKind::ASTERISK], src);
    lemma_repeated(grammar::more_pattern_idents(), src, end_of(b), more_patterns(src));
}

/// Something is read, and what comes next is a token of a set, or the source has
/// ended. If it is not so, the parser has something to forget or to skip.
#[verifier::opaque]
pub open spec fn if_before(
    first: Option<Reading>,
    set: Seq<SyntaxKind>,
    src: Seq<u8>,
) -> Option<Reading> {
    match first {
        Some(Reading::Fits(next, events)) => if at_end(src, next) || sees(src, next, set) {
            Some(Reading::Fits(skip(src, next), events))
        } else {
            None
        },
        _ => None,
    }
}

/// A point of recovery.
broadcast proof fn lemma_if_before(a: Expr, set: Seq<SyntaxKind>, src: Seq<u8>, at: Cursor)
    ensures
        #[trigger] reading(a.recover_and_sync(set), src, at) == if_before(
            reading(a, src, at),
            set,
            src,
        ),
{
    reveal(if_before);
    reveal(join);
    reveal(nothing);
    let recovered = a.and(Expr::Recover);
    let first = reading(a, src, at);
    lemma_reading_and(a, Expr::Recover, src, at);
    lemma_reading_recover(src, end_of(first));
    lemma_reading_and(recovered, Expr::Sync(set), src, at);
    lemma_reading_sync(set, src, end_of(reading(recovered, src, at)));
    if let Some(Reading::Fits(next, events)) = first {
        assert(events + Seq::<EventView>::empty() =~= events);
    }
}

/// Something is read. If a token of a set follows it, a production is read too.
pub open spec fn and_if(
    first: Option<Reading>,
    set: Seq<SyntaxKind>,
    kind: SyntaxKind,
    src: Seq<u8>,
) -> Option<Reading> {
    join(
        first,
        if sees(src, end_of(first), set) {
            reads(kind, src, end_of(first))
        } else {
            nothing(end_of(first))
        },
    )
}

/// A rule is, in this order: modifiers, which may be missing; `rule`; its name;
/// tags, if a colon follows; an opening brace; metadata, if `meta` follows;
/// patterns, if `strings` follows; a condition; a closing brace.
pub proof fn law_rule_decl(src: Seq<u8>, at: Cursor)
    requires
        src.len() <= usize::MAX,
    ensures
        ({
            let start = skip(src, at);
            let mods = or_else(reads(SyntaxKind::RULE_MODS, src, at), nothing(start));
            let name = and_token(
                and_token(mods, seq![SyntaxKind::RULE_KW], src),
                seq![SyntaxKind::IDENT],
                src,
            );
            let header = and_if(name, seq![SyntaxKind::COLON], SyntaxKind::RULE_TAGS, src);
            let a = and_token(
                if_before(header, seq![SyntaxKind::L_BRACE], src),
                seq![SyntaxKind::L_BRACE],
                src,
            );
            let b = if_before(
                a,
                seq![SyntaxKind::META_KW, SyntaxKind::STRINGS_KW, SyntaxKind::CONDITION_KW],
                src,
            );
            let meta = and_if(b, seq![SyntaxKind::META_KW], SyntaxKind::META_BLK, src);
            let c = if_before(
                meta,
                seq![SyntaxKind::STRINGS_KW, SyntaxKind::CONDITION_KW],
                src,
            );
            let patterns = and_if(
                c,
                seq![SyntaxKind::STRINGS_KW],
                SyntaxKind::PATTERNS_BLK,
                src,
            );
            let d = if_before(patterns, seq![SyntaxKind::CONDITION_KW], src);
            let e = and_rule(d, SyntaxKind::CONDITION_BLK, src);
            let f = and_token(
                if_before(e, seq![SyntaxKind::R_BRACE], src),
                seq![SyntaxKind::R_BRACE],
                src,
            );
            reads(SyntaxKind::RULE_DECL, src, at) == within(SyntaxKind::RULE_DECL, f)
        }),
{
    broadcast use {group_readings, lemma_if_before};

    lemma_reading_rule(SyntaxKind::RULE_DECL, src, at);
    reveal(production);
    reveal(grammar::rule_decl);
    reveal(grammar::rule_parts);
    reveal(grammar::rule_blocks);
    reveal(grammar::rule_header);
}

/// A range is two expressions in parentheses, with two dots between them.
pub proof fn law_range(src: Seq<u8>, at: Cursor)
    requires
        src.len() <= usize::MAX,
    ensures
        ({
            let a = read_token(seq![SyntaxKind::L_PAREN], src, at);
            let b = and_rule(a, SyntaxKind::EXPR, src);
            let c = and_token(and_token(b, seq![SyntaxKind::DOT], src), seq![SyntaxKind::DOT], src);
            let d = and_token(and_rule(c, SyntaxKind::EXPR, src), seq![SyntaxKind::R_PAREN], src);
            reads(SyntaxKind::RANGE, src, at) == within(SyntaxKind::RANGE, d)
        }),
{
    broadcast use group_readings;

    lemma_reading_rule(SyntaxKind::RANGE, src, at);
    reveal(production);
    reveal(grammar::range);
}

/// What a loop goes over is the first of these that fits: a range, a list of
/// expressions, an expression.
pub proof fn law_iterable(src: Seq<u8>, at: Cursor)
    requires
        src.len() <= usize::MAX,
    ensures
        ({
            let a = reads(SyntaxKind::RANGE, src, at);
            let b = reads(SyntaxKind::EXPR_TUPLE, src, at);
            let c = reads(SyntaxKind::EXPR, src, at);
            reads(SyntaxKind::ITERABLE, src, at) == within(
                SyntaxKind::ITERABLE,
                or_else(or_else(a, b), c),
            )
        }),
{
    broadcast use group_readings;

    lemma_reading_rule(SyntaxKind::ITERABLE, src, at);
    reveal(production);
    reveal(grammar::iterable);
}

/// A list of boolean expressions has one or more of them in parentheses, with commas
/// between them.
pub proof fn law_boolean_expr_tuple(src: Seq<u8>, at: Cursor)
    requires
        src.len() <= usize::MAX,
    ensures
        ({
            let a = and_rule(
                read_token(seq![SyntaxKind::L_PAREN], src, at),
                SyntaxKind::BOOLEAN_EXPR,
                src,
            );
            let more = repeated(
                more_pairs(seq![SyntaxKind::COMMA], SyntaxKind::BOOLEAN_EXPR, src),
                end_of(a),
            );
            reads(SyntaxKind::BOOLEAN_EXPR_TUPLE, src, at) == within(
                SyntaxKind::BOOLEAN_EXPR_TUPLE,
                and_token(join(a, more), seq![SyntaxKind::R_PAREN], src),
            )
        }),
{
    broadcast use group_readings;

    lemma_reading_rule(SyntaxKind::BOOLEAN_EXPR_TUPLE, src, at);
    reveal(production);
    reveal(grammar::boolean_expr_tuple);
    reveal(grammar::more_booleans);
    let a = and_rule(read_token(seq![SyntaxKind::L_PAREN], src, at), SyntaxKind::BOOLEAN_EXPR, src);
    lemma_repeated(
        grammar::more_booleans(),
        src,
        end_of(a),
        more_pairs(seq![SyntaxKind::COMMA], SyntaxKind::BOOLEAN_EXPR, src),
    );
}

/// A list of expressions has one or more of them in parentheses, with commas
/// between them.
pub proof fn law_expr_tuple(src: Seq<u8>, at: Cursor)
    requires
        src.len() <= usize::MAX,
    ensures
        ({
            let a = and_rule(
                read_token(seq![SyntaxKind::L_PAREN], src, at),
                SyntaxKind::EXPR,
                src,
            );
            let more = repeated(
                more_pairs(seq![SyntaxKind::COMMA], SyntaxKind::EXPR, src),
                end_of(a),
            );
            reads(SyntaxKind::EXPR_TUPLE, src, at) == within(
                SyntaxKind::EXPR_TUPLE,
                and_token(join(a, more), seq![SyntaxKind::R_PAREN], src),
            )
        }),
{
    broadcast use group_readings;

    lemma_reading_rule(SyntaxKind::EXPR_TUPLE, src, at);
    reveal(production);
    reveal(grammar::expr_tuple);
    reveal(grammar::more_exprs);
    let a = and_rule(read_token(seq![SyntaxKind::L_PAREN], src, at), SyntaxKind::EXPR, src);
    lemma_repeated(
        grammar::more_exprs(),
        src,
        end_of(a),
        more_pairs(seq![SyntaxKind::COMMA], SyntaxKind::EXPR, src),
    );
}

} // verus!
