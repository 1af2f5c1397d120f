//! The grammar of YARA.
//!
//! It is a [parsing expression grammar][1]: the alternatives of a production
//! are tried in order, and the first one that fits is taken.
//!
//! [1]: https://en.wikipedia.org/wiki/Parsing_expression_grammar

use crate::syntax_kind::SyntaxKind;
use vstd::prelude::*;

verus! {

/// A parsing expression.
pub enum Expr {
    /// A token of a set. If there is a description, it stands in error
    /// messages for those of the tokens.
    Expect(Seq<SyntaxKind>, Option<Seq<char>>),
    /// Switches the tokenizer to hex pattern mode.
    HexPatternMode,
    /// Switches the tokenizer to hex jump mode.
    HexJumpMode,
    /// Forgets a failure.
    Recover,
    /// Skips the tokens up to one of a set.
    Sync(Seq<SyntaxKind>),
    /// An expression followed by another one.
    Cat(Box<Expr>, Box<Expr>),
    /// A node of the syntax tree.
    Node(SyntaxKind, Box<Expr>),
    /// An expression, or nothing.
    Opt(Box<Expr>),
    /// Nothing, where the expression does not fit.
    Not(Box<Expr>),
    /// An expression, if the next token is in a set.
    IfNext(Seq<SyntaxKind>, Box<Expr>),
    /// An expression, if the next token is in a set, and another one if not.
    IfNextElse(Seq<SyntaxKind>, Box<Expr>, Box<Expr>),
    /// An expression, as many times as it fits.
    Many(Box<Expr>),
    /// An expression, unless the parser has failed.
    One(Box<Expr>),
    /// An expression that is not tried again at a place where it failed.
    Cached(SyntaxKind, Box<Expr>),
    /// The first of some expressions that fits.
    Alt(Seq<Expr>),
    /// The expression of a production.
    Rule(SyntaxKind),
}

impl Expr {
    /// This expression followed by another one.
    pub open spec fn and(self, next: Expr) -> Expr {
        Expr::Cat(Box::new(self), Box::new(next))
    }

    /// This expression followed by another one, unless this one fails.
    pub open spec fn and_one(self, next: Expr) -> Expr {
        self.and(one(next))
    }

    /// This expression followed by a token of a set.
    pub open spec fn token(self, set: Seq<SyntaxKind>) -> Expr {
        self.and(token(set))
    }

    /// This expression, after which the parser skips the tokens up to one of a
    /// set and forgets any failure.
    pub open spec fn recover_and_sync(self, set: Seq<SyntaxKind>) -> Expr {
        self.and(Expr::Recover).and(Expr::Sync(set))
    }
}

/// A token of a set.
pub open spec fn token(set: Seq<SyntaxKind>) -> Expr {
    Expr::Expect(set, None)
}

/// A token of a set, with a description for all of them.
pub open spec fn described(set: Seq<SyntaxKind>, description: Seq<char>) -> Expr {
    Expr::Expect(set, Some(description))
}

/// An expression, unless the parser has failed.
pub open spec fn one(expr: Expr) -> Expr {
    Expr::One(Box::new(expr))
}

/// A node of the syntax tree.
pub open spec fn node(kind: SyntaxKind, expr: Expr) -> Expr {
    Expr::Node(kind, Box::new(expr))
}

/// An expression, or nothing.
pub open spec fn opt(expr: Expr) -> Expr {
    Expr::Opt(Box::new(expr))
}

/// Nothing, where the expression does not fit.
pub open spec fn not(expr: Expr) -> Expr {
    Expr::Not(Box::new(expr))
}

/// An expression, if the next token is in a set.
pub open spec fn if_next(set: Seq<SyntaxKind>, expr: Expr) -> Expr {
    Expr::IfNext(set, Box::new(expr))
}

/// An expression, if the next token is in a set, and another one if not.
pub open spec fn if_next_else(set: Seq<SyntaxKind>, expr: Expr, other: Expr) -> Expr {
    Expr::IfNextElse(set, Box::new(expr), Box::new(other))
}

/// A token of a set and an expression, if the next token is in the set.
pub open spec fn cond(set: Seq<SyntaxKind>, expr: Expr) -> Expr {
    if_next(set, token(set).and_one(expr))
}

/// An expression `n` times, and then as many times as it fits.
pub open spec fn n_or_more(n: nat, expr: Expr) -> Expr
    decreases n,
{
    if n == 0 {
        Expr::Many(Box::new(expr))
    } else {
        one(expr).and(n_or_more((n - 1) as nat, expr))
    }
}

/// An expression as many times as it fits.
pub open spec fn zero_or_more(expr: Expr) -> Expr {
    n_or_more(0, expr)
}

/// An expression as many times as it fits, but at least once.
pub open spec fn one_or_more(expr: Expr) -> Expr {
    n_or_more(1, expr)
}

/// An expression that is not tried again at a place where it failed.
pub open spec fn cached(kind: SyntaxKind, expr: Expr) -> Expr {
    Expr::Cached(kind, Box::new(expr))
}

/// The first of some expressions that fits.
pub open spec fn alt(exprs: Seq<Expr>) -> Expr {
    Expr::Alt(exprs)
}

/// ```text
/// IMPORT_STMT ::= `import` STRING_LIT
/// ```
#[verifier::opaque]
pub open spec fn import_stmt() -> Expr {
    node(
        SyntaxKind::IMPORT_STMT,
        token(seq![SyntaxKind::IMPORT_KW]).token(seq![SyntaxKind::STRING_LIT]),
    )
}

/// What a rule starts with.
#[verifier::opaque]
pub open spec fn rule_header() -> Expr {
    opt(Expr::Rule(SyntaxKind::RULE_MODS))
        .token(seq![SyntaxKind::RULE_KW])
        .token(seq![SyntaxKind::IDENT])
        .and(if_next(seq![SyntaxKind::COLON], Expr::Rule(SyntaxKind::RULE_TAGS)))
}

/// The header of a rule, and the blocks that can be left out.
#[verifier::opaque]
pub open spec fn rule_blocks() -> Expr {
    rule_header()
        .recover_and_sync(seq![SyntaxKind::L_BRACE])
        .token(seq![SyntaxKind::L_BRACE])
        .recover_and_sync(
            seq![SyntaxKind::META_KW, SyntaxKind::STRINGS_KW, SyntaxKind::CONDITION_KW],
        )
        .and(if_next(seq![SyntaxKind::META_KW], Expr::Rule(SyntaxKind::META_BLK)))
        .recover_and_sync(seq![SyntaxKind::STRINGS_KW, SyntaxKind::CONDITION_KW])
        .and(if_next(seq![SyntaxKind::STRINGS_KW], Expr::Rule(SyntaxKind::PATTERNS_BLK)))
}

/// A rule, up to the brace that closes it.
#[verifier::opaque]
pub open spec fn rule_parts() -> Expr {
    rule_blocks()
        .recover_and_sync(seq![SyntaxKind::CONDITION_KW])
        .and(Expr::Rule(SyntaxKind::CONDITION_BLK))
        .recover_and_sync(seq![SyntaxKind::R_BRACE])
}

/// ```text
/// RULE_DECL ::= RULE_MODS? `rule` IDENT RULE_TAGS? `{`
///   META_BLK?
///   PATTERNS_BLK?
///   CONDITION_BLK
/// `}`
/// ```
///
/// Wherever a part of the rule is not as it should be, the tokens up to what
/// can follow it are skipped.
#[verifier::opaque]
pub open spec fn rule_decl() -> Expr {
    node(SyntaxKind::RULE_DECL, rule_parts().token(seq![SyntaxKind::R_BRACE]))
}

/// The modifiers of a rule, if the first one is `private`.
#[verifier::opaque]
pub open spec fn private_mods() -> Expr {
    token(seq![SyntaxKind::PRIVATE_KW]).and(opt(token(seq![SyntaxKind::GLOBAL_KW])))
}

/// The modifiers of a rule, if the first one is `global`.
#[verifier::opaque]
pub open spec fn global_mods() -> Expr {
    token(seq![SyntaxKind::GLOBAL_KW]).and(opt(token(seq![SyntaxKind::PRIVATE_KW])))
}

/// ```text
/// RULE_MODS ::= ( `private` `global`? | `global` `private`? )
/// ```
#[verifier::opaque]
pub open spec fn rule_mods() -> Expr {
    node(SyntaxKind::RULE_MODS, alt(Seq::empty().push(private_mods()).push(global_mods())))
}

/// ```text
/// RULE_TAGS ::= `:` IDENT+
/// ```
#[verifier::opaque]
pub open spec fn rule_tags() -> Expr {
    node(
        SyntaxKind::RULE_TAGS,
        token(seq![SyntaxKind::COLON]).and(one_or_more(token(seq![SyntaxKind::IDENT]))),
    )
}

/// ```text
/// META_BLK ::= `meta` `:` META_DEF+
/// ```
#[verifier::opaque]
pub open spec fn meta_blk() -> Expr {
    node(
        SyntaxKind::META_BLK,
        token(seq![SyntaxKind::META_KW])
            .token(seq![SyntaxKind::COLON])
            .and(one_or_more(Expr::Rule(SyntaxKind::META_DEF))),
    )
}

/// A number, with a sign or not.
#[verifier::opaque]
pub open spec fn signed_number() -> Expr {
    opt(token(seq![SyntaxKind::MINUS])).token(seq![SyntaxKind::INTEGER_LIT, SyntaxKind::FLOAT_LIT])
}

/// ```text
/// META_DEF ::= IDENT `=` (
///     `-`? ( INTEGER_LIT | FLOAT_LIT ) |
///     STRING_LIT                       |
///     `true`                           |
///     `false`
/// )
/// ```
#[verifier::opaque]
pub open spec fn meta_def() -> Expr {
    node(
        SyntaxKind::META_DEF,
        token(seq![SyntaxKind::IDENT])
            .token(seq![SyntaxKind::EQUAL])
            .and(
                alt(
                    Seq::empty()
                        .push(signed_number())
                        .push(
                            token(
                                seq![
                                    SyntaxKind::STRING_LIT,
                                    SyntaxKind::TRUE_KW,
                                    SyntaxKind::FALSE_KW,
                                ],
                            ),
                        ),
                ),
            ),
    )
}

/// ```text
/// PATTERNS_BLK ::= `strings` `:` PATTERN_DEF+
/// ```
#[verifier::opaque]
pub open spec fn patterns_blk() -> Expr {
    node(
        SyntaxKind::PATTERNS_BLK,
        token(seq![SyntaxKind::STRINGS_KW])
            .token(seq![SyntaxKind::COLON])
            .and(one_or_more(Expr::Rule(SyntaxKind::PATTERN_DEF))),
    )
}

/// ```text
/// PATTERN_DEF ::= PATTERN_IDENT `=` (
///     STRING_LIT  |
///     REGEXP      |
///     HEX_PATTERN
/// ) PATTERN_MODS?
/// ```
#[verifier::opaque]
pub open spec fn pattern_def() -> Expr {
    node(
        SyntaxKind::PATTERN_DEF,
        token(seq![SyntaxKind::PATTERN_IDENT])
            .token(seq![SyntaxKind::EQUAL])
            .and(
                alt(
                    Seq::empty()
                        .push(token(seq![SyntaxKind::STRING_LIT]))
                        .push(token(seq![SyntaxKind::REGEXP]))
                        .push(Expr::Rule(SyntaxKind::HEX_PATTERN)),
                ),
            )
            .and(opt(Expr::Rule(SyntaxKind::PATTERN_MODS))),
    )
}

/// ```text
/// PATTERN_MODS ::= PATTERN_MOD+
/// ```
#[verifier::opaque]
pub open spec fn pattern_mods() -> Expr {
    node(SyntaxKind::PATTERN_MODS, one_or_more(Expr::Rule(SyntaxKind::PATTERN_MOD)))
}

/// The argument of the `base64` modifiers.
#[verifier::opaque]
pub open spec fn base64_alphabet() -> Expr {
    token(seq![SyntaxKind::L_PAREN])
        .token(seq![SyntaxKind::STRING_LIT])
        .token(seq![SyntaxKind::R_PAREN])
}

/// A `base64` modifier.
#[verifier::opaque]
pub open spec fn base64_mod() -> Expr {
    described(seq![SyntaxKind::BASE64_KW, SyntaxKind::BASE64WIDE_KW], "pattern modifier"@)
        .and(opt(base64_alphabet()))
}

/// The second half of the argument of the `xor` modifier.
#[verifier::opaque]
pub open spec fn xor_upper_bound() -> Expr {
    token(seq![SyntaxKind::HYPHEN]).token(seq![SyntaxKind::INTEGER_LIT])
}

/// The argument of the `xor` modifier.
#[verifier::opaque]
pub open spec fn xor_range() -> Expr {
    token(seq![SyntaxKind::L_PAREN])
        .token(seq![SyntaxKind::INTEGER_LIT])
        .and(opt(xor_upper_bound()))
        .token(seq![SyntaxKind::R_PAREN])
}

/// An `xor` modifier.
#[verifier::opaque]
pub open spec fn xor_mod() -> Expr {
    described(seq![SyntaxKind::XOR_KW], "pattern modifier"@).and(opt(xor_range()))
}

/// A modifier without arguments.
#[verifier::opaque]
pub open spec fn plain_mod() -> Expr {
    described(
        seq![
            SyntaxKind::ASCII_KW,
            SyntaxKind::WIDE_KW,
            SyntaxKind::NOCASE_KW,
            SyntaxKind::PRIVATE_KW,
            SyntaxKind::FULLWORD_KW,
        ],
        "pattern modifier"@,
    )
}

/// ```text
/// PATTERN_MOD ::= (
///   `ascii`                                              |
///   `wide`                                               |
///   `nocase`                                             |
///   `private`                                            |
///   `fullword`                                           |
///   ( `base64` | `base64wide` ) ( `(` STRING_LIT `)` )?  |
///   `xor` ( `(` INTEGER_LIT ( `-` INTEGER_LIT )? `)` )?
/// )
/// ```
#[verifier::opaque]
pub open spec fn pattern_mod() -> Expr {
    node(
        SyntaxKind::PATTERN_MOD,
        alt(Seq::empty().push(plain_mod()).push(base64_mod()).push(xor_mod())),
    )
}

/// ```text
/// CONDITION_BLK ::= `condition` `:` BOOLEAN_EXPR
/// ```
#[verifier::opaque]
pub open spec fn condition_blk() -> Expr {
    node(
        SyntaxKind::CONDITION_BLK,
        token(seq![SyntaxKind::CONDITION_KW])
            .token(seq![SyntaxKind::COLON])
            .and_one(Expr::Rule(SyntaxKind::BOOLEAN_EXPR)),
    )
}

/// ```text
/// HEX_PATTERN ::= `{` HEX_SUB_PATTERN `}`
/// ```
#[verifier::opaque]
pub open spec fn hex_pattern() -> Expr {
    node(
        SyntaxKind::HEX_PATTERN,
        token(seq![SyntaxKind::L_BRACE])
            .and(Expr::HexPatternMode)
            .and_one(Expr::Rule(SyntaxKind::HEX_SUB_PATTERN))
            .token(seq![SyntaxKind::R_BRACE]),
    )
}

/// A byte or an alternative of a hex pattern.
#[verifier::opaque]
pub open spec fn hex_item() -> Expr {
    alt(
        Seq::empty()
            .push(token(seq![SyntaxKind::HEX_BYTE]))
            .push(Expr::Rule(SyntaxKind::HEX_ALTERNATIVE)),
    )
}

/// Jumps, and what follows them.
#[verifier::opaque]
pub open spec fn hex_more() -> Expr {
    zero_or_more(Expr::Rule(SyntaxKind::HEX_JUMP)).and(hex_item())
}

/// ```text
/// HEX_SUB_PATTERN ::=
///   ( HEX_BYTE | HEX_ALTERNATIVE ) ( HEX_JUMP* ( HEX_BYTE | HEX_ALTERNATIVE ) )*
/// ```
#[verifier::opaque]
pub open spec fn hex_sub_pattern() -> Expr {
    node(SyntaxKind::HEX_SUB_PATTERN, hex_item().and(zero_or_more(hex_more())))
}

/// One more branch of an alternative of a hex pattern.
#[verifier::opaque]
pub open spec fn hex_branch() -> Expr {
    token(seq![SyntaxKind::PIPE]).and_one(Expr::Rule(SyntaxKind::HEX_SUB_PATTERN))
}

/// ```text
/// HEX_ALTERNATIVE ::= `(` HEX_SUB_PATTERN ( `|` HEX_SUB_PATTERN )* `)`
/// ```
#[verifier::opaque]
pub open spec fn hex_alternative() -> Expr {
    node(
        SyntaxKind::HEX_ALTERNATIVE,
        token(seq![SyntaxKind::L_PAREN])
            .and_one(Expr::Rule(SyntaxKind::HEX_SUB_PATTERN))
            .and(zero_or_more(hex_branch()))
            .token(seq![SyntaxKind::R_PAREN]),
    )
}

/// The bounds of a jump, each of which can be left out.
#[verifier::opaque]
pub open spec fn jump_bounds() -> Expr {
    opt(token(seq![SyntaxKind::INTEGER_LIT]))
        .token(seq![SyntaxKind::HYPHEN])
        .and(opt(token(seq![SyntaxKind::INTEGER_LIT])))
}

/// ```text
/// HEX_JUMP ::= `[` ( INTEGER_LIT? `-` INTEGER_LIT? | INTEGER_LIT ) `]`
/// ```
#[verifier::opaque]
pub open spec fn hex_jump() -> Expr {
    node(
        SyntaxKind::HEX_JUMP,
        token(seq![SyntaxKind::L_BRACKET])
            .and(Expr::HexJumpMode)
            .and(alt(Seq::empty().push(jump_bounds()).push(token(seq![SyntaxKind::INTEGER_LIT]))))
            .token(seq![SyntaxKind::R_BRACKET]),
    )
}

/// One more term of a boolean expression.
#[verifier::opaque]
pub open spec fn boolean_more() -> Expr {
    token(seq![SyntaxKind::AND_KW, SyntaxKind::OR_KW]).and_one(Expr::Rule(SyntaxKind::BOOLEAN_TERM))
}

/// ```text
/// BOOLEAN_EXPR ::= BOOLEAN_TERM ( ( `and` | `or` ) BOOLEAN_TERM )*
/// ```
#[verifier::opaque]
pub open spec fn boolean_expr() -> Expr {
    node(
        SyntaxKind::BOOLEAN_EXPR,
        Expr::Rule(SyntaxKind::BOOLEAN_TERM).and(zero_or_more(boolean_more())),
    )
}

/// The operators that compare two expressions.
#[verifier::opaque]
pub open spec fn comparison_ops() -> Seq<SyntaxKind> {
    seq![
        SyntaxKind::EQ,
        SyntaxKind::NE,
        SyntaxKind::LE,
        SyntaxKind::LT,
        SyntaxKind::GE,
        SyntaxKind::GT,
        SyntaxKind::CONTAINS_KW,
        SyntaxKind::ICONTAINS_KW,
        SyntaxKind::STARTSWITH_KW,
        SyntaxKind::ISTARTSWITH_KW,
        SyntaxKind::ENDSWITH_KW,
        SyntaxKind::IENDSWITH_KW,
        SyntaxKind::MATCHES_KW,
    ]
}

/// A pattern, and where it must be.
#[verifier::opaque]
pub open spec fn anchored_pattern() -> Expr {
    token(seq![SyntaxKind::PATTERN_IDENT])
        .and(cond(seq![SyntaxKind::AT_KW], Expr::Rule(SyntaxKind::EXPR)))
        .and(cond(seq![SyntaxKind::IN_KW], Expr::Rule(SyntaxKind::RANGE)))
}

/// A term after a prefix operator.
#[verifier::opaque]
pub open spec fn prefixed_term() -> Expr {
    token(seq![SyntaxKind::NOT_KW, SyntaxKind::DEFINED_KW])
        .and_one(Expr::Rule(SyntaxKind::BOOLEAN_TERM))
}

/// The right side of a comparison.
#[verifier::opaque]
pub open spec fn comparison_more() -> Expr {
    token(comparison_ops()).and_one(Expr::Rule(SyntaxKind::EXPR))
}

/// An expression, compared with others or not.
#[verifier::opaque]
pub open spec fn comparison() -> Expr {
    Expr::Rule(SyntaxKind::EXPR).and(zero_or_more(comparison_more()))
}

/// A boolean expression in parentheses.
#[verifier::opaque]
pub open spec fn boolean_group() -> Expr {
    token(seq![SyntaxKind::L_PAREN])
        .and_one(Expr::Rule(SyntaxKind::BOOLEAN_EXPR))
        .token(seq![SyntaxKind::R_PAREN])
}

/// ```text
/// BOOLEAN_TERM ::= (
///    PATTERN_IDENT ( `at` EXPR )? ( `in` RANGE )? |
///    `true`                                       |
///    `false`                                      |
///    `not` BOOLEAN_TERM                           |
///    `defined` BOOLEAN_TERM                       |
///    FOR_EXPR                                     |
///    OF_EXPR                                      |
///    EXPR ( comparison_op EXPR )*                 |
///    `(` BOOLEAN_EXPR `)`
/// )
/// ```
#[verifier::opaque]
pub open spec fn boolean_term() -> Expr {
    node(
        SyntaxKind::BOOLEAN_TERM,
        alt(
            Seq::empty()
                .push(anchored_pattern())
                .push(token(seq![SyntaxKind::TRUE_KW, SyntaxKind::FALSE_KW]))
                .push(prefixed_term())
                .push(Expr::Rule(SyntaxKind::FOR_EXPR))
                .push(Expr::Rule(SyntaxKind::OF_EXPR))
                .push(comparison())
                .push(boolean_group()),
        ),
    )
}

/// The operators that combine two terms.
#[verifier::opaque]
pub open spec fn term_ops() -> Seq<SyntaxKind> {
    seq![
        SyntaxKind::ADD,
        SyntaxKind::SUB,
        SyntaxKind::MUL,
        SyntaxKind::DIV,
        SyntaxKind::MOD,
        SyntaxKind::SHL,
        SyntaxKind::SHR,
        SyntaxKind::BITWISE_AND,
        SyntaxKind::BITWISE_OR,
        SyntaxKind::BITWISE_XOR,
        SyntaxKind::BITWISE_NOT,
        SyntaxKind::DOT,
    ]
}

/// One more term of an expression.
#[verifier::opaque]
pub open spec fn expr_more() -> Expr {
    token(term_ops()).and_one(Expr::Rule(SyntaxKind::TERM))
}

/// ```text
/// EXPR ::= TERM ( ( arithmetic_op | bitwise_op | `.` ) TERM )*
/// ```
#[verifier::opaque]
pub open spec fn expr() -> Expr {
    node(SyntaxKind::EXPR, Expr::Rule(SyntaxKind::TERM).and(zero_or_more(expr_more())))
}

/// What follows the opening bracket of an index.
#[verifier::opaque]
pub open spec fn index() -> Expr {
    Expr::Rule(SyntaxKind::EXPR).token(seq![SyntaxKind::R_BRACKET])
}

/// One more boolean expression of a list.
#[verifier::opaque]
pub open spec fn more_booleans() -> Expr {
    token(seq![SyntaxKind::COMMA]).and_one(Expr::Rule(SyntaxKind::BOOLEAN_EXPR))
}

/// What follows the opening parenthesis of a function call.
#[verifier::opaque]
pub open spec fn arguments() -> Expr {
    opt(Expr::Rule(SyntaxKind::BOOLEAN_EXPR))
        .and(zero_or_more(more_booleans()))
        .token(seq![SyntaxKind::R_PAREN])
}

/// ```text
/// TERM ::= PRIMARY_EXPR ( `[` EXPR `]` )? ( `(` ( BOOLEAN_EXPR ( `,` BOOLEAN_EXPR )* )? `)` )?
/// ```
#[verifier::opaque]
pub open spec fn term() -> Expr {
    node(
        SyntaxKind::TERM,
        one(Expr::Rule(SyntaxKind::PRIMARY_EXPR))
            .and(cond(seq![SyntaxKind::L_BRACKET], index()))
            .and(cond(seq![SyntaxKind::L_PAREN], arguments())),
    )
}

/// ```text
/// RANGE ::= `(` EXPR `.` `.` EXPR `)`
/// ```
#[verifier::opaque]
pub open spec fn range() -> Expr {
    node(
        SyntaxKind::RANGE,
        token(seq![SyntaxKind::L_PAREN])
            .and_one(Expr::Rule(SyntaxKind::EXPR))
            .token(seq![SyntaxKind::DOT])
            .token(seq![SyntaxKind::DOT])
            .and_one(Expr::Rule(SyntaxKind::EXPR))
            .token(seq![SyntaxKind::R_PAREN]),
    )
}

/// A literal, or a keyword that stands for a number.
#[verifier::opaque]
pub open spec fn literal() -> Expr {
    described(
        seq![
            SyntaxKind::FLOAT_LIT,
            SyntaxKind::INTEGER_LIT,
            SyntaxKind::STRING_LIT,
            SyntaxKind::REGEXP,
            SyntaxKind::FILESIZE_KW,
            SyntaxKind::ENTRYPOINT_KW,
        ],
        "expression"@,
    )
}

/// The range in which a pattern must be, or is counted.
#[verifier::opaque]
pub open spec fn in_range() -> Expr {
    token(seq![SyntaxKind::IN_KW]).and_one(Expr::Rule(SyntaxKind::RANGE))
}

/// How many times a pattern is found.
#[verifier::opaque]
pub open spec fn pattern_count() -> Expr {
    described(seq![SyntaxKind::PATTERN_COUNT], "expression"@).and(opt(in_range()))
}

/// Which of the matches of a pattern is meant.
#[verifier::opaque]
pub open spec fn match_index() -> Expr {
    token(seq![SyntaxKind::L_BRACKET])
        .and_one(Expr::Rule(SyntaxKind::EXPR))
        .token(seq![SyntaxKind::R_BRACKET])
}

/// Where a match of a pattern is, or how long it is.
#[verifier::opaque]
pub open spec fn pattern_match() -> Expr {
    described(seq![SyntaxKind::PATTERN_OFFSET, SyntaxKind::PATTERN_LENGTH], "expression"@)
        .and(opt(match_index()))
}

/// A term after a minus sign.
#[verifier::opaque]
pub open spec fn negation() -> Expr {
    described(seq![SyntaxKind::MINUS], "expression"@).and_one(Expr::Rule(SyntaxKind::TERM))
}

/// A term after a tilde.
#[verifier::opaque]
pub open spec fn complement() -> Expr {
    described(seq![SyntaxKind::BITWISE_NOT], "expression"@).and_one(Expr::Rule(SyntaxKind::TERM))
}

/// An expression in parentheses.
#[verifier::opaque]
pub open spec fn group() -> Expr {
    described(seq![SyntaxKind::L_PAREN], "expression"@)
        .and_one(Expr::Rule(SyntaxKind::EXPR))
        .token(seq![SyntaxKind::R_PAREN])
}

/// A field of a structure.
#[verifier::opaque]
pub open spec fn field() -> Expr {
    token(seq![SyntaxKind::DOT]).token(seq![SyntaxKind::IDENT])
}

/// An identifier, and the fields that follow it.
#[verifier::opaque]
pub open spec fn path() -> Expr {
    described(seq![SyntaxKind::IDENT], "expression"@).and(zero_or_more(field()))
}

/// The node of a primary expression.
#[verifier::opaque]
pub open spec fn primary_node() -> Expr {
    node(
        SyntaxKind::PRIMARY_EXPR,
        alt(
            Seq::empty()
                .push(literal())
                .push(pattern_count())
                .push(pattern_match())
                .push(negation())
                .push(complement())
                .push(group())
                .push(path()),
        ),
    )
}

/// ```text
/// PRIMARY_EXPR ::= (
///     FLOAT_LIT                          |
///     INTEGER_LIT                        |
///     STRING_LIT                         |
///     REGEXP                             |
///     `filesize`                         |
///     `entrypoint`                       |
///     PATTERN_COUNT ( `in` RANGE )?      |
///     PATTERN_OFFSET ( `[` EXPR `]` )?   |
///     PATTERN_LENGTH ( `[` EXPR `]` )?   |
///     `-` TERM                           |
///     `~` TERM                           |
///     `(` EXPR `)`                       |
///     IDENT ( `.` IDENT )*
/// )
/// ```
///
/// Where it does not fit is remembered.
#[verifier::opaque]
pub open spec fn primary_expr() -> Expr {
    cached(SyntaxKind::PRIMARY_EXPR, primary_node())
}

/// The patterns that a quantifier speaks of.
#[verifier::opaque]
pub open spec fn pattern_choice() -> Expr {
    alt(
        Seq::empty()
            .push(token(seq![SyntaxKind::THEM_KW]))
            .push(Expr::Rule(SyntaxKind::PATTERN_IDENT_TUPLE)),
    )
}

/// A loop over patterns.
#[verifier::opaque]
pub open spec fn for_patterns() -> Expr {
    token(seq![SyntaxKind::OF_KW]).and(pattern_choice())
}

/// One more variable of a loop.
#[verifier::opaque]
pub open spec fn more_idents() -> Expr {
    token(seq![SyntaxKind::COMMA]).token(seq![SyntaxKind::IDENT])
}

/// A loop over the items of something.
#[verifier::opaque]
pub open spec fn for_items() -> Expr {
    token(seq![SyntaxKind::IDENT])
        .and(zero_or_more(more_idents()))
        .token(seq![SyntaxKind::IN_KW])
        .and_one(Expr::Rule(SyntaxKind::ITERABLE))
}

/// ```text
/// FOR_EXPR ::= `for` QUANTIFIER (
///     `of` ( `them` | PATTERN_IDENT_TUPLE ) |
///     IDENT ( `,` IDENT )* `in` ITERABLE
/// )
/// `:` `(` BOOLEAN_EXPR `)`
/// ```
#[verifier::opaque]
pub open spec fn for_expr() -> Expr {
    node(
        SyntaxKind::FOR_EXPR,
        token(seq![SyntaxKind::FOR_KW])
            .and_one(Expr::Rule(SyntaxKind::QUANTIFIER))
            .and(alt(Seq::empty().push(for_patterns()).push(for_items())))
            .token(seq![SyntaxKind::COLON])
            .token(seq![SyntaxKind::L_PAREN])
            .and_one(Expr::Rule(SyntaxKind::BOOLEAN_EXPR))
            .token(seq![SyntaxKind::R_PAREN]),
    )
}

/// The offset at which patterns must be.
#[verifier::opaque]
pub open spec fn at_offset() -> Expr {
    token(seq![SyntaxKind::AT_KW]).and_one(Expr::Rule(SyntaxKind::EXPR))
}

/// Where patterns must be, if it is said: at an offset or in a range, but not
/// both.
#[verifier::opaque]
pub open spec fn anchor() -> Expr {
    if_next_else(
        seq![SyntaxKind::AT_KW],
        at_offset(),
        if_next(seq![SyntaxKind::IN_KW], in_range()),
    )
}

/// Some of the patterns, and where they must be.
#[verifier::opaque]
pub open spec fn of_patterns() -> Expr {
    pattern_choice().and(anchor())
}

/// Some of the expressions of a list.
#[verifier::opaque]
pub open spec fn of_booleans() -> Expr {
    Expr::Rule(SyntaxKind::BOOLEAN_EXPR_TUPLE)
        .and(not(token(seq![SyntaxKind::AT_KW, SyntaxKind::IN_KW])))
}

/// ```text
/// OF_EXPR ::= QUANTIFIER `of` (
///     ( `them` | PATTERN_IDENT_TUPLE ) ( `at` EXPR | `in` RANGE )? |
///     BOOLEAN_EXPR_TUPLE !( `at` | `in` )
/// )
/// ```
#[verifier::opaque]
pub open spec fn of_expr() -> Expr {
    node(
        SyntaxKind::OF_EXPR,
        one(Expr::Rule(SyntaxKind::QUANTIFIER))
            .token(seq![SyntaxKind::OF_KW])
            .and(alt(Seq::empty().push(of_patterns()).push(of_booleans()))),
    )
}

/// A primary expression followed by a percent sign.
#[verifier::opaque]
pub open spec fn percentage() -> Expr {
    Expr::Rule(SyntaxKind::PRIMARY_EXPR).token(seq![SyntaxKind::PERCENT])
}

/// An expression that no percent sign follows.
#[verifier::opaque]
pub open spec fn exact_count() -> Expr {
    Expr::Rule(SyntaxKind::EXPR).and(not(token(seq![SyntaxKind::PERCENT])))
}

/// ```text
/// QUANTIFIER ::= (
///     `all`             |
///     `none`            |
///     `any`             |
///     PRIMARY_EXPR `%`  |
///     EXPR !`%`
/// )
/// ```
///
/// It can not be an expression followed by an optional `%`: expressions can
/// contain that operator.
#[verifier::opaque]
pub open spec fn quantifier() -> Expr {
    node(
        SyntaxKind::QUANTIFIER,
        alt(
            Seq::empty()
                .push(token(seq![SyntaxKind::ALL_KW, SyntaxKind::NONE_KW, SyntaxKind::ANY_KW]))
                .push(percentage())
                .push(exact_count()),
        ),
    )
}

/// ```text
/// ITERABLE ::= ( RANGE | EXPR_TUPLE | EXPR )
/// ```
#[verifier::opaque]
pub open spec fn iterable() -> Expr {
    node(
        SyntaxKind::ITERABLE,
        alt(
            Seq::empty()
                .push(Expr::Rule(SyntaxKind::RANGE))
                .push(Expr::Rule(SyntaxKind::EXPR_TUPLE))
                .push(Expr::Rule(SyntaxKind::EXPR)),
        ),
    )
}

/// ```text
/// BOOLEAN_EXPR_TUPLE ::= `(` BOOLEAN_EXPR ( `,` BOOLEAN_EXPR )* `)`
/// ```
#[verifier::opaque]
pub open spec fn boolean_expr_tuple() -> Expr {
    node(
        SyntaxKind::BOOLEAN_EXPR_TUPLE,
        token(seq![SyntaxKind::L_PAREN])
            .and_one(Expr::Rule(SyntaxKind::BOOLEAN_EXPR))
            .and(zero_or_more(more_booleans()))
            .token(seq![SyntaxKind::R_PAREN]),
    )
}

/// One more expression of a list.
#[verifier::opaque]
pub open spec fn more_exprs() -> Expr {
    token(seq![SyntaxKind::COMMA]).and_one(Expr::Rule(SyntaxKind::EXPR))
}

/// ```text
/// EXPR_TUPLE ::= `(` EXPR ( `,` EXPR )* `)`
/// ```
#[verifier::opaque]
pub open spec fn expr_tuple() -> Expr {
    node(
        SyntaxKind::EXPR_TUPLE,
        token(seq![SyntaxKind::L_PAREN])
            .and_one(Expr::Rule(SyntaxKind::EXPR))
            .and(zero_or_more(more_exprs()))
            .token(seq![SyntaxKind::R_PAREN]),
    )
}

/// One more pattern identifier of a list.
#[verifier::opaque]
pub open spec fn more_pattern_idents() -> Expr {
    token(seq![SyntaxKind::COMMA])
        .token(seq![SyntaxKind::PATTERN_IDENT])
        .and(opt(token(seq![SyntaxKind::ASTERISK])))
}

/// ```text
/// PATTERN_IDENT_TUPLE ::= `(` PATTERN_IDENT `*`? ( `,` PATTERN_IDENT `*`? )* `)`
/// ```
#[verifier::opaque]
pub open spec fn pattern_ident_tuple() -> Expr {
    node(
        SyntaxKind::PATTERN_IDENT_TUPLE,
        token(seq![SyntaxKind::L_PAREN])
            .token(seq![SyntaxKind::PATTERN_IDENT])
            .and(opt(token(seq![SyntaxKind::ASTERISK])))
            .and(zero_or_more(more_pattern_idents()))
            .token(seq![SyntaxKind::R_PAREN]),
    )
}

/// The expression of a production. A kind that is not one of a production
/// fits nowhere.
#[verifier::opaque]
pub open spec fn production(kind: SyntaxKind) -> Expr {
    match kind {
        SyntaxKind::IMPORT_STMT => import_stmt(),
        SyntaxKind::RULE_DECL => rule_decl(),
        SyntaxKind::RULE_MODS => rule_mods(),
        SyntaxKind::RULE_TAGS => rule_tags(),
        SyntaxKind::META_BLK => meta_blk(),
        SyntaxKind::META_DEF => meta_def(),
        SyntaxKind::PATTERNS_BLK => patterns_blk(),
        SyntaxKind::PATTERN_DEF => pattern_def(),
        SyntaxKind::PATTERN_MODS => pattern_mods(),
        SyntaxKind::PATTERN_MOD => pattern_mod(),
        SyntaxKind::CONDITION_BLK => condition_blk(),
        SyntaxKind::HEX_PATTERN => hex_pattern(),
        SyntaxKind::HEX_SUB_PATTERN => hex_sub_pattern(),
        SyntaxKind::HEX_ALTERNATIVE => hex_alternative(),
        SyntaxKind::HEX_JUMP => hex_jump(),
        SyntaxKind::BOOLEAN_EXPR => boolean_expr(),
        SyntaxKind::BOOLEAN_TERM => boolean_term(),
        SyntaxKind::EXPR => expr(),
        SyntaxKind::TERM => term(),
        SyntaxKind::RANGE => range(),
        SyntaxKind::PRIMARY_EXPR => primary_expr(),
        SyntaxKind::FOR_EXPR => for_expr(),
        SyntaxKind::OF_EXPR => of_expr(),
        SyntaxKind::QUANTIFIER => quantifier(),
        SyntaxKind::ITERABLE => iterable(),
        SyntaxKind::BOOLEAN_EXPR_TUPLE => boolean_expr_tuple(),
        SyntaxKind::EXPR_TUPLE => expr_tuple(),
        SyntaxKind::PATTERN_IDENT_TUPLE => pattern_ident_tuple(),
        _ => alt(Seq::empty()),
    }
}

/// What is within a node.
pub open spec fn inner_of(expr: Expr) -> Expr {
    match expr {
        Expr::Node(_, inner) => *inner,
        other => other,
    }
}

} // verus!
