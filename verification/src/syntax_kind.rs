//! Syntax kinds: what the tokens and the nodes of the syntax tree are.

use crate::token::TokenId;
use vstd::prelude::*;

verus! {

/// Identifies what a token or a node of the syntax tree is.
///
/// A token that the grammar uses in more than one role has a kind for each of
/// them: `-` is `HYPHEN`, `MINUS` or `SUB`.
#[allow(non_camel_case_types)]
#[derive(Clone, Copy, Debug, PartialEq, Eq, Hash, Structural)]
pub enum SyntaxKind {
    // Tokens.
    ALL_KW,
    AND_KW,
    ANY_KW,
    ASCII_KW,
    AT_KW,
    BASE64_KW,
    BASE64WIDE_KW,
    CONDITION_KW,
    CONTAINS_KW,
    DEFINED_KW,
    ENDSWITH_KW,
    ENTRYPOINT_KW,
    FALSE_KW,
    FILESIZE_KW,
    FOR_KW,
    FULLWORD_KW,
    GLOBAL_KW,
    ICONTAINS_KW,
    IENDSWITH_KW,
    IMPORT_KW,
    IN_KW,
    ISTARTSWITH_KW,
    MATCHES_KW,
    META_KW,
    NOCASE_KW,
    NONE_KW,
    NOT_KW,
    OF_KW,
    OR_KW,
    PRIVATE_KW,
    RULE_KW,
    STARTSWITH_KW,
    STRINGS_KW,
    THEM_KW,
    TRUE_KW,
    WIDE_KW,
    XOR_KW,
    ADD,
    ASTERISK,
    BITWISE_AND,
    BITWISE_NOT,
    BITWISE_XOR,
    COLON,
    COMMA,
    DIV,
    DOT,
    EQ,
    EQUAL,
    GE,
    GT,
    HYPHEN,
    LE,
    LT,
    L_BRACE,
    L_BRACKET,
    L_PAREN,
    NE,
    PERCENT,
    PIPE,
    R_BRACE,
    R_BRACKET,
    R_PAREN,
    SHL,
    SHR,
    COMMENT,
    FLOAT_LIT,
    HEX_BYTE,
    IDENT,
    INTEGER_LIT,
    NEWLINE,
    PATTERN_COUNT,
    PATTERN_IDENT,
    PATTERN_LENGTH,
    PATTERN_OFFSET,
    REGEXP,
    STRING_LIT,
    UNKNOWN,
    WHITESPACE,
    // Other roles of some tokens.
    MINUS,
    MOD,
    MUL,
    SUB,
    BITWISE_OR,
    // Nodes.
    BOOLEAN_EXPR,
    BOOLEAN_EXPR_TUPLE,
    BOOLEAN_TERM,
    CONDITION_BLK,
    ERROR,
    EXPR,
    EXPR_TUPLE,
    FOR_EXPR,
    HEX_ALTERNATIVE,
    HEX_JUMP,
    HEX_PATTERN,
    HEX_SUB_PATTERN,
    IMPORT_STMT,
    ITERABLE,
    META_BLK,
    META_DEF,
    OF_EXPR,
    PATTERNS_BLK,
    PATTERN_DEF,
    PATTERN_IDENT_TUPLE,
    PATTERN_MOD,
    PATTERN_MODS,
    PRIMARY_EXPR,
    QUANTIFIER,
    RANGE,
    RULE_DECL,
    RULE_MODS,
    RULE_TAGS,
    SOURCE_FILE,
    TERM,
}

/// The token that has the given kind, if it is a kind of token.
pub open spec fn token_id_of(kind: SyntaxKind) -> Option<TokenId> {
    match kind {
        SyntaxKind::ALL_KW => Some(TokenId::ALL_KW),
        SyntaxKind::AND_KW => Some(TokenId::AND_KW),
        SyntaxKind::ANY_KW => Some(TokenId::ANY_KW),
        SyntaxKind::ASCII_KW => Some(TokenId::ASCII_KW),
        SyntaxKind::AT_KW => Some(TokenId::AT_KW),
        SyntaxKind::BASE64_KW => Some(TokenId::BASE64_KW),
        SyntaxKind::BASE64WIDE_KW => Some(TokenId::BASE64WIDE_KW),
        SyntaxKind::CONDITION_KW => Some(TokenId::CONDITION_KW),
        SyntaxKind::CONTAINS_KW => Some(TokenId::CONTAINS_KW),
        SyntaxKind::DEFINED_KW => Some(TokenId::DEFINED_KW),
        SyntaxKind::ENDSWITH_KW => Some(TokenId::ENDSWITH_KW),
        SyntaxKind::ENTRYPOINT_KW => Some(TokenId::ENTRYPOINT_KW),
        SyntaxKind::FALSE_KW => Some(TokenId::FALSE_KW),
        SyntaxKind::FILESIZE_KW => Some(TokenId::FILESIZE_KW),
        SyntaxKind::FOR_KW => Some(TokenId::FOR_KW),
        SyntaxKind::FULLWORD_KW => Some(TokenId::FULLWORD_KW),
        SyntaxKind::GLOBAL_KW => Some(TokenId::GLOBAL_KW),
        SyntaxKind::ICONTAINS_KW => Some(TokenId::ICONTAINS_KW),
        SyntaxKind::IENDSWITH_KW => Some(TokenId::IENDSWITH_KW),
        SyntaxKind::IMPORT_KW => Some(TokenId::IMPORT_KW),
        SyntaxKind::IN_KW => Some(TokenId::IN_KW),
        SyntaxKind::ISTARTSWITH_KW => Some(TokenId::ISTARTSWITH_KW),
        SyntaxKind::MATCHES_KW => Some(TokenId::MATCHES_KW),
        SyntaxKind::META_KW => Some(TokenId::META_KW),
        SyntaxKind::NOCASE_KW => Some(TokenId::NOCASE_KW),
        SyntaxKind::NONE_KW => Some(TokenId::NONE_KW),
        SyntaxKind::NOT_KW => Some(TokenId::NOT_KW),
        SyntaxKind::OF_KW => Some(TokenId::OF_KW),
        SyntaxKind::OR_KW => Some(TokenId::OR_KW),
        SyntaxKind::PRIVATE_KW => Some(TokenId::PRIVATE_KW),
        SyntaxKind::RULE_KW => Some(TokenId::RULE_KW),
        SyntaxKind::STARTSWITH_KW => Some(TokenId::STARTSWITH_KW),
        SyntaxKind::STRINGS_KW => Some(TokenId::STRINGS_KW),
        SyntaxKind::THEM_KW => Some(TokenId::THEM_KW),
        SyntaxKind::TRUE_KW => Some(TokenId::TRUE_KW),
        SyntaxKind::WIDE_KW => Some(TokenId::WIDE_KW),
        SyntaxKind::XOR_KW => Some(TokenId::XOR_KW),
        SyntaxKind::ADD => Some(TokenId::ADD),
        SyntaxKind::ASTERISK => Some(TokenId::ASTERISK),
        SyntaxKind::BITWISE_AND => Some(TokenId::BITWISE_AND),
        SyntaxKind::BITWISE_NOT => Some(TokenId::BITWISE_NOT),
        SyntaxKind::BITWISE_XOR => Some(TokenId::BITWISE_XOR),
        SyntaxKind::COLON => Some(TokenId::COLON),
        SyntaxKind::COMMA => Some(TokenId::COMMA),
        SyntaxKind::DIV => Some(TokenId::DIV),
        SyntaxKind::DOT => Some(TokenId::DOT),
        SyntaxKind::EQ => Some(TokenId::EQ),
        SyntaxKind::EQUAL => Some(TokenId::EQUAL),
        SyntaxKind::GE => Some(TokenId::GE),
        SyntaxKind::GT => Some(TokenId::GT),
        SyntaxKind::HYPHEN => Some(TokenId::HYPHEN),
        SyntaxKind::LE => Some(TokenId::LE),
        SyntaxKind::LT => Some(TokenId::LT),
        SyntaxKind::L_BRACE => Some(TokenId::L_BRACE),
        SyntaxKind::L_BRACKET => Some(TokenId::L_BRACKET),
        SyntaxKind::L_PAREN => Some(TokenId::L_PAREN),
        SyntaxKind::NE => Some(TokenId::NE),
        SyntaxKind::PERCENT => Some(TokenId::PERCENT),
        SyntaxKind::PIPE => Some(TokenId::PIPE),
        SyntaxKind::R_BRACE => Some(TokenId::R_BRACE),
        SyntaxKind::R_BRACKET => Some(TokenId::R_BRACKET),
        SyntaxKind::R_PAREN => Some(TokenId::R_PAREN),
        SyntaxKind::SHL => Some(TokenId::SHL),
        SyntaxKind::SHR => Some(TokenId::SHR),
        SyntaxKind::COMMENT => Some(TokenId::COMMENT),
        SyntaxKind::FLOAT_LIT => Some(TokenId::FLOAT_LIT),
        SyntaxKind::HEX_BYTE => Some(TokenId::HEX_BYTE),
        SyntaxKind::IDENT => Some(TokenId::IDENT),
        SyntaxKind::INTEGER_LIT => Some(TokenId::INTEGER_LIT),
        SyntaxKind::NEWLINE => Some(TokenId::NEWLINE),
        SyntaxKind::PATTERN_COUNT => Some(TokenId::PATTERN_COUNT),
        SyntaxKind::PATTERN_IDENT => Some(TokenId::PATTERN_IDENT),
        SyntaxKind::PATTERN_LENGTH => Some(TokenId::PATTERN_LENGTH),
        SyntaxKind::PATTERN_OFFSET => Some(TokenId::PATTERN_OFFSET),
        SyntaxKind::REGEXP => Some(TokenId::REGEXP),
        SyntaxKind::STRING_LIT => Some(TokenId::STRING_LIT),
        SyntaxKind::UNKNOWN => Some(TokenId::UNKNOWN),
        SyntaxKind::WHITESPACE => Some(TokenId::WHITESPACE),
        SyntaxKind::MINUS => Some(TokenId::HYPHEN),
        SyntaxKind::MOD => Some(TokenId::PERCENT),
        SyntaxKind::MUL => Some(TokenId::ASTERISK),
        SyntaxKind::SUB => Some(TokenId::HYPHEN),
        SyntaxKind::BITWISE_OR => Some(TokenId::PIPE),
        _ => None,
    }
}

/// The kind of a token that has no particular role.
pub open spec fn kind_of(id: TokenId) -> SyntaxKind {
    match id {
        TokenId::ALL_KW => SyntaxKind::ALL_KW,
        TokenId::AND_KW => SyntaxKind::AND_KW,
        TokenId::ANY_KW => SyntaxKind::ANY_KW,
        TokenId::ASCII_KW => SyntaxKind::ASCII_KW,
        TokenId::AT_KW => SyntaxKind::AT_KW,
        TokenId::BASE64_KW => SyntaxKind::BASE64_KW,
        TokenId::BASE64WIDE_KW => SyntaxKind::BASE64WIDE_KW,
        TokenId::CONDITION_KW => SyntaxKind::CONDITION_KW,
        TokenId::CONTAINS_KW => SyntaxKind::CONTAINS_KW,
        TokenId::DEFINED_KW => SyntaxKind::DEFINED_KW,
        TokenId::ENDSWITH_KW => SyntaxKind::ENDSWITH_KW,
        TokenId::ENTRYPOINT_KW => SyntaxKind::ENTRYPOINT_KW,
        TokenId::FALSE_KW => SyntaxKind::FALSE_KW,
        TokenId::FILESIZE_KW => SyntaxKind::FILESIZE_KW,
        TokenId::FOR_KW => SyntaxKind::FOR_KW,
        TokenId::FULLWORD_KW => SyntaxKind::FULLWORD_KW,
        TokenId::GLOBAL_KW => SyntaxKind::GLOBAL_KW,
        TokenId::ICONTAINS_KW => SyntaxKind::ICONTAINS_KW,
        TokenId::IENDSWITH_KW => SyntaxKind::IENDSWITH_KW,
        TokenId::IMPORT_KW => SyntaxKind::IMPORT_KW,
        TokenId::IN_KW => SyntaxKind::IN_KW,
        TokenId::ISTARTSWITH_KW => SyntaxKind::ISTARTSWITH_KW,
        TokenId::MATCHES_KW => SyntaxKind::MATCHES_KW,
        TokenId::META_KW => SyntaxKind::META_KW,
        TokenId::NOCASE_KW => SyntaxKind::NOCASE_KW,
        TokenId::NONE_KW => SyntaxKind::NONE_KW,
        TokenId::NOT_KW => SyntaxKind::NOT_KW,
        TokenId::OF_KW => SyntaxKind::OF_KW,
        TokenId::OR_KW => SyntaxKind::OR_KW,
        TokenId::PRIVATE_KW => SyntaxKind::PRIVATE_KW,
        TokenId::RULE_KW => SyntaxKind::RULE_KW,
        TokenId::STARTSWITH_KW => SyntaxKind::STARTSWITH_KW,
        TokenId::STRINGS_KW => SyntaxKind::STRINGS_KW,
        TokenId::THEM_KW => SyntaxKind::THEM_KW,
        TokenId::TRUE_KW => SyntaxKind::TRUE_KW,
        TokenId::WIDE_KW => SyntaxKind::WIDE_KW,
        TokenId::XOR_KW => SyntaxKind::XOR_KW,
        TokenId::ADD => SyntaxKind::ADD,
        TokenId::ASTERISK => SyntaxKind::ASTERISK,
        TokenId::BITWISE_AND => SyntaxKind::BITWISE_AND,
        TokenId::BITWISE_NOT => SyntaxKind::BITWISE_NOT,
        TokenId::BITWISE_XOR => SyntaxKind::BITWISE_XOR,
        TokenId::COLON => SyntaxKind::COLON,
        TokenId::COMMA => SyntaxKind::COMMA,
        TokenId::DIV => SyntaxKind::DIV,
        TokenId::DOT => SyntaxKind::DOT,
        TokenId::EQ => SyntaxKind::EQ,
        TokenId::EQUAL => SyntaxKind::EQUAL,
        TokenId::GE => SyntaxKind::GE,
        TokenId::GT => SyntaxKind::GT,
        TokenId::HYPHEN => SyntaxKind::HYPHEN,
        TokenId::LE => SyntaxKind::LE,
        TokenId::LT => SyntaxKind::LT,
        TokenId::L_BRACE => SyntaxKind::L_BRACE,
        TokenId::L_BRACKET => SyntaxKind::L_BRACKET,
        TokenId::L_PAREN => SyntaxKind::L_PAREN,
        TokenId::NE => SyntaxKind::NE,
        TokenId::PERCENT => SyntaxKind::PERCENT,
        TokenId::PIPE => SyntaxKind::PIPE,
        TokenId::R_BRACE => SyntaxKind::R_BRACE,
        TokenId::R_BRACKET => SyntaxKind::R_BRACKET,
        TokenId::R_PAREN => SyntaxKind::R_PAREN,
        TokenId::SHL => SyntaxKind::SHL,
        TokenId::SHR => SyntaxKind::SHR,
        TokenId::COMMENT => SyntaxKind::COMMENT,
        TokenId::FLOAT_LIT => SyntaxKind::FLOAT_LIT,
        TokenId::HEX_BYTE => SyntaxKind::HEX_BYTE,
        TokenId::IDENT => SyntaxKind::IDENT,
        TokenId::INTEGER_LIT => SyntaxKind::INTEGER_LIT,
        TokenId::NEWLINE => SyntaxKind::NEWLINE,
        TokenId::PATTERN_COUNT => SyntaxKind::PATTERN_COUNT,
        TokenId::PATTERN_IDENT => SyntaxKind::PATTERN_IDENT,
        TokenId::PATTERN_LENGTH => SyntaxKind::PATTERN_LENGTH,
        TokenId::PATTERN_OFFSET => SyntaxKind::PATTERN_OFFSET,
        TokenId::REGEXP => SyntaxKind::REGEXP,
        TokenId::STRING_LIT => SyntaxKind::STRING_LIT,
        TokenId::UNKNOWN => SyntaxKind::UNKNOWN,
        TokenId::WHITESPACE => SyntaxKind::WHITESPACE,
    }
}

impl SyntaxKind {
    /// Returns the token that has this kind, if it is a kind of token.
    pub fn token_id(self) -> (id: Option<TokenId>)
        ensures
            id == token_id_of(self),
    {
        match self {
            SyntaxKind::ALL_KW => Some(TokenId::ALL_KW),
            SyntaxKind::AND_KW => Some(TokenId::AND_KW),
            SyntaxKind::ANY_KW => Some(TokenId::ANY_KW),
            SyntaxKind::ASCII_KW => Some(TokenId::ASCII_KW),
            SyntaxKind::AT_KW => Some(TokenId::AT_KW),
            SyntaxKind::BASE64_KW => Some(TokenId::BASE64_KW),
            SyntaxKind::BASE64WIDE_KW => Some(TokenId::BASE64WIDE_KW),
            SyntaxKind::CONDITION_KW => Some(TokenId::CONDITION_KW),
            SyntaxKind::CONTAINS_KW => Some(TokenId::CONTAINS_KW),
            SyntaxKind::DEFINED_KW => Some(TokenId::DEFINED_KW),
            SyntaxKind::ENDSWITH_KW => Some(TokenId::ENDSWITH_KW),
            SyntaxKind::ENTRYPOINT_KW => Some(TokenId::ENTRYPOINT_KW),
            SyntaxKind::FALSE_KW => Some(TokenId::FALSE_KW),
            SyntaxKind::FILESIZE_KW => Some(TokenId::FILESIZE_KW),
            SyntaxKind::FOR_KW => Some(TokenId::FOR_KW),
            SyntaxKind::FULLWORD_KW => Some(TokenId::FULLWORD_KW),
            SyntaxKind::GLOBAL_KW => Some(TokenId::GLOBAL_KW),
            SyntaxKind::ICONTAINS_KW => Some(TokenId::ICONTAINS_KW),
            SyntaxKind::IENDSWITH_KW => Some(TokenId::IENDSWITH_KW),
            SyntaxKind::IMPORT_KW => Some(TokenId::IMPORT_KW),
            SyntaxKind::IN_KW => Some(TokenId::IN_KW),
            SyntaxKind::ISTARTSWITH_KW => Some(TokenId::ISTARTSWITH_KW),
            SyntaxKind::MATCHES_KW => Some(TokenId::MATCHES_KW),
            SyntaxKind::META_KW => Some(TokenId::META_KW),
            SyntaxKind::NOCASE_KW => Some(TokenId::NOCASE_KW),
            SyntaxKind::NONE_KW => Some(TokenId::NONE_KW),
            SyntaxKind::NOT_KW => Some(TokenId::NOT_KW),
            SyntaxKind::OF_KW => Some(TokenId::OF_KW),
            SyntaxKind::OR_KW => Some(TokenId::OR_KW),
            SyntaxKind::PRIVATE_KW => Some(TokenId::PRIVATE_KW),
            SyntaxKind::RULE_KW => Some(TokenId::RULE_KW),
            SyntaxKind::STARTSWITH_KW => Some(TokenId::STARTSWITH_KW),
            SyntaxKind::STRINGS_KW => Some(TokenId::STRINGS_KW),
            SyntaxKind::THEM_KW => Some(TokenId::THEM_KW),
            SyntaxKind::TRUE_KW => Some(TokenId::TRUE_KW),
            SyntaxKind::WIDE_KW => Some(TokenId::WIDE_KW),
            SyntaxKind::XOR_KW => Some(TokenId::XOR_KW),
            SyntaxKind::ADD => Some(TokenId::ADD),
            SyntaxKind::ASTERISK => Some(TokenId::ASTERISK),
            SyntaxKind::BITWISE_AND => Some(TokenId::BITWISE_AND),
            SyntaxKind::BITWISE_NOT => Some(TokenId::BITWISE_NOT),
            SyntaxKind::BITWISE_XOR => Some(TokenId::BITWISE_XOR),
            SyntaxKind::COLON => Some(TokenId::COLON),
            SyntaxKind::COMMA => Some(TokenId::COMMA),
            SyntaxKind::DIV => Some(TokenId::DIV),
            SyntaxKind::DOT => Some(TokenId::DOT),
            SyntaxKind::EQ => Some(TokenId::EQ),
            SyntaxKind::EQUAL => Some(TokenId::EQUAL),
            SyntaxKind::GE => Some(TokenId::GE),
            SyntaxKind::GT => Some(TokenId::GT),
            SyntaxKind::HYPHEN => Some(TokenId::HYPHEN),
            SyntaxKind::LE => Some(TokenId::LE),
            SyntaxKind::LT => Some(TokenId::LT),
            SyntaxKind::L_BRACE => Some(TokenId::L_BRACE),
            SyntaxKind::L_BRACKET => Some(TokenId::L_BRACKET),
            SyntaxKind::L_PAREN => Some(TokenId::L_PAREN),
            SyntaxKind::NE => Some(TokenId::NE),
            SyntaxKind::PERCENT => Some(TokenId::PERCENT),
            SyntaxKind::PIPE => Some(TokenId::PIPE),
            SyntaxKind::R_BRACE => Some(TokenId::R_BRACE),
            SyntaxKind::R_BRACKET => Some(TokenId::R_BRACKET),
            SyntaxKind::R_PAREN => Some(TokenId::R_PAREN),
            SyntaxKind::SHL => Some(TokenId::SHL),
            SyntaxKind::SHR => Some(TokenId::SHR),
            SyntaxKind::COMMENT => Some(TokenId::COMMENT),
            SyntaxKind::FLOAT_LIT => Some(TokenId::FLOAT_LIT),
            SyntaxKind::HEX_BYTE => Some(TokenId::HEX_BYTE),
            SyntaxKind::IDENT => Some(TokenId::IDENT),
            SyntaxKind::INTEGER_LIT => Some(TokenId::INTEGER_LIT),
            SyntaxKind::NEWLINE => Some(TokenId::NEWLINE),
            SyntaxKind::PATTERN_COUNT => Some(TokenId::PATTERN_COUNT),
            SyntaxKind::PATTERN_IDENT => Some(TokenId::PATTERN_IDENT),
            SyntaxKind::PATTERN_LENGTH => Some(TokenId::PATTERN_LENGTH),
            SyntaxKind::PATTERN_OFFSET => Some(TokenId::PATTERN_OFFSET),
            SyntaxKind::REGEXP => Some(TokenId::REGEXP),
            SyntaxKind::STRING_LIT => Some(TokenId::STRING_LIT),
            SyntaxKind::UNKNOWN => Some(TokenId::UNKNOWN),
            SyntaxKind::WHITESPACE => Some(TokenId::WHITESPACE),
            SyntaxKind::MINUS => Some(TokenId::HYPHEN),
            SyntaxKind::MOD => Some(TokenId::PERCENT),
            SyntaxKind::MUL => Some(TokenId::ASTERISK),
            SyntaxKind::SUB => Some(TokenId::HYPHEN),
            SyntaxKind::BITWISE_OR => Some(TokenId::PIPE),
            _ => None,
        }
    }

    /// Returns the kind of a token that has no particular role.
    pub fn of_token(id: TokenId) -> (kind: SyntaxKind)
        ensures
            kind == kind_of(id),
    {
        match id {
            TokenId::ALL_KW => SyntaxKind::ALL_KW,
            TokenId::AND_KW => SyntaxKind::AND_KW,
            TokenId::ANY_KW => SyntaxKind::ANY_KW,
            TokenId::ASCII_KW => SyntaxKind::ASCII_KW,
            TokenId::AT_KW => SyntaxKind::AT_KW,
            TokenId::BASE64_KW => SyntaxKind::BASE64_KW,
            TokenId::BASE64WIDE_KW => SyntaxKind::BASE64WIDE_KW,
            TokenId::CONDITION_KW => SyntaxKind::CONDITION_KW,
            TokenId::CONTAINS_KW => SyntaxKind::CONTAINS_KW,
            TokenId::DEFINED_KW => SyntaxKind::DEFINED_KW,
            TokenId::ENDSWITH_KW => SyntaxKind::ENDSWITH_KW,
            TokenId::ENTRYPOINT_KW => SyntaxKind::ENTRYPOINT_KW,
            TokenId::FALSE_KW => SyntaxKind::FALSE_KW,
            TokenId::FILESIZE_KW => SyntaxKind::FILESIZE_KW,
            TokenId::FOR_KW => SyntaxKind::FOR_KW,
            TokenId::FULLWORD_KW => SyntaxKind::FULLWORD_KW,
            TokenId::GLOBAL_KW => SyntaxKind::GLOBAL_KW,
            TokenId::ICONTAINS_KW => SyntaxKind::ICONTAINS_KW,
            TokenId::IENDSWITH_KW => SyntaxKind::IENDSWITH_KW,
            TokenId::IMPORT_KW => SyntaxKind::IMPORT_KW,
            TokenId::IN_KW => SyntaxKind::IN_KW,
            TokenId::ISTARTSWITH_KW => SyntaxKind::ISTARTSWITH_KW,
            TokenId::MATCHES_KW => SyntaxKind::MATCHES_KW,
            TokenId::META_KW => SyntaxKind::META_KW,
            TokenId::NOCASE_KW => SyntaxKind::NOCASE_KW,
            TokenId::NONE_KW => SyntaxKind::NONE_KW,
            TokenId::NOT_KW => SyntaxKind::NOT_KW,
            TokenId::OF_KW => SyntaxKind::OF_KW,
            TokenId::OR_KW => SyntaxKind::OR_KW,
            TokenId::PRIVATE_KW => SyntaxKind::PRIVATE_KW,
            TokenId::RULE_KW => SyntaxKind::RULE_KW,
            TokenId::STARTSWITH_KW => SyntaxKind::STARTSWITH_KW,
            TokenId::STRINGS_KW => SyntaxKind::STRINGS_KW,
            TokenId::THEM_KW => SyntaxKind::THEM_KW,
            TokenId::TRUE_KW => SyntaxKind::TRUE_KW,
            TokenId::WIDE_KW => SyntaxKind::WIDE_KW,
            TokenId::XOR_KW => SyntaxKind::XOR_KW,
            TokenId::ADD => SyntaxKind::ADD,
            TokenId::ASTERISK => SyntaxKind::ASTERISK,
            TokenId::BITWISE_AND => SyntaxKind::BITWISE_AND,
            TokenId::BITWISE_NOT => SyntaxKind::BITWISE_NOT,
            TokenId::BITWISE_XOR => SyntaxKind::BITWISE_XOR,
            TokenId::COLON => SyntaxKind::COLON,
            TokenId::COMMA => SyntaxKind::COMMA,
            TokenId::DIV => SyntaxKind::DIV,
            TokenId::DOT => SyntaxKind::DOT,
            TokenId::EQ => SyntaxKind::EQ,
            TokenId::EQUAL => SyntaxKind::EQUAL,
            TokenId::GE => SyntaxKind::GE,
            TokenId::GT => SyntaxKind::GT,
            TokenId::HYPHEN => SyntaxKind::HYPHEN,
            TokenId::LE => SyntaxKind::LE,
            TokenId::LT => SyntaxKind::LT,
            TokenId::L_BRACE => SyntaxKind::L_BRACE,
            TokenId::L_BRACKET => SyntaxKind::L_BRACKET,
            TokenId::L_PAREN => SyntaxKind::L_PAREN,
            TokenId::NE => SyntaxKind::NE,
            TokenId::PERCENT => SyntaxKind::PERCENT,
            TokenId::PIPE => SyntaxKind::PIPE,
            TokenId::R_BRACE => SyntaxKind::R_BRACE,
            TokenId::R_BRACKET => SyntaxKind::R_BRACKET,
            TokenId::R_PAREN => SyntaxKind::R_PAREN,
            TokenId::SHL => SyntaxKind::SHL,
            TokenId::SHR => SyntaxKind::SHR,
            TokenId::COMMENT => SyntaxKind::COMMENT,
            TokenId::FLOAT_LIT => SyntaxKind::FLOAT_LIT,
            TokenId::HEX_BYTE => SyntaxKind::HEX_BYTE,
            TokenId::IDENT => SyntaxKind::IDENT,
            TokenId::INTEGER_LIT => SyntaxKind::INTEGER_LIT,
            TokenId::NEWLINE => SyntaxKind::NEWLINE,
            TokenId::PATTERN_COUNT => SyntaxKind::PATTERN_COUNT,
            TokenId::PATTERN_IDENT => SyntaxKind::PATTERN_IDENT,
            TokenId::PATTERN_LENGTH => SyntaxKind::PATTERN_LENGTH,
            TokenId::PATTERN_OFFSET => SyntaxKind::PATTERN_OFFSET,
            TokenId::REGEXP => SyntaxKind::REGEXP,
            TokenId::STRING_LIT => SyntaxKind::STRING_LIT,
            TokenId::UNKNOWN => SyntaxKind::UNKNOWN,
            TokenId::WHITESPACE => SyntaxKind::WHITESPACE,
        }
    }
}

} // verus!
