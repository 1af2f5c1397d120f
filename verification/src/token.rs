//! Tokens: what the tokenizer cuts the source code into.

use crate::span::Span;
use vstd::prelude::*;
use vstd::string::*;

verus! {

/// Identifies the type of a token.
#[allow(non_camel_case_types)]
#[derive(Clone, Copy, Debug, PartialEq, Eq, Hash, Structural)]
pub enum TokenId {
    ALL_KW,
    AND_KW,
    ANY_KW,
    ASCII_KW,
    AT_KW,
    BASE64_KW,
    BASE64WIDE_KW,
    CONDITION_KW,
    CONTAINS_KW,
    DEFINED_KW,
    ENDSWITH_KW,
    ENTRYPOINT_KW,
    FALSE_KW,
    FILESIZE_KW,
    FOR_KW,
    FULLWORD_KW,
    GLOBAL_KW,
    ICONTAINS_KW,
    IENDSWITH_KW,
    IMPORT_KW,
    IN_KW,
    ISTARTSWITH_KW,
    MATCHES_KW,
    META_KW,
    NOCASE_KW,
    NONE_KW,
    NOT_KW,
    OF_KW,
    OR_KW,
    PRIVATE_KW,
    RULE_KW,
    STARTSWITH_KW,
    STRINGS_KW,
    THEM_KW,
    TRUE_KW,
    WIDE_KW,
    XOR_KW,
    ADD,
    ASTERISK,
    BITWISE_AND,
    BITWISE_NOT,
    BITWISE_XOR,
    COLON,
    COMMA,
    DIV,
    DOT,
    EQ,
    EQUAL,
    GE,
    GT,
    HYPHEN,
    LE,
    LT,
    L_BRACE,
    L_BRACKET,
    L_PAREN,
    NE,
    PERCENT,
    PIPE,
    R_BRACE,
    R_BRACKET,
    R_PAREN,
    SHL,
    SHR,
    COMMENT,
    FLOAT_LIT,
    HEX_BYTE,
    IDENT,
    INTEGER_LIT,
    NEWLINE,
    PATTERN_COUNT,
    PATTERN_IDENT,
    PATTERN_LENGTH,
    PATTERN_OFFSET,
    REGEXP,
    STRING_LIT,
    UNKNOWN,
    WHITESPACE,
}

/// How a token is called in error messages.
pub open spec fn description_of(id: TokenId) -> Seq<char> {
    match id {
        TokenId::ALL_KW => "`all`"@,
        TokenId::AND_KW => "`and`"@,
        TokenId::ANY_KW => "`any`"@,
        TokenId::ASCII_KW => "`ascii`"@,
        TokenId::AT_KW => "`at`"@,
        TokenId::BASE64_KW => "`base64`"@,
        TokenId::BASE64WIDE_KW => "`base64wide`"@,
        TokenId::CONDITION_KW => "`condition`"@,
        TokenId::CONTAINS_KW => "`contains`"@,
        TokenId::DEFINED_KW => "`defined`"@,
        TokenId::ENDSWITH_KW => "`endswith`"@,
        TokenId::ENTRYPOINT_KW => "`entrypoint`"@,
        TokenId::FALSE_KW => "`false`"@,
        TokenId::FILESIZE_KW => "`filesize`"@,
        TokenId::FOR_KW => "`for`"@,
        TokenId::FULLWORD_KW => "`fullword`"@,
        TokenId::GLOBAL_KW => "`global`"@,
        TokenId::ICONTAINS_KW => "`icontains`"@,
        TokenId::IENDSWITH_KW => "`iendswith`"@,
        TokenId::IMPORT_KW => "`import`"@,
        TokenId::IN_KW => "`in`"@,
        TokenId::ISTARTSWITH_KW => "`istartswith`"@,
        TokenId::MATCHES_KW => "`matches`"@,
        TokenId::META_KW => "`meta`"@,
        TokenId::NOCASE_KW => "`nocase`"@,
        TokenId::NONE_KW => "`none`"@,
        TokenId::NOT_KW => "`not`"@,
        TokenId::OF_KW => "`of`"@,
        TokenId::OR_KW => "`or`"@,
        TokenId::PRIVATE_KW => "`private`"@,
        TokenId::RULE_KW => "`rule`"@,
        TokenId::STARTSWITH_KW => "`startswith`"@,
        TokenId::STRINGS_KW => "`strings`"@,
        TokenId::THEM_KW => "`them`"@,
        TokenId::TRUE_KW => "`true`"@,
        TokenId::WIDE_KW => "`wide`"@,
        TokenId::XOR_KW => "`xor`"@,
        TokenId::ADD => "`+`"@,
        TokenId::ASTERISK => "`*`"@,
        TokenId::BITWISE_AND => "`&`"@,
        TokenId::BITWISE_NOT => "`~`"@,
        TokenId::BITWISE_XOR => "`^`"@,
        TokenId::COLON => "`:`"@,
        TokenId::COMMA => "`,`"@,
        TokenId::DIV => "`\\`"@,
        TokenId::DOT => "`.`"@,
        TokenId::EQ => "`==`"@,
        TokenId::EQUAL => "`=`"@,
        TokenId::GE => "`>=`"@,
        TokenId::GT => "`>`"@,
        TokenId::HYPHEN => "`-`"@,
        TokenId::LE => "`<=`"@,
        TokenId::LT => "`<`"@,
        TokenId::L_BRACE => "`{`"@,
        TokenId::L_BRACKET => "`[`"@,
        TokenId::L_PAREN => "`(`"@,
        TokenId::NE => "`!=`"@,
        TokenId::PERCENT => "`%`"@,
        TokenId::PIPE => "`|`"@,
        TokenId::R_BRACE => "`}`"@,
        TokenId::R_BRACKET => "`]`"@,
        TokenId::R_PAREN => "`)`"@,
        TokenId::SHL => "`<<`"@,
        TokenId::SHR => "`>>`"@,
        TokenId::COMMENT => "comment"@,
        TokenId::FLOAT_LIT => "float literal"@,
        TokenId::HEX_BYTE => "hex byte"@,
        TokenId::IDENT => "identifier"@,
        TokenId::INTEGER_LIT => "integer literal"@,
        TokenId::NEWLINE => "newline"@,
        TokenId::PATTERN_COUNT => "pattern count"@,
        TokenId::PATTERN_IDENT => "pattern identifier"@,
        TokenId::PATTERN_LENGTH => "pattern length"@,
        TokenId::PATTERN_OFFSET => "pattern offset"@,
        TokenId::REGEXP => "regular expression"@,
        TokenId::STRING_LIT => "string literal"@,
        TokenId::UNKNOWN => "unknown token"@,
        TokenId::WHITESPACE => "whitespace"@,
    }
}

impl TokenId {
    /// Returns how the token is called in error messages.
    pub fn description(self) -> (text: &'static str)
        ensures
            text@ == description_of(self),
    {
        match self {
            TokenId::ALL_KW => "`all`",
            TokenId::AND_KW => "`and`",
            TokenId::ANY_KW => "`any`",
            TokenId::ASCII_KW => "`ascii`",
            TokenId::AT_KW => "`at`",
            TokenId::BASE64_KW => "`base64`",
            TokenId::BASE64WIDE_KW => "`base64wide`",
            TokenId::CONDITION_KW => "`condition`",
            TokenId::CONTAINS_KW => "`contains`",
            TokenId::DEFINED_KW => "`defined`",
            TokenId::ENDSWITH_KW => "`endswith`",
            TokenId::ENTRYPOINT_KW => "`entrypoint`",
            TokenId::FALSE_KW => "`false`",
            TokenId::FILESIZE_KW => "`filesize`",
            TokenId::FOR_KW => "`for`",
            TokenId::FULLWORD_KW => "`fullword`",
            TokenId::GLOBAL_KW => "`global`",
            TokenId::ICONTAINS_KW => "`icontains`",
            TokenId::IENDSWITH_KW => "`iendswith`",
            TokenId::IMPORT_KW => "`import`",
            TokenId::IN_KW => "`in`",
            TokenId::ISTARTSWITH_KW => "`istartswith`",
            TokenId::MATCHES_KW => "`matches`",
            TokenId::META_KW => "`meta`",
            TokenId::NOCASE_KW => "`nocase`",
            TokenId::NONE_KW => "`none`",
            TokenId::NOT_KW => "`not`",
            TokenId::OF_KW => "`of`",
            TokenId::OR_KW => "`or`",
            TokenId::PRIVATE_KW => "`private`",
            TokenId::RULE_KW => "`rule`",
            TokenId::STARTSWITH_KW => "`startswith`",
            TokenId::STRINGS_KW => "`strings`",
            TokenId::THEM_KW => "`them`",
            TokenId::TRUE_KW => "`true`",
            TokenId::WIDE_KW => "`wide`",
            TokenId::XOR_KW => "`xor`",
            TokenId::ADD => "`+`",
            TokenId::ASTERISK => "`*`",
            TokenId::BITWISE_AND => "`&`",
            TokenId::BITWISE_NOT => "`~`",
            TokenId::BITWISE_XOR => "`^`",
            TokenId::COLON => "`:`",
            TokenId::COMMA => "`,`",
            TokenId::DIV => "`\\`",
            TokenId::DOT => "`.`",
            TokenId::EQ => "`==`",
            TokenId::EQUAL => "`=`",
            TokenId::GE => "`>=`",
            TokenId::GT => "`>`",
            TokenId::HYPHEN => "`-`",
            TokenId::LE => "`<=`",
            TokenId::LT => "`<`",
            TokenId::L_BRACE => "`{`",
            TokenId::L_BRACKET => "`[`",
            TokenId::L_PAREN => "`(`",
            TokenId::NE => "`!=`",
            TokenId::PERCENT => "`%`",
            TokenId::PIPE => "`|`",
            TokenId::R_BRACE => "`}`",
            TokenId::R_BRACKET => "`]`",
            TokenId::R_PAREN => "`)`",
            TokenId::SHL => "`<<`",
            TokenId::SHR => "`>>`",
            TokenId::COMMENT => "comment",
            TokenId::FLOAT_LIT => "float literal",
            TokenId::HEX_BYTE => "hex byte",
            TokenId::IDENT => "identifier",
            TokenId::INTEGER_LIT => "integer literal",
            TokenId::NEWLINE => "newline",
            TokenId::PATTERN_COUNT => "pattern count",
            TokenId::PATTERN_IDENT => "pattern identifier",
            TokenId::PATTERN_LENGTH => "pattern length",
            TokenId::PATTERN_OFFSET => "pattern offset",
            TokenId::REGEXP => "regular expression",
            TokenId::STRING_LIT => "string literal",
            TokenId::UNKNOWN => "unknown token",
            TokenId::WHITESPACE => "whitespace",
        }
    }
}

/// The keyword that is written as `text`, if there is one.
pub open spec fn keyword_of(text: Seq<u8>) -> Option<TokenId> {
    if text == "all".spec_bytes() {
        Some(TokenId::ALL_KW)
    } else if text == "and".spec_bytes() {
        Some(TokenId::AND_KW)
    } else if text == "any".spec_bytes() {
        Some(TokenId::ANY_KW)
    } else if text == "ascii".spec_bytes() {
        Some(TokenId::ASCII_KW)
    } else if text == "at".spec_bytes() {
        Some(TokenId::AT_KW)
    } else if text == "base64".spec_bytes() {
        Some(TokenId::BASE64_KW)
    } else if text == "base64wide".spec_bytes() {
        Some(TokenId::BASE64WIDE_KW)
    } else if text == "condition".spec_bytes() {
        Some(TokenId::CONDITION_KW)
    } else if text == "contains".spec_bytes() {
        Some(TokenId::CONTAINS_KW)
    } else if text == "defined".spec_bytes() {
        Some(TokenId::DEFINED_KW)
    } else if text == "endswith".spec_bytes() {
        Some(TokenId::ENDSWITH_KW)
    } else if text == "entrypoint".spec_bytes() {
        Some(TokenId::ENTRYPOINT_KW)
    } else if text == "false".spec_bytes() {
        Some(TokenId::FALSE_KW)
    } else if text == "filesize".spec_bytes() {
        Some(TokenId::FILESIZE_KW)
    } else if text == "for".spec_bytes() {
        Some(TokenId::FOR_KW)
    } else if text == "fullword".spec_bytes() {
        Some(TokenId::FULLWORD_KW)
    } else if text == "global".spec_bytes() {
        Some(TokenId::GLOBAL_KW)
    } else if text == "icontains".spec_bytes() {
        Some(TokenId::ICONTAINS_KW)
    } else if text == "iendswith".spec_bytes() {
        Some(TokenId::IENDSWITH_KW)
    } else if text == "import".spec_bytes() {
        Some(TokenId::IMPORT_KW)
    } else if text == "in".spec_bytes() {
        Some(TokenId::IN_KW)
    } else if text == "istartswith".spec_bytes() {
        Some(TokenId::ISTARTSWITH_KW)
    } else if text == "matches".spec_bytes() {
        Some(TokenId::MATCHES_KW)
    } else if text == "meta".spec_bytes() {
        Some(TokenId::META_KW)
    } else if text == "nocase".spec_bytes() {
        Some(TokenId::NOCASE_KW)
    } else if text == "none".spec_bytes() {
        Some(TokenId::NONE_KW)
    } else if text == "not".spec_bytes() {
        Some(TokenId::NOT_KW)
    } else if text == "of".spec_bytes() {
        Some(TokenId::OF_KW)
    } else if text == "or".spec_bytes() {
        Some(TokenId::OR_KW)
    } else if text == "private".spec_bytes() {
        Some(TokenId::PRIVATE_KW)
    } else if text == "rule".spec_bytes() {
        Some(TokenId::RULE_KW)
    } else if text == "startswith".spec_bytes() {
        Some(TokenId::STARTSWITH_KW)
    } else if text == "strings".spec_bytes() {
        Some(TokenId::STRINGS_KW)
    } else if text == "them".spec_bytes() {
        Some(TokenId::THEM_KW)
    } else if text == "true".spec_bytes() {
        Some(TokenId::TRUE_KW)
    } else if text == "wide".spec_bytes() {
        Some(TokenId::WIDE_KW)
    } else if text == "xor".spec_bytes() {
        Some(TokenId::XOR_KW)
    } else {
        None
    }
}

/// Tells whether two byte strings are the same.
fn same_bytes(a: &[u8], b: &[u8]) -> (same: bool)
    ensures
        same == (a@ == b@),
{
    if a.len() != b.len() {
        return false;
    }
    let mut i: usize = 0;
    while i < a.len()
        invariant
            i <= a.len(),
            a.len() == b.len(),
            forall|j: int| 0 <= j < i ==> a@[j] == b@[j],
        decreases a.len() - i,
    {
        if a[i] != b[i] {
            assert(a@[i as int] != b@[i as int]);
            return false;
        }
        i = i + 1;
    }
    assert(a@ =~= b@);
    true
}

/// Returns the keyword that is written as `text`, if there is one.
pub fn keyword(text: &[u8]) -> (id: Option<TokenId>)
    ensures
        id == keyword_of(text@),
{
    if same_bytes(text, "all".as_bytes()) {
        Some(TokenId::ALL_KW)
    } else if same_bytes(text, "and".as_bytes()) {
        Some(TokenId::AND_KW)
    } else if same_bytes(text, "any".as_bytes()) {
        Some(TokenId::ANY_KW)
    } else if same_bytes(text, "ascii".as_bytes()) {
        Some(TokenId::ASCII_KW)
    } else if same_bytes(text, "at".as_bytes()) {
        Some(TokenId::AT_KW)
    } else if same_bytes(text, "base64".as_bytes()) {
        Some(TokenId::BASE64_KW)
    } else if same_bytes(text, "base64wide".as_bytes()) {
        Some(TokenId::BASE64WIDE_KW)
    } else if same_bytes(text, "condition".as_bytes()) {
        Some(TokenId::CONDITION_KW)
    } else if same_bytes(text, "contains".as_bytes()) {
        Some(TokenId::CONTAINS_KW)
    } else if same_bytes(text, "defined".as_bytes()) {
        Some(TokenId::DEFINED_KW)
    } else if same_bytes(text, "endswith".as_bytes()) {
        Some(TokenId::ENDSWITH_KW)
    } else if same_bytes(text, "entrypoint".as_bytes()) {
        Some(TokenId::ENTRYPOINT_KW)
    } else if same_bytes(text, "false".as_bytes()) {
        Some(TokenId::FALSE_KW)
    } else if same_bytes(text, "filesize".as_bytes()) {
        Some(TokenId::FILESIZE_KW)
    } else if same_bytes(text, "for".as_bytes()) {
        Some(TokenId::FOR_KW)
    } else if same_bytes(text, "fullword".as_bytes()) {
        Some(TokenId::FULLWORD_KW)
    } else if same_bytes(text, "global".as_bytes()) {
        Some(TokenId::GLOBAL_KW)
    } else if same_bytes(text, "icontains".as_bytes()) {
        Some(TokenId::ICONTAINS_KW)
    } else if same_bytes(text, "iendswith".as_bytes()) {
        Some(TokenId::IENDSWITH_KW)
    } else if same_bytes(text, "import".as_bytes()) {
        Some(TokenId::IMPORT_KW)
    } else if same_bytes(text, "in".as_bytes()) {
        Some(TokenId::IN_KW)
    } else if same_bytes(text, "istartswith".as_bytes()) {
        Some(TokenId::ISTARTSWITH_KW)
    } else if same_bytes(text, "matches".as_bytes()) {
        Some(TokenId::MATCHES_KW)
    } else if same_bytes(text, "meta".as_bytes()) {
        Some(TokenId::META_KW)
    } else if same_bytes(text, "nocase".as_bytes()) {
        Some(TokenId::NOCASE_KW)
    } else if same_bytes(text, "none".as_bytes()) {
        Some(TokenId::NONE_KW)
    } else if same_bytes(text, "not".as_bytes()) {
        Some(TokenId::NOT_KW)
    } else if same_bytes(text, "of".as_bytes()) {
        Some(TokenId::OF_KW)
    } else if same_bytes(text, "or".as_bytes()) {
        Some(TokenId::OR_KW)
    } else if same_bytes(text, "private".as_bytes()) {
        Some(TokenId::PRIVATE_KW)
    } else if same_bytes(text, "rule".as_bytes()) {
        Some(TokenId::RULE_KW)
    } else if same_bytes(text, "startswith".as_bytes()) {
        Some(TokenId::STARTSWITH_KW)
    } else if same_bytes(text, "strings".as_bytes()) {
        Some(TokenId::STRINGS_KW)
    } else if same_bytes(text, "them".as_bytes()) {
        Some(TokenId::THEM_KW)
    } else if same_bytes(text, "true".as_bytes()) {
        Some(TokenId::TRUE_KW)
    } else if same_bytes(text, "wide".as_bytes()) {
        Some(TokenId::WIDE_KW)
    } else if same_bytes(text, "xor".as_bytes()) {
        Some(TokenId::XOR_KW)
    } else {
        None
    }
}

/// A token, together with the place in the source code where it was found.
#[derive(Clone, Copy, Debug, PartialEq, Eq, Structural)]
pub struct Token {
    pub id: TokenId,
    pub span: Span,
}

/// Trivia tokens are those that have no meaning in the language.
pub open spec fn is_trivia_id(id: TokenId) -> bool {
    id == TokenId::WHITESPACE || id == TokenId::NEWLINE || id == TokenId::COMMENT
}

impl Token {
    /// Returns true if this is a whitespace, a newline or a comment.
    pub fn is_trivia(&self) -> (yes: bool)
        ensures
            yes == is_trivia_id(self.id),
    {
        match self.id {
            TokenId::WHITESPACE | TokenId::NEWLINE | TokenId::COMMENT => true,
            _ => false,
        }
    }
}

} // verus!
