//! The tokenizer: cuts the source code into tokens.
//!
//! Hex patterns have tokens of their own: in `{ 01 ?? [2-4] }` neither `01`
//! nor `??` is what it would be elsewhere. The tokenizer has therefore three
//! modes. The parser switches it to a hex mode, and it goes back by itself at
//! the closing brace or bracket, or at anything that does not fit the mode.

use crate::span::Span;
use crate::token::{keyword, keyword_of, Token, TokenId};
use vstd::prelude::*;
use vstd::slice::*;

verus! {

/// What kind of tokens the tokenizer looks for.
#[derive(Clone, Copy, Debug, PartialEq, Eq, Structural)]
pub enum Mode {
    /// Anything but hex patterns.
    Normal,
    /// Within the braces of a hex pattern.
    HexPattern,
    /// Within the brackets of a jump in a hex pattern.
    HexJump,
}

/// A place between two tokens.
#[derive(Clone, Copy, Debug, PartialEq, Eq, Structural)]
pub struct Cursor {
    /// Offset of the next token within the source.
    pub pos: usize,
    /// How many tokens precede the place.
    pub index: usize,
    /// How the next token is going to be read.
    pub mode: Mode,
}

/// Classes of bytes.
#[derive(Clone, Copy, Debug, PartialEq, Eq, Structural)]
pub enum Class {
    /// Spaces and tabs.
    Blank,
    /// Anything but the end of a line.
    Line,
    /// Letters and underscores.
    IdentStart,
    /// Letters, underscores and digits.
    Ident,
    /// Decimal digits.
    Digit,
    /// Hexadecimal digits.
    HexDigit,
    /// Octal digits.
    OctalDigit,
    /// What can stand for one half of a byte in a hex pattern.
    Nibble,
    /// The letters that may follow a regular expression.
    RegexpFlag,
    /// What is not ASCII.
    NotAscii,
}

/// Decimal digits.
pub open spec fn is_digit(byte: u8) -> bool {
    '0' as u8 <= byte <= '9' as u8
}

/// Letters and underscores.
pub open spec fn is_ident_start(byte: u8) -> bool {
    'a' as u8 <= byte <= 'z' as u8 || 'A' as u8 <= byte <= 'Z' as u8 || byte == '_' as u8
}

/// Hexadecimal digits.
pub open spec fn is_hex_digit(byte: u8) -> bool {
    is_digit(byte) || 'a' as u8 <= byte <= 'f' as u8 || 'A' as u8 <= byte <= 'F' as u8
}

/// Tells whether a byte is in a class.
pub open spec fn belongs(class: Class, byte: u8) -> bool {
    match class {
        Class::Blank => byte == ' ' as u8 || byte == '\t' as u8,
        Class::Line => byte != '\n' as u8 && byte != '\r' as u8,
        Class::IdentStart => is_ident_start(byte),
        Class::Ident => is_ident_start(byte) || is_digit(byte),
        Class::Digit => is_digit(byte),
        Class::HexDigit => is_hex_digit(byte),
        Class::OctalDigit => '0' as u8 <= byte <= '7' as u8,
        Class::Nibble => is_hex_digit(byte) || byte == '?' as u8,
        Class::RegexpFlag => byte == 'i' as u8 || byte == 's' as u8,
        Class::NotAscii => byte >= 128,
    }
}

/// Tells whether there is a byte of the class at the given offset.
pub open spec fn class_at(src: Seq<u8>, at: int, class: Class) -> bool {
    at < src.len() && belongs(class, src[at])
}

/// Tells whether the given byte is at the given offset.
pub open spec fn byte_at(src: Seq<u8>, at: int, byte: u8) -> bool {
    at < src.len() && src[at] == byte
}

/// Where the bytes of a class that start at the given offset end.
pub open spec fn run_end(src: Seq<u8>, from: int, class: Class) -> int
    decreases src.len() - from,
{
    if class_at(src, from, class) {
        run_end(src, from + 1, class)
    } else {
        from
    }
}

/// What follows the closing delimiter of a text that starts at the given
/// offset, if it is closed in its line. A backslash deprives the byte that
/// follows it of any meaning.
pub open spec fn quoted_end(src: Seq<u8>, from: int, quote: u8) -> Option<int>
    decreases src.len() - from,
{
    if !class_at(src, from, Class::Line) {
        None
    } else if src[from] == quote {
        Some(from + 1)
    } else if src[from] != '\\' as u8 {
        quoted_end(src, from + 1, quote)
    } else if class_at(src, from + 1, Class::Line) {
        quoted_end(src, from + 2, quote)
    } else {
        None
    }
}

/// What follows the first `*/` from the given offset on, if there is one.
pub open spec fn comment_end(src: Seq<u8>, from: int) -> Option<int>
    decreases src.len() - from,
{
    if from + 1 >= src.len() {
        None
    } else if src[from] == '*' as u8 && src[from + 1] == '/' as u8 {
        Some(from + 2)
    } else {
        comment_end(src, from + 1)
    }
}

/// What follows a `KB` or `MB` at the given offset, or the offset itself.
pub open spec fn suffix_end(src: Seq<u8>, at: int) -> int {
    let letter = byte_at(src, at, 'K' as u8) || byte_at(src, at, 'M' as u8);
    if letter && byte_at(src, at + 1, 'B' as u8) {
        at + 2
    } else {
        at
    }
}

/// The number at the given offset, where there is a digit, and its end.
pub open spec fn number(src: Seq<u8>, at: int) -> (TokenId, int) {
    let digits = run_end(src, at, Class::Digit);
    if src[at] == '0' as u8 && byte_at(src, at + 1, 'x' as u8) && class_at(
        src,
        at + 2,
        Class::HexDigit,
    ) {
        (TokenId::INTEGER_LIT, suffix_end(src, run_end(src, at + 2, Class::HexDigit)))
    } else if src[at] == '0' as u8 && byte_at(src, at + 1, 'o' as u8) && class_at(
        src,
        at + 2,
        Class::OctalDigit,
    ) {
        (TokenId::INTEGER_LIT, suffix_end(src, run_end(src, at + 2, Class::OctalDigit)))
    } else if byte_at(src, digits, '.' as u8) && class_at(src, digits + 1, Class::Digit) {
        (TokenId::FLOAT_LIT, run_end(src, digits + 1, Class::Digit))
    } else {
        (TokenId::INTEGER_LIT, suffix_end(src, digits))
    }
}

/// The trivia token at the given offset and its end, if there is one.
pub open spec fn trivia(src: Seq<u8>, at: int) -> Option<(TokenId, int)> {
    let byte = src[at];
    if belongs(Class::Blank, byte) {
        Some((TokenId::WHITESPACE, run_end(src, at, Class::Blank)))
    } else if byte == '\n' as u8 {
        Some((TokenId::NEWLINE, at + 1))
    } else if byte == '\r' as u8 {
        Some((TokenId::NEWLINE, if byte_at(src, at + 1, '\n' as u8) { at + 2 } else { at + 1 }))
    } else if byte == '/' as u8 && byte_at(src, at + 1, '/' as u8) {
        Some((TokenId::COMMENT, run_end(src, at, Class::Line)))
    } else if byte == '/' as u8 && byte_at(src, at + 1, '*' as u8) {
        match comment_end(src, at + 2) {
            Some(end) => Some((TokenId::COMMENT, end)),
            None => None,
        }
    } else {
        None
    }
}

/// The operator or punctuation mark at the given offset and its end, if there
/// is one.
pub open spec fn punctuation(src: Seq<u8>, at: int) -> Option<(TokenId, int)> {
    let byte = src[at];
    if byte == '=' as u8 && byte_at(src, at + 1, '=' as u8) {
        Some((TokenId::EQ, at + 2))
    } else if byte == '!' as u8 && byte_at(src, at + 1, '=' as u8) {
        Some((TokenId::NE, at + 2))
    } else if byte == '<' as u8 && byte_at(src, at + 1, '=' as u8) {
        Some((TokenId::LE, at + 2))
    } else if byte == '<' as u8 && byte_at(src, at + 1, '<' as u8) {
        Some((TokenId::SHL, at + 2))
    } else if byte == '>' as u8 && byte_at(src, at + 1, '=' as u8) {
        Some((TokenId::GE, at + 2))
    } else if byte == '>' as u8 && byte_at(src, at + 1, '>' as u8) {
        Some((TokenId::SHR, at + 2))
    } else if byte == '+' as u8 {
        Some((TokenId::ADD, at + 1))
    } else if byte == '*' as u8 {
        Some((TokenId::ASTERISK, at + 1))
    } else if byte == '&' as u8 {
        Some((TokenId::BITWISE_AND, at + 1))
    } else if byte == '~' as u8 {
        Some((TokenId::BITWISE_NOT, at + 1))
    } else if byte == '^' as u8 {
        Some((TokenId::BITWISE_XOR, at + 1))
    } else if byte == ':' as u8 {
        Some((TokenId::COLON, at + 1))
    } else if byte == ',' as u8 {
        Some((TokenId::COMMA, at + 1))
    } else if byte == '\\' as u8 {
        Some((TokenId::DIV, at + 1))
    } else if byte == '.' as u8 {
        Some((TokenId::DOT, at + 1))
    } else if byte == '=' as u8 {
        Some((TokenId::EQUAL, at + 1))
    } else if byte == '>' as u8 {
        Some((TokenId::GT, at + 1))
    } else if byte == '-' as u8 {
        Some((TokenId::HYPHEN, at + 1))
    } else if byte == '<' as u8 {
        Some((TokenId::LT, at + 1))
    } else if byte == '{' as u8 {
        Some((TokenId::L_BRACE, at + 1))
    } else if byte == '[' as u8 {
        Some((TokenId::L_BRACKET, at + 1))
    } else if byte == '(' as u8 {
        Some((TokenId::L_PAREN, at + 1))
    } else if byte == '%' as u8 {
        Some((TokenId::PERCENT, at + 1))
    } else if byte == '|' as u8 {
        Some((TokenId::PIPE, at + 1))
    } else if byte == '}' as u8 {
        Some((TokenId::R_BRACE, at + 1))
    } else if byte == ']' as u8 {
        Some((TokenId::R_BRACKET, at + 1))
    } else if byte == ')' as u8 {
        Some((TokenId::R_PAREN, at + 1))
    } else {
        None
    }
}

/// The token at the given offset in normal mode, and its end.
pub open spec fn normal(src: Seq<u8>, at: int) -> (TokenId, int) {
    let byte = src[at];
    let word = run_end(src, at + 1, Class::Ident);
    if trivia(src, at) is Some {
        trivia(src, at)->0
    } else if punctuation(src, at) is Some {
        punctuation(src, at)->0
    } else if is_ident_start(byte) {
        match keyword_of(src.subrange(at, word)) {
            Some(id) => (id, word),
            None => (TokenId::IDENT, word),
        }
    } else if byte == '$' as u8 {
        (TokenId::PATTERN_IDENT, word)
    } else if byte == '#' as u8 {
        (TokenId::PATTERN_COUNT, word)
    } else if byte == '@' as u8 {
        (TokenId::PATTERN_OFFSET, word)
    } else if byte == '!' as u8 {
        (TokenId::PATTERN_LENGTH, word)
    } else if is_digit(byte) {
        number(src, at)
    } else if byte == '"' as u8 && quoted_end(src, at + 1, '"' as u8) is Some {
        (TokenId::STRING_LIT, quoted_end(src, at + 1, '"' as u8)->0)
    } else if byte == '/' as u8 && quoted_end(src, at + 1, '/' as u8) is Some {
        (TokenId::REGEXP, run_end(src, quoted_end(src, at + 1, '/' as u8)->0, Class::RegexpFlag))
    } else {
        (TokenId::UNKNOWN, run_end(src, at + 1, Class::NotAscii))
    }
}

/// What follows the byte of a hex pattern at the given offset, if there is
/// one: two nibbles, after a `~` or not.
pub open spec fn hex_byte_end(src: Seq<u8>, at: int) -> Option<int> {
    let nibbles = if src[at] == '~' as u8 { at + 1 } else { at };
    if class_at(src, nibbles, Class::Nibble) && class_at(src, nibbles + 1, Class::Nibble) {
        Some(nibbles + 2)
    } else {
        None
    }
}

/// The token at the given offset, its end, and the mode for what follows.
#[verifier::opaque]
pub open spec fn scan(src: Seq<u8>, at: int, mode: Mode) -> (TokenId, int, Mode) {
    let byte = src[at];
    let other = (normal(src, at).0, normal(src, at).1, Mode::Normal);
    match mode {
        Mode::Normal => other,
        Mode::HexPattern => if trivia(src, at) is Some {
            ((trivia(src, at)->0).0, (trivia(src, at)->0).1, mode)
        } else if hex_byte_end(src, at) is Some {
            (TokenId::HEX_BYTE, hex_byte_end(src, at)->0, mode)
        } else if byte == '(' as u8 {
            (TokenId::L_PAREN, at + 1, mode)
        } else if byte == ')' as u8 {
            (TokenId::R_PAREN, at + 1, mode)
        } else if byte == '[' as u8 {
            (TokenId::L_BRACKET, at + 1, mode)
        } else if byte == ']' as u8 {
            (TokenId::R_BRACKET, at + 1, mode)
        } else if byte == '|' as u8 {
            (TokenId::PIPE, at + 1, mode)
        } else {
            other
        },
        Mode::HexJump => if trivia(src, at) is Some {
            ((trivia(src, at)->0).0, (trivia(src, at)->0).1, mode)
        } else if is_digit(byte) {
            (TokenId::INTEGER_LIT, run_end(src, at, Class::Digit), mode)
        } else if byte == '-' as u8 {
            (TokenId::HYPHEN, at + 1, mode)
        } else if byte == ']' as u8 {
            (TokenId::R_BRACKET, at + 1, Mode::HexPattern)
        } else {
            other
        },
    }
}

/// The token that follows a place, and the place that follows the token.
pub open spec fn lex(src: Seq<u8>, at: Cursor) -> Option<(Token, Cursor)> {
    if at.pos >= src.len() {
        None
    } else {
        let (id, end, mode) = scan(src, at.pos as int, at.mode);
        Some(
            (
                Token { id, span: Span { start: at.pos, end: end as usize } },
                Cursor { pos: end as usize, index: (at.index + 1) as usize, mode },
            ),
        )
    }
}

/// The place is within the source, and no more tokens than bytes precede it.
pub open spec fn in_source(src: Seq<u8>, at: Cursor) -> bool {
    at.index <= at.pos <= src.len() <= usize::MAX
}

proof fn lemma_run_end(src: Seq<u8>, from: int, class: Class)
    requires
        0 <= from <= src.len(),
    ensures
        from <= run_end(src, from, class) <= src.len(),
        class_at(src, from, class) ==> from < run_end(src, from, class),
    decreases src.len() - from,
{
    if class_at(src, from, class) {
        lemma_run_end(src, from + 1, class);
    }
}

proof fn lemma_quoted_end(src: Seq<u8>, from: int, quote: u8)
    requires
        0 <= from <= src.len(),
    ensures
        quoted_end(src, from, quote) matches Some(end) ==> from < end <= src.len(),
    decreases src.len() - from,
{
    if class_at(src, from, Class::Line) && src[from] != quote {
        if src[from] != '\\' as u8 {
            lemma_quoted_end(src, from + 1, quote);
        } else if class_at(src, from + 1, Class::Line) {
            lemma_quoted_end(src, from + 2, quote);
        }
    }
}

proof fn lemma_comment_end(src: Seq<u8>, from: int)
    requires
        0 <= from <= src.len(),
    ensures
        comment_end(src, from) matches Some(end) ==> from < end <= src.len(),
    decreases src.len() - from,
{
    if from + 1 < src.len() {
        lemma_comment_end(src, from + 1);
    }
}

proof fn lemma_trivia(src: Seq<u8>, at: int)
    requires
        0 <= at < src.len(),
    ensures
        trivia(src, at) matches Some((_, end)) ==> at < end <= src.len(),
{
    lemma_run_end(src, at, Class::Blank);
    lemma_run_end(src, at, Class::Line);
    if byte_at(src, at + 1, '*' as u8) {
        lemma_comment_end(src, at + 2);
    }
}

proof fn lemma_number(src: Seq<u8>, at: int)
    requires
        0 <= at < src.len(),
        is_digit(src[at]),
    ensures
        at < number(src, at).1 <= src.len(),
{
    lemma_run_end(src, at, Class::Digit);
    let digits = run_end(src, at, Class::Digit);
    if class_at(src, at + 2, Class::HexDigit) || class_at(src, at + 2, Class::OctalDigit) {
        lemma_run_end(src, at + 2, Class::HexDigit);
        lemma_run_end(src, at + 2, Class::OctalDigit);
    }
    if class_at(src, digits + 1, Class::Digit) {
        lemma_run_end(src, digits + 1, Class::Digit);
    }
}

proof fn lemma_normal(src: Seq<u8>, at: int)
    requires
        0 <= at < src.len(),
    ensures
        at < normal(src, at).1 <= src.len(),
{
    lemma_trivia(src, at);
    lemma_run_end(src, at + 1, Class::Ident);
    lemma_run_end(src, at + 1, Class::NotAscii);
    lemma_quoted_end(src, at + 1, '"' as u8);
    lemma_quoted_end(src, at + 1, '/' as u8);
    if let Some(end) = quoted_end(src, at + 1, '/' as u8) {
        lemma_run_end(src, end, Class::RegexpFlag);
    }
    if is_digit(src[at]) {
        lemma_number(src, at);
    }
}

/// A token is never empty and never goes past the end of the source.
pub proof fn lemma_scan(src: Seq<u8>, at: int, mode: Mode)
    requires
        0 <= at < src.len(),
    ensures
        at < scan(src, at, mode).1 <= src.len(),
{
    reveal(scan);
    lemma_normal(src, at);
    lemma_trivia(src, at);
    lemma_run_end(src, at, Class::Digit);
}

/// Tells whether a byte is in a class.
fn in_class(class: Class, byte: u8) -> (yes: bool)
    ensures
        yes == belongs(class, byte),
{
    let digit = '0' as u8 <= byte && byte <= '9' as u8;
    let ident_start = ('a' as u8 <= byte && byte <= 'z' as u8) || ('A' as u8 <= byte && byte <= 'Z' as u8) || byte
        == '_' as u8;
    let hex_digit = digit || ('a' as u8 <= byte && byte <= 'f' as u8) || ('A' as u8 <= byte && byte <= 'F' as u8);
    match class {
        Class::Blank => byte == ' ' as u8 || byte == '\t' as u8,
        Class::Line => byte != '\n' as u8 && byte != '\r' as u8,
        Class::IdentStart => ident_start,
        Class::Ident => ident_start || digit,
        Class::Digit => digit,
        Class::HexDigit => hex_digit,
        Class::OctalDigit => '0' as u8 <= byte && byte <= '7' as u8,
        Class::Nibble => hex_digit || byte == '?' as u8,
        Class::RegexpFlag => byte == 'i' as u8 || byte == 's' as u8,
        Class::NotAscii => byte >= 128,
    }
}

fn has_class(src: &[u8], at: usize, class: Class) -> (yes: bool)
    ensures
        yes == class_at(src@, at as int, class),
{
    at < src.len() && in_class(class, src[at])
}

fn has_byte(src: &[u8], at: usize, byte: u8) -> (yes: bool)
    ensures
        yes == byte_at(src@, at as int, byte),
{
    at < src.len() && src[at] == byte
}

fn skip_class(src: &[u8], from: usize, class: Class) -> (end: usize)
    requires
        from <= src.len(),
    ensures
        end == run_end(src@, from as int, class),
        from <= end <= src.len(),
{
    let mut end = from;
    while has_class(src, end, class)
        invariant
            from <= end <= src.len(),
            run_end(src@, from as int, class) == run_end(src@, end as int, class),
        decreases src.len() - end,
    {
        end = end + 1;
    }
    end
}

fn skip_quoted(src: &[u8], from: usize, quote: u8) -> (end: Option<usize>)
    requires
        from <= src.len(),
    ensures
        match end {
            Some(end) => quoted_end(src@, from as int, quote) == Some(end as int),
            None => quoted_end(src@, from as int, quote) is None,
        },
{
    let mut at = from;
    while has_class(src, at, Class::Line)
        invariant
            from <= at <= src.len(),
            quoted_end(src@, from as int, quote) == quoted_end(src@, at as int, quote),
        decreases src.len() - at,
    {
        if src[at] == quote {
            return Some(at + 1);
        }
        if src[at] != '\\' as u8 {
            at = at + 1;
        } else if has_class(src, at + 1, Class::Line) {
            at = at + 2;
        } else {
            return None;
        }
    }
    None
}

fn skip_comment(src: &[u8], from: usize) -> (end: Option<usize>)
    requires
        from <= src.len(),
    ensures
        match end {
            Some(end) => comment_end(src@, from as int) == Some(end as int),
            None => comment_end(src@, from as int) is None,
        },
{
    let mut at = from;
    while at < src.len() && src.len() - at > 1
        invariant
            from <= at <= src.len(),
            comment_end(src@, from as int) == comment_end(src@, at as int),
        decreases src.len() - at,
    {
        if src[at] == '*' as u8 && src[at + 1] == '/' as u8 {
            return Some(at + 2);
        }
        at = at + 1;
    }
    None
}

fn skip_suffix(src: &[u8], at: usize) -> (end: usize)
    requires
        at <= src.len(),
    ensures
        end == suffix_end(src@, at as int),
{
    let letter = has_byte(src, at, 'K' as u8) || has_byte(src, at, 'M' as u8);
    if letter && has_byte(src, at + 1, 'B' as u8) {
        at + 2
    } else {
        at
    }
}

fn read_number(src: &[u8], at: usize) -> (token: (TokenId, usize))
    requires
        at < src.len(),
    ensures
        (token.0, token.1 as int) == number(src@, at as int),
{
    let digits = skip_class(src, at, Class::Digit);
    if src[at] == '0' as u8 && has_byte(src, at + 1, 'x' as u8) && has_class(
        src,
        at + 2,
        Class::HexDigit,
    ) {
        (TokenId::INTEGER_LIT, skip_suffix(src, skip_class(src, at + 2, Class::HexDigit)))
    } else if src[at] == '0' as u8 && has_byte(src, at + 1, 'o' as u8) && has_class(
        src,
        at + 2,
        Class::OctalDigit,
    ) {
        (TokenId::INTEGER_LIT, skip_suffix(src, skip_class(src, at + 2, Class::OctalDigit)))
    } else if has_byte(src, digits, '.' as u8) && has_class(src, digits + 1, Class::Digit) {
        (TokenId::FLOAT_LIT, skip_class(src, digits + 1, Class::Digit))
    } else {
        (TokenId::INTEGER_LIT, skip_suffix(src, digits))
    }
}

/// The same token, or none, with its end as a machine integer or not.
spec fn same_token(exec: Option<(TokenId, usize)>, spec: Option<(TokenId, int)>) -> bool {
    match exec {
        Some((id, end)) => spec == Some((id, end as int)),
        None => spec is None,
    }
}

fn read_trivia(src: &[u8], at: usize) -> (token: Option<(TokenId, usize)>)
    requires
        at < src.len(),
    ensures
        same_token(token, trivia(src@, at as int)),
{
    let byte = src[at];
    if in_class(Class::Blank, byte) {
        Some((TokenId::WHITESPACE, skip_class(src, at, Class::Blank)))
    } else if byte == '\n' as u8 {
        Some((TokenId::NEWLINE, at + 1))
    } else if byte == '\r' as u8 {
        Some((TokenId::NEWLINE, if has_byte(src, at + 1, '\n' as u8) { at + 2 } else { at + 1 }))
    } else if byte == '/' as u8 && has_byte(src, at + 1, '/' as u8) {
        Some((TokenId::COMMENT, skip_class(src, at, Class::Line)))
    } else if byte == '/' as u8 && has_byte(src, at + 1, '*' as u8) {
        match skip_comment(src, at + 2) {
            Some(end) => Some((TokenId::COMMENT, end)),
            None => None,
        }
    } else {
        None
    }
}

fn read_punctuation(src: &[u8], at: usize) -> (token: Option<(TokenId, usize)>)
    requires
        at < src.len(),
    ensures
        same_token(token, punctuation(src@, at as int)),
{
    let byte = src[at];
    if byte == '=' as u8 && has_byte(src, at + 1, '=' as u8) {
        Some((TokenId::EQ, at + 2))
    } else if byte == '!' as u8 && has_byte(src, at + 1, '=' as u8) {
        Some((TokenId::NE, at + 2))
    } else if byte == '<' as u8 && has_byte(src, at + 1, '=' as u8) {
        Some((TokenId::LE, at + 2))
    } else if byte == '<' as u8 && has_byte(src, at + 1, '<' as u8) {
        Some((TokenId::SHL, at + 2))
    } else if byte == '>' as u8 && has_byte(src, at + 1, '=' as u8) {
        Some((TokenId::GE, at + 2))
    } else if byte == '>' as u8 && has_byte(src, at + 1, '>' as u8) {
        Some((TokenId::SHR, at + 2))
    } else if byte == '+' as u8 {
        Some((TokenId::ADD, at + 1))
    } else if byte == '*' as u8 {
        Some((TokenId::ASTERISK, at + 1))
    } else if byte == '&' as u8 {
        Some((TokenId::BITWISE_AND, at + 1))
    } else if byte == '~' as u8 {
        Some((TokenId::BITWISE_NOT, at + 1))
    } else if byte == '^' as u8 {
        Some((TokenId::BITWISE_XOR, at + 1))
    } else if byte == ':' as u8 {
        Some((TokenId::COLON, at + 1))
    } else if byte == ',' as u8 {
        Some((TokenId::COMMA, at + 1))
    } else if byte == '\\' as u8 {
        Some((TokenId::DIV, at + 1))
    } else if byte == '.' as u8 {
        Some((TokenId::DOT, at + 1))
    } else if byte == '=' as u8 {
        Some((TokenId::EQUAL, at + 1))
    } else if byte == '>' as u8 {
        Some((TokenId::GT, at + 1))
    } else if byte == '-' as u8 {
        Some((TokenId::HYPHEN, at + 1))
    } else if byte == '<' as u8 {
        Some((TokenId::LT, at + 1))
    } else if byte == '{' as u8 {
        Some((TokenId::L_BRACE, at + 1))
    } else if byte == '[' as u8 {
        Some((TokenId::L_BRACKET, at + 1))
    } else if byte == '(' as u8 {
        Some((TokenId::L_PAREN, at + 1))
    } else if byte == '%' as u8 {
        Some((TokenId::PERCENT, at + 1))
    } else if byte == '|' as u8 {
        Some((TokenId::PIPE, at + 1))
    } else if byte == '}' as u8 {
        Some((TokenId::R_BRACE, at + 1))
    } else if byte == ']' as u8 {
        Some((TokenId::R_BRACKET, at + 1))
    } else if byte == ')' as u8 {
        Some((TokenId::R_PAREN, at + 1))
    } else {
        None
    }
}

fn read_normal(src: &[u8], at: usize) -> (token: (TokenId, usize))
    requires
        at < src.len(),
    ensures
        (token.0, token.1 as int) == normal(src@, at as int),
{
    let byte = src[at];
    let word = skip_class(src, at + 1, Class::Ident);
    if let Some(token) = read_trivia(src, at) {
        return token;
    }
    if let Some(token) = read_punctuation(src, at) {
        return token;
    }
    if in_class(Class::IdentStart, byte) {
        match keyword(slice_subrange(src, at, word)) {
            Some(id) => (id, word),
            None => (TokenId::IDENT, word),
        }
    } else if byte == '$' as u8 {
        (TokenId::PATTERN_IDENT, word)
    } else if byte == '#' as u8 {
        (TokenId::PATTERN_COUNT, word)
    } else if byte == '@' as u8 {
        (TokenId::PATTERN_OFFSET, word)
    } else if byte == '!' as u8 {
        (TokenId::PATTERN_LENGTH, word)
    } else if in_class(Class::Digit, byte) {
        read_number(src, at)
    } else {
        if byte == '"' as u8 {
            if let Some(end) = skip_quoted(src, at + 1, '"' as u8) {
                return (TokenId::STRING_LIT, end);
            }
        }
        if byte == '/' as u8 {
            if let Some(end) = skip_quoted(src, at + 1, '/' as u8) {
                proof {
                    lemma_quoted_end(src@, at + 1, '/' as u8);
                }
                return (TokenId::REGEXP, skip_class(src, end, Class::RegexpFlag));
            }
        }
        (TokenId::UNKNOWN, skip_class(src, at + 1, Class::NotAscii))
    }
}

fn read_hex_byte(src: &[u8], at: usize) -> (end: Option<usize>)
    requires
        at < src.len(),
    ensures
        match end {
            Some(end) => hex_byte_end(src@, at as int) == Some(end as int),
            None => hex_byte_end(src@, at as int) is None,
        },
{
    let nibbles = if src[at] == '~' as u8 { at + 1 } else { at };
    if has_class(src, nibbles, Class::Nibble) && has_class(src, nibbles + 1, Class::Nibble) {
        Some(nibbles + 2)
    } else {
        None
    }
}

fn read_token(src: &[u8], at: usize, mode: Mode) -> (token: (TokenId, usize, Mode))
    requires
        at < src.len(),
    ensures
        (token.0, token.1 as int, token.2) == scan(src@, at as int, mode),
{
    proof {
        reveal(scan);
    }
    let byte = src[at];
    match mode {
        Mode::Normal => {},
        Mode::HexPattern => {
            if let Some((id, end)) = read_trivia(src, at) {
                return (id, end, mode);
            }
            if let Some(end) = read_hex_byte(src, at) {
                return (TokenId::HEX_BYTE, end, mode);
            }
            if byte == '(' as u8 {
                return (TokenId::L_PAREN, at + 1, mode);
            } else if byte == ')' as u8 {
                return (TokenId::R_PAREN, at + 1, mode);
            } else if byte == '[' as u8 {
                return (TokenId::L_BRACKET, at + 1, mode);
            } else if byte == ']' as u8 {
                return (TokenId::R_BRACKET, at + 1, mode);
            } else if byte == '|' as u8 {
                return (TokenId::PIPE, at + 1, mode);
            }
        },
        Mode::HexJump => {
            if let Some((id, end)) = read_trivia(src, at) {
                return (id, end, mode);
            }
            if in_class(Class::Digit, byte) {
                return (TokenId::INTEGER_LIT, skip_class(src, at, Class::Digit), mode);
            } else if byte == '-' as u8 {
                return (TokenId::HYPHEN, at + 1, mode);
            } else if byte == ']' as u8 {
                return (TokenId::R_BRACKET, at + 1, Mode::HexPattern);
            }
        },
    }
    let (id, end) = read_normal(src, at);
    (id, end, Mode::Normal)
}

/// Cuts a source code into tokens.
#[derive(Clone, Copy)]
pub struct Tokenizer<'src> {
    source: &'src [u8],
}

impl<'src> Tokenizer<'src> {
    /// The source code.
    pub closed spec fn src(&self) -> Seq<u8> {
        self.source@
    }

    /// Creates a tokenizer for the given source code.
    pub fn new(source: &'src [u8]) -> (tokenizer: Self)
        ensures
            tokenizer.src() == source@,
    {
        Tokenizer { source }
    }

    /// Returns the source code passed to the tokenizer.
    pub fn source(&self) -> (source: &'src [u8])
        ensures
            source@ == self.src(),
    {
        self.source
    }

    /// Returns the token that follows a place in the source code, and the
    /// place that follows the token. Returns `None` at the end of the source.
    pub fn token_at(&self, at: Cursor) -> (next: Option<(Token, Cursor)>)
        requires
            in_source(self.src(), at),
        ensures
            next == lex(self.src(), at),
    {
        if at.pos >= self.source.len() {
            return None;
        }
        let (id, end, mode) = read_token(self.source, at.pos, at.mode);
        proof {
            lemma_scan(self.source@, at.pos as int, at.mode);
        }
        Some(
            (
                Token { id, span: Span { start: at.pos, end } },
                Cursor { pos: end, index: at.index + 1, mode },
            ),
        )
    }
}

} // verus!
