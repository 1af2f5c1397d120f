//! How a source is cut into tokens.

use crate::token::{is_trivia_id, keyword_of, TokenId};
use crate::tokenizer::{
    class_at, comment_end, in_source, lex, quoted_end, run_end, scan, Class, Cursor, Mode,
};
use vstd::prelude::*;
use vstd::string::*;

verus! {

/// The words of the language are these, and each of them is a token of its own.
pub proof fn law_keywords(text: Seq<u8>)
    ensures
        text == "all".spec_bytes() ==> keyword_of(text) is Some,
        text == "and".spec_bytes() ==> keyword_of(text) is Some,
        text == "any".spec_bytes() ==> keyword_of(text) is Some,
        text == "ascii".spec_bytes() ==> keyword_of(text) is Some,
        text == "at".spec_bytes() ==> keyword_of(text) is Some,
        text == "base64".spec_bytes() ==> keyword_of(text) is Some,
        text == "base64wide".spec_bytes() ==> keyword_of(text) is Some,
        text == "condition".spec_bytes() ==> keyword_of(text) is Some,
        text == "contains".spec_bytes() ==> keyword_of(text) is Some,
        text == "defined".spec_bytes() ==> keyword_of(text) is Some,
        text == "endswith".spec_bytes() ==> keyword_of(text) is Some,
        text == "entrypoint".spec_bytes() ==> keyword_of(text) is Some,
        text == "false".spec_bytes() ==> keyword_of(text) is Some,
        text == "filesize".spec_bytes() ==> keyword_of(text) is Some,
        text == "for".spec_bytes() ==> keyword_of(text) is Some,
        text == "fullword".spec_bytes() ==> keyword_of(text) is Some,
        text == "global".spec_bytes() ==> keyword_of(text) is Some,
        text == "icontains".spec_bytes() ==> keyword_of(text) is Some,
        text == "iendswith".spec_bytes() ==> keyword_of(text) is Some,
        text == "import".spec_bytes() ==> keyword_of(text) is Some,
        text == "in".spec_bytes() ==> keyword_of(text) is Some,
        text == "istartswith".spec_bytes() ==> keyword_of(text) is Some,
        text == "matches".spec_bytes() ==> keyword_of(text) is Some,
        text == "meta".spec_bytes() ==> keyword_of(text) is Some,
        text == "nocase".spec_bytes() ==> keyword_of(text) is Some,
        text == "none".spec_bytes() ==> keyword_of(text) is Some,
        text == "not".spec_bytes() ==> keyword_of(text) is Some,
        text == "of".spec_bytes() ==> keyword_of(text) is Some,
        text == "or".spec_bytes() ==> keyword_of(text) is Some,
        text == "private".spec_bytes() ==> keyword_of(text) is Some,
        text == "rule".spec_bytes() ==> keyword_of(text) is Some,
        text == "startswith".spec_bytes() ==> keyword_of(text) is Some,
        text == "strings".spec_bytes() ==> keyword_of(text) is Some,
        text == "them".spec_bytes() ==> keyword_of(text) is Some,
        text == "true".spec_bytes() ==> keyword_of(text) is Some,
        text == "wide".spec_bytes() ==> keyword_of(text) is Some,
        text == "xor".spec_bytes() ==> keyword_of(text) is Some,
        keyword_of(text) == Some(TokenId::ALL_KW) ==> text == "all".spec_bytes(),
        keyword_of(text) == Some(TokenId::AND_KW) ==> text == "and".spec_bytes(),
        keyword_of(text) == Some(TokenId::ANY_KW) ==> text == "any".spec_bytes(),
        keyword_of(text) == Some(TokenId::ASCII_KW) ==> text == "ascii".spec_bytes(),
        keyword_of(text) == Some(TokenId::AT_KW) ==> text == "at".spec_bytes(),
        keyword_of(text) == Some(TokenId::BASE64_KW) ==> text == "base64".spec_bytes(),
        keyword_of(text) == Some(TokenId::BASE64WIDE_KW) ==> text == "base64wide".spec_bytes(),
        keyword_of(text) == Some(TokenId::CONDITION_KW) ==> text == "condition".spec_bytes(),
        keyword_of(text) == Some(TokenId::CONTAINS_KW) ==> text == "contains".spec_bytes(),
        keyword_of(text) == Some(TokenId::DEFINED_KW) ==> text == "defined".spec_bytes(),
        keyword_of(text) == Some(TokenId::ENDSWITH_KW) ==> text == "endswith".spec_bytes(),
        keyword_of(text) == Some(TokenId::ENTRYPOINT_KW) ==> text == "entrypoint".spec_bytes(),
        keyword_of(text) == Some(TokenId::FALSE_KW) ==> text == "false".spec_bytes(),
        keyword_of(text) == Some(TokenId::FILESIZE_KW) ==> text == "filesize".spec_bytes(),
        keyword_of(text) == Some(TokenId::FOR_KW) ==> text == "for".spec_bytes(),
        keyword_of(text) == Some(TokenId::FULLWORD_KW) ==> text == "fullword".spec_bytes(),
        keyword_of(text) == Some(TokenId::GLOBAL_KW) ==> text == "global".spec_bytes(),
        keyword_of(text) == Some(TokenId::ICONTAINS_KW) ==> text == "icontains".spec_bytes(),
        keyword_of(text) == Some(TokenId::IENDSWITH_KW) ==> text == "iendswith".spec_bytes(),
        keyword_of(text) == Some(TokenId::IMPORT_KW) ==> text == "import".spec_bytes(),
        keyword_of(text) == Some(TokenId::IN_KW) ==> text == "in".spec_bytes(),
        keyword_of(text) == Some(TokenId::ISTARTSWITH_KW) ==> text == "istartswith".spec_bytes(),
        keyword_of(text) == Some(TokenId::MATCHES_KW) ==> text == "matches".spec_bytes(),
        keyword_of(text) == Some(TokenId::META_KW) ==> text == "meta".spec_bytes(),
        keyword_of(text) == Some(TokenId::NOCASE_KW) ==> text == "nocase".spec_bytes(),
        keyword_of(text) == Some(TokenId::NONE_KW) ==> text == "none".spec_bytes(),
        keyword_of(text) == Some(TokenId::NOT_KW) ==> text == "not".spec_bytes(),
        keyword_of(text) == Some(TokenId::OF_KW) ==> text == "of".spec_bytes(),
        keyword_of(text) == Some(TokenId::OR_KW) ==> text == "or".spec_bytes(),
        keyword_of(text) == Some(TokenId::PRIVATE_KW) ==> text == "private".spec_bytes(),
        keyword_of(text) == Some(TokenId::RULE_KW) ==> text == "rule".spec_bytes(),
        keyword_of(text) == Some(TokenId::STARTSWITH_KW) ==> text == "startswith".spec_bytes(),
        keyword_of(text) == Some(TokenId::STRINGS_KW) ==> text == "strings".spec_bytes(),
        keyword_of(text) == Some(TokenId::THEM_KW) ==> text == "them".spec_bytes(),
        keyword_of(text) == Some(TokenId::TRUE_KW) ==> text == "true".spec_bytes(),
        keyword_of(text) == Some(TokenId::WIDE_KW) ==> text == "wide".spec_bytes(),
        keyword_of(text) == Some(TokenId::XOR_KW) ==> text == "xor".spec_bytes(),
{
}

/// Letters and underscores.
pub open spec fn is_letter(byte: u8) -> bool {
    97 <= byte <= 122 || 65 <= byte <= 90 || byte == 95
}

/// Decimal digits.
pub open spec fn is_figure(byte: u8) -> bool {
    48 <= byte <= 57
}

/// The bytes between two offsets are letters, underscores and digits, and the one
/// after them is not.
pub open spec fn is_word(src: Seq<u8>, from: int, end: int) -> bool {
    &&& from <= end <= src.len()
    &&& forall|i: int| from <= i < end ==> is_letter(#[trigger] src[i]) || is_figure(src[i])
    &&& end < src.len() ==> !is_letter(src[end]) && !is_figure(src[end])
}

/// A run of bytes of a class ends before the first one that is not in it.
proof fn lemma_run(src: Seq<u8>, from: int, end: int, class: Class)
    requires
        0 <= from <= end <= src.len(),
        forall|i: int| from <= i < end ==> #[trigger] class_at(src, i, class),
        !class_at(src, end, class),
    ensures
        run_end(src, from, class) == end,
    decreases end - from,
{
    if from < end {
        assert(class_at(src, from, class));
        lemma_run(src, from + 1, end, class);
    }
}

/// A place in the source where a token starts, in normal mode.
pub open spec fn is_normal(src: Seq<u8>, at: Cursor) -> bool {
    in_source(src, at) && at.pos < src.len() && at.mode == Mode::Normal
}

/// The next token is of a certain type, and ends at an offset. The one after it is
/// read in normal mode.
pub open spec fn is_token(src: Seq<u8>, at: Cursor, id: TokenId, end: int) -> bool {
    lex(src, at) matches Some((token, next)) && {
        &&& token.id == id
        &&& token.span.start == at.pos
        &&& token.span.end == end
        &&& next.pos == end
        &&& next.mode == Mode::Normal
    }
}

/// A word that starts with a letter or an underscore, up to its end, is a keyword or
/// an identifier.
pub proof fn law_words(src: Seq<u8>, at: Cursor, end: int)
    requires
        is_normal(src, at),
        is_letter(src[at.pos as int]),
        at.pos < end,
        is_word(src, at.pos as int, end),
    ensures
        is_token(
            src,
            at,
            match keyword_of(src.subrange(at.pos as int, end)) {
                Some(id) => id,
                None => TokenId::IDENT,
            },
            end,
        ),
{
    reveal(scan);
    let from: int = at.pos as int;
    assert forall|i: int| from + 1 <= i < end implies #[trigger] class_at(
        src,
        i,
        Class::Ident,
    ) by {
        assert(is_letter(src[i]) || is_figure(src[i]));
    }
    lemma_run(src, from + 1, end, Class::Ident);
}

/// A word after a dollar sign is a pattern, after a hash its count, after an at sign
/// its offset, and after an exclamation mark its length. The word may be empty.
pub proof fn law_pattern_words(src: Seq<u8>, at: Cursor, end: int)
    requires
        is_normal(src, at),
        is_word(src, at.pos + 1, end),
    ensures
        src[at.pos as int] == 36 ==> is_token(src, at, TokenId::PATTERN_IDENT, end),
        src[at.pos as int] == 35 ==> is_token(src, at, TokenId::PATTERN_COUNT, end),
        src[at.pos as int] == 64 ==> is_token(src, at, TokenId::PATTERN_OFFSET, end),
        src[at.pos as int] == 33 && !(at.pos + 1 < src.len() && src[at.pos + 1] == 61) ==> is_token(
            src,
            at,
            TokenId::PATTERN_LENGTH,
            end,
        ),
{
    reveal(scan);
    let from: int = at.pos as int;
    assert forall|i: int| from + 1 <= i < end implies #[trigger] class_at(
        src,
        i,
        Class::Ident,
    ) by {
        assert(is_letter(src[i]) || is_figure(src[i]));
    }
    lemma_run(src, from + 1, end, Class::Ident);
}

/// The signs of two bytes, and those of one byte where they are not part of one of
/// two.
pub proof fn law_signs(src: Seq<u8>, at: Cursor)
    requires
        is_normal(src, at),
    ensures
        ({
            let byte = src[at.pos as int];
            let next = if at.pos + 1 < src.len() {
                src[at.pos + 1]
            } else {
                0
            };
            let one = at.pos + 1;
            let two = at.pos + 2;
            &&& byte == 61 && next == 61 ==> is_token(src, at, TokenId::EQ, two)
            &&& byte == 33 && next == 61 ==> is_token(src, at, TokenId::NE, two)
            &&& byte == 60 && next == 61 ==> is_token(src, at, TokenId::LE, two)
            &&& byte == 60 && next == 60 ==> is_token(src, at, TokenId::SHL, two)
            &&& byte == 62 && next == 61 ==> is_token(src, at, TokenId::GE, two)
            &&& byte == 62 && next == 62 ==> is_token(src, at, TokenId::SHR, two)
            &&& byte == 61 && next != 61 ==> is_token(src, at, TokenId::EQUAL, one)
            &&& byte == 60 && next != 61 && next != 60 ==> is_token(src, at, TokenId::LT, one)
            &&& byte == 62 && next != 61 && next != 62 ==> is_token(src, at, TokenId::GT, one)
            &&& byte == 43 ==> is_token(src, at, TokenId::ADD, one)
            &&& byte == 42 ==> is_token(src, at, TokenId::ASTERISK, one)
            &&& byte == 38 ==> is_token(src, at, TokenId::BITWISE_AND, one)
            &&& byte == 126 ==> is_token(src, at, TokenId::BITWISE_NOT, one)
            &&& byte == 94 ==> is_token(src, at, TokenId::BITWISE_XOR, one)
            &&& byte == 58 ==> is_token(src, at, TokenId::COLON, one)
            &&& byte == 44 ==> is_token(src, at, TokenId::COMMA, one)
            &&& byte == 92 ==> is_token(src, at, TokenId::DIV, one)
            &&& byte == 46 ==> is_token(src, at, TokenId::DOT, one)
            &&& byte == 45 ==> is_token(src, at, TokenId::HYPHEN, one)
            &&& byte == 123 ==> is_token(src, at, TokenId::L_BRACE, one)
            &&& byte == 91 ==> is_token(src, at, TokenId::L_BRACKET, one)
            &&& byte == 40 ==> is_token(src, at, TokenId::L_PAREN, one)
            &&& byte == 37 ==> is_token(src, at, TokenId::PERCENT, one)
            &&& byte == 124 ==> is_token(src, at, TokenId::PIPE, one)
            &&& byte == 125 ==> is_token(src, at, TokenId::R_BRACE, one)
            &&& byte == 93 ==> is_token(src, at, TokenId::R_BRACKET, one)
            &&& byte == 41 ==> is_token(src, at, TokenId::R_PAREN, one)
        }),
{
    reveal(scan);
}

/// Digits, as many as there are, are an integer, if no suffix, no dot, and after a
/// zero no letter that stands for a base, follows them.
pub proof fn law_integers(src: Seq<u8>, at: Cursor, end: int)
    requires
        is_normal(src, at),
        at.pos < end <= src.len(),
        forall|i: int| at.pos <= i < end ==> is_figure(#[trigger] src[i]),
        end < src.len() ==> !is_letter(src[end]) && !is_figure(src[end]) && src[end] != 46,
    ensures
        is_token(src, at, TokenId::INTEGER_LIT, end),
{
    reveal(scan);
    let from: int = at.pos as int;
    assert(is_figure(src[from]));
    assert forall|i: int| from <= i < end implies #[trigger] class_at(src, i, Class::Digit) by {
        assert(is_figure(src[i]));
    }
    lemma_run(src, from, end, Class::Digit);
    if from + 1 < end {
        assert(is_figure(src[from + 1]));
    }
}

/// Digits, a dot and digits are a number with a fraction.
pub proof fn law_floats(src: Seq<u8>, at: Cursor, dot: int, end: int)
    requires
        is_normal(src, at),
        at.pos < dot < dot + 1 < end <= src.len(),
        forall|i: int| at.pos <= i < dot ==> is_figure(#[trigger] src[i]),
        src[dot] == 46,
        forall|i: int| dot < i < end ==> is_figure(#[trigger] src[i]),
        end < src.len() ==> !is_figure(src[end]),
    ensures
        is_token(src, at, TokenId::FLOAT_LIT, end),
{
    reveal(scan);
    let from: int = at.pos as int;
    assert(is_figure(src[from]));
    assert forall|i: int| from <= i < dot implies #[trigger] class_at(src, i, Class::Digit) by {
        assert(is_figure(src[i]));
    }
    lemma_run(src, from, dot, Class::Digit);
    assert forall|i: int| dot + 1 <= i < end implies #[trigger] class_at(
        src,
        i,
        Class::Digit,
    ) by {
        assert(is_figure(src[i]));
    }
    lemma_run(src, dot + 1, end, Class::Digit);
    assert(is_figure(src[dot + 1]));
    if from + 1 < dot {
        assert(is_figure(src[from + 1]));
    }
}

/// The text up to a delimiter that closes it in its line.
proof fn lemma_quoted(src: Seq<u8>, from: int, end: int, quote: u8)
    requires
        0 <= from <= end < src.len(),
        src[end] == quote,
        quote != 10,
        quote != 13,
        forall|i: int|
            from <= i < end ==> #[trigger] src[i] != quote && src[i] != 92 && src[i] != 10
                && src[i] != 13,
    ensures
        quoted_end(src, from, quote) == Some(end + 1),
    decreases end - from,
{
    if from < end {
        assert(src[from] != quote);
        lemma_quoted(src, from + 1, end, quote);
    }
}

/// A text in quotes, without quotes and backslashes in it, is a string if it is
/// closed in its line.
pub proof fn law_strings(src: Seq<u8>, at: Cursor, end: int)
    requires
        is_normal(src, at),
        src[at.pos as int] == 34,
        at.pos < end < src.len(),
        src[end] == 34,
        forall|i: int|
            at.pos < i < end ==> #[trigger] src[i] != 34 && src[i] != 92 && src[i] != 10 && src[i]
                != 13,
    ensures
        is_token(src, at, TokenId::STRING_LIT, end + 1),
{
    reveal(scan);
    lemma_quoted(src, at.pos + 1, end, 34);
}

/// Blanks, as many as there are, are one token, and so is what is after two slashes
/// up to the end of the line. A line feed is one too.
pub proof fn law_blanks(src: Seq<u8>, at: Cursor, end: int)
    requires
        is_normal(src, at),
        at.pos < end <= src.len(),
    ensures
        ({
            &&& forall|i: int| at.pos <= i < end ==> #[trigger] src[i] == 32 || src[i] == 9
            &&& end < src.len() ==> src[end] != 32 && src[end] != 9
        }) ==> is_token(src, at, TokenId::WHITESPACE, end),
        ({
            &&& forall|i: int| at.pos <= i < end ==> #[trigger] src[i] != 10 && src[i] != 13
            &&& end < src.len() ==> src[end] == 10 || src[end] == 13
            &&& at.pos + 1 < end
            &&& src[at.pos as int] == 47
            &&& src[at.pos + 1] == 47
        }) ==> is_token(src, at, TokenId::COMMENT, end),
        src[at.pos as int] == 10 ==> is_token(src, at, TokenId::NEWLINE, at.pos + 1),
{
    reveal(scan);
    let from: int = at.pos as int;
    assert(src[from] == src[at.pos as int]);
    if (forall|i: int| from <= i < end ==> #[trigger] src[i] == 32 || src[i] == 9) && (end
        < src.len() ==> src[end] != 32 && src[end] != 9) {
        assert forall|i: int| from <= i < end implies #[trigger] class_at(
            src,
            i,
            Class::Blank,
        ) by {
            assert(src[i] == 32 || src[i] == 9);
        }
        lemma_run(src, from, end, Class::Blank);
    } else if (forall|i: int| from <= i < end ==> #[trigger] src[i] != 10 && src[i] != 13) && (end
        < src.len() ==> src[end] == 10 || src[end] == 13) && from + 1 < end && src[from] == 47
        && src[from + 1] == 47 {
        assert forall|i: int| from <= i < end implies #[trigger] class_at(
            src,
            i,
            Class::Line,
        ) by {
            assert(src[i] != 10 && src[i] != 13);
        }
        lemma_run(src, from, end, Class::Line);
    }
}

/// Hexadecimal digits.
pub open spec fn is_hex_figure(byte: u8) -> bool {
    48 <= byte <= 57 || 97 <= byte <= 102 || 65 <= byte <= 70
}

/// A zero, an `x` and hexadecimal digits are an integer.
pub proof fn law_hex_integers(src: Seq<u8>, at: Cursor, end: int)
    requires
        is_normal(src, at),
        at.pos + 2 < end <= src.len(),
        src[at.pos as int] == 48,
        src[at.pos + 1] == 120,
        forall|i: int| at.pos + 2 <= i < end ==> is_hex_figure(#[trigger] src[i]),
        end < src.len() ==> !is_hex_figure(src[end]) && src[end] != 75 && src[end] != 77,
    ensures
        is_token(src, at, TokenId::INTEGER_LIT, end),
{
    reveal(scan);
    let from: int = at.pos as int;
    assert(is_hex_figure(src[from + 2]));
    assert forall|i: int| from + 2 <= i < end implies #[trigger] class_at(
        src,
        i,
        Class::HexDigit,
    ) by {
        assert(is_hex_figure(src[i]));
    }
    lemma_run(src, from + 2, end, Class::HexDigit);
}

/// A zero, an `o` and octal digits are an integer.
pub proof fn law_octal_integers(src: Seq<u8>, at: Cursor, end: int)
    requires
        is_normal(src, at),
        at.pos + 2 < end <= src.len(),
        src[at.pos as int] == 48,
        src[at.pos + 1] == 111,
        forall|i: int| at.pos + 2 <= i < end ==> 48 <= #[trigger] src[i] <= 55,
        end < src.len() ==> !(48 <= src[end] <= 55) && src[end] != 75 && src[end] != 77,
    ensures
        is_token(src, at, TokenId::INTEGER_LIT, end),
{
    reveal(scan);
    let from: int = at.pos as int;
    assert(48 <= src[from + 2] <= 55);
    assert forall|i: int| from + 2 <= i < end implies #[trigger] class_at(
        src,
        i,
        Class::OctalDigit,
    ) by {
        assert(48 <= src[i] <= 55);
    }
    lemma_run(src, from + 2, end, Class::OctalDigit);
}

/// `KB` or `MB` after digits is part of the integer.
pub proof fn law_suffixes(src: Seq<u8>, at: Cursor, end: int)
    requires
        is_normal(src, at),
        at.pos < end,
        end + 2 <= src.len(),
        forall|i: int| at.pos <= i < end ==> is_figure(#[trigger] src[i]),
        src[end] == 75 || src[end] == 77,
        src[end + 1] == 66,
    ensures
        is_token(src, at, TokenId::INTEGER_LIT, end + 2),
{
    reveal(scan);
    let from: int = at.pos as int;
    assert(is_figure(src[from]));
    assert forall|i: int| from <= i < end implies #[trigger] class_at(src, i, Class::Digit) by {
        assert(is_figure(src[i]));
    }
    lemma_run(src, from, end, Class::Digit);
    if from + 1 < end {
        assert(is_figure(src[from + 1]));
    }
}

/// Whatever follows a backslash in its line is part of a quoted text, and so is any
/// other byte but the delimiter. A line end closes nothing.
pub proof fn law_quoted_texts(src: Seq<u8>, from: int, quote: u8)
    requires
        0 <= from < src.len(),
        quote == 34 || quote == 47,
    ensures
        src[from] == quote ==> quoted_end(src, from, quote) == Some(from + 1),
        src[from] == 10 || src[from] == 13 ==> quoted_end(src, from, quote) is None,
        src[from] != quote && src[from] != 92 && src[from] != 10 && src[from] != 13 ==> quoted_end(
            src,
            from,
            quote,
        ) == quoted_end(src, from + 1, quote),
        src[from] == 92 && from + 1 < src.len() && src[from + 1] != 10 && src[from + 1] != 13
            ==> quoted_end(src, from, quote) == quoted_end(src, from + 2, quote),
{
}

/// A quoted text is a string. Between slashes, where it does not look like a comment,
/// it is a regular expression, and the letters `i` and `s` after it are part of it.
pub proof fn law_quoted_tokens(src: Seq<u8>, at: Cursor, end: int, after: int)
    requires
        is_normal(src, at),
        0 <= end <= after <= src.len(),
    ensures
        src[at.pos as int] == 34 && quoted_end(src, at.pos + 1, 34) == Some(end) ==> is_token(
            src,
            at,
            TokenId::STRING_LIT,
            end,
        ),
        ({
            &&& src[at.pos as int] == 47
            &&& at.pos + 1 < src.len() && src[at.pos + 1] != 47 && src[at.pos + 1] != 42
            &&& quoted_end(src, at.pos + 1, 47) == Some(end)
            &&& forall|i: int| end <= i < after ==> #[trigger] src[i] == 105 || src[i] == 115
            &&& after < src.len() ==> src[after] != 105 && src[after] != 115
        }) ==> is_token(src, at, TokenId::REGEXP, after),
{
    reveal(scan);
    if forall|i: int| end <= i < after ==> #[trigger] src[i] == 105 || src[i] == 115 {
        assert forall|i: int| end <= i < after implies #[trigger] class_at(
            src,
            i,
            Class::RegexpFlag,
        ) by {
            assert(src[i] == 105 || src[i] == 115);
        }
        if after < src.len() ==> src[after] != 105 && src[after] != 115 {
            lemma_run(src, end, after, Class::RegexpFlag);
        }
    }
}

/// A comment ends at the first asterisk that a slash follows.
proof fn lemma_comment(src: Seq<u8>, from: int, end: int)
    requires
        0 <= from <= end,
        end + 2 <= src.len(),
        src[end] == 42,
        src[end + 1] == 47,
        forall|i: int| from <= i < end ==> #[trigger] src[i] != 42 || src[i + 1] != 47,
    ensures
        comment_end(src, from) == Some(end + 2),
    decreases end - from,
{
    if from < end {
        assert(src[from] != 42 || src[from + 1] != 47);
        lemma_comment(src, from + 1, end);
    }
}

/// A slash, an asterisk, and everything up to the first asterisk that a slash follows
/// is a comment.
pub proof fn law_comments(src: Seq<u8>, at: Cursor, end: int)
    requires
        is_normal(src, at),
        at.pos + 2 <= end,
        end + 2 <= src.len(),
        src[at.pos as int] == 47,
        src[at.pos + 1] == 42,
        src[end] == 42,
        src[end + 1] == 47,
        forall|i: int| at.pos + 2 <= i < end ==> #[trigger] src[i] != 42 || src[i + 1] != 47,
    ensures
        is_token(src, at, TokenId::COMMENT, end + 2),
{
    reveal(scan);
    lemma_comment(src, at.pos + 2, end);
}

/// A carriage return is a line end, together with the line feed after it if there is
/// one.
pub proof fn law_line_ends(src: Seq<u8>, at: Cursor)
    requires
        is_normal(src, at),
        src[at.pos as int] == 13,
    ensures
        at.pos + 1 < src.len() && src[at.pos + 1] == 10 ==> is_token(
            src,
            at,
            TokenId::NEWLINE,
            at.pos + 2,
        ),
        !(at.pos + 1 < src.len() && src[at.pos + 1] == 10) ==> is_token(
            src,
            at,
            TokenId::NEWLINE,
            at.pos + 1,
        ),
{
    reveal(scan);
}

/// Whitespaces, line ends and comments are trivia, and no other token is.
pub proof fn law_trivia(id: TokenId)
    ensures
        is_trivia_id(id) <==> id == TokenId::WHITESPACE || id == TokenId::NEWLINE || id
            == TokenId::COMMENT,
{
}

/// The next token is of a certain type, and ends at an offset. The one after it is
/// read in the given mode.
pub open spec fn is_token_before(
    src: Seq<u8>,
    at: Cursor,
    id: TokenId,
    end: int,
    mode: Mode,
) -> bool {
    lex(src, at) matches Some((token, next)) && {
        &&& token.id == id
        &&& token.span.start == at.pos
        &&& token.span.end == end
        &&& next.pos == end
        &&& next.mode == mode
    }
}

/// Half a byte of a hex pattern, which may be left open.
pub open spec fn is_half(byte: u8) -> bool {
    is_hex_figure(byte) || byte == 63
}

/// In a hex pattern two halves, with a tilde in front of them or not, are a byte. The
/// signs that structure the pattern are tokens, and the brace that closes it leads
/// back to normal mode.
pub proof fn law_hex_tokens(src: Seq<u8>, at: Cursor)
    requires
        in_source(src, at),
        at.pos < src.len(),
        at.mode == Mode::HexPattern,
    ensures
        ({
            let byte = src[at.pos as int];
            let from: int = at.pos as int;
            let mode = Mode::HexPattern;
            &&& from + 1 < src.len() && is_half(byte) && is_half(src[from + 1])
                ==> is_token_before(src, at, TokenId::HEX_BYTE, from + 2, mode)
            &&& from + 2 < src.len() && byte == 126 && is_half(src[from + 1]) && is_half(
                src[from + 2],
            ) ==> is_token_before(src, at, TokenId::HEX_BYTE, from + 3, mode)
            &&& byte == 40 ==> is_token_before(src, at, TokenId::L_PAREN, from + 1, mode)
            &&& byte == 41 ==> is_token_before(src, at, TokenId::R_PAREN, from + 1, mode)
            &&& byte == 91 ==> is_token_before(src, at, TokenId::L_BRACKET, from + 1, mode)
            &&& byte == 93 ==> is_token_before(src, at, TokenId::R_BRACKET, from + 1, mode)
            &&& byte == 124 ==> is_token_before(src, at, TokenId::PIPE, from + 1, mode)
            &&& byte == 125 ==> is_token_before(
                src,
                at,
                TokenId::R_BRACE,
                from + 1,
                Mode::Normal,
            )
        }),
{
    reveal(scan);
}

/// In a jump digits are an integer and a hyphen is a token. The bracket that closes it
/// leads back to the hex pattern.
pub proof fn law_jump_tokens(src: Seq<u8>, at: Cursor, end: int)
    requires
        in_source(src, at),
        at.pos < end <= src.len(),
        at.mode == Mode::HexJump,
    ensures
        ({
            &&& forall|i: int| at.pos <= i < end ==> is_figure(#[trigger] src[i])
            &&& end < src.len() ==> !is_figure(src[end])
        }) ==> is_token_before(src, at, TokenId::INTEGER_LIT, end, Mode::HexJump),
        src[at.pos as int] == 45 ==> is_token_before(
            src,
            at,
            TokenId::HYPHEN,
            at.pos + 1,
            Mode::HexJump,
        ),
        src[at.pos as int] == 93 ==> is_token_before(
            src,
            at,
            TokenId::R_BRACKET,
            at.pos + 1,
            Mode::HexPattern,
        ),
{
    reveal(scan);
    let from: int = at.pos as int;
    if (forall|i: int| from <= i < end ==> is_figure(#[trigger] src[i])) && (end < src.len()
        ==> !is_figure(src[end])) {
        assert(is_figure(src[from]));
        assert forall|i: int| from <= i < end implies #[trigger] class_at(
            src,
            i,
            Class::Digit,
        ) by {
            assert(is_figure(src[i]));
        }
        lemma_run(src, from, end, Class::Digit);
    }
}

} // verus!
