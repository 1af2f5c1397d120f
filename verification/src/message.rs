//! The error messages.

use vstd::prelude::*;
use vstd::utf8::{decode_utf8, valid_utf8};
use vstd::slice::*;
use vstd::string::*;

verus! {

/// The texts, one after another, with a separator between them.
pub open spec fn joined(texts: Seq<Seq<char>>, sep: Seq<char>) -> Seq<char>
    decreases texts.len(),
{
    if texts.len() == 0 {
        Seq::empty()
    } else if texts.len() == 1 {
        texts[0]
    } else {
        joined(texts.drop_last(), sep) + sep + texts.last()
    }
}

/// What a sequence of strings says.
pub open spec fn texts_of(strings: Seq<&'static str>) -> Seq<Seq<char>> {
    strings.map_values(|string: &'static str| string@)
}

/// The text that some bytes stand for, as `String::from_utf8_lossy` reads them.
pub uninterp spec fn lossy_text(bytes: Seq<u8>) -> Seq<char>;

/// What is said when none of the tokens that fit was found.
pub open spec fn expecting(texts: Seq<Seq<char>>, found: Seq<char>) -> Seq<char> {
    "expecting "@ + (if texts.len() == 1 {
        texts[0]
    } else {
        joined(texts.drop_last(), ", "@) + " or "@ + texts.last()
    }) + ", found `"@ + found + "`"@
}

/// What is said when a token that does not fit was found.
pub open spec fn unexpected(found: Seq<char>) -> Seq<char> {
    "unexpected `"@ + found + "`"@
}

/// What is said when neither an import nor a rule was found.
pub open spec fn expecting_item(found: Seq<char>) -> Seq<char> {
    "expecting import statement or rule definition, found "@ + found
}

/// `itertools::join`: the texts, one after another, with the separator between
/// them.
#[verifier::external_body]
fn join(texts: &[&'static str], sep: &str) -> (text: String)
    ensures
        text@ == joined(texts_of(texts@), sep@),
{
    itertools::join(texts.iter(), sep)
}

/// `String::from_utf8_lossy`: a text that depends on nothing but the bytes. If
/// they are valid UTF-8, it is the text that they encode. What stands in the
/// place of bytes that are not is left unsaid.
#[verifier::external_body]
pub(crate) fn from_utf8_lossy(bytes: &[u8]) -> (text: String)
    ensures
        text@ == lossy_text(bytes@),
        valid_utf8(bytes@) ==> text@ == decode_utf8(bytes@),
{
    String::from_utf8_lossy(bytes).into_owned()
}

/// Returns the message for a place where some tokens were expected, each with
/// its description, and another text was found.
pub fn expecting_message(texts: &[&'static str], found: &str) -> (message: String)
    requires
        texts@.len() > 0,
    ensures
        message@ == expecting(texts_of(texts@), found@),
{
    let last = texts[texts.len() - 1];
    let mut message = String::new();
    message.append("expecting ");
    if texts.len() > 1 {
        let others = slice_subrange(texts, 0, texts.len() - 1);
        assert(texts_of(others@) =~= texts_of(texts@).drop_last());
        message.append(join(others, ", ").as_str());
        message.append(" or ");
    }
    message.append(last);
    message.append(", found `");
    message.append(found);
    message.append("`");
    assert(message@ =~= expecting(texts_of(texts@), found@));
    message
}

/// Returns the message for a place where the given text was not expected.
pub fn unexpected_message(found: &str) -> (message: String)
    ensures
        message@ == unexpected(found@),
{
    let mut message = String::new();
    message.append("unexpected `");
    message.append(found);
    message.append("`");
    assert(message@ =~= unexpected(found@));
    message
}

/// Returns the message for a place where neither an import nor a rule starts,
/// given the description of the token that is there.
pub fn expecting_item_message(found: &str) -> (message: String)
    ensures
        message@ == expecting_item(found@),
{
    let mut message = String::new();
    message.append("expecting import statement or rule definition, found ");
    message.append(found);
    assert(message@ =~= expecting_item(found@));
    message
}

} // verus!
