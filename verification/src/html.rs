//! Text made safe for display in a page.

use vstd::prelude::*;

verus! {

/// What stands for one character in escaped text: an entity for each of
/// the characters that mean something to an HTML parser, and the character
/// itself for any other.
pub open spec fn entity(c: char) -> Seq<char> {
    if c == '<' {
        "&lt;"@
    } else if c == '>' {
        "&gt;"@
    } else if c == '"' {
        "&quot;"@
    } else if c == '\'' {
        "&apos;"@
    } else if c == '`' {
        "&grave;"@
    } else if c == '/' {
        "&#47;"@
    } else if c == '&' {
        "&amp;"@
    } else if c == '=' {
        "&#61;"@
    } else if c == ' ' {
        "&#32;"@
    } else if c == '\t' {
        "&#9;"@
    } else if c == '\n' {
        "&#10;"@
    } else if c == '\u{c}' {
        "&#12;"@
    } else if c == '\r' {
        "&#13;"@
    } else if c == '\0' {
        "&#65533;"@
    } else {
        seq![c]
    }
}

/// `text` with every character replaced by what stands for it in escaped
/// text.
pub open spec fn escaped(text: Seq<char>) -> Seq<char>
    decreases text.len(),
{
    if text.len() == 0 {
        Seq::empty()
    } else {
        escaped(text.drop_last()) + entity(text.last())
    }
}

/// `ammonia::clean_text`: the text, character by character, with an entity
/// in place of each of the fourteen characters that the crate escapes.
#[verifier::external_body]
pub(crate) fn clean_text(text: &str) -> (r: String)
    ensures
        r@ == escaped(text@),
{
    ammonia::clean_text(text)
}

} // verus!
