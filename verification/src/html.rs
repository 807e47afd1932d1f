//! Escaping of text that goes into HTML pages.
use vstd::prelude::*;

verus! {

/// What stands for `c` in HTML text: `&`, `<` and `>` become entities, every
/// other character stays as it is.
pub open spec fn text_entity(c: char) -> Seq<char> {
    if c == '&' {
        "&amp;"@
    } else if c == '<' {
        "&lt;"@
    } else if c == '>' {
        "&gt;"@
    } else {
        seq![c]
    }
}

/// `s` escaped for HTML text, character by character.
pub open spec fn escaped_text(s: Seq<char>) -> Seq<char>
    decreases s.len(),
{
    if s.len() == 0 {
        Seq::empty()
    } else {
        escaped_text(s.drop_last()) + text_entity(s.last())
    }
}

/// What stands for `c` in a quoted HTML attribute: as in text, and the two
/// quote characters become entities too.
pub open spec fn attribute_entity(c: char) -> Seq<char> {
    if c == '"' {
        "&quot;"@
    } else if c == '\'' {
        "&#x27;"@
    } else {
        text_entity(c)
    }
}

/// `s` escaped for a quoted HTML attribute, character by character.
pub open spec fn escaped_attribute(s: Seq<char>) -> Seq<char>
    decreases s.len(),
{
    if s.len() == 0 {
        Seq::empty()
    } else {
        escaped_attribute(s.drop_last()) + attribute_entity(s.last())
    }
}

/// `html_escape::encode_text`: writes `&amp;`, `&lt;` and `&gt;` for `&`,
/// `<` and `>`, and copies every other character.
#[verifier::external_body]
pub(crate) fn encode_text(s: &str) -> (r: String)
    ensures
        r@ == escaped_text(s@),
{
    html_escape::encode_text(s).into_owned()
}

/// `html_escape::encode_quoted_attribute`: as `encode_text`, and writes
/// `&quot;` and `&#x27;` for the double and the single quote.
#[verifier::external_body]
pub(crate) fn encode_quoted_attribute(s: &str) -> (r: String)
    ensures
        r@ == escaped_attribute(s@),
{
    html_escape::encode_quoted_attribute(s).into_owned()
}

} // verus!
