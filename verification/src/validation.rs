//! Input validation for all API query parameters.

use vstd::prelude::*;
use crate::lang_type::{fallback_lang_views, fallback_langs, contains_code};
use crate::text::{trim, utf8_len};

verus! {

/// Maximum length in bytes of an individual query parameter value.
pub const MAX_PARAM_LEN: usize = 512;

/// The pattern a Q-id must match after trimming.
pub open spec fn qid_pattern() -> Seq<char> {
    "^(?i)Q?\\d+$"@
}

/// The pattern a JSONP callback name must match: a JavaScript identifier,
/// possibly dotted (`foo.bar`) or indexed (`foo[0]`).
pub open spec fn callback_pattern() -> Seq<char> {
    "^[a-zA-Z_$][a-zA-Z0-9_$]*(?:\\.[a-zA-Z_$][a-zA-Z0-9_$]*|\\[\\d+\\])*$"@
}

/// What the `regex` crate answers when `pattern` is compiled and matched
/// against `text`: `None` when the pattern does not compile, else whether it
/// matches.
pub uninterp spec fn regex_match(pattern: Seq<char>, text: Seq<char>) -> Option<bool>;

/// `regex::Regex::new(pattern)` followed by `Regex::is_match(text)`: the
/// result is named by `regex_match` and depends on the pattern and the text
/// alone. Nothing more of the regex language is claimed.
#[verifier::external_body]
fn regex_is_match(pattern: &str, text: &str) -> (r: Option<bool>)
    ensures
        r == regex_match(pattern@, text@),
{
    match regex::Regex::new(pattern) {
        Ok(re) => Some(re.is_match(text)),
        Err(_) => None,
    }
}

/// A character of the regex class `\d`: an ASCII digit, or a character
/// beyond ASCII that the `regex` crate's Unicode `\d` takes (as it answers
/// for the one-character text).
pub open spec fn is_decimal_digit(c: char) -> bool {
    crate::text::is_ascii_digit(c) || ((c as u32) >= 128 && regex_match("^\\d$"@, seq![c]) == Some(true))
}

/// Whether `c` is in the class `\d`; the regex crate is asked only for
/// characters beyond ASCII.
pub(crate) fn is_decimal_digit_char(c: char) -> (r: bool)
    ensures
        r == is_decimal_digit(c),
{
    if c >= '0' && c <= '9' {
        return true;
    }
    if (c as u32) < 128 {
        return false;
    }
    let mut s = String::new();
    crate::text::push_char(&mut s, c);
    assert(s@ =~= seq![c]);
    match regex_is_match("^\\d$", s.as_str()) {
        Some(b) => b,
        None => false,
    }
}

/// Validates that a language code is in the allowed set; `"any"` and the
/// empty string are accepted too (they stand for the default language).
pub fn validate_lang(lang: &str) -> (r: bool)
    ensures
        r == (lang@ == "any"@ || lang@.len() == 0 || fallback_lang_views().contains(lang@)),
{
    if crate::text::str_eq(lang, "any") || lang.unicode_len() == 0 {
        return true;
    }
    let codes = fallback_langs();
    contains_code(&codes, lang)
}

/// Validates that a mode parameter is allowed.
pub fn validate_mode(mode: &str) -> (r: bool)
    ensures
        r == (mode@ == "short"@ || mode@ == "long"@),
{
    crate::text::str_eq(mode, "short") || crate::text::str_eq(mode, "long")
}

/// The allowed link modes.
pub open spec fn is_link_mode(s: Seq<char>) -> bool {
    s == "text"@ || s == "wikidata"@ || s == "wiki"@ || s == "wikipedia"@ || s == "reasonator"@
}

/// Validates that a links parameter is allowed.
pub fn validate_links(links: &str) -> (r: bool)
    ensures
        r == is_link_mode(links@),
{
    crate::text::str_eq(links, "text") || crate::text::str_eq(links, "wikidata")
        || crate::text::str_eq(links, "wiki") || crate::text::str_eq(links, "wikipedia")
        || crate::text::str_eq(links, "reasonator")
}

/// Validates that a format parameter is allowed.
pub fn validate_format(format: &str) -> (r: bool)
    ensures
        r == (format@ == "json"@ || format@ == "jsonfm"@ || format@ == "html"@),
{
    crate::text::str_eq(format, "json") || crate::text::str_eq(format, "jsonfm")
        || crate::text::str_eq(format, "html")
}

/// Validates that a Q-id looks reasonable: "Q" followed by digits, or just
/// digits, at most 20 bytes once trimmed.
pub fn validate_qid(q: &str) -> (r: bool)
    ensures
        r == (q@.len() > 0 && utf8_len(trim(q@)) <= 20 && regex_match(qid_pattern(), trim(q@))
            == Some(true)),
{
    if q.unicode_len() == 0 {
        return false;
    }
    let trimmed = crate::text::trim_str(q);
    if !crate::text::utf8_len_at_most(trimmed, 20) {
        return false;
    }
    match regex_is_match("^(?i)Q?\\d+$", trimmed) {
        Some(b) => b,
        None => false,
    }
}

/// Validates that a JSONP callback name is a safe JavaScript identifier, of
/// at most 256 bytes.
pub fn validate_jsonp_callback(callback: &str) -> (r: bool)
    ensures
        r == (callback@.len() > 0 && utf8_len(callback@) <= 256 && regex_match(
            callback_pattern(),
            callback@,
        ) == Some(true)),
{
    if callback.unicode_len() == 0 {
        return false;
    }
    if !crate::text::utf8_len_at_most(callback, 256) {
        return false;
    }
    match regex_is_match(
        "^[a-zA-Z_$][a-zA-Z0-9_$]*(?:\\.[a-zA-Z_$][a-zA-Z0-9_$]*|\\[\\d+\\])*$",
        callback,
    ) {
        Some(b) => b,
        None => false,
    }
}

/// Validates that a parameter value doesn't exceed the maximum length.
pub fn validate_param_length(value: &str) -> (r: bool)
    ensures
        r == (utf8_len(value@) <= 512),
{
    crate::text::utf8_len_at_most(value, MAX_PARAM_LEN)
}

} // verus!
