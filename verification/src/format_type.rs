//! Output formats of the API answer.

use vstd::prelude::*;

verus! {

/// Output format for the API response.
#[derive(Debug, Clone, Copy, PartialEq, Eq, Structural)]
pub enum Format {
    /// Plain JSON (`application/json`).
    Json,
    /// Pretty-printed JSON in an HTML wrapper (debugging view).
    JsonFm,
    /// Full HTML page with label, description, and optional thumbnail.
    Html,
}

/// A format name that is not one of `json`, `jsonfm`, `html`.
#[derive(Debug, Clone, PartialEq, Eq)]
pub struct FormatError(pub String);

impl FormatError {
    /// The message that explains the refusal.
    pub fn message(&self) -> (r: String)
        ensures
            r@ == "invalid format: "@ + self.0@ + ". Allowed: json, jsonfm, html"@,
    {
        let mut r = crate::text::owned("invalid format: ");
        r.append(self.0.as_str());
        r.append(". Allowed: json, jsonfm, html");
        r
    }
}

/// The lowercase name of a format.
pub open spec fn format_name(f: Format) -> Seq<char> {
    match f {
        Format::Json => "json"@,
        Format::JsonFm => "jsonfm"@,
        Format::Html => "html"@,
    }
}

/// The format a name stands for, if any.
pub open spec fn format_of(s: Seq<char>) -> Option<Format> {
    if s == "json"@ {
        Some(Format::Json)
    } else if s == "jsonfm"@ {
        Some(Format::JsonFm)
    } else if s == "html"@ {
        Some(Format::Html)
    } else {
        None
    }
}

impl Format {
    /// Parse from a query-parameter string.
    pub fn parse(s: &str) -> (r: Result<Format, FormatError>)
        ensures
            match r {
                Ok(f) => format_of(s@) == Some(f),
                Err(e) => format_of(s@) is None && e.0@ == s@,
            },
    {
        if crate::text::str_eq(s, "json") {
            Ok(Format::Json)
        } else if crate::text::str_eq(s, "jsonfm") {
            Ok(Format::JsonFm)
        } else if crate::text::str_eq(s, "html") {
            Ok(Format::Html)
        } else {
            Err(FormatError(crate::text::owned(s)))
        }
    }

    /// Lowercase string representation.
    pub fn as_str(&self) -> (r: &'static str)
        ensures
            r@ == format_name(*self),
    {
        match self {
            Format::Json => "json",
            Format::JsonFm => "jsonfm",
            Format::Html => "html",
        }
    }
}

/// The name of every format parses back to that format, and only the three
/// names parse.
pub proof fn lemma_format_roundtrip(f: Format, s: Seq<char>)
    ensures
        format_of(format_name(f)) == Some(f),
        format_of(s) matches Some(g) ==> format_name(g) == s,
{
    reveal_strlit("json");
    reveal_strlit("jsonfm");
    reveal_strlit("html");
    assert("json"@.len() != "jsonfm"@.len());
    assert("html"@.len() != "jsonfm"@.len());
    assert("html"@[0] != "json"@[0]);
}

} // verus!
