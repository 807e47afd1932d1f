//! Short one-line descriptions of Wikidata items: stock texts, word
//! helpers, claim tests, labelling and the describers.

use vstd::prelude::*;
use crate::str_map::{StrMap, find};
use crate::text::owned;

pub mod claims;
pub mod describers;
pub mod labeler;
pub mod word_helpers;

use crate::short_desc::word_helpers::html_link_parts;

verus! {

/// The short description generator.
pub struct ShortDescription {
    /// Stock texts: key, then language, then text.
    pub stock: StrMap<StrMap<String>>,
    /// Language-specific replacements: language, then kind (such as
    /// `nationality`), then word, then replacement.
    pub language_specific: StrMap<StrMap<StrMap<String>>>,
}

/// The texts of a map of texts.
pub open spec fn text_views(m: Seq<(Seq<char>, String)>) -> Seq<(Seq<char>, Seq<char>)> {
    m.map_values(|e: (Seq<char>, String)| (e.0, e.1@))
}

/// The stock texts, by key and language.
pub open spec fn stock_views(stock: Seq<(Seq<char>, StrMap<String>)>) -> Seq<(Seq<char>, Seq<(Seq<char>, Seq<char>)>)> {
    stock.map_values(|e: (Seq<char>, StrMap<String>)| (e.0, text_views(e.1@)))
}

/// The stock texts the generator starts with.
pub open spec fn default_stock() -> Seq<(Seq<char>, Seq<(Seq<char>, Seq<char>)>)> {
    seq![
        ("BC"@, seq![("en"@, " BC"@)]),
        ("by"@, seq![("en"@, "by"@), ("de"@, "von"@)]),
        ("cannot_describe"@, seq![("en"@, "Cannot auto-describe"@)]),
        ("child of"@, seq![("en"@, "child of"@)]),
        ("disambig"@, seq![("en"@, "Wikimedia disambiguation page"@)]),
        ("for"@, seq![("en"@, "for"@)]),
        ("found_in"@, seq![("en"@, "found in"@)]),
        ("in"@, seq![("en"@, "in"@)]),
        ("location"@, seq![("en"@, "location"@)]),
        ("member of"@, seq![("en"@, "member of"@)]),
        ("named after"@, seq![("en"@, "named after"@)]),
        ("of"@, seq![("en"@, "of"@)]),
        ("part of"@, seq![("en"@, "part of"@)]),
        ("person"@, seq![("en"@, "person"@)]),
        ("produced by"@, seq![("en"@, "produced by"@), ("de"@, "produziert von"@)]),
        ("published in"@, seq![("en"@, "published in"@)]),
        ("spouse of"@, seq![("en"@, "spouse of"@)]),
        ("until"@, seq![("en"@, "until"@)]),
        ("about"@, seq![("en"@, "about"@)]),
        ("from"@, seq![("en"@, "from"@)]),
        ("in the field of"@, seq![("en"@, "in the field of"@)]),
        ("in the constellation"@, seq![("en"@, "in the constellation"@)]),
        ("notable work"@, seq![("en"@, "notable work"@)]),
    ]
}

/// What `txt` returns: the stock text of `key` in `lang`, else in English,
/// else the key in square brackets.
pub open spec fn stock_text(stock: Seq<(Seq<char>, StrMap<String>)>, key: Seq<char>, lang: Seq<char>) -> Seq<char> {
    match find(stock, key) {
        Some(m) => match find(m@, lang) {
            Some(v) => v@,
            None => match find(m@, "en"@) {
                Some(v) => v@,
                None => seq!['['] + key + seq![']'],
            },
        },
        None => seq!['['] + key + seq![']'],
    }
}

/// A stock text is looked up in the request's language first, then in
/// English; a key without either shows as `[key]`.
pub proof fn lemma_stock_text_fallback(stock: Seq<(Seq<char>, StrMap<String>)>, key: Seq<char>, lang: Seq<char>)
    ensures
        find(stock, key) matches Some(m) ==> (find(m@, lang) matches Some(v) ==> stock_text(stock, key, lang) == v@),
        find(stock, key) matches Some(m) ==> (find(m@, lang) is None ==> (find(m@, "en"@) matches Some(v)
            ==> stock_text(stock, key, lang) == v@)),
        find(stock, key) matches Some(m) ==> (find(m@, lang) is None ==> (find(m@, "en"@) is None ==> stock_text(
            stock,
            key,
            lang,
        ) == seq!['['] + key + seq![']'])),
        find(stock, key) is None ==> stock_text(stock, key, lang) == seq!['['] + key + seq![']'],
{
}

/// What `txt2` returns: the language-specific replacement of `text` for
/// `key` in `lang`; for a link, of the link text, inside the link.
pub open spec fn replaced_text(
    specific: Seq<(Seq<char>, StrMap<StrMap<String>>)>,
    text: Seq<char>,
    key: Seq<char>,
    lang: Seq<char>,
) -> Seq<char> {
    match find(specific, lang) {
        Some(lm) => match find(lm@, key) {
            Some(km) => match html_link_parts(text) {
                Some((open_tag, inner, close_tag)) => match find(km@, inner) {
                    Some(rep) => open_tag + rep@ + close_tag,
                    None => text,
                },
                None => match find(km@, text) {
                    Some(rep) => rep@,
                    None => text,
                },
            },
            None => text,
        },
        None => text,
    }
}

fn entry1(key: &str, l1: &str, v1: &str) -> (r: (String, StrMap<String>))
    ensures
        r.0@ == key@,
        text_views(r.1@) == seq![(l1@, v1@)],
{
    let m = StrMap::from_entries(vec![(owned(l1), owned(v1))]);
    assert(text_views(m@) =~= seq![(l1@, v1@)]);
    (owned(key), m)
}

fn entry2(key: &str, l1: &str, v1: &str, l2: &str, v2: &str) -> (r: (String, StrMap<String>))
    ensures
        r.0@ == key@,
        text_views(r.1@) == seq![(l1@, v1@), (l2@, v2@)],
{
    let m = StrMap::from_entries(vec![(owned(l1), owned(v1)), (owned(l2), owned(v2))]);
    assert(text_views(m@) =~= seq![(l1@, v1@), (l2@, v2@)]);
    (owned(key), m)
}

impl ShortDescription {
    /// A generator with the stock texts and no language-specific
    /// replacements.
    #[verifier::rlimit(40)]
    pub fn new() -> (r: ShortDescription)
        ensures
            stock_views(r.stock@) == default_stock(),
            r.language_specific@.len() == 0,
    {
        let v: Vec<(String, StrMap<String>)> = vec![
            entry1("BC", "en", " BC"),
            entry2("by", "en", "by", "de", "von"),
            entry1("cannot_describe", "en", "Cannot auto-describe"),
            entry1("child of", "en", "child of"),
            entry1("disambig", "en", "Wikimedia disambiguation page"),
            entry1("for", "en", "for"),
            entry1("found_in", "en", "found in"),
            entry1("in", "en", "in"),
            entry1("location", "en", "location"),
            entry1("member of", "en", "member of"),
            entry1("named after", "en", "named after"),
            entry1("of", "en", "of"),
            entry1("part of", "en", "part of"),
            entry1("person", "en", "person"),
            entry2("produced by", "en", "produced by", "de", "produziert von"),
            entry1("published in", "en", "published in"),
            entry1("spouse of", "en", "spouse of"),
            entry1("until", "en", "until"),
            entry1("about", "en", "about"),
            entry1("from", "en", "from"),
            entry1("in the field of", "en", "in the field of"),
            entry1("in the constellation", "en", "in the constellation"),
            entry1("notable work", "en", "notable work"),
        ];
        let stock = StrMap::from_entries(v);
        assert(stock_views(stock@) =~= default_stock());
        ShortDescription { stock, language_specific: StrMap::new() }
    }

    /// The stock text of `key` in `lang`, falling back to English, else the
    /// key in square brackets.
    pub fn txt(&self, key: &str, lang: &str) -> (r: String)
        ensures
            r@ == stock_text(self.stock@, key@, lang@),
    {
        match self.stock.get(key) {
            Some(m) => match m.get(lang) {
                Some(v) => v.clone(),
                None => match m.get("en") {
                    Some(v) => v.clone(),
                    None => bracketed(key),
                },
            },
            None => bracketed(key),
        }
    }

    /// Apply a language-specific replacement of kind `key` (such as the
    /// nationality of a country) to `text`, or to the text of a link.
    pub fn txt2(&self, text: &str, key: &str, lang: &str) -> (r: String)
        ensures
            r@ == replaced_text(self.language_specific@, text@, key@, lang@),
    {
        match self.language_specific.get(lang) {
            Some(lm) => match lm.get(key) {
                Some(km) => match word_helpers::html_link_split(text) {
                    Some((open_tag, inner, close_tag)) => match km.get(inner.as_str()) {
                        Some(rep) => {
                            let mut out = open_tag;
                            out.append(rep.as_str());
                            out.append(close_tag.as_str());
                            out
                        },
                        None => owned(text),
                    },
                    None => match km.get(text) {
                        Some(rep) => rep.clone(),
                        None => owned(text),
                    },
                },
                None => owned(text),
            },
            None => owned(text),
        }
    }
}

fn bracketed(key: &str) -> (r: String)
    ensures
        r@ == seq!['['] + key@ + seq![']'],
{
    let mut r = String::new();
    crate::text::push_char(&mut r, '[');
    r.append(key);
    crate::text::push_char(&mut r, ']');
    r
}

impl Default for ShortDescription {
    /// The same generator as `new`.
    fn default() -> (r: ShortDescription)
        ensures
            stock_views(r.stock@) == default_stock(),
            r.language_specific@.len() == 0,
    {
        ShortDescription::new()
    }
}

} // verus!
