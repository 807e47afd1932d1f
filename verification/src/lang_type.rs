//! Validated language codes.

use vstd::prelude::*;

use crate::json::{jarr_or_empty, jget, jstr, member, opt_array, opt_get, opt_str, Json};
use crate::text::views;
use crate::wikidata_item::{no_duplicates, push_unique};

verus! {

/// A validated language code (e.g. `"en"`, `"de"`).
#[derive(Debug, Clone, PartialEq, Eq, Hash)]
pub struct Lang(String);

/// An invalid language code.
#[derive(Debug, Clone, PartialEq, Eq)]
pub struct LangError(pub String);

/// The default language used when none is specified.
pub const DEFAULT_LANG: &'static str = "en";

impl LangError {
    /// The message that explains the refusal.
    pub fn message(&self) -> (r: String)
        ensures
            r@ == "invalid language code: "@ + self.0@,
    {
        crate::text::concat2("invalid language code: ", self.0.as_str())
    }
}

impl View for Lang {
    type V = Seq<char>;

    closed spec fn view(&self) -> Seq<char> {
        self.0@
    }
}

/// What `Lang::parse_in` makes of `code` against the codes `valid`.
pub open spec fn parse_lang(code: Seq<char>, valid: Seq<Seq<char>>) -> Result<Seq<char>, Seq<char>> {
    if code == "any"@ || code.len() == 0 {
        Ok("en"@)
    } else if valid.contains(code) {
        Ok(code)
    } else {
        Err(code)
    }
}

impl Lang {
    /// The default language, English.
    pub fn default() -> (r: Lang)
        ensures
            r@ == "en"@,
    {
        Lang(crate::text::owned(DEFAULT_LANG))
    }

    /// Parse a language code against the built-in list of codes. `"any"` and
    /// the empty string give the default language.
    pub fn parse(code: &str) -> (r: Result<Lang, LangError>)
        ensures
            match r {
                Ok(l) => parse_lang(code@, fallback_lang_views()) == Ok::<Seq<char>, Seq<char>>(l@),
                Err(e) => parse_lang(code@, fallback_lang_views()) == Err::<Seq<char>, Seq<char>>(e.0@),
            },
    {
        if crate::text::str_eq(code, "any") || code.unicode_len() == 0 {
            return Ok(Lang::default());
        }
        let codes = fallback_langs();
        if contains_code(&codes, code) {
            Ok(Lang(crate::text::owned(code)))
        } else {
            Err(LangError(crate::text::owned(code)))
        }
    }

    /// Parse a language code against a set of valid codes. `"any"` and the
    /// empty string give the default language.
    pub fn parse_in(code: &str, valid: &Vec<String>) -> (r: Result<Lang, LangError>)
        ensures
            match r {
                Ok(l) => parse_lang(code@, crate::text::views(valid@)) == Ok::<Seq<char>, Seq<char>>(l@),
                Err(e) => parse_lang(code@, crate::text::views(valid@)) == Err::<Seq<char>, Seq<char>>(e.0@),
            },
    {
        if crate::text::str_eq(code, "any") || code.unicode_len() == 0 {
            return Ok(Lang::default());
        }
        let ghost vs = crate::text::views(valid@);
        let mut i: usize = 0;
        while i < valid.len()
            invariant
                vs == crate::text::views(valid@),
                code@ != "any"@ && code@.len() != 0,
                i <= valid.len(),
                forall|k: int| 0 <= k < i ==> vs[k] != code@,
            decreases valid.len() - i,
        {
            if crate::text::str_eq(valid[i].as_str(), code) {
                assert(vs[i as int] == valid@[i as int]@);
                assert(vs[i as int] == code@);
                assert(vs.contains(code@));
                return Ok(Lang(crate::text::owned(code)));
            }
            i = i + 1;
        }
        Err(LangError(crate::text::owned(code)))
    }

    /// The language code (e.g. `"en"`).
    pub fn as_str(&self) -> (r: &str)
        ensures
            r@ == self@,
    {
        self.0.as_str()
    }

    /// The language code, as an owned string.
    pub fn to_string(&self) -> (r: String)
        ensures
            r@ == self@,
    {
        self.0.clone()
    }
}

/// The codes of the first `n` results of a language query answer: each
/// result's `code.value` text, each code once, in the order they first come.
pub open spec fn answer_codes(results: Seq<Json>, n: int) -> Seq<Seq<char>>
    decreases n,
{
    if n <= 0 || n > results.len() {
        Seq::empty()
    } else {
        let prev = answer_codes(results, n - 1);
        match jstr(jget(member(results[n - 1], "code"@), "value"@)) {
            Some(c) => if prev.contains(c) {
                prev
            } else {
                prev.push(c)
            },
            None => prev,
        }
    }
}

/// The result rows of a query answer: `results.bindings`.
pub open spec fn answer_rows(body: Json) -> Seq<Json> {
    jarr_or_empty(jget(member(body, "results"@), "bindings"@))
}

/// The distinct language codes a query answer lists, in order.
pub fn codes_from_answer(body: &Json) -> (r: Vec<String>)
    ensures
        views(r@) == answer_codes(answer_rows(*body), answer_rows(*body).len() as int),
        no_duplicates(views(r@)),
{
    let mut r: Vec<String> = Vec::new();
    assert(views(r@) =~= Seq::<Seq<char>>::empty());
    let rows = match opt_array(opt_get(opt_get(Some(body), "results"), "bindings")) {
        Some(a) => a,
        None => {
            return r;
        },
    };
    let ghost rs = rows@;
    assert(rs == answer_rows(*body));
    let mut i: usize = 0;
    while i < rows.len()
        invariant
            rs == rows@,
            i <= rs.len(),
            no_duplicates(views(r@)),
            views(r@) == answer_codes(rs, i as int),
        decreases rows.len() - i,
    {
        match opt_str(opt_get(opt_get(Some(&rows[i]), "code"), "value")) {
            Some(c) => {
                push_unique(&mut r, c);
            },
            None => {},
        }
        i = i + 1;
    }
    r
}

/// The codes to accept: those fetched from Wikidata when there are at least
/// 200 of them, else the built-in list.
pub fn choose_lang_codes(fetched: Option<Vec<String>>) -> (r: Vec<String>)
    ensures
        match fetched {
            Some(v) => v.len() >= 200 ==> r@ == v@,
            None => true,
        },
        (fetched is None || fetched.unwrap().len() < 200) ==> crate::text::views(r@)
            == fallback_lang_views(),
{
    match fetched {
        Some(v) => {
            if v.len() >= 200 {
                return v;
            }
        },
        None => {},
    }
    hardcoded_langs()
}

/// The built-in list of language codes, as owned strings.
pub fn hardcoded_langs() -> (r: Vec<String>)
    ensures
        crate::text::views(r@) == fallback_lang_views(),
{
    let codes = fallback_langs();
    let mut r: Vec<String> = Vec::new();
    let mut i: usize = 0;
    while i < codes.len()
        invariant
            codes@ == fallback_lang_codes(),
            i <= codes.len(),
            r@.len() == i,
            forall|k: int| 0 <= k < i ==> (#[trigger] r@[k])@ == codes@[k]@,
        decreases codes.len() - i,
    {
        r.push(crate::text::owned(codes[i]));
        i = i + 1;
    }
    assert(crate::text::views(r@) =~= fallback_lang_views());
    r
}

/// The built-in list of language codes served by Wikidata.
pub open spec fn fallback_lang_codes() -> Seq<&'static str> {
    seq![
        "aa", "ab", "ace", "ady", "af", "ak", "als", "am", "an", "ang", "ar", "arc", "ary", "arz",
        "as", "ast", "atj", "av", "avk", "awa", "ay", "az", "azb", "ba", "ban", "bar", "bcl",
        "be", "bg", "bh", "bho", "bi", "bjn", "bm", "bn", "bo", "bpy", "br", "bs", "bug", "bxr",
        "ca", "cbk", "cdo", "ce", "ceb", "ch", "cho", "chr", "chy", "ckb", "co", "cr", "crh",
        "cs", "csb", "cu", "cv", "cy", "da", "de", "din", "diq", "dsb", "dty", "dv", "dz", "ee",
        "el", "en", "eo", "es", "et", "eu", "ext", "fa", "ff", "fi", "fj", "fo", "fr", "frp",
        "frr", "fur", "fy", "ga", "gag", "gan", "gd", "gl", "glk", "gn", "gom", "gor", "got",
        "gu", "gv", "ha", "hak", "haw", "he", "hi", "hif", "ho", "hr", "hsb", "ht", "hu", "hy",
        "hyw", "hz", "ia", "id", "ie", "ig", "ii", "ik", "ilo", "inh", "io", "is", "it", "iu",
        "ja", "jam", "jbo", "jv", "ka", "kaa", "kab", "kbd", "kbp", "kg", "ki", "kj", "kk", "kl",
        "km", "kn", "ko", "koi", "kr", "krc", "ks", "ksh", "ku", "kv", "kw", "ky", "la", "lad",
        "lb", "lbe", "lez", "lfn", "lg", "li", "lij", "lld", "lmo", "ln", "lo", "lrc", "lt",
        "ltg", "lv", "mad", "mai", "mdf", "mg", "mh", "mhr", "mi", "min", "mk", "ml", "mn", "mni",
        "mnw", "mr", "mrj", "ms", "mt", "mus", "mwl", "my", "myv", "mzn", "na", "nah", "nan",
        "nap", "nb", "nds", "ne", "new", "ng", "nia", "nl", "nn", "no", "nov", "nqo", "nrm",
        "nso", "nv", "ny", "oc", "olo", "om", "or", "os", "pa", "pag", "pam", "pap", "pcd", "pdc",
        "pfl", "pi", "pih", "pl", "pms", "pnb", "pnt", "ps", "pt", "qu", "rm", "rmy", "rn", "ro",
        "ru", "rue", "rw", "sa", "sah", "sat", "sc", "scn", "sco", "sd", "se", "sg", "sh", "shn",
        "si", "sk", "skr", "sl", "sm", "smn", "sn", "so", "sq", "sr", "srn", "ss", "st", "stq",
        "su", "sv", "sw", "szl", "ta", "tcy", "te", "tet", "tg", "th", "ti", "tk", "tl", "tn",
        "to", "tpi", "tr", "ts", "tt", "tum", "tw", "ty", "tyv", "udm", "ug", "uk", "ur", "uz",
        "ve", "vec", "vep", "vi", "vls", "vo", "vro", "wa", "war", "wo", "wuu", "xal", "xh",
        "xmf", "yi", "yo", "yue", "za", "zea", "zh", "zu",
    ]
}

/// The built-in codes, by their characters.
pub open spec fn fallback_lang_views() -> Seq<Seq<char>> {
    fallback_lang_codes().map_values(|c: &str| c@)
}

/// The built-in list of language codes.
pub fn fallback_langs() -> (r: Vec<&'static str>)
    ensures
        r@ == fallback_lang_codes(),
{
    let r = vec![
        "aa", "ab", "ace", "ady", "af", "ak", "als", "am", "an", "ang", "ar", "arc", "ary", "arz",
        "as", "ast", "atj", "av", "avk", "awa", "ay", "az", "azb", "ba", "ban", "bar", "bcl",
        "be", "bg", "bh", "bho", "bi", "bjn", "bm", "bn", "bo", "bpy", "br", "bs", "bug", "bxr",
        "ca", "cbk", "cdo", "ce", "ceb", "ch", "cho", "chr", "chy", "ckb", "co", "cr", "crh",
        "cs", "csb", "cu", "cv", "cy", "da", "de", "din", "diq", "dsb", "dty", "dv", "dz", "ee",
        "el", "en", "eo", "es", "et", "eu", "ext", "fa", "ff", "fi", "fj", "fo", "fr", "frp",
        "frr", "fur", "fy", "ga", "gag", "gan", "gd", "gl", "glk", "gn", "gom", "gor", "got",
        "gu", "gv", "ha", "hak", "haw", "he", "hi", "hif", "ho", "hr", "hsb", "ht", "hu", "hy",
        "hyw", "hz", "ia", "id", "ie", "ig", "ii", "ik", "ilo", "inh", "io", "is", "it", "iu",
        "ja", "jam", "jbo", "jv", "ka", "kaa", "kab", "kbd", "kbp", "kg", "ki", "kj", "kk", "kl",
        "km", "kn", "ko", "koi", "kr", "krc", "ks", "ksh", "ku", "kv", "kw", "ky", "la", "lad",
        "lb", "lbe", "lez", "lfn", "lg", "li", "lij", "lld", "lmo", "ln", "lo", "lrc", "lt",
        "ltg", "lv", "mad", "mai", "mdf", "mg", "mh", "mhr", "mi", "min", "mk", "ml", "mn", "mni",
        "mnw", "mr", "mrj", "ms", "mt", "mus", "mwl", "my", "myv", "mzn", "na", "nah", "nan",
        "nap", "nb", "nds", "ne", "new", "ng", "nia", "nl", "nn", "no", "nov", "nqo", "nrm",
        "nso", "nv", "ny", "oc", "olo", "om", "or", "os", "pa", "pag", "pam", "pap", "pcd", "pdc",
        "pfl", "pi", "pih", "pl", "pms", "pnb", "pnt", "ps", "pt", "qu", "rm", "rmy", "rn", "ro",
        "ru", "rue", "rw", "sa", "sah", "sat", "sc", "scn", "sco", "sd", "se", "sg", "sh", "shn",
        "si", "sk", "skr", "sl", "sm", "smn", "sn", "so", "sq", "sr", "srn", "ss", "st", "stq",
        "su", "sv", "sw", "szl", "ta", "tcy", "te", "tet", "tg", "th", "ti", "tk", "tl", "tn",
        "to", "tpi", "tr", "ts", "tt", "tum", "tw", "ty", "tyv", "udm", "ug", "uk", "ur", "uz",
        "ve", "vec", "vep", "vi", "vls", "vo", "vro", "wa", "war", "wo", "wuu", "xal", "xh",
        "xmf", "yi", "yo", "yue", "za", "zea", "zh", "zu",
    ];
    assert(r@ =~= fallback_lang_codes());
    r
}

/// Whether `code` is one of `codes`.
pub fn contains_code(codes: &Vec<&str>, code: &str) -> (r: bool)
    ensures
        r == codes@.map_values(|c: &str| c@).contains(code@),
{
    let ghost vs = codes@.map_values(|c: &str| c@);
    let mut i: usize = 0;
    while i < codes.len()
        invariant
            vs == codes@.map_values(|c: &str| c@),
            i <= codes.len(),
            forall|k: int| 0 <= k < i ==> vs[k] != code@,
        decreases codes.len() - i,
    {
        if crate::text::str_eq(codes[i], code) {
            assert(vs[i as int] == code@);
            return true;
        }
        i = i + 1;
    }
    assert(!vs.contains(code@));
    false
}

} // verus!
