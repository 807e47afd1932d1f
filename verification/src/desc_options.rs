//! Options passed to the description generators.

use vstd::prelude::*;

verus! {

/// Options passed to the description generators.
#[derive(Debug, Clone)]
pub struct DescOptions {
    pub q: String,
    pub lang: String,
    pub links: String,
    pub linktarget: String,
    pub redlinks: String,
    pub fallback: String,
    pub mode: String,
}

impl Default for DescOptions {
    fn default() -> (r: DescOptions)
        ensures
            r.q@ == Seq::<char>::empty(),
            r.lang@ == "en"@,
            r.links@ == "wikidata"@,
            r.linktarget@ == Seq::<char>::empty(),
            r.redlinks@ == Seq::<char>::empty(),
            r.fallback@ == Seq::<char>::empty(),
            r.mode@ == "short"@,
    {
        DescOptions {
            q: String::new(),
            lang: crate::text::owned("en"),
            links: crate::text::owned("wikidata"),
            linktarget: String::new(),
            redlinks: String::new(),
            fallback: String::new(),
            mode: crate::text::owned("short"),
        }
    }
}

} // verus!
