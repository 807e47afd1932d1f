//! One Wikidata entity and the helpers that read data out of it.

use vstd::prelude::*;
use crate::json::{Json, jarr_or_empty, jget, ji64, jobj, jstr, ju64, member, opt_array, opt_get, opt_object, opt_str, opt_u64};
use crate::str_map::{StrMap, find};
use crate::text::{str_eq, u64_to_decimal, views, all_ascii_digits, decimal, is_all_ascii_digits, is_white_space, is_whitespace, owned, push_char, to_upper, trim, trim_str, uppercase};

verus! {

/// Languages tried in order when no specific language is requested.
pub open spec fn main_language_codes() -> Seq<&'static str> {
    seq!["en", "de", "fr", "nl", "es", "it", "pl", "pt", "ja", "ru", "hu", "sv", "fi"]
}

/// The main languages, as character sequences.
pub open spec fn main_language_views() -> Seq<Seq<char>> {
    main_language_codes().map_values(|s: &str| s@)
}

/// Languages tried in order when no specific language is requested.
pub fn main_languages() -> (r: Vec<&'static str>)
    ensures
        r@ == main_language_codes(),
{
    let r = vec!["en", "de", "fr", "nl", "es", "it", "pl", "pt", "ja", "ru", "hu", "sv", "fi"];
    assert(r@ =~= main_language_codes());
    r
}

/// `s` without its white-space characters.
pub open spec fn remove_white_space(s: Seq<char>) -> Seq<char>
    decreases s.len(),
{
    if s.len() == 0 {
        s
    } else if is_white_space(s.last()) {
        remove_white_space(s.drop_last())
    } else {
        remove_white_space(s.drop_last()).push(s.last())
    }
}

/// The normalized form of an entity id: white space removed, upper case.
pub open spec fn unified(name: Seq<char>) -> Seq<char> {
    to_upper(remove_white_space(name))
}

/// Normalize an entity ID to uppercase with proper prefix (removes whitespace).
pub fn unified_id(name: &str) -> (r: String)
    ensures
        r@ == unified(name@),
{
    let n = name.unicode_len();
    let mut kept = String::new();
    let mut i: usize = 0;
    while i < n
        invariant
            n == name@.len(),
            i <= n,
            kept@ == remove_white_space(name@.take(i as int)),
        decreases n - i,
    {
        let c = name.get_char(i);
        assert(name@.take(i + 1).drop_last() =~= name@.take(i as int));
        if !is_whitespace(c) {
            push_char(&mut kept, c);
        }
        i = i + 1;
    }
    assert(name@.take(n as int) =~= name@);
    uppercase(kept.as_str())
}

/// What `sanitize_q` makes of `q`: trimmed, upper case, with `Q` put before
/// a bare number.
pub open spec fn sanitized(q: Seq<char>) -> Seq<char> {
    let u = to_upper(trim(q));
    if all_ascii_digits(u) {
        seq!['Q'] + u
    } else {
        u
    }
}

/// Sanitize a Q-id: ensure it starts with "Q".
pub fn sanitize_q(q: &str) -> (r: String)
    ensures
        r@ == sanitized(q@),
{
    let u = uppercase(trim_str(q));
    if is_all_ascii_digits(u.as_str()) {
        let mut r = String::new();
        push_char(&mut r, 'Q');
        r.append(u.as_str());
        assert(r@ =~= seq!['Q'] + u@);
        r
    } else {
        u
    }
}

/// The id of an entity (`""` when it has none).
pub open spec fn id_of(raw: Json) -> Seq<char> {
    match jstr(member(raw, "id"@)) {
        Some(s) => s,
        None => Seq::empty(),
    }
}

/// The label of an entity in one language.
pub open spec fn label_in(raw: Json, lang: Seq<char>) -> Option<Seq<char>> {
    jstr(jget(jget(member(raw, "labels"@), lang), "value"@))
}

/// The label in the first of `langs` that has one.
pub open spec fn first_label_of(raw: Json, langs: Seq<Seq<char>>) -> Option<Seq<char>>
    decreases langs.len(),
{
    if langs.len() == 0 {
        None
    } else {
        match label_in(raw, langs[0]) {
            Some(l) => Some(l),
            None => first_label_of(raw, langs.drop_first()),
        }
    }
}

/// `first_label_of` gives the label in the earliest of the languages that
/// has one, and nothing exactly when none of them has one.
pub proof fn lemma_first_label_of(raw: Json, langs: Seq<Seq<char>>)
    ensures
        first_label_of(raw, langs) is None <==> forall|k: int|
            0 <= k < langs.len() ==> #[trigger] label_in(raw, langs[k]) is None,
        forall|k: int|
            0 <= k < langs.len() && #[trigger] label_in(raw, langs[k]) is Some && (forall|j: int|
                0 <= j < k ==> label_in(raw, langs[j]) is None) ==> first_label_of(raw, langs) == label_in(
                raw,
                langs[k],
            ),
    decreases langs.len(),
{
    if langs.len() > 0 {
        let rest = langs.drop_first();
        lemma_first_label_of(raw, rest);
        assert forall|k: int| 1 <= k < langs.len() implies langs[k] == rest[k - 1] by {}
        if first_label_of(raw, langs) is None {
            assert forall|k: int| 0 <= k < langs.len() implies #[trigger] label_in(raw, langs[k]) is None by {
                if k > 0 {
                    assert(label_in(raw, rest[k - 1]) is None);
                }
            }
        }
        assert forall|k: int|
            0 <= k < langs.len() && #[trigger] label_in(raw, langs[k]) is Some && (forall|j: int|
                0 <= j < k ==> label_in(raw, langs[j]) is None) implies first_label_of(raw, langs) == label_in(
            raw,
            langs[k],
        ) by {
            if k > 0 {
                assert(label_in(raw, langs[0]) is None);
                assert forall|j: int| 0 <= j < k - 1 implies label_in(raw, rest[j]) is None by {
                    assert(rest[j] == langs[j + 1]);
                }
                assert(label_in(raw, rest[k - 1]) is Some);
            }
        }
    }
}

/// The first label, in the order of the label members, that has a text.
pub open spec fn first_any_label(entries: Seq<(String, Json)>) -> Option<Seq<char>>
    decreases entries.len(),
{
    if entries.len() == 0 {
        None
    } else {
        match jstr(member(entries[0].1, "value"@)) {
            Some(l) => Some(l),
            None => first_any_label(entries.drop_first()),
        }
    }
}

/// What `get_label` returns: for a language, its label, else the `mul`
/// label, else the id; for no language, the label in the first main language
/// that has one, else the `mul` label, else the first label there is, else
/// the id.
pub open spec fn label_of(raw: Json, language: Option<Seq<char>>) -> Seq<char> {
    match language {
        Some(l) => match label_in(raw, l) {
            Some(x) => x,
            None => match label_in(raw, "mul"@) {
                Some(x) => x,
                None => id_of(raw),
            },
        },
        None => match first_label_of(raw, main_language_views()) {
            Some(x) => x,
            None => match label_in(raw, "mul"@) {
                Some(x) => x,
                None => match jobj(member(raw, "labels"@)) {
                    Some(e) => match first_any_label(e) {
                        Some(x) => x,
                        None => id_of(raw),
                    },
                    None => id_of(raw),
                },
            },
        },
    }
}

/// The description of an entity in one language, `""` when it has none.
pub open spec fn desc_in(raw: Json, lang: Seq<char>) -> Seq<char> {
    match jstr(jget(jget(member(raw, "descriptions"@), lang), "value"@)) {
        Some(d) => d,
        None => Seq::empty(),
    }
}

/// The first non-empty description among `langs`, `""` when there is none.
pub open spec fn first_desc_of(raw: Json, langs: Seq<Seq<char>>) -> Seq<char>
    decreases langs.len(),
{
    if langs.len() == 0 {
        Seq::empty()
    } else if desc_in(raw, langs[0]).len() > 0 {
        desc_in(raw, langs[0])
    } else {
        first_desc_of(raw, langs.drop_first())
    }
}

/// What `get_desc` returns.
pub open spec fn desc_of(raw: Json, language: Option<Seq<char>>) -> Seq<char> {
    match language {
        Some(l) => desc_in(raw, l),
        None => first_desc_of(raw, main_language_views()),
    }
}

/// The claims of an entity for a property, given by its normalized id.
pub open spec fn claims_at(raw: Json, p: Seq<char>) -> Seq<Json> {
    jarr_or_empty(jget(member(raw, "claims"@), p))
}

/// The claims of an entity for a property (the id is normalized first).
pub open spec fn claims_for(raw: Json, p: Seq<char>) -> Seq<Json> {
    claims_at(raw, unified(p))
}

/// The `mainsnak.datavalue` of a claim.
pub open spec fn datavalue_of(claim: Json) -> Option<Json> {
    jget(jget(Some(claim), "mainsnak"@), "datavalue"@)
}

/// The item a claim points to: the `id` of an item value, or `Q` and its
/// `numeric-id`; nothing for values of another entity type.
pub open spec fn target_item_id(claim: Json) -> Option<Seq<char>> {
    let nid = jget(datavalue_of(claim), "value"@);
    match jstr(jget(nid, "entity-type"@)) {
        Some(t) => if t != "item"@ {
            None
        } else {
            match jstr(jget(nid, "id"@)) {
                Some(id) => Some(id),
                None => match ju64(jget(nid, "numeric-id"@)) {
                    Some(n) => Some(seq!['Q'] + decimal(n as nat)),
                    None => None,
                },
            }
        },
        None => None,
    }
}

/// The value of a claim whose data value has type `dtype`.
pub open spec fn value_with_type(claim: Json, dtype: Seq<char>) -> Option<Json> {
    let dv = datavalue_of(claim);
    match jstr(jget(dv, "type"@)) {
        Some(t) => if t == dtype {
            jget(dv, "value"@)
        } else {
            None
        },
        None => None,
    }
}

/// The text of a claim with a string value.
pub open spec fn target_string(claim: Json) -> Option<Seq<char>> {
    jstr(value_with_type(claim, "string"@))
}

/// The items the claims point to, in order.
pub open spec fn item_ids(claims: Seq<Json>) -> Seq<Seq<char>>
    decreases claims.len(),
{
    if claims.len() == 0 {
        Seq::empty()
    } else {
        let r = item_ids(claims.drop_last());
        match target_item_id(claims.last()) {
            Some(id) => r.push(id),
            None => r,
        }
    }
}

/// The string values of the claims, in order.
pub open spec fn string_values(claims: Seq<Json>) -> Seq<Seq<char>>
    decreases claims.len(),
{
    if claims.len() == 0 {
        Seq::empty()
    } else {
        let r = string_values(claims.drop_last());
        match target_string(claims.last()) {
            Some(s) => r.push(s),
            None => r,
        }
    }
}

/// The text of the first monolingual-text claim in language `lang`.
pub open spec fn monolingual(claims: Seq<Json>, lang: Seq<char>) -> Option<Seq<char>>
    decreases claims.len(),
{
    if claims.len() == 0 {
        None
    } else {
        let v = jget(datavalue_of(claims[0]), "value"@);
        match (jstr(jget(v, "language"@)), jstr(jget(v, "text"@))) {
            (Some(cl), Some(t)) => if cl == lang {
                Some(t)
            } else {
                monolingual(claims.drop_first(), lang)
            },
            _ => monolingual(claims.drop_first(), lang),
        }
    }
}

/// The texts of the `value` members of alias entries.
pub open spec fn alias_values(entries: Seq<Json>) -> Seq<Seq<char>>
    decreases entries.len(),
{
    if entries.len() == 0 {
        Seq::empty()
    } else {
        let r = alias_values(entries.drop_last());
        match jstr(member(entries.last(), "value"@)) {
            Some(s) => r.push(s),
            None => r,
        }
    }
}

/// `s` without its leading `+` signs.
pub open spec fn strip_plus(s: Seq<char>) -> Seq<char>
    decreases s.len(),
{
    if s.len() > 0 && s[0] == '+' {
        strip_plus(s.drop_first())
    } else {
        s
    }
}

/// The amount of the first claim of a quantity property, without leading
/// `+` signs.
pub open spec fn quantity_amount(claims: Seq<Json>) -> Option<Seq<char>> {
    if claims.len() == 0 {
        None
    } else {
        match jstr(jget(jget(datavalue_of(claims[0]), "value"@), "amount"@)) {
            Some(a) => Some(strip_plus(a)),
            None => None,
        }
    }
}

/// The sitelink of an entity for a site.
pub open spec fn lookup_sitelink(raw: Json, site: Seq<char>) -> Option<Json> {
    jget(member(raw, "sitelinks"@), site)
}

/// No string stands twice.
pub open spec fn no_duplicates(s: Seq<Seq<char>>) -> bool {
    forall|i: int, j: int| 0 <= i < j < s.len() ==> s[i] != s[j]
}

/// What a sequence holds after a push.
pub proof fn lemma_contains_push(s: Seq<Seq<char>>, x: Seq<char>)
    ensures
        forall|t: Seq<char>| #[trigger] s.push(x).contains(t) <==> (s.contains(t) || t == x),
{
    assert forall|t: Seq<char>| #[trigger] s.push(x).contains(t) <==> (s.contains(t) || t == x) by {
        if s.push(x).contains(t) {
            let k = choose|k: int| 0 <= k < s.push(x).len() && s.push(x)[k] == t;
            if k < s.len() {
                assert(s[k] == t);
            }
        }
        if s.contains(t) {
            let k = choose|k: int| 0 <= k < s.len() && s[k] == t;
            assert(s.push(x)[k] == t);
        }
        if t == x {
            assert(s.push(x)[s.len() as int] == t);
        }
    }
}

/// Add `s` to `r` unless it is there already.
pub fn push_unique(r: &mut Vec<String>, s: &str)
    ensures
        no_duplicates(views(old(r)@)) ==> no_duplicates(views(final(r)@)),
        forall|t: Seq<char>| #[trigger] views(final(r)@).contains(t) <==> (views(old(r)@).contains(t) || t == s@),
        views(final(r)@) == if views(old(r)@).contains(s@) {
            views(old(r)@)
        } else {
            views(old(r)@).push(s@)
        },
{
    let ghost vs = views(r@);
    let mut i: usize = 0;
    while i < r.len()
        invariant
            vs == views(r@),
            r@ == old(r)@,
            i <= r.len(),
            forall|k: int| 0 <= k < i ==> vs[k] != s@,
        decreases r.len() - i,
    {
        if str_eq(r[i].as_str(), s) {
            assert(vs[i as int] == s@);
            assert(vs.contains(s@));
            return;
        }
        i = i + 1;
    }
    assert(!vs.contains(s@));
    r.push(owned(s));
    assert(views(r@) =~= vs.push(s@));
    assert forall|t: Seq<char>| #[trigger] views(r@).contains(t) <==> (vs.contains(t) || t == s@) by {
        if views(r@).contains(t) {
            let k = choose|k: int| 0 <= k < views(r@).len() && views(r@)[k] == t;
            if k < vs.len() {
                assert(vs[k] == t);
            }
        }
        if vs.contains(t) {
            let k = choose|k: int| 0 <= k < vs.len() && vs[k] == t;
            assert(views(r@)[k] == t);
        }
        if t == s@ {
            assert(views(r@)[vs.len() as int] == t);
        }
    }
}

/// `s` without its leading `+` signs.
pub fn strip_leading_plus(s: &str) -> (r: String)
    ensures
        r@ == strip_plus(s@),
{
    let n = s.unicode_len();
    let mut i: usize = 0;
    assert(s@.skip(0) =~= s@);
    while i < n && s.get_char(i) == '+'
        invariant
            n == s@.len(),
            i <= n,
            strip_plus(s@) == strip_plus(s@.skip(i as int)),
        decreases n - i,
    {
        assert(s@.skip(i as int).drop_first() =~= s@.skip(i + 1));
        i = i + 1;
    }
    assert(s@.skip(i as int) =~= s@.subrange(i as int, n as int));
    owned(s.substring_char(i, n))
}

/// Represents a single Wikidata entity with helper methods for extracting data.
#[derive(Debug)]
pub struct WikiDataItem {
    pub raw: Json,
    /// Set when the item stands for an entity that could not be loaded.
    pub placeholder: bool,
}

impl WikiDataItem {
    /// An item of the given entity data; `null` data make a placeholder.
    pub fn new(raw: Json) -> (r: WikiDataItem)
        ensures
            r.raw == raw,
            r.placeholder == (raw is Null),
    {
        let placeholder = raw.is_null();
        WikiDataItem { raw, placeholder }
    }

    /// A placeholder item without data.
    pub fn placeholder() -> (r: WikiDataItem)
        ensures
            r.raw is Null,
            r.placeholder,
    {
        WikiDataItem { raw: Json::Null, placeholder: true }
    }

    pub fn is_placeholder(&self) -> (r: bool)
        ensures
            r == self.placeholder,
    {
        self.placeholder
    }

    /// Whether the entity is in the item namespace (`ns` is 0).
    pub fn is_item(&self) -> (r: bool)
        ensures
            r == (ji64(member(self.raw, "ns"@)) == Some(0i64)),
    {
        match self.raw.get("ns") {
            Some(v) => match v.as_i64() {
                Some(n) => n == 0,
                None => false,
            },
            None => false,
        }
    }

    pub fn get_id(&self) -> (r: String)
        ensures
            r@ == id_of(self.raw),
    {
        match opt_str(self.raw.get("id")) {
            Some(s) => owned(s),
            None => String::new(),
        }
    }

    fn label_text<'a>(&'a self, lang: &str) -> (r: Option<&'a str>)
        ensures
            match r {
                Some(s) => label_in(self.raw, lang@) == Some(s@),
                None => label_in(self.raw, lang@) is None,
            },
    {
        opt_str(opt_get(opt_get(self.raw.get("labels"), lang), "value"))
    }

    pub fn get_desc(&self, language: Option<&str>) -> (r: String)
        ensures
            r@ == desc_of(
                self.raw,
                match language {
                    Some(l) => Some(l@),
                    None => None,
                },
            ),
    {
        match language {
            Some(lang) => self.desc_text(lang),
            None => {
                let langs = main_languages();
                let ghost lv = main_language_views();
                let mut i: usize = 0;
                assert(lv.skip(0) =~= lv);
                while i < langs.len()
                    invariant
                        language is None,
                        langs@ == main_language_codes(),
                        lv == main_language_views(),
                        i <= langs.len(),
                        first_desc_of(self.raw, lv) == first_desc_of(self.raw, lv.skip(i as int)),
                    decreases langs.len() - i,
                {
                    assert(lv.skip(i as int)[0] == langs@[i as int]@);
                    let d = self.desc_text(langs[i]);
                    if d.unicode_len() > 0 {
                        return d;
                    }
                    assert(lv.skip(i as int).drop_first() =~= lv.skip(i + 1));
                    i = i + 1;
                }
                String::new()
            },
        }
    }

    fn desc_text(&self, lang: &str) -> (r: String)
        ensures
            r@ == desc_in(self.raw, lang@),
    {
        match opt_str(opt_get(opt_get(self.raw.get("descriptions"), lang), "value")) {
            Some(d) => owned(d),
            None => String::new(),
        }
    }

    /// The claims for a property given by its normalized id.
    fn claims_at_id<'a>(&'a self, p: &str) -> (r: &'a [Json])
        ensures
            r@ == claims_at(self.raw, p@),
    {
        match opt_array(opt_get(self.raw.get("claims"), p)) {
            Some(v) => v.as_slice(),
            None => &[],
        }
    }

    /// The claims for a property (the id is normalized first).
    pub fn get_claims_for_property<'a>(&'a self, p: &str) -> (r: &'a [Json])
        ensures
            r@ == claims_for(self.raw, p@),
    {
        let u = unified_id(p);
        self.claims_at_id(u.as_str())
    }

    pub fn has_claims(&self, p: &str) -> (r: bool)
        ensures
            r == (claims_for(self.raw, p@).len() > 0),
    {
        self.get_claims_for_property(p).len() > 0
    }

    /// Extract the target item Q-id from a claim's mainsnak.
    /// Returns `None` for non-item entity types (e.g. properties).
    pub fn get_claim_target_item_id(claim: &Json) -> (r: Option<String>)
        ensures
            match r {
                Some(s) => target_item_id(*claim) == Some(s@),
                None => target_item_id(*claim) is None,
            },
    {
        let nid = opt_get(opt_get(claim.get("mainsnak"), "datavalue"), "value");
        let et = opt_str(opt_get(nid, "entity-type"));
        match et {
            None => None,
            Some(t) => {
                if !str_eq(t, "item") {
                    return None;
                }
                if let Some(id) = opt_str(opt_get(nid, "id")) {
                    return Some(owned(id));
                }
                match opt_u64(opt_get(nid, "numeric-id")) {
                    Some(n) => {
                        let mut r = String::new();
                        push_char(&mut r, 'Q');
                        let d = u64_to_decimal(n);
                        r.append(d.as_str());
                        assert(r@ =~= seq!['Q'] + decimal(n as nat));
                        Some(r)
                    },
                    None => None,
                }
            },
        }
    }

    pub fn get_claim_target_string(claim: &Json) -> (r: Option<String>)
        ensures
            match r {
                Some(s) => target_string(*claim) == Some(s@),
                None => target_string(*claim) is None,
            },
    {
        match opt_str(Self::get_claim_value_with_type(claim, "string")) {
            Some(s) => Some(owned(s)),
            None => None,
        }
    }

    /// The time value of a claim.
    pub fn get_claim_date(claim: &Json) -> (r: Option<&Json>)
        ensures
            match r {
                Some(v) => value_with_type(*claim, "time"@) == Some(*v),
                None => value_with_type(*claim, "time"@) is None,
            },
    {
        Self::get_claim_value_with_type(claim, "time")
    }

    pub fn get_claim_value_with_type<'a>(claim: &'a Json, dtype: &str) -> (r: Option<&'a Json>)
        ensures
            match r {
                Some(v) => value_with_type(*claim, dtype@) == Some(*v),
                None => value_with_type(*claim, dtype@) is None,
            },
    {
        let dv = opt_get(claim.get("mainsnak"), "datavalue");
        match opt_str(opt_get(dv, "type")) {
            Some(t) => {
                if str_eq(t, dtype) {
                    opt_get(dv, "value")
                } else {
                    None
                }
            },
            None => None,
        }
    }

    /// The item ids the claims point to, in order.
    pub fn claim_item_ids(claims: &[Json]) -> (r: Vec<String>)
        ensures
            views(r@) == item_ids(claims@),
    {
        let mut r: Vec<String> = Vec::new();
        let mut i: usize = 0;
        while i < claims.len()
            invariant
                i <= claims@.len(),
                views(r@) == item_ids(claims@.take(i as int)),
            decreases claims.len() - i,
        {
            assert(claims@.take(i + 1).drop_last() =~= claims@.take(i as int));
            match Self::get_claim_target_item_id(&claims[i]) {
                Some(id) => {
                    r.push(id);
                    assert(views(r@) =~= item_ids(claims@.take(i as int)).push(r@.last()@));
                },
                None => {},
            }
            i = i + 1;
        }
        assert(claims@.take(claims@.len() as int) =~= claims@);
        r
    }

    pub fn has_claim_item_link(&self, p: &str, q: &str) -> (r: bool)
        ensures
            r == item_ids(claims_for(self.raw, p@)).contains(unified(q@)),
    {
        let uq = unified_id(q);
        let ids = Self::claim_item_ids(self.get_claims_for_property(p));
        let ghost vs = views(ids@);
        let mut i: usize = 0;
        while i < ids.len()
            invariant
                vs == views(ids@),
                vs == item_ids(claims_for(self.raw, p@)),
                uq@ == unified(q@),
                i <= ids.len(),
                forall|k: int| 0 <= k < i ==> vs[k] != uq@,
            decreases ids.len() - i,
        {
            if str_eq(ids[i].as_str(), uq.as_str()) {
                assert(vs[i as int] == uq@);
                assert(vs.contains(uq@));
                return true;
            }
            i = i + 1;
        }
        false
    }

    pub fn get_claim_items_for_property(&self, p: &str) -> (r: Vec<String>)
        ensures
            views(r@) == item_ids(claims_for(self.raw, p@)),
    {
        Self::claim_item_ids(self.get_claims_for_property(p))
    }

    pub fn get_strings_for_property(&self, p: &str) -> (r: Vec<String>)
        ensures
            views(r@) == string_values(claims_for(self.raw, p@)),
    {
        let claims = self.get_claims_for_property(p);
        let mut r: Vec<String> = Vec::new();
        let mut i: usize = 0;
        while i < claims.len()
            invariant
                i <= claims@.len(),
                views(r@) == string_values(claims@.take(i as int)),
            decreases claims.len() - i,
        {
            assert(claims@.take(i + 1).drop_last() =~= claims@.take(i as int));
            match Self::get_claim_target_string(&claims[i]) {
                Some(s) => {
                    r.push(s);
                    assert(views(r@) =~= string_values(claims@.take(i as int)).push(r@.last()@));
                },
                None => {},
            }
            i = i + 1;
        }
        assert(claims@.take(claims@.len() as int) =~= claims@);
        r
    }

    /// The text of the first monolingual-text claim in language `lang`.
    pub fn monolingual_text(claims: &[Json], lang: &str) -> (r: Option<String>)
        ensures
            match r {
                Some(s) => monolingual(claims@, lang@) == Some(s@),
                None => monolingual(claims@, lang@) is None,
            },
    {
        let mut i: usize = 0;
        assert(claims@.skip(0) =~= claims@);
        while i < claims.len()
            invariant
                i <= claims@.len(),
                monolingual(claims@, lang@) == monolingual(claims@.skip(i as int), lang@),
            decreases claims.len() - i,
        {
            let ghost sk = claims@.skip(i as int);
            assert(sk[0] == claims@[i as int]);
            assert(sk.drop_first() =~= claims@.skip(i + 1));
            let v = opt_get(opt_get(claims[i].get("mainsnak"), "datavalue"), "value");
            let cl = opt_str(opt_get(v, "language"));
            let t = opt_str(opt_get(v, "text"));
            match (cl, t) {
                (Some(cl), Some(t)) => {
                    if str_eq(cl, lang) {
                        return Some(owned(t));
                    }
                },
                _ => {},
            }
            i = i + 1;
        }
        None
    }

    /// Get the gendered form of the label for an occupation item.
    /// Uses P2521 ("female form of label") when `is_female`, P3321 ("male form of label") otherwise.
    pub fn get_gendered_label(&self, lang: &str, is_female: bool) -> (r: Option<String>)
        ensures
            match r {
                Some(s) => monolingual(claims_for(self.raw, if is_female { "P2521"@ } else { "P3321"@ }), lang@) == Some(s@),
                None => monolingual(claims_for(self.raw, if is_female { "P2521"@ } else { "P3321"@ }), lang@) is None,
            },
    {
        let prop = if is_female { "P2521" } else { "P3321" };
        Self::monolingual_text(self.get_claims_for_property(prop), lang)
    }

    /// Get the demonym (P1549) for this item in the given language.
    pub fn get_demonym(&self, lang: &str) -> (r: Option<String>)
        ensures
            match r {
                Some(s) => monolingual(claims_for(self.raw, "P1549"@), lang@) == Some(s@),
                None => monolingual(claims_for(self.raw, "P1549"@), lang@) is None,
            },
    {
        Self::monolingual_text(self.get_claims_for_property("P1549"), lang)
    }

    /// The sitelinks of the entity, by site.
    pub fn get_wiki_links<'a>(&'a self) -> (r: StrMap<&'a Json>)
        ensures
            forall|k: Seq<char>| #[trigger] find(r@, k) is Some <==> lookup_sitelink(self.raw, k) is Some,
            forall|k: Seq<char>| #[trigger] find(r@, k) is Some ==> lookup_sitelink(self.raw, k) == Some(*find(r@, k)->0),
    {
        let mut r: StrMap<&'a Json> = StrMap::new();
        match opt_object(self.raw.get("sitelinks")) {
            Some(entries) => {
                let mut i: usize = 0;
                while i < entries.len()
                    invariant
                        jobj(member(self.raw, "sitelinks"@)) == Some(entries@),
                        i <= entries@.len(),
                        forall|k: Seq<char>| #[trigger] find(r@, k) is Some <==> crate::json::lookup(entries@.take(i as int), k) is Some,
                        forall|k: Seq<char>| #[trigger] find(r@, k) is Some ==> crate::json::lookup(entries@.take(i as int), k) == Some(*find(r@, k)->0),
                    decreases entries.len() - i,
                {
                    let ghost pre = entries@.take(i as int);
                    let ghost e = entries@[i as int];
                    assert(entries@.take(i + 1) =~= pre.push(e));
                    let ghost old_r = r@;
                    if !r.contains_key(entries[i].0.as_str()) {
                        r.insert(entries[i].0.clone(), &entries[i].1);
                    }
                    assert forall|k: Seq<char>| #[trigger] find(r@, k) is Some <==> crate::json::lookup(pre.push(e), k) is Some by {
                        crate::json::lemma_lookup_push(pre, e, k);
                    }
                    assert forall|k: Seq<char>| #[trigger] find(r@, k) is Some implies crate::json::lookup(pre.push(e), k) == Some(*find(r@, k)->0) by {
                        crate::json::lemma_lookup_push(pre, e, k);
                    }
                    i = i + 1;
                }
                assert(entries@.take(entries@.len() as int) =~= entries@);
            },
            None => {},
        }
        r
    }

    /// The aliases in a language (and, if asked, its label), each once.
    pub fn get_aliases_for_language(&self, lang: &str, include_labels: bool) -> (r: Vec<String>)
        ensures
            no_duplicates(views(r@)),
            forall|s: Seq<char>|
                #[trigger] views(r@).contains(s) <==> (alias_values(
                    jarr_or_empty(jget(member(self.raw, "aliases"@), lang@)),
                ).contains(s) || (include_labels && label_in(self.raw, lang@) == Some(s))),
    {
        let mut r: Vec<String> = Vec::new();
        let ghost empty: Seq<Json> = Seq::empty();
        let arr: &[Json] = match opt_array(opt_get(self.raw.get("aliases"), lang)) {
            Some(v) => v.as_slice(),
            None => &[],
        };
        assert(arr@ == jarr_or_empty(jget(member(self.raw, "aliases"@), lang@)));
        let mut i: usize = 0;
        while i < arr.len()
            invariant
                i <= arr@.len(),
                no_duplicates(views(r@)),
                forall|s: Seq<char>| #[trigger] views(r@).contains(s) <==> alias_values(arr@.take(i as int)).contains(s),
            decreases arr.len() - i,
        {
            assert(arr@.take(i + 1).drop_last() =~= arr@.take(i as int));
            assert(arr@.take(i + 1).last() == arr@[i as int]);
            let ghost prev = alias_values(arr@.take(i as int));
            match opt_str(arr[i].get("value")) {
                Some(v) => {
                    push_unique(&mut r, v);
                    assert(alias_values(arr@.take(i + 1)) == prev.push(v@));
                    proof {
                        lemma_contains_push(prev, v@);
                    }
                },
                None => {
                    assert(alias_values(arr@.take(i + 1)) == prev);
                },
            }
            i = i + 1;
        }
        assert(arr@.take(arr@.len() as int) =~= arr@);
        if include_labels {
            match self.label_text(lang) {
                Some(l) => {
                    push_unique(&mut r, l);
                },
                None => {},
            }
        }
        r
    }

    /// The amount of the first claim of a quantity property, without leading
    /// `+` signs.
    pub fn best_quantity_amount(claims: &[Json]) -> (r: Option<String>)
        ensures
            match r {
                Some(s) => quantity_amount(claims@) == Some(s@),
                None => quantity_amount(claims@) is None,
            },
    {
        if claims.len() == 0 {
            return None;
        }
        let dv = opt_get(claims[0].get("mainsnak"), "datavalue");
        match opt_str(opt_get(opt_get(dv, "value"), "amount")) {
            Some(a) => Some(strip_leading_plus(a)),
            None => None,
        }
    }

    pub fn get_label(&self, language: Option<&str>) -> (r: String)
        ensures
            r@ == label_of(
                self.raw,
                match language {
                    Some(l) => Some(l@),
                    None => None,
                },
            ),
    {
        match language {
            Some(lang) => {
                if let Some(l) = self.label_text(lang) {
                    return owned(l);
                }
                if let Some(l) = self.label_text("mul") {
                    return owned(l);
                }
                self.get_id()
            },
            None => {
                let langs = main_languages();
                let ghost lv = main_language_views();
                let mut i: usize = 0;
                assert(lv.skip(0) =~= lv);
                while i < langs.len()
                    invariant
                        language is None,
                        langs@ == main_language_codes(),
                        lv == main_language_views(),
                        i <= langs.len(),
                        first_label_of(self.raw, lv) == first_label_of(self.raw, lv.skip(i as int)),
                    decreases langs.len() - i,
                {
                    assert(lv.skip(i as int)[0] == langs@[i as int]@);
                    if let Some(l) = self.label_text(langs[i]) {
                        assert(first_label_of(self.raw, lv.skip(i as int)) == Some(l@));
                        return owned(l);
                    }
                    assert(lv.skip(i as int).drop_first() =~= lv.skip(i + 1));
                    i = i + 1;
                }
                assert(lv.skip(i as int) =~= Seq::<Seq<char>>::empty());
                if let Some(l) = self.label_text("mul") {
                    return owned(l);
                }
                match opt_object(self.raw.get("labels")) {
                    Some(entries) => {
                        let mut j: usize = 0;
                        assert(entries@.skip(0) =~= entries@);
                        while j < entries.len()
                            invariant
                                language is None,
                                first_label_of(self.raw, main_language_views()) is None,
                                label_in(self.raw, "mul"@) is None,
                                jobj(member(self.raw, "labels"@)) == Some(entries@),
                                j <= entries@.len(),
                                first_any_label(entries@) == first_any_label(entries@.skip(j as int)),
                            decreases entries.len() - j,
                        {
                            assert(entries@.skip(j as int)[0] == entries@[j as int]);
                            if let Some(l) = opt_str(entries[j].1.get("value")) {
                                assert(first_any_label(entries@.skip(j as int)) == Some(l@));
                                return owned(l);
                            }
                            assert(entries@.skip(j as int).drop_first() =~= entries@.skip(j + 1));
                            j = j + 1;
                        }
                        self.get_id()
                    },
                    None => self.get_id(),
                }
            },
        }
    }
}

} // verus!
